//! Ordered sets of platform tags with a compatibility score for each tag.

use vstd::prelude::*;
use vstd::string::*;
use crate::text::views;
use crate::expand::lemma_views_push;

verus! {

/// The score of the tag that was inserted at position `i`: the first tag has
/// the highest score, and each later one scores one lower.
pub open spec fn score_at(i: int) -> int {
    u64::MAX - i
}

/// The score of `tag` in the ordered set `tags`, if it is there.
pub open spec fn score(tags: Seq<Seq<char>>, tag: Seq<char>) -> Option<int> {
    if tags.contains(tag) {
        Some(score_at(tags.index_of(tag)))
    } else {
        None
    }
}

/// `tags` after `tag` has been added: at the end, unless it is there already.
pub open spec fn with_tag(tags: Seq<Seq<char>>, tag: Seq<char>) -> Seq<Seq<char>> {
    if tags.contains(tag) {
        tags
    } else {
        tags.push(tag)
    }
}

/// `tags` after each of `more` has been added, in order.
pub open spec fn with_tags(tags: Seq<Seq<char>>, more: Seq<Seq<char>>) -> Seq<Seq<char>>
    decreases more.len(),
{
    if more.len() == 0 {
        tags
    } else {
        with_tag(with_tags(tags, more.drop_last()), more.last())
    }
}

/// The best score among `wanted` is `best`: one of them has it and none
/// scores higher. `None` says that none of them is in the set.
pub open spec fn is_best_score(
    tags: Seq<Seq<char>>,
    wanted: Seq<Seq<char>>,
    best: Option<int>,
) -> bool {
    match best {
        Some(s) => {
            &&& exists|i: int| 0 <= i < wanted.len() && score(tags, #[trigger] wanted[i]) == Some(s)
            &&& forall|i: int|
                0 <= i < wanted.len() && score(tags, #[trigger] wanted[i]) is Some ==> score(
                    tags,
                    wanted[i],
                )->0 <= s
        },
        None => forall|i: int| 0 <= i < wanted.len() ==> score(tags, #[trigger] wanted[i]) is None,
    }
}

/// The highest score among `wanted`, if one of them is in the set.
pub open spec fn best_score(tags: Seq<Seq<char>>, wanted: Seq<Seq<char>>) -> Option<int>
    decreases wanted.len(),
{
    if wanted.len() == 0 {
        None
    } else {
        let rest = best_score(tags, wanted.drop_last());
        let here = score(tags, wanted.last());
        if rest is Some && here is Some {
            if here->0 > rest->0 {
                here
            } else {
                rest
            }
        } else if rest is Some {
            rest
        } else {
            here
        }
    }
}

/// A score as a mathematical integer.
pub open spec fn score_value(s: Option<u64>) -> Option<int> {
    match s {
        Some(v) => Some(v as int),
        None => None,
    }
}

/// An ordered set of tags. Each tag occurs once; an earlier tag is preferred
/// to a later one.
#[derive(Debug)]
pub struct PlatformImpl {
    tags: Vec<String>,
}

impl PlatformImpl {
    #[verifier::type_invariant]
    closed spec fn distinct(self) -> bool {
        views(self.tags@).no_duplicates()
    }

    /// The tags, most preferred first.
    pub closed spec fn view(&self) -> Seq<Seq<char>> {
        views(self.tags@)
    }

    /// The set without tags.
    pub fn empty() -> (r: PlatformImpl)
        ensures
            r@ == Seq::<Seq<char>>::empty(),
    {
        let r = PlatformImpl { tags: Vec::new() };
        assert(views(r.tags@) =~= Seq::<Seq<char>>::empty());
        r
    }

    /// Where `tag` stands in the set.
    pub fn position(&self, tag: &String) -> (r: Option<usize>)
        ensures
            match r {
                Some(i) => self@.contains(tag@) && self@.index_of(tag@) == i && i < self@.len(),
                None => !self@.contains(tag@),
            },
    {
        proof {
            use_type_invariant(self);
        }
        let mut i: usize = 0;
        while i < self.tags.len()
            invariant
                i <= self.tags@.len(),
                views(self.tags@).no_duplicates(),
                forall|k: int| 0 <= k < i ==> (#[trigger] views(self.tags@)[k]) != tag@,
            decreases self.tags@.len() - i,
        {
            if self.tags[i] == *tag {
                assert(views(self.tags@)[i as int] == tag@);
                return Some(i);
            }
            i += 1;
        }
        None
    }

    /// Adds `tag` behind the tags that are there, unless it is one of them.
    pub fn push(&mut self, tag: String)
        ensures
            final(self)@ == with_tag(old(self)@, tag@),
            old(self)@.no_duplicates(),
            final(self)@.no_duplicates(),
    {
        proof {
            use_type_invariant(&*self);
        }
        if self.position(&tag).is_none() {
            let mut taken = PlatformImpl::empty();
            core::mem::swap(self, &mut taken);
            let mut tags = taken.tags;
            proof {
                lemma_views_push(tags@, tag);
            }
            tags.push(tag);
            *self = PlatformImpl { tags };
        }
    }

    /// The score of `tag`, if it is in the set.
    pub fn compatibility(&self, tag: &str) -> (r: Option<u64>)
        ensures
            match r {
                Some(s) => score(self@, tag@) == Some(s as int),
                None => score(self@, tag@) is None,
            },
    {
        let owned = tag.to_owned();
        match self.position(&owned) {
            Some(i) => Some(u64::MAX - i as u64),
            None => None,
        }
    }

    /// The tags, most preferred first.
    pub fn tags(&self) -> (r: &[String])
        ensures
            views(r@) == self@,
            self@.no_duplicates(),
    {
        proof {
            use_type_invariant(self);
        }
        self.tags.as_slice()
    }

    /// The tags as a vector, most preferred first.
    pub fn into_tags(self) -> (r: Vec<String>)
        ensures
            views(r@) == self@,
            self@.no_duplicates(),
    {
        proof {
            use_type_invariant(&self);
        }
        self.tags
    }

    /// The highest score among `wanted`, if one of them is in the set.
    pub fn max_compatibility(&self, wanted: &Vec<String>) -> (r: Option<u64>)
        ensures
            score_value(r) == best_score(self@, views(wanted@)),
            match r {
                Some(s) => is_best_score(self@, views(wanted@), Some(s as int)),
                None => is_best_score(self@, views(wanted@), None),
            },
    {
        let mut best: Option<u64> = None;
        let mut i: usize = 0;
        assert(views(wanted@).subrange(0, 0) =~= Seq::<Seq<char>>::empty());
        while i < wanted.len()
            invariant
                i <= wanted@.len(),
                score_value(best) == best_score(self@, views(wanted@).subrange(0, i as int)),
                match best {
                    Some(s) => is_best_score(
                        self@,
                        views(wanted@).subrange(0, i as int),
                        Some(s as int),
                    ),
                    None => is_best_score(self@, views(wanted@).subrange(0, i as int), None),
                },
            decreases wanted@.len() - i,
        {
            let ghost before = views(wanted@).subrange(0, i as int);
            let ghost now = views(wanted@).subrange(0, i + 1);
            let ghost old_best = best;
            let c = self.compatibility(wanted[i].as_str());
            assert(now[i as int] == wanted@[i as int]@);
            assert(forall|k: int| 0 <= k < i ==> now[k] == before[k]);
            assert(now.drop_last() =~= before);
            assert(now.last() == wanted@[i as int]@);
            match c {
                Some(s) => {
                    match best {
                        Some(b) => {
                            if s > b {
                                best = Some(s);
                            } else {
                                let ghost w = choose|k: int|
                                    0 <= k < before.len() && score(self@, #[trigger] before[k])
                                        == Some(b as int);
                                assert(score(self@, now[w]) == Some(b as int));
                            }
                        },
                        None => {
                            best = Some(s);
                        },
                    }
                },
                None => {
                    match best {
                        Some(b) => {
                            let ghost w = choose|k: int|
                                0 <= k < before.len() && score(self@, #[trigger] before[k])
                                    == Some(b as int);
                            assert(score(self@, now[w]) == Some(b as int));
                        },
                        None => {},
                    }
                },
            }
            i += 1;
        }
        assert(views(wanted@).subrange(0, i as int) =~= views(wanted@));
        best
    }
}

} // verus!
