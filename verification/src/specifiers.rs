//! Version constraints as sets of version keys.

use vstd::prelude::*;
use crate::model::{KeyRange, PkgVersion, Specifier, Specifiers};
use crate::ranges::{
    keys_between, keys_from, range_any, range_between, range_higher_than, range_intersection,
    range_none, range_set, range_union, VersionRange,
};

verus! {

/// The keys of one range.
pub open spec fn range_keys(r: KeyRange) -> Set<nat> {
    if r.end < u32::MAX {
        keys_between(r.start as nat, r.end as nat)
    } else {
        keys_from(r.start as nat)
    }
}

/// The keys of one constraint: those of any of its ranges.
pub open spec fn specifier_keys(ranges: Seq<KeyRange>) -> Set<nat>
    decreases ranges.len(),
{
    if ranges.len() == 0 {
        Set::empty()
    } else {
        specifier_keys(ranges.drop_last()).union(range_keys(ranges.last()))
    }
}

/// The keys that meet every constraint.
pub open spec fn specifiers_keys(specs: Seq<Specifier>) -> Set<nat>
    decreases specs.len(),
{
    if specs.len() == 0 {
        keys_from(0)
    } else {
        specifiers_keys(specs.drop_last()).intersect(specifier_keys(specs.last().ranges@))
    }
}

/// Whether one of the ranges holds the key.
pub fn specifier_holds(ranges: &Vec<KeyRange>, key: u32) -> (r: bool)
    ensures
        r == specifier_keys(ranges@).contains(key as nat),
{
    let mut found = false;
    let mut i: usize = 0;
    assert(ranges@.subrange(0, 0) =~= Seq::<KeyRange>::empty());
    while i < ranges.len()
        invariant
            i <= ranges@.len(),
            found == specifier_keys(ranges@.subrange(0, i as int)).contains(key as nat),
        decreases ranges@.len() - i,
    {
        proof {
            let next = ranges@.subrange(0, i + 1);
            assert(next.drop_last() =~= ranges@.subrange(0, i as int));
            assert(next.last() == ranges@[i as int]);
        }
        let r = ranges[i];
        if r.start <= key && (key < r.end || r.end == 0xffff_ffff) {
            found = true;
        }
        i += 1;
    }
    assert(ranges@.subrange(0, i as int) =~= ranges@);
    found
}

impl Specifiers {
    /// The keys of the versions that meet every constraint.
    pub open spec fn keys(&self) -> Set<nat> {
        specifiers_keys(self.0@)
    }

    /// Whether the version meets every constraint.
    pub fn satisfied_by(&self, version: &PkgVersion) -> (r: bool)
        ensures
            r == self.keys().contains(version.key as nat),
    {
        let mut all = true;
        let mut i: usize = 0;
        assert(self.0@.subrange(0, 0) =~= Seq::<Specifier>::empty());
        while i < self.0.len()
            invariant
                i <= self.0@.len(),
                all == specifiers_keys(self.0@.subrange(0, i as int)).contains(version.key as nat),
            decreases self.0@.len() - i,
        {
            proof {
                let next = self.0@.subrange(0, i + 1);
                assert(next.drop_last() =~= self.0@.subrange(0, i as int));
                assert(next.last() == self.0@[i as int]);
            }
            if !specifier_holds(&self.0[i].ranges, version.key) {
                all = false;
            }
            i += 1;
        }
        assert(self.0@.subrange(0, i as int) =~= self.0@);
        all
    }
}

/// The solver's range of one constraint: the union of its ranges, each
/// bounded above unless it ends at `VERSION_INFINITY`.
pub fn specifier_to_pubgrub(ranges: &Vec<KeyRange>) -> (r: VersionRange)
    ensures
        range_set(r) == specifier_keys(ranges@),
{
    let mut acc = range_none();
    let mut i: usize = 0;
    assert(ranges@.subrange(0, 0) =~= Seq::<KeyRange>::empty());
    while i < ranges.len()
        invariant
            i <= ranges@.len(),
            range_set(acc) == specifier_keys(ranges@.subrange(0, i as int)),
        decreases ranges@.len() - i,
    {
        proof {
            let next = ranges@.subrange(0, i + 1);
            assert(next.drop_last() =~= ranges@.subrange(0, i as int));
            assert(next.last() == ranges@[i as int]);
        }
        let r = ranges[i];
        let piece = if r.end < 0xffff_ffff {
            range_between(r.start, r.end)
        } else {
            range_higher_than(r.start)
        };
        acc = range_union(&acc, &piece);
        i += 1;
    }
    assert(ranges@.subrange(0, i as int) =~= ranges@);
    acc
}

/// The solver's range of a conjunction of constraints: the versions that
/// meet each of them.
pub fn specifiers_to_pubgrub(specs: &Specifiers) -> (r: VersionRange)
    ensures
        range_set(r) == specs.keys(),
{
    let mut acc = range_any();
    let mut i: usize = 0;
    assert(specs.0@.subrange(0, 0) =~= Seq::<Specifier>::empty());
    while i < specs.0.len()
        invariant
            i <= specs.0@.len(),
            range_set(acc) == specifiers_keys(specs.0@.subrange(0, i as int)),
        decreases specs.0@.len() - i,
    {
        proof {
            let next = specs.0@.subrange(0, i + 1);
            assert(next.drop_last() =~= specs.0@.subrange(0, i as int));
            assert(next.last() == specs.0@[i as int]);
        }
        let piece = specifier_to_pubgrub(&specs.0[i].ranges);
        acc = range_intersection(&acc, &piece);
        i += 1;
    }
    assert(specs.0@.subrange(0, i as int) =~= specs.0@);
    acc
}

} // verus!
