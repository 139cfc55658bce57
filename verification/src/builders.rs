//! The platform of a host that runs interpreter bundles, and the platform
//! that one bundle offers to wheels.

use vstd::prelude::*;
use vstd::string::*;
use crate::text::{chars_of, has_suffix, views};
use crate::tag_grammar::ends_with;
use crate::expand::{expand_platform_tag, expansion, lemma_views_push, same_text};
use crate::compat::{compat_groups, groups_of, PlatformError};
use crate::platform::{
    best_score, is_best_score, score, score_value, with_tags, PlatformImpl,
};
use crate::model::{PybiCoreMetadata, PybiName};

verus! {

/// The expansions of several tags, one behind the other.
pub open spec fn expansions(tags: Seq<Seq<char>>) -> Seq<Seq<char>>
    decreases tags.len(),
{
    if tags.len() == 0 {
        Seq::empty()
    } else {
        expansions(tags.drop_last()) + expansion(tags.last())
    }
}

/// The groups in `acc` and then those of all the tags, each group once, in
/// the order in which they are first named; the first error among the tags
/// otherwise.
pub open spec fn gathered(acc: Seq<Seq<char>>, arch_tags: Seq<Seq<char>>) -> Result<
    Seq<Seq<char>>,
    PlatformError,
>
    decreases arch_tags.len(),
{
    if arch_tags.len() == 0 {
        Ok(acc)
    } else {
        match groups_of(arch_tags[0]) {
            Err(e) => Err(e),
            Ok(h) => gathered(with_tags(acc, h), arch_tags.drop_first()),
        }
    }
}

/// The groups of all the tags, each group once.
pub open spec fn candidate_groups(arch_tags: Seq<Seq<char>>) -> Result<
    Seq<Seq<char>>,
    PlatformError,
> {
    gathered(Seq::empty(), arch_tags)
}

/// Those of `groups` that are also in `others`, in their order.
pub open spec fn kept(groups: Seq<Seq<char>>, others: Seq<Seq<char>>) -> Seq<Seq<char>>
    decreases groups.len(),
{
    if groups.len() == 0 {
        Seq::empty()
    } else if others.contains(groups.last()) {
        kept(groups.drop_last(), others).push(groups.last())
    } else {
        kept(groups.drop_last(), others)
    }
}

/// The candidate groups after the host's tags have had their say: each tag
/// in turn removes the groups that it does not belong to, until one group is
/// left or the tags are used up.
pub open spec fn narrowed(groups: Seq<Seq<char>>, tags: Seq<Seq<char>>) -> Result<
    Seq<Seq<char>>,
    PlatformError,
>
    decreases tags.len(),
{
    if groups.len() == 1 || tags.len() == 0 {
        Ok(groups)
    } else {
        match groups_of(tags[0]) {
            Err(e) => Err(e),
            Ok(h) => narrowed(kept(groups, h), tags.drop_first()),
        }
    }
}

/// The tags in `acc` and then those of `tags` that belong to `group`, in
/// their order; the first error among the tags otherwise.
pub open spec fn selected_into(
    acc: Seq<Seq<char>>,
    tags: Seq<Seq<char>>,
    group: Seq<char>,
) -> Result<Seq<Seq<char>>, PlatformError>
    decreases tags.len(),
{
    if tags.len() == 0 {
        Ok(acc)
    } else {
        match groups_of(tags[0]) {
            Err(e) => Err(e),
            Ok(h) => selected_into(
                if h.contains(group) {
                    acc.push(tags[0])
                } else {
                    acc
                },
                tags.drop_first(),
                group,
            ),
        }
    }
}

/// The tags that belong to `group`, in their order.
pub open spec fn selected(tags: Seq<Seq<char>>, group: Seq<char>) -> Result<
    Seq<Seq<char>>,
    PlatformError,
> {
    selected_into(Seq::empty(), tags, group)
}

/// What stands before the `-PLATFORM` of a template.
pub open spec fn template_stem(template: Seq<char>) -> Seq<char> {
    template.subrange(0, template.len() - "-PLATFORM"@.len())
}

/// The wheel tag that a template gives for one platform tag.
pub open spec fn filled(template: Seq<char>, platform_tag: Seq<char>) -> Seq<char> {
    template_stem(template) + "-"@ + platform_tag
}

/// The wheel tags of one template: one for each platform tag where it ends in
/// `-PLATFORM`, and the template itself where it does not.
pub open spec fn template_tags(template: Seq<char>, platform_tags: Seq<Seq<char>>) -> Seq<
    Seq<char>,
> {
    if has_suffix(template, "-PLATFORM"@) {
        Seq::new(platform_tags.len(), |i: int| filled(template, platform_tags[i]))
    } else {
        seq![template]
    }
}

/// The wheel tags of all the templates, in the order of the templates.
pub open spec fn wheel_tags(templates: Seq<Seq<char>>, platform_tags: Seq<Seq<char>>) -> Seq<
    Seq<char>,
>
    decreases templates.len(),
{
    if templates.len() == 0 {
        Seq::empty()
    } else {
        wheel_tags(templates.drop_last(), platform_tags) + template_tags(
            templates.last(),
            platform_tags,
        )
    }
}

/// The one group that an interpreter bundle runs in on a host: the groups of
/// the bundle's architecture tags, narrowed by the host's tags in the order
/// of preference.
pub open spec fn surviving_group(tags: Seq<Seq<char>>, arch_tags: Seq<Seq<char>>) -> Result<
    Seq<char>,
    PlatformError,
> {
    match candidate_groups(arch_tags) {
        Err(e) => Err(e),
        Ok(g) => if g.len() == 0 {
            Err(PlatformError::NoCompatGroup)
        } else {
            match narrowed(g, tags) {
                Err(e) => Err(e),
                Ok(n) => if n.len() == 1 {
                    Ok(n[0])
                } else {
                    Err(PlatformError::AmbiguousGroups)
                },
            }
        },
    }
}

/// The tags of the wheel platform of a bundle on a host.
pub open spec fn wheel_platform(
    tags: Seq<Seq<char>>,
    arch_tags: Seq<Seq<char>>,
    templates: Seq<Seq<char>>,
) -> Result<Seq<Seq<char>>, PlatformError> {
    match surviving_group(tags, arch_tags) {
        Err(e) => Err(e),
        Ok(group) => match selected(tags, group) {
            Err(e) => Err(e),
            Ok(platform_tags) => Ok(
                with_tags(Seq::empty(), wheel_tags(templates, platform_tags)),
            ),
        },
    }
}

/// The machine that a list of groups names: that of the first macOS group.
pub open spec fn machine_of_groups(groups: Seq<Seq<char>>) -> Option<Seq<char>>
    decreases groups.len(),
{
    if groups.len() == 0 {
        None
    } else if groups[0] == "macos-x86_64"@ {
        Some("x86_64"@)
    } else if groups[0] == "macos-arm64"@ {
        Some("arm64"@)
    } else {
        machine_of_groups(groups.drop_first())
    }
}

/// The machine that a tag names, if its groups name one.
pub open spec fn machine_of_tag(tag: Seq<char>) -> Option<Seq<char>> {
    match groups_of(tag) {
        Ok(g) => machine_of_groups(g),
        Err(_) => None,
    }
}

/// The machine that the first tag with a macOS group names.
pub open spec fn inferred_machine(tags: Seq<Seq<char>>) -> Option<Seq<char>>
    decreases tags.len(),
{
    if tags.len() == 0 {
        None
    } else if machine_of_tag(tags[0]) is Some {
        machine_of_tag(tags[0])
    } else {
        inferred_machine(tags.drop_first())
    }
}

/// What a platform knows of tags: their order, the score of each, and the
/// best score among several.
pub trait Platform {
    /// The tags, most preferred first.
    spec fn tag_seq(&self) -> Seq<Seq<char>>;

    /// The tags, most preferred first.
    fn tags(&self) -> (r: &[String])
        ensures
            views(r@) == self.tag_seq(),
            self.tag_seq().no_duplicates(),
    ;

    /// The score of `tag`, if the platform has it.
    fn compatibility(&self, tag: &str) -> (r: Option<u64>)
        ensures
            match r {
                Some(s) => score(self.tag_seq(), tag@) == Some(s as int),
                None => score(self.tag_seq(), tag@) is None,
            },
    ;

    /// The highest score among `wanted`, if the platform has one of them.
    fn max_compatibility(&self, wanted: &Vec<String>) -> (r: Option<u64>)
        ensures
            score_value(r) == best_score(self.tag_seq(), views(wanted@)),
            match r {
                Some(s) => is_best_score(self.tag_seq(), views(wanted@), Some(s as int)),
                None => is_best_score(self.tag_seq(), views(wanted@), None),
            },
    ;
}

/// The platform tags of a host that runs interpreter bundles.
#[derive(Debug)]
pub struct PybiPlatform(PlatformImpl);

/// The wheel tags that one interpreter bundle accepts on a host.
#[derive(Debug)]
pub struct WheelPlatform(PlatformImpl);

impl Platform for PybiPlatform {
    closed spec fn tag_seq(&self) -> Seq<Seq<char>> {
        self.0@
    }

    fn tags(&self) -> (r: &[String]) {
        self.0.tags()
    }

    fn compatibility(&self, tag: &str) -> (r: Option<u64>) {
        self.0.compatibility(tag)
    }

    fn max_compatibility(&self, wanted: &Vec<String>) -> (r: Option<u64>) {
        self.0.max_compatibility(wanted)
    }
}

impl Platform for WheelPlatform {
    closed spec fn tag_seq(&self) -> Seq<Seq<char>> {
        self.0@
    }

    fn tags(&self) -> (r: &[String]) {
        self.0.tags()
    }

    fn compatibility(&self, tag: &str) -> (r: Option<u64>) {
        self.0.compatibility(tag)
    }

    fn max_compatibility(&self, wanted: &Vec<String>) -> (r: Option<u64>) {
        self.0.max_compatibility(wanted)
    }
}

/// Adds each of `more` to `set`, in order.
pub fn push_all(set: &mut PlatformImpl, more: Vec<String>)
    ensures
        final(set)@ == with_tags(old(set)@, views(more@)),
{
    let mut i: usize = 0;
    assert(views(more@).subrange(0, 0) =~= Seq::<Seq<char>>::empty());
    while i < more.len()
        invariant
            i <= more@.len(),
            set@ == with_tags(old(set)@, views(more@).subrange(0, i as int)),
        decreases more@.len() - i,
    {
        proof {
            let next = views(more@).subrange(0, i + 1);
            assert(next.drop_last() =~= views(more@).subrange(0, i as int));
            assert(next.last() == more@[i as int]@);
        }
        set.push(more[i].clone());
        i += 1;
    }
    assert(views(more@).subrange(0, i as int) =~= views(more@));
}

/// Appends copies of `more` to `out`.
pub fn append_all(out: &mut Vec<String>, more: &Vec<String>)
    ensures
        views(final(out)@) == views(old(out)@) + views(more@),
{
    let ghost start = views(out@);
    let mut j: usize = 0;
    assert(start + views(more@).subrange(0, 0) =~= start);
    while j < more.len()
        invariant
            j <= more@.len(),
            views(out@) == start + views(more@).subrange(0, j as int),
        decreases more@.len() - j,
    {
        proof {
            lemma_views_push(out@, more@[j as int]);
            assert((start + views(more@).subrange(0, j as int)).push(more@[j as int]@) =~= start
                + views(more@).subrange(0, j + 1));
        }
        out.push(more[j].clone());
        j += 1;
    }
    assert(views(more@).subrange(0, j as int) =~= views(more@));
}

/// The expansions of the host's core tags, one behind the other.
pub fn current_platform_tags(core_tags: &Vec<String>) -> (r: Vec<String>)
    ensures
        views(r@) == expansions(views(core_tags@)),
{
    let mut out: Vec<String> = Vec::new();
    let mut i: usize = 0;
    assert(views(out@) =~= Seq::<Seq<char>>::empty());
    assert(views(core_tags@).subrange(0, 0) =~= Seq::<Seq<char>>::empty());
    while i < core_tags.len()
        invariant
            i <= core_tags@.len(),
            views(out@) == expansions(views(core_tags@).subrange(0, i as int)),
        decreases core_tags@.len() - i,
    {
        let ghost next = views(core_tags@).subrange(0, i + 1);
        proof {
            assert(next.drop_last() =~= views(core_tags@).subrange(0, i as int));
            assert(next.last() == core_tags@[i as int]@);
        }
        let more = expand_platform_tag(core_tags[i].as_str());
        append_all(&mut out, &more);
        i += 1;
    }
    assert(views(core_tags@).subrange(0, i as int) =~= views(core_tags@));
    out
}

/// Whether `wanted` is one of `items`.
pub fn contains_text(items: &Vec<String>, wanted: &String) -> (r: bool)
    ensures
        r == views(items@).contains(wanted@),
{
    let mut i: usize = 0;
    while i < items.len()
        invariant
            i <= items@.len(),
            forall|k: int| 0 <= k < i ==> (#[trigger] views(items@)[k]) != wanted@,
        decreases items@.len() - i,
    {
        if items[i] == *wanted {
            assert(views(items@)[i as int] == wanted@);
            return true;
        }
        i += 1;
    }
    false
}

impl PybiPlatform {
    /// The platform of a host with one core tag.
    pub fn from_core_tag(tag: &str) -> (r: PybiPlatform)
        ensures
            r.tag_seq() == with_tags(Seq::empty(), expansion(tag@)),
    {
        let mut p = PlatformImpl::empty();
        push_all(&mut p, expand_platform_tag(tag));
        PybiPlatform(p)
    }

    /// The platform of a host with the given core tags, most preferred
    /// first: the expansions of the tags in order, each tag once.
    pub fn from_core_tags(tags: &Vec<String>) -> (r: PybiPlatform)
        ensures
            r.tag_seq() == with_tags(Seq::empty(), expansions(views(tags@))),
    {
        let mut p = PlatformImpl::empty();
        push_all(&mut p, current_platform_tags(tags));
        PybiPlatform(p)
    }

    /// The platform of the host whose core tags are given.
    pub fn current_platform(core_tags: &Vec<String>) -> (r: PybiPlatform)
        ensures
            r.tag_seq() == with_tags(Seq::empty(), expansions(views(core_tags@))),
    {
        PybiPlatform::from_core_tags(core_tags)
    }
}

/// The groups of the tags, each once, or the first error among the tags.
pub fn gather_groups(arch_tags: &Vec<String>) -> (r: Result<Vec<String>, PlatformError>)
    ensures
        match r {
            Ok(g) => candidate_groups(views(arch_tags@)) == Ok::<Seq<Seq<char>>, PlatformError>(
                views(g@),
            ),
            Err(e) => candidate_groups(views(arch_tags@)) == Err::<Seq<Seq<char>>, PlatformError>(
                e,
            ),
        },
{
    let mut groups = PlatformImpl::empty();
    let mut i: usize = 0;
    assert(views(arch_tags@).subrange(0, arch_tags@.len() as int) =~= views(arch_tags@));
    while i < arch_tags.len()
        invariant
            i <= arch_tags@.len(),
            candidate_groups(views(arch_tags@)) == gathered(
                groups@,
                views(arch_tags@).subrange(i as int, arch_tags@.len() as int),
            ),
        decreases arch_tags@.len() - i,
    {
        let ghost rest = views(arch_tags@).subrange(i as int, arch_tags@.len() as int);
        assert(rest[0] == arch_tags@[i as int]@);
        assert(rest.drop_first() =~= views(arch_tags@).subrange(i + 1, arch_tags@.len() as int));
        match compat_groups(arch_tags[i].as_str()) {
            Err(e) => {
                return Err(e);
            },
            Ok(h) => {
                push_all(&mut groups, h);
            },
        }
        i += 1;
    }
    Ok(groups.into_tags())
}

/// Those of `groups` that are also in `others`, in their order.
pub fn keep_common(groups: &Vec<String>, others: &Vec<String>) -> (r: Vec<String>)
    ensures
        views(r@) == kept(views(groups@), views(others@)),
{
    let mut out: Vec<String> = Vec::new();
    let mut i: usize = 0;
    assert(views(out@) =~= Seq::<Seq<char>>::empty());
    assert(views(groups@).subrange(0, 0) =~= Seq::<Seq<char>>::empty());
    while i < groups.len()
        invariant
            i <= groups@.len(),
            views(out@) == kept(views(groups@).subrange(0, i as int), views(others@)),
        decreases groups@.len() - i,
    {
        proof {
            let next = views(groups@).subrange(0, i + 1);
            assert(next.drop_last() =~= views(groups@).subrange(0, i as int));
            assert(next.last() == groups@[i as int]@);
            lemma_views_push(out@, groups@[i as int]);
        }
        if contains_text(others, &groups[i]) {
            out.push(groups[i].clone());
        }
        i += 1;
    }
    assert(views(groups@).subrange(0, i as int) =~= views(groups@));
    out
}

/// Narrows `groups` by the groups of each tag in turn, until one is left.
pub fn narrow_groups(candidates: Vec<String>, tags: &[String]) -> (r: Result<
    Vec<String>,
    PlatformError,
>)
    ensures
        match r {
            Ok(g) => narrowed(views(candidates@), views(tags@)) == Ok::<
                Seq<Seq<char>>,
                PlatformError,
            >(views(g@)),
            Err(e) => narrowed(views(candidates@), views(tags@)) == Err::<
                Seq<Seq<char>>,
                PlatformError,
            >(e),
        },
{
    let ghost first = views(candidates@);
    let mut groups = candidates;
    let mut i: usize = 0;
    assert(views(tags@).subrange(0, tags@.len() as int) =~= views(tags@));
    while i < tags.len() && groups.len() != 1
        invariant
            i <= tags@.len(),
            first == views(candidates@),
            narrowed(first, views(tags@)) == narrowed(
                views(groups@),
                views(tags@).subrange(i as int, tags@.len() as int),
            ),
        decreases tags@.len() - i,
    {
        let ghost rest = views(tags@).subrange(i as int, tags@.len() as int);
        assert(rest[0] == tags@[i as int]@);
        assert(rest.drop_first() =~= views(tags@).subrange(i + 1, tags@.len() as int));
        match compat_groups(tags[i].as_str()) {
            Err(e) => {
                return Err(e);
            },
            Ok(h) => {
                groups = keep_common(&groups, &h);
            },
        }
        i += 1;
    }
    Ok(groups)
}

/// The tags that belong to `group`, in their order.
pub fn select_tags(tags: &[String], group: &String) -> (r: Result<Vec<String>, PlatformError>)
    ensures
        match r {
            Ok(s) => selected(views(tags@), group@) == Ok::<Seq<Seq<char>>, PlatformError>(
                views(s@),
            ),
            Err(e) => selected(views(tags@), group@) == Err::<Seq<Seq<char>>, PlatformError>(e),
        },
{
    let mut out: Vec<String> = Vec::new();
    let mut i: usize = 0;
    assert(views(out@) =~= Seq::<Seq<char>>::empty());
    assert(views(tags@).subrange(0, tags@.len() as int) =~= views(tags@));
    while i < tags.len()
        invariant
            i <= tags@.len(),
            selected(views(tags@), group@) == selected_into(
                views(out@),
                views(tags@).subrange(i as int, tags@.len() as int),
                group@,
            ),
        decreases tags@.len() - i,
    {
        let ghost rest = views(tags@).subrange(i as int, tags@.len() as int);
        assert(rest[0] == tags@[i as int]@);
        assert(rest.drop_first() =~= views(tags@).subrange(i + 1, tags@.len() as int));
        match compat_groups(tags[i].as_str()) {
            Err(e) => {
                return Err(e);
            },
            Ok(h) => {
                if contains_text(&h, group) {
                    proof {
                        lemma_views_push(out@, tags@[i as int]);
                    }
                    out.push(tags[i].clone());
                }
            },
        }
        i += 1;
    }
    Ok(out)
}

/// The wheel tags of one template.
pub fn fill_template(template: &str, platform_tags: &Vec<String>) -> (r: Vec<String>)
    ensures
        views(r@) == template_tags(template@, views(platform_tags@)),
{
    let cs = chars_of(template);
    let mut out: Vec<String> = Vec::new();
    if ends_with(&cs, "-PLATFORM") {
        let stem = template.substring_char(0, cs.len() - "-PLATFORM".unicode_len());
        let ghost expected = template_tags(template@, views(platform_tags@));
        let mut i: usize = 0;
        assert(views(out@) =~= expected.subrange(0, 0));
        while i < platform_tags.len()
            invariant
                i <= platform_tags@.len(),
                stem@ == template_stem(template@),
                has_suffix(template@, "-PLATFORM"@),
                expected == template_tags(template@, views(platform_tags@)),
                expected.len() == platform_tags@.len(),
                views(out@) == expected.subrange(0, i as int),
            decreases platform_tags@.len() - i,
        {
            let mut s = String::new();
            s.append(stem);
            s.append("-");
            s.append(platform_tags[i].as_str());
            proof {
                assert(s@ =~= filled(template@, platform_tags@[i as int]@));
                lemma_views_push(out@, s);
                assert(expected.subrange(0, i as int).push(s@) =~= expected.subrange(0, i + 1));
            }
            out.push(s);
            i += 1;
        }
        assert(expected.subrange(0, i as int) =~= expected);
    } else {
        out.push(template.to_owned());
        assert(views(out@) =~= seq![template@]);
    }
    out
}

/// The wheel tags of all the templates, in the order of the templates.
pub fn fill_templates(templates: &Vec<String>, platform_tags: &Vec<String>) -> (r: Vec<String>)
    ensures
        views(r@) == wheel_tags(views(templates@), views(platform_tags@)),
{
    let mut out: Vec<String> = Vec::new();
    let mut i: usize = 0;
    assert(views(out@) =~= Seq::<Seq<char>>::empty());
    assert(views(templates@).subrange(0, 0) =~= Seq::<Seq<char>>::empty());
    while i < templates.len()
        invariant
            i <= templates@.len(),
            views(out@) == wheel_tags(
                views(templates@).subrange(0, i as int),
                views(platform_tags@),
            ),
        decreases templates@.len() - i,
    {
        proof {
            let next = views(templates@).subrange(0, i + 1);
            assert(next.drop_last() =~= views(templates@).subrange(0, i as int));
            assert(next.last() == templates@[i as int]@);
        }
        let more = fill_template(templates[i].as_str(), platform_tags);
        append_all(&mut out, &more);
        i += 1;
    }
    assert(views(templates@).subrange(0, i as int) =~= views(templates@));
    out
}

impl PybiPlatform {
    /// The wheel platform of an interpreter bundle on this host.
    ///
    /// The bundle's architecture tags name the groups that it can run in.
    /// The host's tags, in the order of preference, narrow them down to one:
    /// it is an error if none is named or if more than one is left. The
    /// host's tags of that group then fill the bundle's wheel tag templates.
    pub fn wheel_platform_for_pybi(&self, name: &PybiName, metadata: &PybiCoreMetadata) -> (r:
        Result<WheelPlatform, PlatformError>)
        ensures
            match r {
                Ok(w) => wheel_platform(
                    self.tag_seq(),
                    views(name.arch_tags@),
                    views(metadata.tags@),
                ) == Ok::<Seq<Seq<char>>, PlatformError>(w.tag_seq()),
                Err(e) => wheel_platform(
                    self.tag_seq(),
                    views(name.arch_tags@),
                    views(metadata.tags@),
                ) == Err::<Seq<Seq<char>>, PlatformError>(e),
            },
    {
        let candidates = match gather_groups(&name.arch_tags) {
            Ok(g) => g,
            Err(e) => {
                return Err(e);
            },
        };
        if candidates.len() == 0 {
            return Err(PlatformError::NoCompatGroup);
        }
        let groups = match narrow_groups(candidates, self.0.tags()) {
            Ok(g) => g,
            Err(e) => {
                return Err(e);
            },
        };
        if groups.len() != 1 {
            return Err(PlatformError::AmbiguousGroups);
        }
        assert(views(groups@)[0] == groups@[0]@);
        let platform_tags = match select_tags(self.0.tags(), &groups[0]) {
            Ok(s) => s,
            Err(e) => {
                return Err(e);
            },
        };
        let mut set = PlatformImpl::empty();
        push_all(&mut set, fill_templates(&metadata.tags, &platform_tags));
        Ok(WheelPlatform(set))
    }
}

/// The machine that the first macOS group of `groups` names.
pub fn machine_in_groups(groups: &Vec<String>) -> (r: Option<&'static str>)
    ensures
        match r {
            Some(m) => machine_of_groups(views(groups@)) == Some(m@),
            None => machine_of_groups(views(groups@)) is None,
        },
{
    let mut i: usize = 0;
    assert(views(groups@).subrange(0, groups@.len() as int) =~= views(groups@));
    while i < groups.len()
        invariant
            i <= groups@.len(),
            machine_of_groups(views(groups@)) == machine_of_groups(
                views(groups@).subrange(i as int, groups@.len() as int),
            ),
        decreases groups@.len() - i,
    {
        let ghost rest = views(groups@).subrange(i as int, groups@.len() as int);
        assert(rest[0] == groups@[i as int]@);
        assert(rest.drop_first() =~= views(groups@).subrange(i + 1, groups@.len() as int));
        if same_text(groups[i].as_str(), "macos-x86_64") {
            return Some("x86_64");
        }
        if same_text(groups[i].as_str(), "macos-arm64") {
            return Some("arm64");
        }
        i += 1;
    }
    None
}

impl WheelPlatform {
    /// The machine of this platform: `x86_64` or `arm64`, by the first tag
    /// that belongs to a macOS group. A tag without groups is passed over.
    pub fn infer_platform_machine(&self) -> (r: Result<&'static str, PlatformError>)
        ensures
            match r {
                Ok(m) => inferred_machine(self.tag_seq()) == Some(m@),
                Err(e) => e == PlatformError::UnknownMachine && inferred_machine(self.tag_seq())
                    is None,
            },
    {
        let tags = self.0.tags();
        let mut i: usize = 0;
        assert(views(tags@).subrange(0, tags@.len() as int) =~= views(tags@));
        while i < tags.len()
            invariant
                i <= tags@.len(),
                views(tags@) == self.tag_seq(),
                inferred_machine(self.tag_seq()) == inferred_machine(
                    views(tags@).subrange(i as int, tags@.len() as int),
                ),
            decreases tags@.len() - i,
        {
            let ghost rest = views(tags@).subrange(i as int, tags@.len() as int);
            assert(rest[0] == tags@[i as int]@);
            assert(rest.drop_first() =~= views(tags@).subrange(i + 1, tags@.len() as int));
            match compat_groups(tags[i].as_str()) {
                Ok(groups) => {
                    match machine_in_groups(&groups) {
                        Some(m) => {
                            return Ok(m);
                        },
                        None => {},
                    }
                },
                Err(_) => {},
            }
            i += 1;
        }
        Err(PlatformError::UnknownMachine)
    }
}

} // verus!
