//! What holds of platform sets, expansions, wheel platforms and offered
//! versions, whatever the tags and the index are.

use vstd::prelude::*;
use vstd::string::*;
use crate::text::{
    canonical_numeral, decimal, has_prefix, has_suffix, lemma_decimal_round_trip,
};
use crate::tag_grammar::{legacy_manylinux, versioned_marks, versioned_with};
use crate::expand::{
    expansion, fits, has_alias, legacy_alias, linux_below, linux_step, linux_tag, mac_family,
    mac_from, mac_step, mac_tag, mac_tags, mac_ten_below,
};
use crate::compat::groups_of;
use crate::model::{PkgVersion, ReleaseListing};
use crate::resolve::PinnedPackage;
use crate::adapter::first_in_range;
use crate::selector::{
    accepted_versions, artifact_usable, key_le, preference, release_accepted,
    sorted_by_preference,
};
use crate::platform::{score, score_at, with_tag, with_tags};
use crate::builders::{
    filled, selected, selected_into, surviving_group, template_tags, wheel_platform, wheel_tags,
};

verus! {

/// Adding a tag to a set without repeats gives a set without repeats.
pub proof fn lemma_with_tag_distinct(tags: Seq<Seq<char>>, tag: Seq<char>)
    requires
        tags.no_duplicates(),
    ensures
        with_tag(tags, tag).no_duplicates(),
{
    if !tags.contains(tag) {
        let out = tags.push(tag);
        assert forall|i: int, j: int| 0 <= i < out.len() && 0 <= j < out.len() && i != j implies out[i]
            != out[j] by {
            if i == tags.len() {
                assert(tags[j] == out[j]);
            } else if j == tags.len() {
                assert(tags[i] == out[i]);
            }
        }
    }
}

/// Adding tags one after the other to a set without repeats gives a set
/// without repeats.
pub proof fn lemma_with_tags_distinct(tags: Seq<Seq<char>>, more: Seq<Seq<char>>)
    requires
        tags.no_duplicates(),
    ensures
        with_tags(tags, more).no_duplicates(),
    decreases more.len(),
{
    if more.len() > 0 {
        lemma_with_tags_distinct(tags, more.drop_last());
        lemma_with_tag_distinct(with_tags(tags, more.drop_last()), more.last());
    }
}

/// In a set without repeats the tag at position `i` has the score of that
/// position.
pub proof fn lemma_score_by_position(tags: Seq<Seq<char>>, i: int)
    requires
        tags.no_duplicates(),
        0 <= i < tags.len(),
    ensures
        score(tags, tags[i]) == Some(score_at(i)),
{
    assert(tags.contains(tags[i]));
    let k = tags.index_of(tags[i]);
    assert(0 <= k < tags.len() && tags[k] == tags[i]);
}

/// Of two tags of a set, the one that was inserted first has the higher
/// score.
pub proof fn lemma_earlier_scores_higher(tags: Seq<Seq<char>>, i: int, j: int)
    requires
        tags.no_duplicates(),
        0 <= i < j < tags.len(),
    ensures
        score(tags, tags[i]) is Some,
        score(tags, tags[j]) is Some,
        score(tags, tags[i])->0 > score(tags, tags[j])->0,
{
    lemma_score_by_position(tags, i);
    lemma_score_by_position(tags, j);
}

/// A tag that is added to a set scores below every tag that was there
/// before, and those keep their scores.
pub proof fn lemma_new_tag_scores_lowest(tags: Seq<Seq<char>>, tag: Seq<char>, i: int)
    requires
        tags.no_duplicates(),
        !tags.contains(tag),
        0 <= i < tags.len(),
    ensures
        score(with_tag(tags, tag), tag) is Some,
        score(with_tag(tags, tag), tags[i]) == score(tags, tags[i]),
        score(with_tag(tags, tag), tags[i])->0 > score(with_tag(tags, tag), tag)->0,
{
    let out = with_tag(tags, tag);
    lemma_with_tag_distinct(tags, tag);
    assert(out[i] == tags[i]);
    assert(out[tags.len() as int] == tag);
    lemma_score_by_position(out, i);
    lemma_score_by_position(out, tags.len() as int);
    lemma_score_by_position(tags, i);
}

/// Every tag of `with_tags(tags, more)` is one of `tags` or one of `more`.
pub proof fn lemma_with_tags_members(tags: Seq<Seq<char>>, more: Seq<Seq<char>>, t: Seq<char>)
    requires
        with_tags(tags, more).contains(t),
    ensures
        tags.contains(t) || more.contains(t),
    decreases more.len(),
{
    if more.len() > 0 {
        let before = with_tags(tags, more.drop_last());
        if before.contains(t) {
            lemma_with_tags_members(tags, more.drop_last(), t);
            if more.drop_last().contains(t) {
                let k = more.drop_last().index_of(t);
                assert(more[k] == t);
            }
        } else {
            let out = with_tag(before, more.last());
            let k = out.index_of(t);
            assert(out[k] == t);
            if k < before.len() {
                assert(before[k] == t);
            }
            assert(more[more.len() - 1] == t);
        }
    }
}

/// Every tag that is selected for a group is one that was there before or a
/// tag of the platform that belongs to the group.
pub proof fn lemma_selected_members(
    acc: Seq<Seq<char>>,
    tags: Seq<Seq<char>>,
    group: Seq<char>,
    p: Seq<char>,
)
    requires
        selected_into(acc, tags, group) is Ok,
        selected_into(acc, tags, group)->Ok_0.contains(p),
    ensures
        acc.contains(p) || (tags.contains(p) && groups_of(p) is Ok && groups_of(p)->Ok_0.contains(
            group,
        )),
    decreases tags.len(),
{
    if tags.len() > 0 {
        let h = groups_of(tags[0])->Ok_0;
        let next = if h.contains(group) {
            acc.push(tags[0])
        } else {
            acc
        };
        lemma_selected_members(next, tags.drop_first(), group, p);
        if next.contains(p) {
            if !acc.contains(p) {
                let k = next.index_of(p);
                assert(next[k] == p);
                if k < acc.len() {
                    assert(acc[k] == p);
                }
                assert(tags[0] == p);
            }
        } else {
            let k = tags.drop_first().index_of(p);
            assert(tags.drop_first()[k] == p);
            assert(tags[k + 1] == p);
        }
    }
}

/// Where a wheel tag of a template comes from: it is the template itself,
/// which then is no `-PLATFORM` template, or the template filled with one of
/// the platform tags.
pub open spec fn from_template(t: Seq<char>, template: Seq<char>, platform_tags: Seq<Seq<char>>) -> bool {
    if has_suffix(template, "-PLATFORM"@) {
        exists|i: int| 0 <= i < platform_tags.len() && t == filled(template, #[trigger] platform_tags[i])
    } else {
        t == template
    }
}

/// Every wheel tag comes from one of the templates.
pub proof fn lemma_wheel_tags_members(
    templates: Seq<Seq<char>>,
    platform_tags: Seq<Seq<char>>,
    t: Seq<char>,
)
    requires
        wheel_tags(templates, platform_tags).contains(t),
    ensures
        exists|k: int|
            0 <= k < templates.len() && from_template(t, #[trigger] templates[k], platform_tags),
    decreases templates.len(),
{
    let all = wheel_tags(templates, platform_tags);
    if templates.len() > 0 {
        let before = wheel_tags(templates.drop_last(), platform_tags);
        let here = template_tags(templates.last(), platform_tags);
        let i = all.index_of(t);
        assert(all[i] == t);
        if i < before.len() {
            assert(before[i] == t);
            lemma_wheel_tags_members(templates.drop_last(), platform_tags, t);
            let k = choose|k: int|
                0 <= k < templates.drop_last().len() && from_template(
                    t,
                    #[trigger] templates.drop_last()[k],
                    platform_tags,
                );
            assert(templates[k] == templates.drop_last()[k]);
        } else {
            let j = i - before.len();
            assert(here[j] == t);
            if has_suffix(templates.last(), "-PLATFORM"@) {
                assert(t == filled(templates.last(), platform_tags[j]));
            }
            assert(from_template(t, templates[templates.len() - 1], platform_tags));
        }
    } else {
        assert(all.index_of(t) < 0);
    }
}

/// A tag of a wheel platform is a literal template of the bundle, or a
/// template filled with a tag of the host that belongs to the one group
/// that the narrowing left.
pub open spec fn of_group(
    t: Seq<char>,
    template: Seq<char>,
    tags: Seq<Seq<char>>,
    group: Seq<char>,
) -> bool {
    if has_suffix(template, "-PLATFORM"@) {
        exists|p: Seq<char>|
            #![trigger filled(template, p)]
            tags.contains(p) && groups_of(p) is Ok && groups_of(p)->Ok_0.contains(group) && t
                == filled(template, p)
    } else {
        t == template
    }
}

/// Every tag of a wheel platform comes from a template of the bundle, and
/// every platform tag that fills a template belongs to the surviving group.
pub proof fn lemma_wheel_platform_in_group(
    tags: Seq<Seq<char>>,
    arch_tags: Seq<Seq<char>>,
    templates: Seq<Seq<char>>,
    t: Seq<char>,
)
    requires
        wheel_platform(tags, arch_tags, templates) is Ok,
        wheel_platform(tags, arch_tags, templates)->Ok_0.contains(t),
    ensures
        surviving_group(tags, arch_tags) is Ok,
        exists|k: int|
            0 <= k < templates.len() && of_group(
                t,
                #[trigger] templates[k],
                tags,
                surviving_group(tags, arch_tags)->Ok_0,
            ),
{
    let group = surviving_group(tags, arch_tags)->Ok_0;
    let platform_tags = selected(tags, group)->Ok_0;
    lemma_with_tags_members(Seq::empty(), wheel_tags(templates, platform_tags), t);
    lemma_wheel_tags_members(templates, platform_tags, t);
    let k = choose|k: int|
        0 <= k < templates.len() && from_template(t, #[trigger] templates[k], platform_tags);
    if has_suffix(templates[k], "-PLATFORM"@) {
        let i = choose|i: int|
            0 <= i < platform_tags.len() && t == filled(templates[k], #[trigger] platform_tags[i]);
        let p = platform_tags[i];
        assert(platform_tags.contains(p));
        lemma_selected_members(Seq::empty(), tags, group, p);
        assert(of_group(t, templates[k], tags, group));
    } else {
        assert(of_group(t, templates[k], tags, group));
    }
}

/// The minor versions below `n` each have their canonical tag in the
/// expansion, and those with a legacy alias have the alias directly behind
/// it.
pub proof fn lemma_linux_below_complete(
    musl: bool,
    major: nat,
    n: nat,
    arch: Seq<char>,
    k: nat,
)
    requires
        k < n,
    ensures
        exists|i: int|
            0 <= i < linux_below(musl, major, n, arch).len() && #[trigger] linux_below(
                musl,
                major,
                n,
                arch,
            )[i] == linux_tag(musl, major, k, arch) && (has_alias(musl, k) ==> i + 1
                < linux_below(musl, major, n, arch).len() && linux_below(musl, major, n, arch)[i
                + 1] == legacy_alias(k, arch)->0),
    decreases n,
{
    let all = linux_below(musl, major, n, arch);
    let step = linux_step(musl, major, (n - 1) as nat, arch);
    let rest = linux_below(musl, major, (n - 1) as nat, arch);
    if k == n - 1 {
        assert(all[0] == step[0]);
        if has_alias(musl, k) {
            assert(all[1] == step[1]);
        }
    } else {
        lemma_linux_below_complete(musl, major, (n - 1) as nat, arch, k);
        let i = choose|i: int|
            0 <= i < rest.len() && #[trigger] rest[i] == linux_tag(musl, major, k, arch) && (
            has_alias(musl, k) ==> i + 1 < rest.len() && rest[i + 1] == legacy_alias(
                k,
                arch,
            )->0);
        assert(all[step.len() + i] == rest[i]);
        if has_alias(musl, k) {
            assert(all[step.len() + i + 1] == rest[i + 1]);
        }
    }
}

/// The expansion holds nothing else: each of its tags is the canonical tag
/// of a minor version below `n`, or the legacy alias of one that has an
/// alias.
pub proof fn lemma_linux_below_only(musl: bool, major: nat, n: nat, arch: Seq<char>, i: int)
    requires
        0 <= i < linux_below(musl, major, n, arch).len(),
    ensures
        exists|k: nat|
            k < n && (linux_below(musl, major, n, arch)[i] == #[trigger] linux_tag(
                musl,
                major,
                k,
                arch,
            ) || (has_alias(musl, k) && linux_below(musl, major, n, arch)[i]
                == legacy_alias(k, arch)->0)),
    decreases n,
{
    let all = linux_below(musl, major, n, arch);
    if n > 0 {
        let step = linux_step(musl, major, (n - 1) as nat, arch);
        let rest = linux_below(musl, major, (n - 1) as nat, arch);
        if i < step.len() {
            assert(all[i] == step[i]);
            let k = (n - 1) as nat;
            assert(all[i] == linux_tag(musl, major, k, arch) || (has_alias(musl, k)
                && all[i] == legacy_alias(k, arch)->0));
        } else {
            assert(all[i] == rest[i - step.len()]);
            lemma_linux_below_only(musl, major, (n - 1) as nat, arch, i - step.len());
        }
    }
}

/// The first tags of a legacy manylinux tag's expansion: the canonical tag
/// that it stands for, and directly behind it the legacy alias.
pub proof fn lemma_legacy_expansion_starts(tag: Seq<char>)
    requires
        legacy_manylinux(tag) is Some,
    ensures
        expansion(tag).len() >= 2,
        expansion(tag)[0] == linux_tag(
            false,
            2,
            legacy_manylinux(tag)->0.minor,
            legacy_manylinux(tag)->0.arch,
        ),
        Some(expansion(tag)[1]) == legacy_alias(
            legacy_manylinux(tag)->0.minor,
            legacy_manylinux(tag)->0.arch,
        ),
{
    let minor = legacy_manylinux(tag)->0.minor;
    let arch = legacy_manylinux(tag)->0.arch;
    let step = linux_step(false, 2, minor, arch);
    assert(linux_below(false, 2, minor + 1, arch) == step + linux_below(false, 2, minor, arch));
    assert(expansion(tag)[0] == step[0]);
    assert(expansion(tag)[1] == step[1]);
}

/// The first tag of a canonical Linux tag's expansion is the canonical tag
/// of its own version.
pub proof fn lemma_linux_expansion_starts(tag: Seq<char>, musl: bool)
    requires
        legacy_manylinux(tag) is None,
        fits(versioned_with(tag, if musl { "musllinux_"@ } else { "manylinux_"@ })),
    ensures
        expansion(tag).len() >= 1,
        expansion(tag)[0] == linux_tag(
            musl,
            versioned_with(tag, if musl { "musllinux_"@ } else { "manylinux_"@ })->0.major,
            versioned_with(tag, if musl { "musllinux_"@ } else { "manylinux_"@ })->0.minor,
            versioned_with(tag, if musl { "musllinux_"@ } else { "manylinux_"@ })->0.arch,
        ),
{
    reveal_strlit("musllinux_");
    reveal_strlit("manylinux_");
    if has_prefix(tag, "musllinux_"@) && has_prefix(tag, "manylinux_"@) {
        assert(tag.subrange(0, 10)[1] == 'u');
        assert(tag.subrange(0, 10)[1] == 'a');
    }
    let v = versioned_with(tag, if musl { "musllinux_"@ } else { "manylinux_"@ })->0;
    let step = linux_step(musl, v.major, v.minor, v.arch);
    assert(linux_below(musl, v.major, v.minor + 1, v.arch) == step + linux_below(
        musl,
        v.major,
        v.minor,
        v.arch,
    ));
    assert(expansion(tag)[0] == step[0]);
}

/// A tag of none of the recognised shapes expands to itself alone.
pub proof fn lemma_other_expansion_is_tag(tag: Seq<char>)
    requires
        legacy_manylinux(tag) is None,
        versioned_with(tag, "manylinux_"@) is None,
        versioned_with(tag, "musllinux_"@) is None,
        versioned_with(tag, "macosx_"@) is None,
    ensures
        expansion(tag) == seq![tag],
{
}

/// The first tag of a macOS tag's expansion has the tag's architecture and
/// major version; its minor version is the tag's own for macOS 10 and `0`
/// for a later one.
pub proof fn lemma_mac_expansion_starts(major: nat, minor: nat, arch: Seq<char>)
    requires
        major >= 10,
    ensures
        mac_tags(major, minor, arch).len() >= 1,
        mac_tags(major, minor, arch)[0] == mac_tag(
            major,
            if major == 10 {
                minor
            } else {
                0
            },
            arch,
        ),
{
    let family = mac_family(arch);
    assert(family[0] == arch);
    if major == 10 {
        assert(mac_from(major, family) =~= Seq::<Seq<char>>::empty());
        let step = mac_step(10, minor, family);
        assert(mac_ten_below(minor + 1, family) == step + mac_ten_below(minor, family));
        assert(mac_tags(major, minor, arch)[0] == step[0]);
    } else {
        let step = mac_step(major, 0, family);
        assert(mac_from(major, family) == step + mac_from((major - 1) as nat, family));
        assert(mac_tags(major, minor, arch)[0] == step[0]);
    }
}

/// No tag belongs both to a glibc group and to a musl group.
pub proof fn lemma_glibc_and_musl_apart(tag: Seq<char>, i: int, j: int)
    requires
        groups_of(tag) is Ok,
        0 <= i < groups_of(tag)->Ok_0.len(),
        0 <= j < groups_of(tag)->Ok_0.len(),
    ensures
        !(has_prefix(groups_of(tag)->Ok_0[i], "manylinux-"@) && has_prefix(
            groups_of(tag)->Ok_0[j],
            "musllinux-"@,
        )),
{
    reveal_strlit("manylinux-");
    reveal_strlit("musllinux-");
    reveal_strlit("macos-x86_64");
    reveal_strlit("macos-arm64");
    reveal_strlit("win");
    let g = groups_of(tag)->Ok_0;
    if has_prefix(g[i], "manylinux-"@) && has_prefix(g[j], "musllinux-"@) {
        assert(g[i].subrange(0, 10)[0] == 'm');
        assert(g[i].subrange(0, 10)[1] == 'a');
        assert(g[i].subrange(0, 10)[2] == 'n');
        assert(g[j].subrange(0, 10)[1] == 'u');
        assert(g[j].subrange(0, 10)[2] == 's');
        if has_prefix(tag, "win"@) {
            assert(tag.subrange(0, 3)[0] == 'w');
        }
    }
}

/// A tag that belongs to both macOS groups is a `universal2` tag.
pub proof fn lemma_both_mac_groups_mean_universal2(tag: Seq<char>)
    requires
        groups_of(tag) is Ok,
        groups_of(tag)->Ok_0.contains("macos-x86_64"@),
        groups_of(tag)->Ok_0.contains("macos-arm64"@),
    ensures
        versioned_with(tag, "macosx_"@) is Some,
        versioned_with(tag, "macosx_"@)->0.arch == "universal2"@,
{
    reveal_strlit("macos-x86_64");
    reveal_strlit("macos-arm64");
    let g = groups_of(tag)->Ok_0;
    let a = g.index_of("macos-x86_64"@);
    let b = g.index_of("macos-arm64"@);
    assert(g[a] == "macos-x86_64"@);
    assert(g[b] == "macos-arm64"@);
    assert("macos-x86_64"@.len() != "macos-arm64"@.len());
}

/// The numbers of a versioned tag are written without leading zeros.
pub open spec fn canonical_numbers(tag: Seq<char>, prefix: Seq<char>) -> bool {
    let p = prefix.len() as int;
    match versioned_marks(tag, p) {
        Some((a, b)) => canonical_numeral(tag.subrange(p, a)) && canonical_numeral(
            tag.subrange(a + 1, b),
        ),
        None => false,
    }
}

/// A versioned tag whose numbers are written without leading zeros is its
/// prefix, its numbers in decimal and its architecture, joined by
/// underscores.
pub proof fn lemma_versioned_tag_is_canonical(tag: Seq<char>, prefix: Seq<char>)
    requires
        versioned_with(tag, prefix) is Some,
        canonical_numbers(tag, prefix),
    ensures
        tag == prefix + decimal(versioned_with(tag, prefix)->0.major) + "_"@ + decimal(
            versioned_with(tag, prefix)->0.minor,
        ) + "_"@ + versioned_with(tag, prefix)->0.arch,
{
    reveal_strlit("_");
    let p = prefix.len() as int;
    let marks = versioned_marks(tag, p)->0;
    let a = marks.0;
    let b = marks.1;
    lemma_decimal_round_trip(tag.subrange(p, a));
    lemma_decimal_round_trip(tag.subrange(a + 1, b));
    assert("_"@ =~= seq!['_']);
    assert(tag =~= tag.subrange(0, p) + tag.subrange(p, a) + seq!['_'] + tag.subrange(a + 1, b)
        + seq!['_'] + tag.subrange(b + 1, tag.len() as int));
}

/// A canonical Linux tag whose numbers fit and are written without leading
/// zeros is the first tag of its own expansion.
pub proof fn lemma_linux_expansion_starts_with_tag(tag: Seq<char>, musl: bool)
    requires
        legacy_manylinux(tag) is None,
        fits(versioned_with(tag, if musl { "musllinux_"@ } else { "manylinux_"@ })),
        canonical_numbers(tag, if musl { "musllinux_"@ } else { "manylinux_"@ }),
    ensures
        expansion(tag).len() >= 1,
        expansion(tag)[0] == tag,
{
    lemma_linux_expansion_starts(tag, musl);
    lemma_versioned_tag_is_canonical(tag, if musl { "musllinux_"@ } else { "manylinux_"@ });
}

/// A macOS tag of version 10, or of a later version with minor version `0`,
/// whose numbers fit and are written without leading zeros, is the first
/// tag of its own expansion.
pub proof fn lemma_mac_expansion_starts_with_tag(tag: Seq<char>)
    requires
        fits(versioned_with(tag, "macosx_"@)),
        canonical_numbers(tag, "macosx_"@),
        versioned_with(tag, "macosx_"@)->0.major == 10 || (versioned_with(tag, "macosx_"@)->0.major
            > 10 && versioned_with(tag, "macosx_"@)->0.minor == 0),
    ensures
        expansion(tag).len() >= 1,
        expansion(tag)[0] == tag,
{
    reveal_strlit("macosx_");
    reveal_strlit("musllinux_");
    reveal_strlit("manylinux_");
    reveal_strlit("manylinux2014_");
    reveal_strlit("manylinux2010_");
    reveal_strlit("manylinux1_");
    assert(tag.subrange(0, 7)[1] == 'a');
    assert(tag.subrange(0, 7)[2] == 'c');
    if has_prefix(tag, "musllinux_"@) {
        assert(tag.subrange(0, 10)[1] == 'u');
    }
    if has_prefix(tag, "manylinux_"@) {
        assert(tag.subrange(0, 10)[2] == 'n');
    }
    if has_prefix(tag, "manylinux2014_"@) {
        assert(tag.subrange(0, 14)[2] == 'n');
    }
    if has_prefix(tag, "manylinux2010_"@) {
        assert(tag.subrange(0, 14)[2] == 'n');
    }
    if has_prefix(tag, "manylinux1_"@) {
        assert(tag.subrange(0, 11)[2] == 'n');
    }
    let v = versioned_with(tag, "macosx_"@)->0;
    lemma_mac_expansion_starts(v.major, v.minor, v.arch);
    lemma_versioned_tag_is_canonical(tag, "macosx_"@);
}

/// A legacy alias stands in the expansion of a glibc tag only where its
/// minor version is one of those below `n`.
pub proof fn lemma_alias_only_where_named(major: nat, n: nat, arch: Seq<char>, k: nat)
    requires
        k == 17 || k == 12 || k == 5,
        linux_below(false, major, n, arch).contains(legacy_alias(k, arch)->0),
    ensures
        k < n,
{
    reveal_strlit("manylinux_");
    reveal_strlit("manylinux2014_");
    reveal_strlit("manylinux2010_");
    reveal_strlit("manylinux1_");
    let all = linux_below(false, major, n, arch);
    let alias = legacy_alias(k, arch)->0;
    let i = all.index_of(alias);
    assert(all[i] == alias);
    lemma_linux_below_only(false, major, n, arch, i);
    let j = choose|j: nat|
        j < n && (all[i] == #[trigger] linux_tag(false, major, j, arch) || (has_alias(false, j) && all[i] == legacy_alias(j, arch)->0));
    let canonical = linux_tag(false, major, j, arch);
    assert(canonical[9] == '_');
    assert(alias[9] != '_');
    if j != k {
        let other = legacy_alias(j, arch)->0;
        if has_alias(false, j) {
            assert(other[9] != alias[9] || other[12] != alias[12]);
        }
    }
}

/// The version of a release that is offered is among the offered versions.
pub proof fn lemma_accepted_contains(
    listings: Seq<ReleaseListing>,
    allow_pre: bool,
    python: Option<&PkgVersion>,
    hint: Option<&PinnedPackage>,
    i: int,
)
    requires
        0 <= i < listings.len(),
        release_accepted(listings[i], allow_pre, python, hint),
    ensures
        accepted_versions(listings, allow_pre, python, hint).contains(listings[i].version),
    decreases listings.len(),
{
    let all = accepted_versions(listings, allow_pre, python, hint);
    let before = accepted_versions(listings.drop_last(), allow_pre, python, hint);
    if i == listings.len() - 1 {
        assert(all[all.len() - 1] == listings[i].version);
    } else {
        assert(listings.drop_last()[i] == listings[i]);
        lemma_accepted_contains(listings.drop_last(), allow_pre, python, hint, i);
        let k = before.index_of(listings[i].version);
        assert(before[k] == listings[i].version);
        assert(all[k] == before[k]);
    }
}

/// A release that an earlier blueprint pinned is the first that is offered
/// to the solver, and the first that is tried where the range holds it:
/// provided that pre-releases are allowed or it is none, and that one of its
/// artifacts is not yanked or has a pinned hash, and meets the interpreter's
/// version where both are known.
pub proof fn lemma_pinned_release_is_first(
    listings: Seq<ReleaseListing>,
    allow_pre: bool,
    python: Option<&PkgVersion>,
    pin: &PinnedPackage,
    i: int,
    a: int,
    offered: Seq<PkgVersion>,
    keys: Set<nat>,
)
    requires
        0 <= i < listings.len(),
        listings[i].version == pin.version,
        allow_pre || !pin.version.pre,
        0 <= a < listings[i].artifacts@.len(),
        artifact_usable(listings[i].artifacts@[a], python, Some(pin)),
        offered.to_multiset() == accepted_versions(
            listings,
            allow_pre,
            python,
            Some(pin),
        ).to_multiset(),
        sorted_by_preference(offered, Some(pin.version)),
        keys.contains(pin.version.key as nat),
    ensures
        offered.len() > 0,
        offered[0] == pin.version,
        first_in_range(offered, keys) == Some(pin.version),
{
    let accepted = accepted_versions(listings, allow_pre, python, Some(pin));
    lemma_accepted_contains(listings, allow_pre, python, Some(pin), i);
    vstd::seq_lib::to_multiset_contains(accepted, pin.version);
    vstd::seq_lib::to_multiset_contains(offered, pin.version);
    let j = offered.index_of(pin.version);
    assert(offered[j] == pin.version);
    assert(key_le(
        preference(Some(pin.version), offered[0]),
        preference(Some(pin.version), offered[j]),
    ));
}

} // verus!
