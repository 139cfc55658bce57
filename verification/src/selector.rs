//! Which versions of a package are offered, and in which order; which
//! interpreter bundle is taken.

use vstd::prelude::*;
use vstd::string::*;
use crate::text::views;
use crate::builders::{contains_text, Platform, PybiPlatform};
use crate::platform::best_score;
use crate::model::{ArtifactInfo, ArtifactName, PkgVersion, ReleaseListing};
use crate::resolve::{hint_for, Brief, PinnedPackage, ResolveError, VersionHints};

verus! {

/// Whether an artifact counts for its release: it is not yanked, or it is
/// one of the pinned artifacts of the hint; and where both the interpreter's
/// version and the artifact's requirement on it are known, the one meets the
/// other.
pub open spec fn artifact_usable(
    ai: ArtifactInfo,
    python: Option<&PkgVersion>,
    hint: Option<&PinnedPackage>,
) -> bool {
    &&& (ai.yanked ==> hint is Some && ai.hash is Some && views(hint->0.hashes@).contains(
        ai.hash->0@,
    ))
    &&& (python is Some && ai.requires_python is Some ==> ai.requires_python->0.keys().contains(
        python->0.key as nat,
    ))
}

/// Whether one of the artifacts counts.
pub open spec fn any_usable(
    artifacts: Seq<ArtifactInfo>,
    python: Option<&PkgVersion>,
    hint: Option<&PinnedPackage>,
) -> bool {
    exists|i: int| 0 <= i < artifacts.len() && artifact_usable(#[trigger] artifacts[i], python, hint)
}

/// Whether a release is offered: pre-releases only where they are allowed,
/// and only a release with an artifact that counts.
pub open spec fn release_accepted(
    listing: ReleaseListing,
    allow_pre: bool,
    python: Option<&PkgVersion>,
    hint: Option<&PinnedPackage>,
) -> bool {
    (allow_pre || !listing.version.pre) && any_usable(listing.artifacts@, python, hint)
}

/// The versions of the releases that are offered, in the order of the index.
pub open spec fn accepted_versions(
    listings: Seq<ReleaseListing>,
    allow_pre: bool,
    python: Option<&PkgVersion>,
    hint: Option<&PinnedPackage>,
) -> Seq<PkgVersion>
    decreases listings.len(),
{
    if listings.len() == 0 {
        Seq::empty()
    } else if release_accepted(listings.last(), allow_pre, python, hint) {
        accepted_versions(listings.drop_last(), allow_pre, python, hint).push(
            listings.last().version,
        )
    } else {
        accepted_versions(listings.drop_last(), allow_pre, python, hint)
    }
}

/// The version that a hint prefers.
pub open spec fn hinted_version(hint: Option<&PinnedPackage>) -> Option<PkgVersion> {
    match hint {
        Some(pin) => Some(pin.version),
        None => None,
    }
}

/// By what versions are ordered: first whether the version is another than
/// the hinted one, then how far the version is below the highest.
pub open spec fn preference(hint: Option<PkgVersion>, v: PkgVersion) -> (bool, int) {
    (hint != Some(v), u32::MAX - v.key)
}

/// The order of preference keys: `false` before `true`, then the lower
/// number first.
pub open spec fn key_le(a: (bool, int), b: (bool, int)) -> bool {
    (!a.0 && b.0) || (a.0 == b.0 && a.1 <= b.1)
}

/// Each version is at least as preferred as those behind it.
pub open spec fn sorted_by_preference(versions: Seq<PkgVersion>, hint: Option<PkgVersion>) -> bool {
    forall|i: int, j: int|
        0 <= i <= j < versions.len() ==> key_le(
            preference(hint, #[trigger] versions[i]),
            preference(hint, #[trigger] versions[j]),
        )
}

/// The preference key of a version.
pub fn preference_key(hint: &Option<PkgVersion>, v: &PkgVersion) -> (r: (bool, u32))
    ensures
        r.0 == preference(*hint, *v).0,
        r.1 as int == preference(*hint, *v).1,
{
    let other = match hint {
        Some(h) => !(h.key == v.key && h.pre == v.pre),
        None => true,
    };
    (other, 0xffff_ffff - v.key)
}

/// `<[T]>::sort_unstable_by_key` of std, with `preference_key` as the key:
/// the vector holds the same versions afterwards, ordered by their keys, a
/// pair ordered by its first part and then by its second.
#[verifier::external_body]
pub(crate) fn sort_by_preference(versions: &mut Vec<PkgVersion>, hint: &Option<PkgVersion>)
    ensures
        final(versions)@.to_multiset() == old(versions)@.to_multiset(),
        sorted_by_preference(final(versions)@, *hint),
{
    versions.sort_unstable_by_key(|v| preference_key(hint, v));
}

/// Whether an artifact counts for its release.
pub fn usable(ai: &ArtifactInfo, python: Option<&PkgVersion>, hint: Option<&PinnedPackage>) -> (r:
    bool)
    ensures
        r == artifact_usable(*ai, python, hint),
{
    if ai.yanked {
        let is_pinned = match (hint, &ai.hash) {
            (Some(pin), Some(hash)) => contains_text(&pin.hashes, hash),
            _ => false,
        };
        if !is_pinned {
            return false;
        }
    }
    match (python, &ai.requires_python) {
        (Some(version), Some(requires_python)) => requires_python.satisfied_by(version),
        _ => true,
    }
}

/// Whether one of the artifacts counts.
pub fn has_usable(
    artifacts: &Vec<ArtifactInfo>,
    python: Option<&PkgVersion>,
    hint: Option<&PinnedPackage>,
) -> (r: bool)
    ensures
        r == any_usable(artifacts@, python, hint),
{
    let mut i: usize = 0;
    while i < artifacts.len()
        invariant
            i <= artifacts@.len(),
            forall|k: int| 0 <= k < i ==> !artifact_usable(#[trigger] artifacts@[k], python, hint),
        decreases artifacts@.len() - i,
    {
        if usable(&artifacts[i], python, hint) {
            return true;
        }
        i += 1;
    }
    false
}

/// The versions of `package` that a resolve offers, most preferred first.
///
/// A release is offered if pre-releases are allowed or it is none, and one
/// of its artifacts counts. The version that a hint names comes first, and
/// the others follow from the highest down.
pub fn fetch_and_sort_versions(
    listings: &Vec<ReleaseListing>,
    brief: &Brief,
    package: &String,
    python_version: Option<&PkgVersion>,
    hints: &VersionHints,
) -> (r: Vec<PkgVersion>)
    ensures
        r@.to_multiset() == accepted_versions(
            listings@,
            brief.allow_pre.allows(package@),
            python_version,
            hint_for(hints.pins@, package@),
        ).to_multiset(),
        sorted_by_preference(r@, hinted_version(hint_for(hints.pins@, package@))),
        hint_for(hints.pins@, package@) is Some && accepted_versions(
            listings@,
            brief.allow_pre.allows(package@),
            python_version,
            hint_for(hints.pins@, package@),
        ).contains(hint_for(hints.pins@, package@)->0.version) ==> r@.len() > 0 && r@[0]
            == hint_for(hints.pins@, package@)->0.version,
{
    let allow_prerelease = brief.allow_pre.allow_pre_for(package);
    let hint = hints.get(package);
    let version_hint: Option<PkgVersion> = match hint {
        Some(pin) => Some(pin.version),
        None => None,
    };
    let mut versions: Vec<PkgVersion> = Vec::new();
    let mut i: usize = 0;
    assert(listings@.subrange(0, 0) =~= Seq::<ReleaseListing>::empty());
    while i < listings.len()
        invariant
            i <= listings@.len(),
            versions@ == accepted_versions(
                listings@.subrange(0, i as int),
                allow_prerelease,
                python_version,
                hint,
            ),
        decreases listings@.len() - i,
    {
        proof {
            let next = listings@.subrange(0, i + 1);
            assert(next.drop_last() =~= listings@.subrange(0, i as int));
            assert(next.last() == listings@[i as int]);
        }
        let listing = &listings[i];
        if (allow_prerelease || !listing.version.is_prerelease()) && has_usable(
            &listing.artifacts,
            python_version,
            hint,
        ) {
            versions.push(listing.version);
        }
        i += 1;
    }
    assert(listings@.subrange(0, i as int) =~= listings@);
    let ghost accepted = versions@;
    sort_by_preference(&mut versions, &version_hint);
    proof {
        if hint is Some && accepted.contains(hint->0.version) {
            let h = hint->0.version;
            vstd::seq_lib::to_multiset_contains(accepted, h);
            vstd::seq_lib::to_multiset_contains(versions@, h);
            let j = choose|j: int| 0 <= j < versions@.len() && versions@[j] == h;
            assert(key_le(preference(version_hint, versions@[0]), preference(version_hint, versions@[j])));
        }
    }
    versions
}

/// The score of an artifact on a platform: the best score among the
/// architecture tags of an interpreter bundle, and none for anything else.
pub open spec fn pybi_score(ai: ArtifactInfo, tags: Seq<Seq<char>>) -> Option<int> {
    match ai.name {
        ArtifactName::Pybi(name) => best_score(tags, views(name.arch_tags@)),
        ArtifactName::Wheel(_) => None,
    }
}

/// Where the best interpreter bundle stands among the artifacts: its score
/// is the highest, and of those with that score it is the first.
pub open spec fn best_pybi(infos: Seq<ArtifactInfo>, tags: Seq<Seq<char>>) -> Option<int>
    decreases infos.len(),
{
    if infos.len() == 0 {
        None
    } else {
        let rest = best_pybi(infos.drop_last(), tags);
        let here = pybi_score(infos.last(), tags);
        if here is None {
            rest
        } else if rest is Some && pybi_score(infos[rest->0], tags) is Some && pybi_score(
            infos[rest->0],
            tags,
        )->0 >= here->0 {
            rest
        } else {
            Some(infos.len() - 1)
        }
    }
}

/// Where the best interpreter bundle for the platform stands among the
/// artifacts, if one of them runs there.
pub fn best_pybi_index(artifact_infos: &Vec<ArtifactInfo>, platform: &PybiPlatform) -> (r: Option<
    (usize, u64),
>)
    ensures
        match r {
            Some((k, s)) => best_pybi(artifact_infos@, platform.tag_seq()) == Some(k as int) && k
                < artifact_infos@.len() && pybi_score(
                artifact_infos@[k as int],
                platform.tag_seq(),
            ) == Some(s as int),
            None => best_pybi(artifact_infos@, platform.tag_seq()) is None,
        },
{
    let mut best: Option<(usize, u64)> = None;
    let mut i: usize = 0;
    assert(artifact_infos@.subrange(0, 0) =~= Seq::<ArtifactInfo>::empty());
    while i < artifact_infos.len()
        invariant
            i <= artifact_infos@.len(),
            match best {
                Some((k, s)) => best_pybi(
                    artifact_infos@.subrange(0, i as int),
                    platform.tag_seq(),
                ) == Some(k as int) && k < i && pybi_score(
                    artifact_infos@[k as int],
                    platform.tag_seq(),
                ) == Some(s as int),
                None => best_pybi(artifact_infos@.subrange(0, i as int), platform.tag_seq())
                    is None,
            },
        decreases artifact_infos@.len() - i,
    {
        proof {
            let next = artifact_infos@.subrange(0, i + 1);
            assert(next.drop_last() =~= artifact_infos@.subrange(0, i as int));
            assert(next.last() == artifact_infos@[i as int]);
            if let Some((k, _)) = best {
                assert(next[k as int] == artifact_infos@[k as int]);
                assert(artifact_infos@.subrange(0, i as int)[k as int] == artifact_infos@[k as int]);
            }
        }
        match &artifact_infos[i].name {
            ArtifactName::Pybi(name) => {
                match platform.max_compatibility(&name.arch_tags) {
                    Some(s) => {
                        let replace = match best {
                            Some((_, b)) => s > b,
                            None => true,
                        };
                        if replace {
                            best = Some((i, s));
                        }
                    },
                    None => {},
                }
            },
            ArtifactName::Wheel(_) => {},
        }
        i += 1;
    }
    assert(artifact_infos@.subrange(0, i as int) =~= artifact_infos@);
    best
}

/// The best interpreter bundle for the platform among the artifacts.
pub fn pick_best_pybi<'a>(artifact_infos: &'a Vec<ArtifactInfo>, platform: &PybiPlatform) -> (r:
    Option<&'a ArtifactInfo>)
    ensures
        match r {
            Some(ai) => best_pybi(artifact_infos@, platform.tag_seq()) is Some && *ai
                == artifact_infos@[best_pybi(artifact_infos@, platform.tag_seq())->0],
            None => best_pybi(artifact_infos@, platform.tag_seq()) is None,
        },
{
    match best_pybi_index(artifact_infos, platform) {
        Some((k, _)) => Some(&artifact_infos[k]),
        None => None,
    }
}

/// `l` is where the first release of version `v` stands in the index.
pub open spec fn is_first_release(listings: Seq<ReleaseListing>, v: PkgVersion, l: int) -> bool {
    &&& 0 <= l < listings.len()
    &&& listings[l].version == v
    &&& forall|k: int| 0 <= k < l ==> (#[trigger] listings[k]).version != v
}

/// The release of version `v` at `l` meets the brief's requirement on the
/// interpreter and holds a bundle that runs on the platform.
pub open spec fn pybi_release(
    listings: Seq<ReleaseListing>,
    brief: &Brief,
    tags: Seq<Seq<char>>,
    v: PkgVersion,
    l: int,
) -> bool {
    &&& brief.python.specifiers.keys().contains(v.key as nat)
    &&& is_first_release(listings, v, l)
    &&& best_pybi(listings[l].artifacts@, tags) is Some
}

/// Whether version `v` can give the interpreter bundle.
pub open spec fn pybi_version(
    listings: Seq<ReleaseListing>,
    brief: &Brief,
    tags: Seq<Seq<char>>,
    v: PkgVersion,
) -> bool {
    exists|l: int| pybi_release(listings, brief, tags, v, l)
}

/// The score of the best bundle of the release at `l`.
pub open spec fn release_score(listings: Seq<ReleaseListing>, tags: Seq<Seq<char>>, l: int) -> int {
    pybi_score(listings[l].artifacts@[best_pybi(listings[l].artifacts@, tags)->0], tags)->0
}

/// The artifact `ai` is the best bundle of the release of `v` at `l`; no
/// offered release that can give a bundle has one with a higher score, and
/// of those whose best bundle scores the same none is preferred to `v`.
pub open spec fn is_pybi_choice(
    listings: Seq<ReleaseListing>,
    brief: &Brief,
    tags: Seq<Seq<char>>,
    accepted: Seq<PkgVersion>,
    hint: Option<PkgVersion>,
    ai: ArtifactInfo,
    v: PkgVersion,
    l: int,
) -> bool {
    &&& accepted.contains(v)
    &&& pybi_release(listings, brief, tags, v, l)
    &&& best_pybi(listings[l].artifacts@, tags)->0 < listings[l].artifacts@.len()
    &&& ai == listings[l].artifacts@[best_pybi(listings[l].artifacts@, tags)->0]
    &&& forall|w: PkgVersion, m: int|
        accepted.contains(w) && #[trigger] pybi_release(listings, brief, tags, w, m) ==> {
            &&& release_score(listings, tags, m) <= release_score(listings, tags, l)
            &&& release_score(listings, tags, m) == release_score(listings, tags, l) ==> key_le(
                preference(hint, v),
                preference(hint, w),
            )
        }
}

/// Where the first release of `version` stands in the index.
pub fn find_release(listings: &Vec<ReleaseListing>, version: &PkgVersion) -> (r: Option<usize>)
    ensures
        match r {
            Some(l) => is_first_release(listings@, *version, l as int),
            None => forall|k: int|
                0 <= k < listings@.len() ==> (#[trigger] listings@[k]).version != *version,
        },
{
    let mut i: usize = 0;
    while i < listings.len()
        invariant
            i <= listings@.len(),
            forall|k: int| 0 <= k < i ==> (#[trigger] listings@[k]).version != *version,
        decreases listings@.len() - i,
    {
        if listings[i].version.key == version.key && listings[i].version.pre == version.pre {
            return Some(i);
        }
        i += 1;
    }
    None
}

/// The first release of a version stands at one place only.
pub proof fn lemma_first_release_unique(
    listings: Seq<ReleaseListing>,
    v: PkgVersion,
    l: int,
    m: int,
)
    requires
        is_first_release(listings, v, l),
        is_first_release(listings, v, m),
    ensures
        l == m,
{
    if l < m {
        assert(listings[l].version != v);
    }
    if m < l {
        assert(listings[m].version != v);
    }
}

/// The interpreter bundle of a brief on a platform.
///
/// Of the offered releases of the interpreter that meet the brief's
/// requirement, each gives its best bundle for the platform. The bundle with
/// the highest score is taken; among releases whose bundles score the same,
/// the one that the order of preference puts first. It is an error if no
/// release gives a bundle.
pub fn resolve_pybi<'a>(
    listings: &'a Vec<ReleaseListing>,
    brief: &Brief,
    platform: &PybiPlatform,
    hints: &VersionHints,
) -> (r: Result<&'a ArtifactInfo, ResolveError>)
    ensures
        match r {
            Ok(ai) => exists|v: PkgVersion, l: int| #[trigger]
                is_pybi_choice(
                    listings@,
                    brief,
                    platform.tag_seq(),
                    accepted_versions(
                        listings@,
                        brief.allow_pre.allows(brief.python.name@),
                        None,
                        hint_for(hints.pins@, brief.python.name@),
                    ),
                    hinted_version(hint_for(hints.pins@, brief.python.name@)),
                    *ai,
                    v,
                    l,
                ),
            Err(e) => e == ResolveError::NoCompatiblePybi && forall|w: PkgVersion|
                accepted_versions(
                    listings@,
                    brief.allow_pre.allows(brief.python.name@),
                    None,
                    hint_for(hints.pins@, brief.python.name@),
                ).contains(w) ==> !#[trigger] pybi_version(
                    listings@,
                    brief,
                    platform.tag_seq(),
                    w,
                ),
        },
{
    let versions = fetch_and_sort_versions(listings, brief, &brief.python.name, None, hints);
    let ghost accepted = accepted_versions(
        listings@,
        brief.allow_pre.allows(brief.python.name@),
        None,
        hint_for(hints.pins@, brief.python.name@),
    );
    let ghost hint = hinted_version(hint_for(hints.pins@, brief.python.name@));
    let ghost tags = platform.tag_seq();
    proof {
        assert forall|w: PkgVersion| accepted.contains(w) <==> versions@.contains(w) by {
            vstd::seq_lib::to_multiset_contains(accepted, w);
            vstd::seq_lib::to_multiset_contains(versions@, w);
        }
    }
    let mut best: Option<(usize, usize, u64)> = None;
    let ghost mut best_at: int = 0;
    let mut i: usize = 0;
    while i < versions.len()
        invariant
            i <= versions@.len(),
            tags == platform.tag_seq(),
            match best {
                Some((l, k, s)) => {
                    &&& 0 <= best_at < i
                    &&& l < listings@.len()
                    &&& pybi_release(listings@, brief, tags, versions@[best_at], l as int)
                    &&& best_pybi(listings@[l as int].artifacts@, tags) == Some(k as int)
                    &&& k < listings@[l as int].artifacts@.len()
                    &&& release_score(listings@, tags, l as int) == s
                    &&& forall|j: int, m: int|
                        0 <= j < i && #[trigger] pybi_release(
                            listings@,
                            brief,
                            tags,
                            versions@[j],
                            m,
                        ) ==> release_score(listings@, tags, m) <= s && (release_score(
                            listings@,
                            tags,
                            m,
                        ) == s ==> j >= best_at)
                },
                None => forall|j: int, m: int|
                    0 <= j < i ==> !#[trigger] pybi_release(
                        listings@,
                        brief,
                        tags,
                        versions@[j],
                        m,
                    ),
            },
        decreases versions@.len() - i,
    {
        let version = versions[i];
        let mut found: Option<(usize, usize, u64)> = None;
        let ghost mut first: int = -1;
        let ghost mut found_at: int = -1;
        if brief.python.specifiers.satisfied_by(&version) {
            match find_release(listings, &version) {
                Some(l) => {
                    proof {
                        first = l as int;
                    }
                    match best_pybi_index(&listings[l].artifacts, platform) {
                        Some((k, s)) => {
                            found = Some((l, k, s));
                            proof {
                                found_at = l as int;
                            }
                        },
                        None => {},
                    }
                },
                None => {},
            }
        }
        proof {
            assert forall|m: int| #[trigger]
                pybi_release(listings@, brief, tags, version, m) implies found is Some && m
                == found_at by {
                if first >= 0 {
                    lemma_first_release_unique(listings@, version, first, m);
                }
            }
        }
        match found {
            Some((l, k, s)) => {
                let better = match best {
                    Some((_, _, b)) => s > b,
                    None => true,
                };
                if better {
                    best = Some((l, k, s));
                    proof {
                        best_at = i as int;
                    }
                }
            },
            None => {},
        }
        i += 1;
    }
    match best {
        Some((l, k, s)) => {
            let ai = &listings[l].artifacts[k];
            proof {
                let v = versions@[best_at];
                assert(versions@.contains(v));
                assert(is_pybi_choice(listings@, brief, tags, accepted, hint, *ai, v, l as int)) by {
                    assert forall|w: PkgVersion, m: int|
                        accepted.contains(w) && #[trigger] pybi_release(
                            listings@,
                            brief,
                            tags,
                            w,
                            m,
                        ) implies release_score(listings@, tags, m) <= release_score(
                        listings@,
                        tags,
                        l as int,
                    ) && (release_score(listings@, tags, m) == release_score(
                        listings@,
                        tags,
                        l as int,
                    ) ==> key_le(preference(hint, v), preference(hint, w))) by {
                        let j = choose|j: int| 0 <= j < versions@.len() && versions@[j] == w;
                        assert(pybi_release(listings@, brief, tags, versions@[j], m));
                    }
                }
            }
            Ok(ai)
        },
        None => {
            proof {
                assert forall|w: PkgVersion| accepted.contains(w) implies !#[trigger] pybi_version(
                    listings@,
                    brief,
                    tags,
                    w,
                ) by {
                    let j = choose|j: int| 0 <= j < versions@.len() && versions@[j] == w;
                    if pybi_version(listings@, brief, tags, w) {
                        let m = choose|m: int| pybi_release(listings@, brief, tags, w, m);
                        assert(pybi_release(listings@, brief, tags, versions@[j], m));
                    }
                }
            }
            Err(ResolveError::NoCompatiblePybi)
        },
    }
}

} // verus!
