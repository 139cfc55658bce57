//! From the solver's answer to what a blueprint pins, and the marker
//! environment of an interpreter bundle.

use vstd::prelude::*;
use vstd::string::*;
use crate::text::views;
use crate::compat::PlatformError;
use crate::builders::{inferred_machine, wheel_platform, Platform, PybiPlatform};
use crate::model::{PkgVersion, PybiCoreMetadata, PybiName};
use crate::adapter::{lookup, HashMapEnv, ResPkg, ResPkgView};
use crate::resolve::{Blueprint, PinnedPackage, ResolveError, WheelResolveMetadata};

verus! {

/// A chosen release by the text of its package name.
pub ghost struct Chosen {
    pub name: Seq<char>,
    pub version: PkgVersion,
}

/// What the solver chose for the packages themselves: the root and the
/// packages with an extra are left out.
pub open spec fn flattened(solution: Seq<(ResPkg, PkgVersion)>) -> Seq<Chosen>
    decreases solution.len(),
{
    if solution.len() == 0 {
        Seq::empty()
    } else {
        match solution.last().0@ {
            ResPkgView::Package(name, None) => flattened(solution.drop_last()).push(
                Chosen { name, version: solution.last().1 },
            ),
            _ => flattened(solution.drop_last()),
        }
    }
}

/// The views of chosen releases.
pub open spec fn chosen_views(v: Seq<(String, PkgVersion)>) -> Seq<Chosen> {
    Seq::new(v.len(), |i: int| Chosen { name: v[i].0@, version: v[i].1 })
}

/// No package occurs twice in the solver's answer.
pub open spec fn distinct_packages(solution: Seq<(ResPkg, PkgVersion)>) -> bool {
    forall|i: int, j: int|
        0 <= i < j < solution.len() ==> (#[trigger] solution[i]).0@ != (#[trigger] solution[j]).0@
}

/// No name occurs twice among the chosen releases.
pub open spec fn distinct_names(chosen: Seq<Chosen>) -> bool {
    forall|i: int, j: int|
        0 <= i < j < chosen.len() ==> (#[trigger] chosen[i]).name != (#[trigger] chosen[j]).name
}

/// Each chosen release stands in the solver's answer as a package without
/// extra.
pub proof fn lemma_flattened_members(solution: Seq<(ResPkg, PkgVersion)>, k: int)
    requires
        0 <= k < flattened(solution).len(),
    ensures
        exists|i: int|
            0 <= i < solution.len() && (#[trigger] solution[i]).0@ == ResPkgView::Package(
                flattened(solution)[k].name,
                None,
            ) && solution[i].1 == flattened(solution)[k].version,
    decreases solution.len(),
{
    let rest = solution.drop_last();
    let last = solution.len() - 1;
    if k < flattened(rest).len() {
        lemma_flattened_members(rest, k);
        let i = choose|i: int|
            0 <= i < rest.len() && (#[trigger] rest[i]).0@ == ResPkgView::Package(
                flattened(rest)[k].name,
                None,
            ) && rest[i].1 == flattened(rest)[k].version;
        assert(solution[i] == rest[i]);
    } else {
        assert(solution[last].0@ == ResPkgView::Package(flattened(solution)[k].name, None));
    }
}

/// Whatever extras were asked for, a package is pinned once: where the
/// solver's answer names no package twice, no name occurs twice among the
/// chosen releases.
pub proof fn lemma_flattened_distinct(solution: Seq<(ResPkg, PkgVersion)>)
    requires
        distinct_packages(solution),
    ensures
        distinct_names(flattened(solution)),
    decreases solution.len(),
{
    if solution.len() > 0 {
        let rest = solution.drop_last();
        let last = solution.len() - 1;
        assert(distinct_packages(rest)) by {
            assert forall|i: int, j: int| 0 <= i < j < rest.len() implies (#[trigger] rest[i]).0@
                != (#[trigger] rest[j]).0@ by {
                assert(rest[i] == solution[i]);
                assert(rest[j] == solution[j]);
            }
        }
        lemma_flattened_distinct(rest);
        let out = flattened(solution);
        assert forall|i: int, j: int| 0 <= i < j < out.len() implies (#[trigger] out[i]).name != (
        #[trigger] out[j]).name by {
            if j >= flattened(rest).len() {
                lemma_flattened_members(rest, i);
                let w = choose|w: int|
                    0 <= w < rest.len() && (#[trigger] rest[w]).0@ == ResPkgView::Package(
                        flattened(rest)[i].name,
                        None,
                    ) && rest[w].1 == flattened(rest)[i].version;
                assert(rest[w] == solution[w]);
                assert(solution[w].0@ != solution[last].0@);
            }
        }
    }
}

/// The releases that a blueprint pins, from the solver's answer: those of
/// the packages themselves, in the order of the answer.
pub fn base_packages(solution: &Vec<(ResPkg, PkgVersion)>) -> (r: Vec<(String, PkgVersion)>)
    ensures
        chosen_views(r@) == flattened(solution@),
        distinct_packages(solution@) ==> distinct_names(chosen_views(r@)),
{
    let mut out: Vec<(String, PkgVersion)> = Vec::new();
    let mut i: usize = 0;
    assert(chosen_views(out@) =~= Seq::<Chosen>::empty());
    assert(solution@.subrange(0, 0) =~= Seq::<(ResPkg, PkgVersion)>::empty());
    while i < solution.len()
        invariant
            i <= solution@.len(),
            chosen_views(out@) == flattened(solution@.subrange(0, i as int)),
        decreases solution@.len() - i,
    {
        let ghost before = chosen_views(out@);
        proof {
            let next = solution@.subrange(0, i + 1);
            assert(next.drop_last() =~= solution@.subrange(0, i as int));
            assert(next.last() == solution@[i as int]);
        }
        match &solution[i].0 {
            ResPkg::Package(name, None) => {
                out.push((name.clone(), solution[i].1));
                assert(chosen_views(out@) =~= before.push(
                    Chosen { name: name@, version: solution@[i as int].1 },
                ));
            },
            _ => {},
        }
        i += 1;
    }
    assert(solution@.subrange(0, i as int) =~= solution@);
    proof {
        if distinct_packages(solution@) {
            lemma_flattened_distinct(solution@);
        }
    }
    out
}

/// The names and values of marker variables as text.
pub open spec fn env_view(env: Seq<(String, String)>) -> Seq<(Seq<char>, Seq<char>)> {
    Seq::new(env.len(), |i: int| (env[i].0@, env[i].1@))
}

/// The marker variables that a resolve works with, or why the bundle has
/// none on this platform.
pub open spec fn marker_variables(
    tags: Seq<Seq<char>>,
    name: &PybiName,
    metadata: &PybiCoreMetadata,
) -> Result<Seq<(Seq<char>, Seq<char>)>, PlatformError> {
    let given = metadata.environment_marker_variables@;
    if lookup(given, "platform_machine"@) is Some {
        Ok(env_view(given))
    } else {
        match wheel_platform(tags, views(name.arch_tags@), views(metadata.tags@)) {
            Err(e) => Err(e),
            Ok(wheel_tags) => match inferred_machine(wheel_tags) {
                None => Err(PlatformError::UnknownMachine),
                Some(machine) => Ok(env_view(given).push(("platform_machine"@, machine))),
            },
        }
    }
}

/// The marker variables of a resolve: those of the interpreter bundle, and
/// `platform_machine` by the bundle's wheel platform where the bundle does
/// not say it.
pub fn marker_environment(
    platform: &PybiPlatform,
    name: &PybiName,
    metadata: &PybiCoreMetadata,
) -> (r: Result<Vec<(String, String)>, PlatformError>)
    ensures
        match r {
            Ok(env) => marker_variables(platform.tag_seq(), name, metadata) == Ok::<
                Seq<(Seq<char>, Seq<char>)>,
                PlatformError,
            >(env_view(env@)),
            Err(e) => marker_variables(platform.tag_seq(), name, metadata) == Err::<
                Seq<(Seq<char>, Seq<char>)>,
                PlatformError,
            >(e),
        },
{
    let given = &metadata.environment_marker_variables;
    let mut env: Vec<(String, String)> = Vec::new();
    let mut i: usize = 0;
    assert(env_view(env@) =~= env_view(given@).subrange(0, 0));
    while i < given.len()
        invariant
            i <= given@.len(),
            env_view(env@) == env_view(given@).subrange(0, i as int),
        decreases given@.len() - i,
    {
        let ghost before = env_view(env@);
        env.push((given[i].0.clone(), given[i].1.clone()));
        assert(env_view(env@) =~= before.push((given@[i as int].0@, given@[i as int].1@)));
        i += 1;
        assert(env_view(env@) =~= env_view(given@).subrange(0, i as int));
    }
    assert(env_view(given@).subrange(0, i as int) =~= env_view(given@));
    let markers = HashMapEnv { basic_env: given, extra: None };
    proof {
        reveal_strlit("platform_machine");
        reveal_strlit("extra");
        assert("platform_machine"@.len() != "extra"@.len());
    }
    if markers.get_marker_var("platform_machine").is_some() {
        return Ok(env);
    }
    let wheel = match platform.wheel_platform_for_pybi(name, metadata) {
        Ok(w) => w,
        Err(e) => {
            return Err(e);
        },
    };
    match wheel.infer_platform_machine() {
        Ok(m) => {
            let ghost before = env_view(env@);
            env.push(("platform_machine".to_owned(), m.to_owned()));
            assert(env_view(env@) =~= before.push(("platform_machine"@, m@)));
            Ok(env)
        },
        Err(e) => Err(e),
    }
}

/// Every wheel's metadata admits the interpreter's version.
pub open spec fn wheels_admit(
    wheels: Seq<(PinnedPackage, WheelResolveMetadata)>,
    python_full_version: PkgVersion,
) -> bool {
    forall|i: int|
        0 <= i < wheels.len() ==> (#[trigger] wheels[i]).1.inner.requires_python.keys().contains(
            python_full_version.key as nat,
        )
}

/// Puts a blueprint together from the pinned interpreter bundle and the
/// pinned wheels with the metadata that the resolve used. Each wheel's
/// metadata is held against the interpreter's version once more: a blueprint
/// is only made of wheels that admit it.
pub fn assemble_blueprint(
    pybi: PinnedPackage,
    wheels: Vec<(PinnedPackage, WheelResolveMetadata)>,
    python_full_version: &PkgVersion,
) -> (r: Result<Blueprint, ResolveError>)
    ensures
        match r {
            Ok(blueprint) => {
                &&& blueprint.pybi == pybi
                &&& blueprint.wheels == wheels
                &&& wheels_admit(blueprint.wheels@, *python_full_version)
            },
            Err(e) => e == ResolveError::BadRequiresPython && !wheels_admit(
                wheels@,
                *python_full_version,
            ),
        },
{
    let mut i: usize = 0;
    while i < wheels.len()
        invariant
            i <= wheels@.len(),
            forall|k: int|
                0 <= k < i ==> (#[trigger] wheels@[k]).1.inner.requires_python.keys().contains(
                    python_full_version.key as nat,
                ),
        decreases wheels@.len() - i,
    {
        if !wheels[i].1.inner.requires_python.satisfied_by(python_full_version) {
            return Err(ResolveError::BadRequiresPython);
        }
        i += 1;
    }
    Ok(Blueprint { pybi, wheels })
}

} // verus!
