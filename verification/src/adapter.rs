//! What the solver is told: the packages that it decides on, the
//! constraints that requirements lower to, and the version to try next.

use vstd::prelude::*;
use vstd::string::*;
use crate::text::views;
use crate::expand::same_text;
use crate::builders::contains_text;
use crate::model::{MarkerExpr, PkgVersion, Requirement};
use crate::ranges::{
    keys_from, range_contains, range_exact, range_higher_than, range_set, VersionRange,
};
use crate::specifiers::specifiers_to_pubgrub;
use crate::resolve::{Brief, ResolveError, WheelResolveMetadataInner};

verus! {

/// A package as the solver sees it: the root that stands for the brief, a
/// package, or a package with one of its extras.
#[derive(Debug, Clone, PartialEq, Eq, Hash)]
pub enum ResPkg {
    Root,
    Package(String, Option<String>),
}

/// A solver package by the text of its names.
pub ghost enum ResPkgView {
    Root,
    Package(Seq<char>, Option<Seq<char>>),
}

/// The text of an optional string.
pub open spec fn opt_view(s: Option<String>) -> Option<Seq<char>> {
    match s {
        Some(x) => Some(x@),
        None => None,
    }
}

/// The text of an optional borrowed string.
pub open spec fn opt_ref_view(s: Option<&String>) -> Option<Seq<char>> {
    match s {
        Some(x) => Some(x@),
        None => None,
    }
}

impl View for ResPkg {
    type V = ResPkgView;

    open spec fn view(&self) -> ResPkgView {
        match self {
            ResPkg::Root => ResPkgView::Root,
            ResPkg::Package(name, extra) => ResPkgView::Package(name@, opt_view(*extra)),
        }
    }
}

/// A constraint on a package: the versions that may be chosen.
pub struct Constraint {
    pub pkg: ResPkg,
    pub range: VersionRange,
}

/// A constraint as a package and a set of version keys.
pub ghost struct ConstraintView {
    pub pkg: ResPkgView,
    pub keys: Set<nat>,
}

/// The views of a list of constraints.
pub open spec fn constraint_views(cs: Seq<Constraint>) -> Seq<ConstraintView> {
    Seq::new(cs.len(), |i: int| ConstraintView { pkg: cs[i].pkg@, keys: range_set(cs[i].range) })
}

/// The value of `var` in the environment: that of the first entry of that
/// name.
pub open spec fn lookup(env: Seq<(String, String)>, var: Seq<char>) -> Option<Seq<char>>
    decreases env.len(),
{
    if env.len() == 0 {
        None
    } else if env[0].0@ == var {
        Some(env[0].1@)
    } else {
        lookup(env.drop_first(), var)
    }
}

/// The value of a marker variable. `extra` always has one: the active
/// extra, or the empty text where none is active.
pub open spec fn marker_var(
    env: Seq<(String, String)>,
    extra: Option<Seq<char>>,
    var: Seq<char>,
) -> Option<Seq<char>> {
    if var == "extra"@ {
        Some(
            match extra {
                Some(e) => e,
                None => Seq::empty(),
            },
        )
    } else {
        lookup(env, var)
    }
}

/// Whether a marker holds; `None` where it names a variable without value.
pub open spec fn marker_holds(
    expr: MarkerExpr,
    env: Seq<(String, String)>,
    extra: Option<Seq<char>>,
) -> Option<bool>
    decreases expr,
{
    match expr {
        MarkerExpr::And(a, b) => {
            let x = marker_holds(*a, env, extra);
            let y = marker_holds(*b, env, extra);
            if x is Some && y is Some {
                Some(x->0 && y->0)
            } else {
                None
            }
        },
        MarkerExpr::Or(a, b) => {
            let x = marker_holds(*a, env, extra);
            let y = marker_holds(*b, env, extra);
            if x is Some && y is Some {
                Some(x->0 || y->0)
            } else {
                None
            }
        },
        MarkerExpr::Equal(var, value) => match marker_var(env, extra, var@) {
            Some(v) => Some(v == value@),
            None => None,
        },
        MarkerExpr::NotEqual(var, value) => match marker_var(env, extra, var@) {
            Some(v) => Some(v != value@),
            None => None,
        },
    }
}

/// The marker variables of a resolve, with the extra that is active.
pub struct HashMapEnv<'a> {
    pub basic_env: &'a Vec<(String, String)>,
    pub extra: Option<&'a String>,
}

impl<'a> HashMapEnv<'a> {
    /// The value of a marker variable.
    pub fn get_marker_var(&self, var: &str) -> (r: Option<&'a str>)
        ensures
            match r {
                Some(v) => marker_var(self.basic_env@, opt_ref_view(self.extra), var@) == Some(v@),
                None => marker_var(self.basic_env@, opt_ref_view(self.extra), var@) is None,
            },
    {
        if same_text(var, "extra") {
            return match self.extra {
                Some(e) => Some(e.as_str()),
                None => {
                    let empty: &'static str = "";
                    proof {
                        reveal_strlit("");
                        assert(empty@ =~= Seq::<char>::empty());
                    }
                    Some(empty)
                },
            };
        }
        let env = self.basic_env;
        let mut i: usize = 0;
        assert(env@.subrange(0, env@.len() as int) =~= env@);
        while i < env.len()
            invariant
                i <= env@.len(),
                env == self.basic_env,
                var@ != "extra"@,
                lookup(env@, var@) == lookup(env@.subrange(i as int, env@.len() as int), var@),
            decreases env@.len() - i,
        {
            let ghost rest = env@.subrange(i as int, env@.len() as int);
            assert(rest[0] == env@[i as int]);
            assert(rest.drop_first() =~= env@.subrange(i + 1, env@.len() as int));
            if same_text(env[i].0.as_str(), var) {
                return Some(env[i].1.as_str());
            }
            i += 1;
        }
        None
    }

    /// Whether a marker holds in this environment.
    pub fn eval(&self, expr: &MarkerExpr) -> (r: Result<bool, ResolveError>)
        ensures
            match r {
                Ok(b) => marker_holds(*expr, self.basic_env@, opt_ref_view(self.extra)) == Some(b),
                Err(e) => e == ResolveError::UnknownMarkerVariable && marker_holds(
                    *expr,
                    self.basic_env@,
                    opt_ref_view(self.extra),
                ) is None,
            },
        decreases expr,
    {
        match expr {
            MarkerExpr::And(a, b) => {
                let x = self.eval(a);
                let y = self.eval(b);
                match (x, y) {
                    (Ok(p), Ok(q)) => Ok(p && q),
                    _ => Err(ResolveError::UnknownMarkerVariable),
                }
            },
            MarkerExpr::Or(a, b) => {
                let x = self.eval(a);
                let y = self.eval(b);
                match (x, y) {
                    (Ok(p), Ok(q)) => Ok(p || q),
                    _ => Err(ResolveError::UnknownMarkerVariable),
                }
            },
            MarkerExpr::Equal(var, value) => match self.get_marker_var(var.as_str()) {
                Some(v) => Ok(same_text(v, value.as_str())),
                None => Err(ResolveError::UnknownMarkerVariable),
            },
            MarkerExpr::NotEqual(var, value) => match self.get_marker_var(var.as_str()) {
                Some(v) => Ok(!same_text(v, value.as_str())),
                None => Err(ResolveError::UnknownMarkerVariable),
            },
        }
    }
}

/// The packages that a requirement constrains: the package itself where no
/// extra is asked for, and the package with each extra where some are.
pub open spec fn targets(req: Requirement) -> Seq<ResPkgView> {
    if req.extras@.len() == 0 {
        seq![ResPkgView::Package(req.name@, None)]
    } else {
        Seq::new(
            req.extras@.len(),
            |i: int| ResPkgView::Package(req.name@, Some(req.extras@[i]@)),
        )
    }
}

/// The constraints of one requirement: its versions, for each of its
/// targets.
pub open spec fn requirement_constraints(req: Requirement) -> Seq<ConstraintView> {
    Seq::new(
        targets(req).len(),
        |i: int| ConstraintView { pkg: targets(req)[i], keys: req.specifiers.keys() },
    )
}

/// The constraints in `acc` and then those of the requirements whose marker
/// holds or that have none, in order; an error where a marker names a
/// variable without value.
pub open spec fn lowered(
    acc: Seq<ConstraintView>,
    reqs: Seq<Requirement>,
    env: Seq<(String, String)>,
    extra: Option<Seq<char>>,
) -> Result<Seq<ConstraintView>, ResolveError>
    decreases reqs.len(),
{
    if reqs.len() == 0 {
        Ok(acc)
    } else {
        let req = reqs[0];
        let holds = match req.env_marker_expr {
            Some(expr) => marker_holds(expr, env, extra),
            None => Some(true),
        };
        if holds is None {
            Err(ResolveError::UnknownMarkerVariable)
        } else if holds->0 {
            lowered(acc + requirement_constraints(req), reqs.drop_first(), env, extra)
        } else {
            lowered(acc, reqs.drop_first(), env, extra)
        }
    }
}

/// Appends the constraints of one requirement.
pub fn push_requirement(req: &Requirement, dc: &mut Vec<Constraint>)
    ensures
        constraint_views(final(dc)@) == constraint_views(old(dc)@) + requirement_constraints(*req),
{
    let ghost start = constraint_views(dc@);
    let ghost expected = requirement_constraints(*req);
    if req.extras.len() == 0 {
        let pkg = ResPkg::Package(req.name.clone(), None);
        let range = specifiers_to_pubgrub(&req.specifiers);
        dc.push(Constraint { pkg, range });
        assert(constraint_views(dc@) =~= start + expected);
    } else {
        let mut i: usize = 0;
        assert(constraint_views(dc@) =~= start + expected.subrange(0, 0));
        while i < req.extras.len()
            invariant
                i <= req.extras@.len(),
                req.extras@.len() > 0,
                expected == requirement_constraints(*req),
                constraint_views(dc@) == start + expected.subrange(0, i as int),
            decreases req.extras@.len() - i,
        {
            let ghost before = constraint_views(dc@);
            let pkg = ResPkg::Package(req.name.clone(), Some(req.extras[i].clone()));
            let range = specifiers_to_pubgrub(&req.specifiers);
            dc.push(Constraint { pkg, range });
            i += 1;
            assert(constraint_views(dc@) =~= start + expected.subrange(0, i as int)) by {
                assert(constraint_views(dc@) =~= before.push(expected[i - 1]));
            }
        }
        assert(expected.subrange(0, i as int) =~= expected);
    }
}

/// Lowers requirements to constraints on solver packages.
///
/// A requirement whose marker does not hold is passed over. Each of the
/// others constrains its package, or its package with each of the extras
/// that it asks for, to the versions that meet all its specifiers.
pub fn requirements_to_pubgrub(
    reqs: &Vec<Requirement>,
    dc: &mut Vec<Constraint>,
    env: &Vec<(String, String)>,
    extra: Option<&String>,
) -> (r: Result<(), ResolveError>)
    ensures
        match r {
            Ok(_) => lowered(constraint_views(old(dc)@), reqs@, env@, opt_ref_view(extra)) == Ok::<
                Seq<ConstraintView>,
                ResolveError,
            >(constraint_views(final(dc)@)),
            Err(e) => lowered(constraint_views(old(dc)@), reqs@, env@, opt_ref_view(extra))
                == Err::<Seq<ConstraintView>, ResolveError>(e),
        },
{
    let markers = HashMapEnv { basic_env: env, extra };
    let ghost goal = lowered(constraint_views(dc@), reqs@, env@, opt_ref_view(extra));
    let mut i: usize = 0;
    assert(reqs@.subrange(0, reqs@.len() as int) =~= reqs@);
    while i < reqs.len()
        invariant
            i <= reqs@.len(),
            markers.basic_env == env,
            markers.extra == extra,
            goal == lowered(constraint_views(old(dc)@), reqs@, env@, opt_ref_view(extra)),
            goal == lowered(
                constraint_views(dc@),
                reqs@.subrange(i as int, reqs@.len() as int),
                env@,
                opt_ref_view(extra),
            ),
        decreases reqs@.len() - i,
    {
        let ghost rest = reqs@.subrange(i as int, reqs@.len() as int);
        assert(rest[0] == reqs@[i as int]);
        assert(rest.drop_first() =~= reqs@.subrange(i + 1, reqs@.len() as int));
        let req = &reqs[i];
        let holds = match &req.env_marker_expr {
            Some(expr) => match markers.eval(expr) {
                Ok(b) => b,
                Err(e) => {
                    return Err(e);
                },
            },
            None => true,
        };
        if holds {
            push_requirement(req, dc);
        }
        i += 1;
    }
    Ok(())
}

/// The version of the root package.
pub fn root_version() -> (r: PkgVersion)
    ensures
        r == (PkgVersion { key: 0, pre: false }),
{
    PkgVersion { key: 0, pre: false }
}

/// The first of the versions whose key is among `keys`.
pub open spec fn first_in_range(versions: Seq<PkgVersion>, keys: Set<nat>) -> Option<PkgVersion>
    decreases versions.len(),
{
    if versions.len() == 0 {
        None
    } else if keys.contains(versions[0].key as nat) {
        Some(versions[0])
    } else {
        first_in_range(versions.drop_first(), keys)
    }
}

/// The version to try for a package: the root's own version for the root,
/// and for a package the most preferred of its offered versions that the
/// range holds, if there is one.
pub fn choose_package_version(pkg: &ResPkg, range: &VersionRange, versions: &Vec<PkgVersion>) -> (r:
    Option<PkgVersion>)
    ensures
        r == match pkg {
            ResPkg::Root => Some(PkgVersion { key: 0, pre: false }),
            ResPkg::Package(_, _) => first_in_range(versions@, range_set(*range)),
        },
{
    match pkg {
        ResPkg::Root => Some(root_version()),
        ResPkg::Package(_, _) => {
            let mut i: usize = 0;
            assert(versions@.subrange(0, versions@.len() as int) =~= versions@);
            while i < versions.len()
                invariant
                    i <= versions@.len(),
                    pkg is Package,
                    first_in_range(versions@, range_set(*range)) == first_in_range(
                        versions@.subrange(i as int, versions@.len() as int),
                        range_set(*range),
                    ),
                decreases versions@.len() - i,
            {
                let ghost rest = versions@.subrange(i as int, versions@.len() as int);
                assert(rest[0] == versions@[i as int]);
                assert(rest.drop_first() =~= versions@.subrange(i + 1, versions@.len() as int));
                if range_contains(range, versions[i].key) {
                    return Some(versions[i]);
                }
                i += 1;
            }
            None
        },
    }
}

/// Holds the metadata of a chosen release against the interpreter: it is an
/// error if the release does not admit the interpreter's version.
pub fn confirm_requires_python(
    metadata: &WheelResolveMetadataInner,
    python_full_version: &PkgVersion,
) -> (r: Result<(), ResolveError>)
    ensures
        r is Ok <==> metadata.requires_python.keys().contains(python_full_version.key as nat),
        r is Err ==> r == Err::<(), ResolveError>(ResolveError::BadRequiresPython),
{
    if metadata.requires_python.satisfied_by(python_full_version) {
        Ok(())
    } else {
        Err(ResolveError::BadRequiresPython)
    }
}

/// The range that holds the one version `v`.
pub fn exact_range(v: &PkgVersion) -> (r: VersionRange)
    ensures
        range_set(r) == set![v.key as nat],
{
    if v.key < 0xffff_ffff {
        range_exact(v.key)
    } else {
        let r = range_higher_than(v.key);
        assert(keys_from(v.key as nat) =~= set![v.key as nat]);
        r
    }
}

/// What a package at a version depends on.
///
/// The root depends on what the brief requires. A package depends on what
/// its metadata requires, with its extra active where it has one; a package
/// with an extra also depends on the package itself at the same version,
/// and it is an error if the metadata does not know the extra.
pub open spec fn dependencies(
    pkg: ResPkgView,
    version: PkgVersion,
    brief: &Brief,
    metadata: Option<&WheelResolveMetadataInner>,
    env: Seq<(String, String)>,
) -> Result<Seq<ConstraintView>, ResolveError> {
    match pkg {
        ResPkgView::Root => lowered(Seq::empty(), brief.requirements@, env, None),
        ResPkgView::Package(name, extra) => match metadata {
            None => Err(ResolveError::MissingMetadata),
            Some(m) => match lowered(Seq::empty(), m.requires_dist@, env, extra) {
                Err(e) => Err(e),
                Ok(cs) => match extra {
                    None => Ok(cs),
                    Some(x) => if views(m.extras@).contains(x) {
                        Ok(
                            cs.push(
                                ConstraintView {
                                    pkg: ResPkgView::Package(name, None),
                                    keys: set![version.key as nat],
                                },
                            ),
                        )
                    } else {
                        Err(ResolveError::MissingExtra)
                    },
                },
            },
        },
    }
}

/// The constraints of a package at a version.
pub fn get_dependencies(
    pkg: &ResPkg,
    version: &PkgVersion,
    brief: &Brief,
    metadata: Option<&WheelResolveMetadataInner>,
    env: &Vec<(String, String)>,
) -> (r: Result<Vec<Constraint>, ResolveError>)
    ensures
        match r {
            Ok(dc) => dependencies(pkg@, *version, brief, metadata, env@) == Ok::<
                Seq<ConstraintView>,
                ResolveError,
            >(constraint_views(dc@)),
            Err(e) => dependencies(pkg@, *version, brief, metadata, env@) == Err::<
                Seq<ConstraintView>,
                ResolveError,
            >(e),
        },
{
    let mut dc: Vec<Constraint> = Vec::new();
    assert(constraint_views(dc@) =~= Seq::<ConstraintView>::empty());
    match pkg {
        ResPkg::Root => {
            match requirements_to_pubgrub(&brief.requirements, &mut dc, env, None) {
                Ok(_) => Ok(dc),
                Err(e) => Err(e),
            }
        },
        ResPkg::Package(name, extra) => {
            let m = match metadata {
                Some(m) => m,
                None => {
                    return Err(ResolveError::MissingMetadata);
                },
            };
            match requirements_to_pubgrub(&m.requires_dist, &mut dc, env, extra.as_ref()) {
                Ok(_) => {},
                Err(e) => {
                    return Err(e);
                },
            }
            match extra {
                Some(inner) => {
                    if !contains_text(&m.extras, inner) {
                        return Err(ResolveError::MissingExtra);
                    }
                    let ghost before = constraint_views(dc@);
                    dc.push(
                        Constraint { pkg: ResPkg::Package(name.clone(), None), range: exact_range(version) },
                    );
                    assert(constraint_views(dc@) =~= before.push(
                        ConstraintView {
                            pkg: ResPkgView::Package(name@, None),
                            keys: set![version.key as nat],
                        },
                    ));
                },
                None => {},
            }
            Ok(dc)
        },
    }
}

} // verus!
