//! The plain values that the planning rules work on.

use vstd::prelude::*;

verus! {

/// A release of a package, named by its rank in the total order of versions:
/// a higher key is a later version.
#[derive(Clone, Copy, Debug, PartialEq, Eq, Structural)]
pub struct PkgVersion {
    pub key: u32,
    pub pre: bool,
}

impl PkgVersion {
    /// Whether this is a pre-release.
    pub fn is_prerelease(&self) -> (r: bool)
        ensures
            r == self.pre,
    {
        self.pre
    }
}

/// The name of an interpreter bundle: what it distributes, and the platform
/// tags that it runs on, most preferred first.
#[derive(Debug)]
pub struct PybiName {
    pub distribution: String,
    pub version: PkgVersion,
    pub arch_tags: Vec<String>,
}

/// What the resolver reads of an interpreter bundle's metadata.
#[derive(Debug)]
pub struct PybiCoreMetadata {
    /// Marker variables by name.
    pub environment_marker_variables: Vec<(String, String)>,
    /// Wheel tags, each a literal tag or a template that ends in `-PLATFORM`.
    pub tags: Vec<String>,
}

/// The key that stands for "no upper bound" at the end of a range.
pub const VERSION_INFINITY: u32 = 0xffff_ffff;

/// The versions from `start` up to, but not including, `end`; from `start`
/// on where `end` is `VERSION_INFINITY`.
#[derive(Clone, Copy, Debug, PartialEq, Eq, Structural)]
pub struct KeyRange {
    pub start: u32,
    pub end: u32,
}

/// One version constraint, as the union of its ranges.
#[derive(Debug)]
pub struct Specifier {
    pub ranges: Vec<KeyRange>,
}

/// A conjunction of version constraints.
#[derive(Debug)]
pub struct Specifiers(pub Vec<Specifier>);

/// A predicate over marker variables.
#[derive(Debug)]
pub enum MarkerExpr {
    /// Both hold.
    And(Box<MarkerExpr>, Box<MarkerExpr>),
    /// One of them holds.
    Or(Box<MarkerExpr>, Box<MarkerExpr>),
    /// The variable has this value.
    Equal(String, String),
    /// The variable has another value.
    NotEqual(String, String),
}

/// A requirement on a package: which versions, with which extras, and under
/// which condition on the environment.
#[derive(Debug)]
pub struct Requirement {
    pub name: String,
    pub specifiers: Specifiers,
    pub extras: Vec<String>,
    pub env_marker_expr: Option<MarkerExpr>,
}

/// The requirement on the interpreter.
#[derive(Debug)]
pub struct PythonRequirement {
    pub name: String,
    pub specifiers: Specifiers,
}

/// What an artifact is, by its file name.
#[derive(Debug)]
pub enum ArtifactName {
    Pybi(PybiName),
    Wheel(String),
}

/// One published file of a release.
#[derive(Debug)]
pub struct ArtifactInfo {
    pub name: ArtifactName,
    pub url: String,
    pub hash: Option<String>,
    pub requires_python: Option<Specifiers>,
    pub yanked: bool,
}

/// What the resolver reads of a wheel's metadata.
#[derive(Debug)]
pub struct WheelCoreMetadata {
    pub requires_dist: Vec<Requirement>,
    pub requires_python: Specifiers,
    pub extras: Vec<String>,
}

/// The releases of one package with their artifacts, in the order of the
/// index.
#[derive(Debug)]
pub struct ReleaseListing {
    pub version: PkgVersion,
    pub artifacts: Vec<ArtifactInfo>,
}

} // verus!
