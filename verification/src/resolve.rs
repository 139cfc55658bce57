//! From a brief to a blueprint: which versions are offered and in which
//! order, which interpreter bundle is taken, and what is pinned.

use vstd::prelude::*;
use vstd::string::*;
use crate::text::views;
use crate::expand::lemma_views_push;
use crate::builders::contains_text;
use crate::model::{
    ArtifactInfo, PkgVersion, PythonRequirement, Requirement, Specifiers, WheelCoreMetadata,
};

verus! {

/// For which packages pre-releases may be chosen.
#[derive(Debug)]
pub enum AllowPre {
    /// For these packages.
    Only(Vec<String>),
    /// For every package.
    All,
}

impl AllowPre {
    /// Whether pre-releases of a package of this name may be chosen.
    pub open spec fn allows(&self, package: Seq<char>) -> bool {
        match self {
            AllowPre::Only(pkgs) => views(pkgs@).contains(package),
            AllowPre::All => true,
        }
    }

    /// Whether pre-releases of `package` may be chosen.
    pub fn allow_pre_for(&self, package: &String) -> (r: bool)
        ensures
            r == self.allows(package@),
    {
        match self {
            AllowPre::Only(pkgs) => contains_text(pkgs, package),
            AllowPre::All => true,
        }
    }
}

impl Default for AllowPre {
    fn default() -> (r: AllowPre)
        ensures
            r matches AllowPre::Only(pkgs) && pkgs@.len() == 0,
    {
        AllowPre::Only(Vec::new())
    }
}

/// The written form of an `AllowPre`: a list of packages, or a word.
#[derive(Debug)]
pub enum AllowPreSerdeHelper {
    Only(Vec<String>),
    Other(String),
}

/// Why a written value cannot be read.
#[derive(Clone, Copy, Debug, PartialEq, Eq, Structural)]
pub enum InputError {
    /// Neither a list of packages nor the word `:all:`.
    BadAllowPre,
}

impl AllowPre {
    /// Reads the written form: a list stands for its packages, the word
    /// `:all:` for every package, and any other word is an error.
    pub fn try_from(value: AllowPreSerdeHelper) -> (r: Result<AllowPre, InputError>)
        ensures
            match value {
                AllowPreSerdeHelper::Only(pkgs) => r == Ok::<AllowPre, InputError>(
                    AllowPre::Only(pkgs),
                ),
                AllowPreSerdeHelper::Other(word) => if word@ == ":all:"@ {
                    r == Ok::<AllowPre, InputError>(AllowPre::All)
                } else {
                    r == Err::<AllowPre, InputError>(InputError::BadAllowPre)
                },
            },
    {
        match value {
            AllowPreSerdeHelper::Only(pkgs) => Ok(AllowPre::Only(pkgs)),
            AllowPreSerdeHelper::Other(word) => {
                if crate::expand::same_text(word.as_str(), ":all:") {
                    Ok(AllowPre::All)
                } else {
                    Err(InputError::BadAllowPre)
                }
            },
        }
    }
}

impl AllowPreSerdeHelper {
    /// The written form of `value`.
    pub fn from(value: AllowPre) -> (r: AllowPreSerdeHelper)
        ensures
            match value {
                AllowPre::Only(pkgs) => r == AllowPreSerdeHelper::Only(pkgs),
                AllowPre::All => r matches AllowPreSerdeHelper::Other(word) && word@ == ":all:"@,
            },
    {
        match value {
            AllowPre::Only(pkgs) => AllowPreSerdeHelper::Only(pkgs),
            AllowPre::All => AllowPreSerdeHelper::Other(":all:".to_owned()),
        }
    }
}

/// Writing an `AllowPre` down and reading it again gives it back.
pub proof fn lemma_allow_pre_round_trip(
    value: AllowPre,
    written: AllowPreSerdeHelper,
    read: Result<AllowPre, InputError>,
)
    requires
        match value {
            AllowPre::Only(pkgs) => written == AllowPreSerdeHelper::Only(pkgs),
            AllowPre::All => written matches AllowPreSerdeHelper::Other(word) && word@ == ":all:"@,
        },
        match written {
            AllowPreSerdeHelper::Only(pkgs) => read == Ok::<AllowPre, InputError>(
                AllowPre::Only(pkgs),
            ),
            AllowPreSerdeHelper::Other(word) => if word@ == ":all:"@ {
                read == Ok::<AllowPre, InputError>(AllowPre::All)
            } else {
                read == Err::<AllowPre, InputError>(InputError::BadAllowPre)
            },
        },
    ensures
        read == Ok::<AllowPre, InputError>(value),
{
}

/// Whether `value` allows pre-releases of no package at all.
pub fn allow_pre_is_empty(value: &AllowPre) -> (r: bool)
    ensures
        r == (value matches AllowPre::Only(pkgs) && pkgs@.len() == 0),
{
    match value {
        AllowPre::Only(pkgs) => pkgs.len() == 0,
        AllowPre::All => false,
    }
}

/// Why a resolve fails.
#[derive(Clone, Copy, Debug, PartialEq, Eq, Structural)]
pub enum ResolveError {
    /// No interpreter bundle meets the requirement and runs on the platform.
    NoCompatiblePybi,
    /// A marker names a variable that the environment does not have.
    UnknownMarkerVariable,
    /// The metadata of the chosen release does not admit the interpreter,
    /// although the index offered the release for it.
    BadRequiresPython,
    /// An extra was asked of a release that does not have it.
    MissingExtra,
    /// The dependencies of a package were asked without its metadata.
    MissingMetadata,
}

/// What the user wants an environment to hold.
#[derive(Debug)]
pub struct Brief {
    pub python: PythonRequirement,
    pub requirements: Vec<Requirement>,
    pub allow_pre: AllowPre,
}

/// A release with the hashes of all its artifacts.
#[derive(Debug)]
pub struct PinnedPackage {
    pub name: String,
    pub version: PkgVersion,
    pub hashes: Vec<String>,
}

/// The part of a wheel's metadata that the resolver's decisions rest on.
#[derive(Debug)]
pub struct WheelResolveMetadataInner {
    pub requires_dist: Vec<Requirement>,
    pub requires_python: Specifiers,
    pub extras: Vec<String>,
}

/// The metadata that a resolve used for a release, and where it came from.
#[derive(Debug)]
pub struct WheelResolveMetadata {
    pub provenance: String,
    pub inner: WheelResolveMetadataInner,
}

impl WheelResolveMetadata {
    /// Keeps what the resolver uses of a wheel's metadata, with the address
    /// of the artifact that it was read from.
    pub fn from(ai: &ArtifactInfo, m: WheelCoreMetadata) -> (r: WheelResolveMetadata)
        ensures
            r.provenance@ == ai.url@,
            r.inner.requires_dist == m.requires_dist,
            r.inner.requires_python == m.requires_python,
            r.inner.extras == m.extras,
    {
        let provenance = ai.url.clone();
        let inner = WheelResolveMetadataInner {
            requires_dist: m.requires_dist,
            requires_python: m.requires_python,
            extras: m.extras,
        };
        WheelResolveMetadata { provenance, inner }
    }
}

/// A fully pinned environment: one interpreter bundle and the wheels.
#[derive(Debug)]
pub struct Blueprint {
    pub pybi: PinnedPackage,
    pub wheels: Vec<(PinnedPackage, WheelResolveMetadata)>,
}

/// The pin that speaks for `name`: the last one of that name.
pub open spec fn hint_for(pins: Seq<&PinnedPackage>, name: Seq<char>) -> Option<&PinnedPackage>
    decreases pins.len(),
{
    if pins.len() == 0 {
        None
    } else if pins.last().name@ == name {
        Some(pins.last())
    } else {
        hint_for(pins.drop_last(), name)
    }
}

/// The pins of an earlier blueprint: the interpreter's, then the wheels'.
pub open spec fn blueprint_pins(blueprint: &Blueprint) -> Seq<&PinnedPackage> {
    seq![&blueprint.pybi] + Seq::new(
        blueprint.wheels@.len(),
        |i: int| &blueprint.wheels@[i].0,
    )
}

/// Versions to prefer, by package, taken from an earlier blueprint.
pub struct VersionHints<'a> {
    pub pins: Vec<&'a PinnedPackage>,
}

impl<'a> VersionHints<'a> {
    /// No hints.
    pub fn new() -> (r: VersionHints<'a>)
        ensures
            r.pins@ == Seq::<&PinnedPackage>::empty(),
    {
        VersionHints { pins: Vec::new() }
    }

    /// Adds a pin; it replaces an earlier pin of the same package.
    pub fn add_pinned(&mut self, pin: &'a PinnedPackage)
        ensures
            final(self).pins@ == old(self).pins@.push(pin),
            forall|name: Seq<char>|
                #[trigger] hint_for(final(self).pins@, name) == if pin.name@ == name {
                    Some(pin)
                } else {
                    hint_for(old(self).pins@, name)
                },
    {
        self.pins.push(pin);
        assert(self.pins@.drop_last() =~= old(self).pins@);
    }

    /// The hints of an earlier blueprint.
    pub fn from(blueprint: &'a Blueprint) -> (r: VersionHints<'a>)
        ensures
            r.pins@ == blueprint_pins(blueprint),
    {
        let mut hints = VersionHints::new();
        hints.add_pinned(&blueprint.pybi);
        let mut i: usize = 0;
        assert(hints.pins@ =~= blueprint_pins(blueprint).subrange(0, 1));
        while i < blueprint.wheels.len()
            invariant
                i <= blueprint.wheels@.len(),
                hints.pins@ == blueprint_pins(blueprint).subrange(0, i + 1),
            decreases blueprint.wheels@.len() - i,
        {
            hints.add_pinned(&blueprint.wheels[i].0);
            i += 1;
            assert(hints.pins@ =~= blueprint_pins(blueprint).subrange(0, i + 1));
        }
        assert(blueprint_pins(blueprint).subrange(0, i + 1) =~= blueprint_pins(blueprint));
        hints
    }

    /// The pin that speaks for `package`.
    pub fn get(&self, package: &String) -> (r: Option<&'a PinnedPackage>)
        ensures
            r == hint_for(self.pins@, package@),
    {
        let mut i: usize = self.pins.len();
        assert(self.pins@.subrange(0, i as int) =~= self.pins@);
        while i > 0
            invariant
                i <= self.pins@.len(),
                hint_for(self.pins@, package@) == hint_for(
                    self.pins@.subrange(0, i as int),
                    package@,
                ),
            decreases i,
        {
            let ghost before = self.pins@.subrange(0, i as int);
            i -= 1;
            assert(before.drop_last() =~= self.pins@.subrange(0, i as int));
            assert(before.last() == self.pins@[i as int]);
            if self.pins[i].name == *package {
                return Some(self.pins[i]);
            }
        }
        None
    }
}

/// The hashes that the artifacts carry, in the order of the artifacts.
pub open spec fn hashes_of(artifacts: Seq<ArtifactInfo>) -> Seq<Seq<char>>
    decreases artifacts.len(),
{
    if artifacts.len() == 0 {
        Seq::empty()
    } else if artifacts.last().hash is Some {
        hashes_of(artifacts.drop_last()).push(artifacts.last().hash->0@)
    } else {
        hashes_of(artifacts.drop_last())
    }
}

/// Pins a release with every hash among its artifacts.
pub fn pinned(artifacts: &Vec<ArtifactInfo>, name: String, version: PkgVersion) -> (r:
    PinnedPackage)
    ensures
        r.name == name,
        r.version == version,
        views(r.hashes@) == hashes_of(artifacts@),
{
    let mut hashes: Vec<String> = Vec::new();
    let mut i: usize = 0;
    assert(views(hashes@) =~= Seq::<Seq<char>>::empty());
    assert(artifacts@.subrange(0, 0) =~= Seq::<ArtifactInfo>::empty());
    while i < artifacts.len()
        invariant
            i <= artifacts@.len(),
            views(hashes@) == hashes_of(artifacts@.subrange(0, i as int)),
        decreases artifacts@.len() - i,
    {
        proof {
            let next = artifacts@.subrange(0, i + 1);
            assert(next.drop_last() =~= artifacts@.subrange(0, i as int));
            assert(next.last() == artifacts@[i as int]);
        }
        match &artifacts[i].hash {
            Some(h) => {
                proof {
                    lemma_views_push(hashes@, *h);
                }
                hashes.push(h.clone());
            },
            None => {},
        }
        i += 1;
    }
    assert(artifacts@.subrange(0, i as int) =~= artifacts@);
    PinnedPackage { name, version, hashes }
}

} // verus!
