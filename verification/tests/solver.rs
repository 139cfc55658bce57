use std::borrow::Borrow;
use std::error::Error;
use std::fmt;

use posy::adapter::{choose_package_version, confirm_requires_python, get_dependencies, ResPkg};
use posy::blueprint::{assemble_blueprint, base_packages};
use posy::model::{
    ArtifactInfo, ArtifactName, KeyRange, MarkerExpr, PkgVersion, PythonRequirement,
    ReleaseListing, Requirement, Specifier, Specifiers,
};
use posy::ranges::VersionRange;
use posy::resolve::{
    pinned, AllowPre, Blueprint, Brief, PinnedPackage, ResolveError, VersionHints,
    WheelResolveMetadata, WheelResolveMetadataInner,
};
use posy::selector::fetch_and_sort_versions;
use pubgrub::error::PubGrubError;
use pubgrub::range::Range;
use pubgrub::solver::{resolve, Dependencies, DependencyProvider};
use pubgrub::version::NumberVersion;

#[derive(Clone, PartialEq, Eq, Hash, Debug)]
struct Pkg(ResPkg);

impl fmt::Display for Pkg {
    fn fmt(&self, f: &mut fmt::Formatter<'_>) -> fmt::Result {
        f.write_str(&format!("{:?}", self.0))
    }
}

#[derive(Debug)]
struct Failed(ResolveError);

impl fmt::Display for Failed {
    fn fmt(&self, f: &mut fmt::Formatter<'_>) -> fmt::Result {
        f.write_str(&format!("{:?}", self.0))
    }
}

impl Error for Failed {}

fn failed(e: ResolveError) -> Box<dyn Error> {
    Box::new(Failed(e))
}

struct Release {
    listing: ReleaseListing,
    metadata: WheelResolveMetadataInner,
}

struct Index {
    packages: Vec<(String, Vec<Release>)>,
}

impl Index {
    fn releases(&self, name: &str) -> &[Release] {
        match self.packages.iter().find(|(n, _)| n == name) {
            Some((_, releases)) => releases,
            None => &[],
        }
    }

    fn listings(&self, name: &str) -> Vec<ReleaseListing> {
        self.releases(name)
            .iter()
            .map(|r| ReleaseListing {
                version: r.listing.version,
                artifacts: r.listing.artifacts.iter().map(copy_artifact).collect(),
            })
            .collect()
    }

    fn metadata(&self, name: &str, key: u32) -> Option<&WheelResolveMetadataInner> {
        self.releases(name).iter().find(|r| r.listing.version.key == key).map(|r| &r.metadata)
    }
}

fn copy_artifact(ai: &ArtifactInfo) -> ArtifactInfo {
    ArtifactInfo {
        name: ArtifactName::Wheel(ai.url.clone()),
        url: ai.url.clone(),
        hash: ai.hash.clone(),
        requires_python: None,
        yanked: ai.yanked,
    }
}

struct Provider<'a> {
    index: &'a Index,
    brief: &'a Brief,
    hints: &'a VersionHints<'a>,
    env: Vec<(String, String)>,
    python: PkgVersion,
}

impl<'a> DependencyProvider<Pkg, NumberVersion> for Provider<'a> {
    fn choose_package_version<T: Borrow<Pkg>, U: Borrow<Range<NumberVersion>>>(
        &self,
        mut potential_packages: impl Iterator<Item = (T, U)>,
    ) -> Result<(T, Option<NumberVersion>), Box<dyn Error>> {
        let (pkg, range) = potential_packages.next().unwrap();
        let respkg: ResPkg = {
            let p: &Pkg = pkg.borrow();
            p.0.clone()
        };
        let range = VersionRange {
            inner: {
                let r: &Range<NumberVersion> = range.borrow();
                r.clone()
            },
        };
        let versions = match &respkg {
            ResPkg::Root => vec![],
            ResPkg::Package(name, _) => fetch_and_sort_versions(
                &self.index.listings(name),
                self.brief,
                name,
                Some(&self.python),
                self.hints,
            ),
        };
        let chosen = choose_package_version(&respkg, &range, &versions);
        if let (Some(version), ResPkg::Package(name, _)) = (&chosen, &respkg) {
            let metadata = self.index.metadata(name, version.key).unwrap();
            confirm_requires_python(metadata, &self.python).map_err(failed)?;
        }
        Ok((pkg, chosen.map(|version| NumberVersion(version.key))))
    }

    fn get_dependencies(
        &self,
        pkg: &Pkg,
        version: &NumberVersion,
    ) -> Result<Dependencies<Pkg, NumberVersion>, Box<dyn Error>> {
        let metadata = match &pkg.0 {
            ResPkg::Root => None,
            ResPkg::Package(name, _) => self.index.metadata(name, version.0),
        };
        let version = PkgVersion { key: version.0, pre: false };
        let constraints =
            get_dependencies(&pkg.0, &version, self.brief, metadata, &self.env).map_err(failed)?;
        Ok(Dependencies::Known(
            constraints.into_iter().map(|c| (Pkg(c.pkg), c.range.inner)).collect(),
        ))
    }
}

fn s(text: &str) -> String {
    text.to_string()
}

fn release(
    name: &str,
    key: u32,
    yanked: bool,
    requires_dist: Vec<Requirement>,
    extras: &[&str],
) -> Release {
    let url = format!("https://example.org/{}-{}.whl", name, key);
    Release {
        listing: ReleaseListing {
            version: PkgVersion { key, pre: false },
            artifacts: vec![ArtifactInfo {
                name: ArtifactName::Wheel(url.clone()),
                url: url.clone(),
                hash: Some(format!("sha-{}-{}", name, key)),
                requires_python: None,
                yanked,
            }],
        },
        metadata: WheelResolveMetadataInner {
            requires_dist,
            requires_python: Specifiers(vec![]),
            extras: extras.iter().map(|e| s(e)).collect(),
        },
    }
}

fn requirement(name: &str, extras: &[&str], low: u32, marker: Option<MarkerExpr>) -> Requirement {
    Requirement {
        name: s(name),
        specifiers: Specifiers(vec![Specifier {
            ranges: vec![KeyRange { start: low, end: u32::MAX }],
        }]),
        extras: extras.iter().map(|e| s(e)).collect(),
        env_marker_expr: marker,
    }
}

fn dep_for_a() -> Vec<Requirement> {
    vec![requirement("dep", &[], 2, Some(MarkerExpr::Equal(s("extra"), s("a"))))]
}

fn index(yank_newest: bool) -> Index {
    Index {
        packages: vec![
            (
                s("pkg"),
                vec![
                    release("pkg", 1, false, dep_for_a(), &["a"]),
                    release("pkg", 2, false, dep_for_a(), &["a"]),
                    release("pkg", 3, yank_newest, dep_for_a(), &["a"]),
                ],
            ),
            (
                s("dep"),
                vec![
                    release("dep", 1, false, vec![], &[]),
                    release("dep", 2, false, vec![], &[]),
                    release("dep", 3, false, vec![], &[]),
                ],
            ),
        ],
    }
}

fn brief(requirements: Vec<Requirement>) -> Brief {
    Brief {
        python: PythonRequirement { name: s("cpython"), specifiers: Specifiers(vec![]) },
        requirements,
        allow_pre: AllowPre::default(),
    }
}

fn plan(index: &Index, brief: &Brief, like: Option<&Blueprint>) -> Result<Blueprint, String> {
    let hints = match like {
        Some(blueprint) => VersionHints::from(blueprint),
        None => VersionHints::new(),
    };
    let python = PkgVersion { key: 311, pre: false };
    let provider = Provider { index, brief, hints: &hints, env: vec![], python };
    let solution = match resolve(&provider, Pkg(ResPkg::Root), NumberVersion(0)) {
        Ok(solution) => solution,
        Err(PubGrubError::NoSolution(_)) => return Err(s("no solution")),
        Err(PubGrubError::ErrorRetrievingDependencies { source, .. }) => {
            return Err(format!("{}", source))
        }
        Err(e) => return Err(format!("{}", e)),
    };
    let mut chosen: Vec<(ResPkg, PkgVersion)> = solution
        .into_iter()
        .map(|(pkg, v)| (pkg.0, PkgVersion { key: v.0, pre: false }))
        .collect();
    chosen.sort_by_key(|(pkg, _)| format!("{:?}", pkg));
    let mut wheels = Vec::new();
    for (name, version) in base_packages(&chosen) {
        let release = index
            .releases(&name)
            .iter()
            .find(|r| r.listing.version == version)
            .unwrap();
        let metadata = WheelResolveMetadata {
            provenance: release.listing.artifacts[0].url.clone(),
            inner: WheelResolveMetadataInner {
                requires_dist: vec![],
                requires_python: Specifiers(vec![]),
                extras: release.metadata.extras.clone(),
            },
        };
        wheels.push((pinned(&release.listing.artifacts, name, version), metadata));
    }
    let pybi = PinnedPackage { name: s("cpython"), version: python, hashes: vec![s("sha-py")] };
    assemble_blueprint(pybi, wheels, &python).map_err(|e| format!("{:?}", e))
}

fn pins(blueprint: &Blueprint) -> Vec<(String, u32)> {
    blueprint.wheels.iter().map(|(pin, _)| (pin.name.clone(), pin.version.key)).collect()
}

#[test]
fn an_extra_resolves_to_the_package_and_what_the_extra_needs() {
    let index = index(false);
    let blueprint = plan(&index, &brief(vec![requirement("pkg", &["a"], 0, None)]), None).unwrap();
    assert_eq!(pins(&blueprint), vec![(s("dep"), 3), (s("pkg"), 3)]);
    assert_eq!(blueprint.wheels[1].0.hashes, vec![s("sha-pkg-3")]);
    assert_eq!(blueprint.wheels[1].1.provenance, "https://example.org/pkg-3.whl");
    assert_eq!(blueprint.pybi.name, "cpython");
}

#[test]
fn without_the_extra_its_requirements_stay_out() {
    let index = index(false);
    let blueprint = plan(&index, &brief(vec![requirement("pkg", &[], 0, None)]), None).unwrap();
    assert_eq!(pins(&blueprint), vec![(s("pkg"), 3)]);
}

#[test]
fn a_package_is_pinned_once_whatever_extras_are_asked() {
    let index = index(false);
    let requirements = vec![
        requirement("pkg", &["a"], 0, None),
        requirement("pkg", &[], 2, None),
        requirement("dep", &[], 0, None),
    ];
    let blueprint = plan(&index, &brief(requirements), None).unwrap();
    assert_eq!(pins(&blueprint), vec![(s("dep"), 3), (s("pkg"), 3)]);
}

#[test]
fn an_earlier_blueprint_keeps_its_versions() {
    let index = index(false);
    let b = brief(vec![requirement("pkg", &["a"], 0, None)]);
    let first = plan(&index, &b, None).unwrap();
    let like = Blueprint {
        pybi: first.pybi,
        wheels: vec![(
            PinnedPackage { name: s("pkg"), version: PkgVersion { key: 1, pre: false }, hashes: vec![] },
            WheelResolveMetadata {
                provenance: s("earlier"),
                inner: WheelResolveMetadataInner {
                    requires_dist: vec![],
                    requires_python: Specifiers(vec![]),
                    extras: vec![],
                },
            },
        )],
    };
    let again = plan(&index, &b, Some(&like)).unwrap();
    assert_eq!(pins(&again), vec![(s("dep"), 3), (s("pkg"), 1)]);
}

#[test]
fn a_yanked_release_stays_only_while_its_hash_is_pinned() {
    let index = index(true);
    let b = brief(vec![requirement("pkg", &[], 0, None)]);
    assert_eq!(pins(&plan(&index, &b, None).unwrap()), vec![(s("pkg"), 2)]);
    let metadata = || WheelResolveMetadata {
        provenance: s("earlier"),
        inner: WheelResolveMetadataInner {
            requires_dist: vec![],
            requires_python: Specifiers(vec![]),
            extras: vec![],
        },
    };
    let pin = |hash: &str| Blueprint {
        pybi: PinnedPackage { name: s("cpython"), version: PkgVersion { key: 311, pre: false }, hashes: vec![] },
        wheels: vec![(
            PinnedPackage { name: s("pkg"), version: PkgVersion { key: 3, pre: false }, hashes: vec![s(hash)] },
            metadata(),
        )],
    };
    assert_eq!(pins(&plan(&index, &b, Some(&pin("sha-pkg-3"))).unwrap()), vec![(s("pkg"), 3)]);
    assert_eq!(pins(&plan(&index, &b, Some(&pin("sha-gone"))).unwrap()), vec![(s("pkg"), 2)]);
}

#[test]
fn an_unknown_extra_and_an_empty_range_fail() {
    let index = index(false);
    let missing = plan(&index, &brief(vec![requirement("pkg", &["b"], 0, None)]), None);
    assert!(missing.unwrap_err().contains("MissingExtra"));
    let none = plan(&index, &brief(vec![requirement("dep", &[], 10, None)]), None);
    assert_eq!(none.unwrap_err(), "no solution");
}

#[test]
fn a_blueprint_is_made_of_wheels_that_admit_the_interpreter() {
    let wheel = |low: u32| {
        (
            PinnedPackage { name: s("w"), version: PkgVersion { key: 1, pre: false }, hashes: vec![] },
            WheelResolveMetadata {
                provenance: s("url"),
                inner: WheelResolveMetadataInner {
                    requires_dist: vec![],
                    requires_python: Specifiers(vec![Specifier {
                        ranges: vec![KeyRange { start: low, end: u32::MAX }],
                    }]),
                    extras: vec![],
                },
            },
        )
    };
    let pybi = || PinnedPackage { name: s("cpython"), version: PkgVersion { key: 311, pre: false }, hashes: vec![] };
    let python = PkgVersion { key: 311, pre: false };
    let ok = assemble_blueprint(pybi(), vec![wheel(300), wheel(311)], &python).unwrap();
    assert_eq!(ok.wheels.len(), 2);
    assert_eq!(
        assemble_blueprint(pybi(), vec![wheel(300), wheel(312)], &python).err(),
        Some(ResolveError::BadRequiresPython)
    );
    assert!(assemble_blueprint(pybi(), vec![], &python).is_ok());
}
