use posy::adapter::{
    choose_package_version, confirm_requires_python, get_dependencies, requirements_to_pubgrub,
    Constraint, HashMapEnv, ResPkg,
};
use posy::blueprint::{base_packages, marker_environment};
use posy::builders::PybiPlatform;
use posy::cache::MetadataCache;
use posy::compat::PlatformError;
use posy::failure::{failure_message, SolverFailure};
use posy::model::{
    ArtifactInfo, ArtifactName, KeyRange, MarkerExpr, PkgVersion, PybiCoreMetadata, PybiName,
    PythonRequirement, ReleaseListing, Requirement, Specifier, Specifiers, WheelCoreMetadata,
    VERSION_INFINITY,
};
use posy::resolve::{
    allow_pre_is_empty, pinned, AllowPre, AllowPreSerdeHelper, Blueprint, Brief, InputError,
    PinnedPackage, ResolveError, VersionHints, WheelResolveMetadata, WheelResolveMetadataInner,
};
use posy::selector::{fetch_and_sort_versions, pick_best_pybi, preference_key, resolve_pybi};
use posy::specifiers::specifiers_to_pubgrub;
use pubgrub::range::Range;
use pubgrub::version::NumberVersion;

fn s(text: &str) -> String {
    text.to_string()
}

fn v(key: u32) -> PkgVersion {
    PkgVersion { key, pre: false }
}

fn pre(key: u32) -> PkgVersion {
    PkgVersion { key, pre: true }
}

fn any() -> Specifiers {
    Specifiers(vec![])
}

fn at_least(start: u32) -> Specifiers {
    Specifiers(vec![Specifier { ranges: vec![KeyRange { start, end: VERSION_INFINITY }] }])
}

fn between(start: u32, end: u32) -> Specifiers {
    Specifiers(vec![Specifier { ranges: vec![KeyRange { start, end }] }])
}

fn wheel(hash: Option<&str>, yanked: bool, requires_python: Option<Specifiers>) -> ArtifactInfo {
    ArtifactInfo {
        name: ArtifactName::Wheel(s("pkg-1-py3-none-any.whl")),
        url: s("https://example.org/pkg.whl"),
        hash: hash.map(s),
        requires_python,
        yanked,
    }
}

fn pybi(arch_tags: &[&str], url: &str) -> ArtifactInfo {
    ArtifactInfo {
        name: ArtifactName::Pybi(PybiName {
            distribution: s("cpython"),
            version: v(311),
            arch_tags: arch_tags.iter().map(|t| s(t)).collect(),
        }),
        url: s(url),
        hash: Some(s(url)),
        requires_python: None,
        yanked: false,
    }
}

fn again(ai: &ArtifactInfo) -> ArtifactInfo {
    match &ai.name {
        ArtifactName::Pybi(name) => {
            let tags: Vec<&str> = name.arch_tags.iter().map(|t| t.as_str()).collect();
            pybi(&tags, &ai.url)
        }
        ArtifactName::Wheel(_) => wheel(None, ai.yanked, None),
    }
}

fn listing(version: PkgVersion, artifacts: Vec<ArtifactInfo>) -> ReleaseListing {
    ReleaseListing { version, artifacts }
}

fn brief(allow_pre: AllowPre) -> Brief {
    Brief {
        python: PythonRequirement { name: s("cpython"), specifiers: any() },
        requirements: vec![],
        allow_pre,
    }
}

fn requirement(name: &str, extras: &[&str], marker: Option<MarkerExpr>) -> Requirement {
    Requirement {
        name: s(name),
        specifiers: between(2, 5),
        extras: extras.iter().map(|e| s(e)).collect(),
        env_marker_expr: marker,
    }
}

fn keys(versions: &[PkgVersion]) -> Vec<u32> {
    versions.iter().map(|x| x.key).collect()
}

#[test]
fn allow_pre_for_named_packages_only() {
    let some = AllowPre::Only(vec![s("numpy"), s("scipy")]);
    assert!(some.allow_pre_for(&s("numpy")));
    assert!(some.allow_pre_for(&s("scipy")));
    assert!(!some.allow_pre_for(&s("pandas")));
    assert!(AllowPre::All.allow_pre_for(&s("pandas")));
    assert!(!AllowPre::default().allow_pre_for(&s("numpy")));
    assert!(allow_pre_is_empty(&AllowPre::default()));
    assert!(!allow_pre_is_empty(&some));
    assert!(!allow_pre_is_empty(&AllowPre::All));
}

#[test]
fn allow_pre_written_form_round_trips() {
    match AllowPreSerdeHelper::from(AllowPre::All) {
        AllowPreSerdeHelper::Other(word) => assert_eq!(word, ":all:"),
        AllowPreSerdeHelper::Only(_) => panic!("expected the word"),
    }
    assert!(matches!(
        AllowPre::try_from(AllowPreSerdeHelper::from(AllowPre::All)),
        Ok(AllowPre::All)
    ));
    match AllowPre::try_from(AllowPreSerdeHelper::from(AllowPre::Only(vec![s("a")]))) {
        Ok(AllowPre::Only(pkgs)) => assert_eq!(pkgs, vec![s("a")]),
        _ => panic!("expected the list"),
    }
    assert_eq!(
        AllowPre::try_from(AllowPreSerdeHelper::Other(s("all"))).err(),
        Some(InputError::BadAllowPre)
    );
    assert_eq!(
        AllowPre::try_from(AllowPreSerdeHelper::Other(s(""))).err(),
        Some(InputError::BadAllowPre)
    );
}

#[test]
fn specifiers_are_conjunctions_of_unions() {
    let specs = Specifiers(vec![
        Specifier {
            ranges: vec![KeyRange { start: 1, end: 3 }, KeyRange { start: 5, end: VERSION_INFINITY }],
        },
        Specifier { ranges: vec![KeyRange { start: 2, end: 7 }] },
    ]);
    let expected = [false, false, true, false, false, true, true, false, false];
    for (key, want) in expected.iter().enumerate() {
        assert_eq!(specs.satisfied_by(&v(key as u32)), *want);
    }
    assert!(any().satisfied_by(&v(0)));
    assert!(any().satisfied_by(&v(u32::MAX)));
    assert!(at_least(4).satisfied_by(&v(u32::MAX)));
    assert!(!Specifiers(vec![Specifier { ranges: vec![] }]).satisfied_by(&v(1)));

    let range = specifiers_to_pubgrub(&specs);
    let two_to_three = Range::between(NumberVersion(2), NumberVersion(3));
    let five_to_seven = Range::between(NumberVersion(5), NumberVersion(7));
    assert_eq!(range.inner, two_to_three.union(&five_to_seven));
    assert_eq!(specifiers_to_pubgrub(&any()).inner, Range::any());
    assert_eq!(specifiers_to_pubgrub(&at_least(4)).inner, Range::higher_than(NumberVersion(4)));
    assert_eq!(
        specifiers_to_pubgrub(&Specifiers(vec![Specifier { ranges: vec![] }])).inner,
        Range::none()
    );
}

#[test]
fn versions_descend_and_the_hint_comes_first() {
    let listings = vec![
        listing(v(1), vec![wheel(None, false, None)]),
        listing(v(2), vec![wheel(None, false, None)]),
        listing(v(3), vec![wheel(None, false, None)]),
    ];
    let b = brief(AllowPre::default());
    let none = VersionHints::new();
    assert_eq!(
        keys(&fetch_and_sort_versions(&listings, &b, &s("pkg"), None, &none)),
        vec![3, 2, 1]
    );
    let pin = PinnedPackage { name: s("pkg"), version: v(2), hashes: vec![] };
    let mut hints = VersionHints::new();
    hints.add_pinned(&pin);
    assert_eq!(
        keys(&fetch_and_sort_versions(&listings, &b, &s("pkg"), None, &hints)),
        vec![2, 3, 1]
    );
    // a hint for another package changes nothing
    assert_eq!(
        keys(&fetch_and_sort_versions(&listings, &b, &s("other"), None, &hints)),
        vec![3, 2, 1]
    );
    assert_eq!(preference_key(&Some(v(2)), &v(2)), (false, u32::MAX - 2));
    assert_eq!(preference_key(&Some(v(2)), &v(3)), (true, u32::MAX - 3));
    assert_eq!(preference_key(&None, &v(0)), (true, u32::MAX));
}

#[test]
fn pre_releases_need_leave() {
    let listings = vec![
        listing(v(1), vec![wheel(None, false, None)]),
        listing(pre(2), vec![wheel(None, false, None)]),
    ];
    let none = VersionHints::new();
    let strict = brief(AllowPre::default());
    assert_eq!(keys(&fetch_and_sort_versions(&listings, &strict, &s("pkg"), None, &none)), vec![1]);
    let named = brief(AllowPre::Only(vec![s("pkg")]));
    assert_eq!(
        keys(&fetch_and_sort_versions(&listings, &named, &s("pkg"), None, &none)),
        vec![2, 1]
    );
    assert_eq!(keys(&fetch_and_sort_versions(&listings, &named, &s("dep"), None, &none)), vec![1]);
    let all = brief(AllowPre::All);
    assert_eq!(keys(&fetch_and_sort_versions(&listings, &all, &s("dep"), None, &none)), vec![2, 1]);
}

#[test]
fn yanked_releases_are_kept_only_when_pinned() {
    let listings = vec![
        listing(v(1), vec![wheel(Some("h1"), false, None)]),
        listing(v(2), vec![wheel(Some("h2"), true, None), wheel(None, true, None)]),
        listing(v(3), vec![]),
    ];
    let b = brief(AllowPre::default());
    let none = VersionHints::new();
    assert_eq!(keys(&fetch_and_sort_versions(&listings, &b, &s("pkg"), None, &none)), vec![1]);
    let pin = PinnedPackage { name: s("pkg"), version: v(2), hashes: vec![s("h2")] };
    let mut hints = VersionHints::new();
    hints.add_pinned(&pin);
    assert_eq!(keys(&fetch_and_sort_versions(&listings, &b, &s("pkg"), None, &hints)), vec![2, 1]);
    let stale = PinnedPackage { name: s("pkg"), version: v(2), hashes: vec![s("gone")] };
    let mut hints = VersionHints::new();
    hints.add_pinned(&stale);
    assert_eq!(keys(&fetch_and_sort_versions(&listings, &b, &s("pkg"), None, &hints)), vec![1]);
}

#[test]
fn requires_python_filters_when_both_are_known() {
    let listings = vec![
        listing(v(1), vec![wheel(None, false, Some(at_least(300)))]),
        listing(v(2), vec![wheel(None, false, Some(at_least(312)))]),
        listing(v(3), vec![wheel(None, false, Some(at_least(312))), wheel(None, false, None)]),
    ];
    let b = brief(AllowPre::default());
    let none = VersionHints::new();
    let python = v(311);
    assert_eq!(
        keys(&fetch_and_sort_versions(&listings, &b, &s("pkg"), Some(&python), &none)),
        vec![3, 1]
    );
    assert_eq!(
        keys(&fetch_and_sort_versions(&listings, &b, &s("pkg"), None, &none)),
        vec![3, 2, 1]
    );
}

#[test]
fn version_hints_come_from_a_blueprint() {
    let metadata = || WheelResolveMetadata {
        provenance: s("url"),
        inner: WheelResolveMetadataInner {
            requires_dist: vec![],
            requires_python: any(),
            extras: vec![],
        },
    };
    let blueprint = Blueprint {
        pybi: PinnedPackage { name: s("cpython"), version: v(311), hashes: vec![s("p")] },
        wheels: vec![
            (PinnedPackage { name: s("a"), version: v(1), hashes: vec![s("x")] }, metadata()),
            (PinnedPackage { name: s("b"), version: v(2), hashes: vec![] }, metadata()),
            (PinnedPackage { name: s("a"), version: v(3), hashes: vec![] }, metadata()),
        ],
    };
    let hints = VersionHints::from(&blueprint);
    assert_eq!(hints.pins.len(), 4);
    assert_eq!(hints.get(&s("cpython")).unwrap().version, v(311));
    assert_eq!(hints.get(&s("b")).unwrap().version, v(2));
    // a later pin of a package replaces an earlier one
    assert_eq!(hints.get(&s("a")).unwrap().version, v(3));
    assert!(hints.get(&s("c")).is_none());
    assert!(VersionHints::new().get(&s("a")).is_none());
}

#[test]
fn pinned_collects_every_hash() {
    let artifacts = vec![
        wheel(Some("h1"), false, None),
        wheel(None, false, None),
        wheel(Some("h2"), true, None),
    ];
    let pin = pinned(&artifacts, s("pkg"), v(7));
    assert_eq!(pin.name, "pkg");
    assert_eq!(pin.version, v(7));
    assert_eq!(pin.hashes, vec![s("h1"), s("h2")]);
    assert!(pinned(&vec![], s("pkg"), v(7)).hashes.is_empty());
}

#[test]
fn wheel_resolve_metadata_keeps_what_the_resolver_uses() {
    let ai = wheel(Some("h"), false, None);
    let core = WheelCoreMetadata {
        requires_dist: vec![requirement("dep", &[], None)],
        requires_python: at_least(3),
        extras: vec![s("a")],
    };
    let kept = WheelResolveMetadata::from(&ai, core);
    assert_eq!(kept.provenance, "https://example.org/pkg.whl");
    assert_eq!(kept.inner.requires_dist.len(), 1);
    assert_eq!(kept.inner.requires_dist[0].name, "dep");
    assert_eq!(kept.inner.extras, vec![s("a")]);
    assert!(kept.inner.requires_python.satisfied_by(&v(3)));
    assert!(!kept.inner.requires_python.satisfied_by(&v(2)));
}

#[test]
fn best_pybi_has_the_highest_score_and_the_first_wins_a_tie() {
    let platform = PybiPlatform::from_core_tags(&vec![s("macosx_11_0_arm64"), s("win32")]);
    let mut artifacts = vec![
        wheel(None, false, None),
        pybi(&["win32"], "win"),
        pybi(&["macosx_10_9_universal2"], "fat"),
        pybi(&["linux_x86_64"], "linux"),
        pybi(&["macosx_11_0_arm64"], "arm-first"),
    ];
    assert_eq!(pick_best_pybi(&artifacts, &platform).unwrap().url, "arm-first");
    artifacts.push(pybi(&["macosx_10_0_arm64", "macosx_11_0_arm64"], "arm-second"));
    assert_eq!(pick_best_pybi(&artifacts, &platform).unwrap().url, "arm-first");
    artifacts.push(pybi(&["macosx_10_9_universal2"], "fat-again"));
    assert_eq!(pick_best_pybi(&artifacts, &platform).unwrap().url, "arm-first");
    assert_eq!(pick_best_pybi(&artifacts[1..4].iter().map(again).collect(), &platform).unwrap().url, "fat");
    assert!(pick_best_pybi(&vec![wheel(None, false, None)], &platform).is_none());
    assert!(pick_best_pybi(&vec![pybi(&["linux_x86_64"], "linux")], &platform).is_none());
    assert!(pick_best_pybi(&vec![], &platform).is_none());
}

#[test]
fn resolve_pybi_takes_the_best_bundle_and_then_the_preferred_release() {
    let platform = PybiPlatform::from_core_tag("manylinux_2_17_x86_64");
    let listings = vec![
        listing(v(309), vec![pybi(&["manylinux_2_17_x86_64"], "309-linux")]),
        listing(v(310), vec![pybi(&["manylinux_2_17_x86_64"], "310-linux")]),
        listing(v(311), vec![pybi(&["win32"], "311-win"), pybi(&["manylinux_2_5_x86_64"], "311-old")]),
        listing(v(312), vec![pybi(&["win32"], "312-win")]),
        listing(v(313), vec![pybi(&["manylinux_2_17_x86_64"], "313-linux")]),
    ];
    let mut b = brief(AllowPre::default());
    b.python.specifiers = between(300, 313);
    let none = VersionHints::new();
    // the bundle of 3.11 scores lower; of the two that score best the later
    // release is preferred
    assert_eq!(resolve_pybi(&listings, &b, &platform, &none).unwrap().url, "310-linux");
    let pin = PinnedPackage { name: s("cpython"), version: v(309), hashes: vec![] };
    let mut hints = VersionHints::new();
    hints.add_pinned(&pin);
    assert_eq!(resolve_pybi(&listings, &b, &platform, &hints).unwrap().url, "309-linux");
    b.python.specifiers = between(311, 313);
    assert_eq!(resolve_pybi(&listings, &b, &platform, &none).unwrap().url, "311-old");
    b.python.specifiers = between(312, 313);
    assert_eq!(
        resolve_pybi(&listings, &b, &platform, &none).err(),
        Some(ResolveError::NoCompatiblePybi)
    );
    assert_eq!(
        resolve_pybi(&vec![], &b, &platform, &none).err(),
        Some(ResolveError::NoCompatiblePybi)
    );
}

#[test]
fn marker_variables_and_the_extra() {
    let basic = vec![(s("os_name"), s("posix")), (s("os_name"), s("nt"))];
    let extra = s("test");
    let with_extra = HashMapEnv { basic_env: &basic, extra: Some(&extra) };
    let without = HashMapEnv { basic_env: &basic, extra: None };
    assert_eq!(with_extra.get_marker_var("extra"), Some("test"));
    assert_eq!(without.get_marker_var("extra"), Some(""));
    assert_eq!(without.get_marker_var("os_name"), Some("posix"));
    assert_eq!(without.get_marker_var("sys_platform"), None);

    let is_test = MarkerExpr::Equal(s("extra"), s("test"));
    assert_eq!(with_extra.eval(&is_test), Ok(true));
    assert_eq!(without.eval(&is_test), Ok(false));
    let not_nt = MarkerExpr::NotEqual(s("os_name"), s("nt"));
    assert_eq!(without.eval(&not_nt), Ok(true));
    let unknown = MarkerExpr::Equal(s("sys_platform"), s("linux"));
    assert_eq!(without.eval(&unknown), Err(ResolveError::UnknownMarkerVariable));
    let both = MarkerExpr::And(
        Box::new(MarkerExpr::Equal(s("extra"), s("test"))),
        Box::new(MarkerExpr::Equal(s("os_name"), s("nt"))),
    );
    assert_eq!(with_extra.eval(&both), Ok(false));
    let either = MarkerExpr::Or(
        Box::new(MarkerExpr::Equal(s("extra"), s("test"))),
        Box::new(MarkerExpr::Equal(s("os_name"), s("nt"))),
    );
    assert_eq!(with_extra.eval(&either), Ok(true));
    assert_eq!(without.eval(&either), Ok(false));
    let broken = MarkerExpr::Or(
        Box::new(MarkerExpr::Equal(s("extra"), s("test"))),
        Box::new(MarkerExpr::Equal(s("nope"), s("nt"))),
    );
    assert_eq!(with_extra.eval(&broken), Err(ResolveError::UnknownMarkerVariable));
}

fn shown(dc: &[Constraint]) -> Vec<(ResPkg, Range<NumberVersion>)> {
    dc.iter().map(|c| (c.pkg.clone(), c.range.inner.clone())).collect()
}

#[test]
fn requirements_lower_to_constraints() {
    let env = vec![(s("os_name"), s("posix"))];
    let reqs = vec![
        requirement("plain", &[], None),
        requirement("skipped", &[], Some(MarkerExpr::Equal(s("os_name"), s("nt")))),
        requirement("extras", &["a", "b"], Some(MarkerExpr::Equal(s("os_name"), s("posix")))),
    ];
    let mut dc = Vec::new();
    assert_eq!(requirements_to_pubgrub(&reqs, &mut dc, &env, None), Ok(()));
    let range = Range::between(NumberVersion(2), NumberVersion(5));
    assert_eq!(
        shown(&dc),
        vec![
            (ResPkg::Package(s("plain"), None), range.clone()),
            (ResPkg::Package(s("extras"), Some(s("a"))), range.clone()),
            (ResPkg::Package(s("extras"), Some(s("b"))), range.clone()),
        ]
    );
    let bad = vec![requirement("x", &[], Some(MarkerExpr::Equal(s("nope"), s("nt"))))];
    let mut dc = Vec::new();
    assert_eq!(
        requirements_to_pubgrub(&bad, &mut dc, &env, None),
        Err(ResolveError::UnknownMarkerVariable)
    );
}

#[test]
fn choose_takes_the_first_version_in_range() {
    let versions = vec![v(4), v(9), v(3), v(1)];
    let pkg = ResPkg::Package(s("pkg"), None);
    let range = specifiers_to_pubgrub(&between(1, 4));
    assert_eq!(choose_package_version(&pkg, &range, &versions), Some(v(3)));
    let range = specifiers_to_pubgrub(&between(5, 9));
    assert_eq!(choose_package_version(&pkg, &range, &versions), None);
    assert_eq!(choose_package_version(&pkg, &range, &vec![]), None);
    let range = specifiers_to_pubgrub(&at_least(5));
    assert_eq!(choose_package_version(&pkg, &range, &versions), Some(v(9)));
    assert_eq!(choose_package_version(&ResPkg::Root, &range, &versions), Some(v(0)));
}

#[test]
fn requires_python_of_the_chosen_release_is_confirmed() {
    let metadata = WheelResolveMetadataInner {
        requires_dist: vec![],
        requires_python: at_least(310),
        extras: vec![],
    };
    assert_eq!(confirm_requires_python(&metadata, &v(311)), Ok(()));
    assert_eq!(confirm_requires_python(&metadata, &v(310)), Ok(()));
    assert_eq!(
        confirm_requires_python(&metadata, &v(309)),
        Err(ResolveError::BadRequiresPython)
    );
}

#[test]
fn dependencies_of_root_package_and_extra() {
    let env = vec![];
    let mut b = brief(AllowPre::default());
    b.requirements = vec![requirement("pkg", &["a"], None)];
    let root = get_dependencies(&ResPkg::Root, &v(0), &b, None, &env).unwrap();
    let range = Range::between(NumberVersion(2), NumberVersion(5));
    assert_eq!(shown(&root), vec![(ResPkg::Package(s("pkg"), Some(s("a"))), range.clone())]);

    let metadata = WheelResolveMetadataInner {
        requires_dist: vec![
            requirement("dep", &[], Some(MarkerExpr::Equal(s("extra"), s("a")))),
            requirement("always", &[], None),
        ],
        requires_python: any(),
        extras: vec![s("a")],
    };
    let base = ResPkg::Package(s("pkg"), None);
    let plain = get_dependencies(&base, &v(3), &b, Some(&metadata), &env).unwrap();
    assert_eq!(shown(&plain), vec![(ResPkg::Package(s("always"), None), range.clone())]);

    let with_a = ResPkg::Package(s("pkg"), Some(s("a")));
    let extra = get_dependencies(&with_a, &v(3), &b, Some(&metadata), &env).unwrap();
    assert_eq!(
        shown(&extra),
        vec![
            (ResPkg::Package(s("dep"), None), range.clone()),
            (ResPkg::Package(s("always"), None), range.clone()),
            (ResPkg::Package(s("pkg"), None), Range::exact(NumberVersion(3))),
        ]
    );
    let top = get_dependencies(&with_a, &v(u32::MAX), &b, Some(&metadata), &env).unwrap();
    assert!(top[2].range.inner.contains(&NumberVersion(u32::MAX)));
    assert!(!top[2].range.inner.contains(&NumberVersion(u32::MAX - 1)));

    let with_b = ResPkg::Package(s("pkg"), Some(s("b")));
    assert_eq!(
        get_dependencies(&with_b, &v(3), &b, Some(&metadata), &env).err(),
        Some(ResolveError::MissingExtra)
    );
    assert_eq!(
        get_dependencies(&base, &v(3), &b, None, &env).err(),
        Some(ResolveError::MissingMetadata)
    );
}

#[test]
fn base_packages_drop_the_root_and_the_extras() {
    let solution = vec![
        (ResPkg::Package(s("pkg"), Some(s("a"))), v(3)),
        (ResPkg::Root, v(0)),
        (ResPkg::Package(s("pkg"), None), v(3)),
        (ResPkg::Package(s("dep"), None), v(4)),
        (ResPkg::Package(s("pkg"), Some(s("b"))), v(3)),
    ];
    assert_eq!(base_packages(&solution), vec![(s("pkg"), v(3)), (s("dep"), v(4))]);
    assert!(base_packages(&vec![]).is_empty());
}

#[test]
fn marker_environment_adds_the_machine_when_it_is_missing() {
    let platform = PybiPlatform::from_core_tag("macosx_11_0_arm64");
    let name = PybiName {
        distribution: s("cpython"),
        version: v(311),
        arch_tags: vec![s("macosx_11_0_arm64")],
    };
    let says = PybiCoreMetadata {
        environment_marker_variables: vec![(s("platform_machine"), s("riscv"))],
        tags: vec![],
    };
    assert_eq!(
        marker_environment(&platform, &name, &says),
        Ok(vec![(s("platform_machine"), s("riscv"))])
    );
    let silent = PybiCoreMetadata {
        environment_marker_variables: vec![(s("os_name"), s("posix"))],
        tags: vec![s("macosx_11_0_arm64")],
    };
    assert_eq!(
        marker_environment(&platform, &name, &silent),
        Ok(vec![(s("os_name"), s("posix")), (s("platform_machine"), s("arm64"))])
    );
    let unknown = PybiCoreMetadata {
        environment_marker_variables: vec![],
        tags: vec![s("cp311-cp311-PLATFORM")],
    };
    assert_eq!(
        marker_environment(&platform, &name, &unknown),
        Err(PlatformError::UnknownMachine)
    );
}

#[test]
fn the_cache_keeps_what_was_read_first() {
    let metadata = |provenance: &str| WheelResolveMetadata {
        provenance: s(provenance),
        inner: WheelResolveMetadataInner {
            requires_dist: vec![],
            requires_python: any(),
            extras: vec![],
        },
    };
    let mut cache = MetadataCache::new();
    assert!(cache.get(&s("pkg"), &v(1)).is_none());
    assert_eq!(cache.fill(&s("pkg"), &v(1), metadata("first")).provenance, "first");
    assert_eq!(cache.fill(&s("pkg"), &v(1), metadata("second")).provenance, "first");
    assert_eq!(cache.fill(&s("pkg"), &v(2), metadata("third")).provenance, "third");
    assert_eq!(cache.get(&s("pkg"), &v(1)).unwrap().provenance, "first");
    assert_eq!(cache.get(&s("pkg"), &v(2)).unwrap().provenance, "third");
    assert!(cache.get(&s("dep"), &v(1)).is_none());
    assert!(cache.get(&s("pkg"), &v(3)).is_none());
}

#[test]
fn failures_read_as_messages() {
    assert_eq!(failure_message(&SolverFailure::NoSolution(s("because ..."))), "because ...");
    assert_eq!(
        failure_message(&SolverFailure::ErrorRetrievingDependencies {
            package: s("pkg"),
            version: s("3"),
            source: s("package has no such extra"),
        }),
        "fetching dependencies of pkg v3: package has no such extra"
    );
    assert_eq!(
        failure_message(&SolverFailure::ErrorChoosingPackageVersion(s("bad requires-python"))),
        "bad requires-python"
    );
    assert_eq!(failure_message(&SolverFailure::ErrorInShouldCancel(s("stop"))), "stop");
    assert_eq!(failure_message(&SolverFailure::Failure(s("oops"))), "oops");
    assert_eq!(
        failure_message(&SolverFailure::DependencyOnTheEmptySet {
            package: s("pkg"),
            version: s("3"),
            dependent: s("dep"),
        }),
        "pkg v3's dependency on dep has self-contradictory version ranges"
    );
    assert_eq!(
        failure_message(&SolverFailure::SelfDependency { package: s("pkg"), version: s("3") }),
        "pkg v3 depends on itself"
    );
}
