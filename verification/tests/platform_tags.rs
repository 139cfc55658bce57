use posy::builders::{current_platform_tags, Platform, PybiPlatform};
use posy::compat::{compat_groups, PlatformError};
use posy::expand::expand_platform_tag;
use posy::model::{PybiCoreMetadata, PybiName, PkgVersion};
use posy::platform::PlatformImpl;

fn strings(items: &[&str]) -> Vec<String> {
    items.iter().map(|s| s.to_string()).collect()
}

fn fake_metadata() -> PybiCoreMetadata {
    PybiCoreMetadata {
        environment_marker_variables: vec![],
        tags: strings(&["foo-bar-PLATFORM", "foo-none-any", "foo-baz-PLATFORM"]),
    }
}

fn pybi_name(arch_tags: &[&str]) -> PybiName {
    PybiName {
        distribution: "cpython".to_string(),
        version: PkgVersion { key: 311, pre: false },
        arch_tags: strings(arch_tags),
    }
}

#[test]
fn test_pybi_platform() {
    let platform = PybiPlatform::from_core_tag("manylinux2014_x86_64");
    println!("{:#?}", platform);

    assert!(platform.compatibility("manylinux_2_17_x86_64").is_some());
    assert!(platform.compatibility("manylinux_2_10_x86_64").is_some());
    assert!(platform.compatibility("manylinux_2_17_aarch64").is_none());
    assert!(platform.compatibility("manylinux_2_30_x86_64").is_none());
    assert!(
        platform.compatibility("manylinux_2_17_x86_64").unwrap()
            > platform.compatibility("manylinux_2_10_x86_64").unwrap()
    );

    let multi_platform =
        PybiPlatform::from_core_tags(&strings(&["manylinux2014_x86_64", "musllinux_1_3_x86_64"]));
    println!("{:#?}", multi_platform);
    assert!(
        multi_platform.compatibility("manylinux_2_17_x86_64").unwrap()
            > multi_platform.compatibility("musllinux_1_2_x86_64").unwrap()
    );
}

#[test]
fn test_pybi_platform_to_wheel_platform() {
    let pybi_platform =
        PybiPlatform::from_core_tags(&strings(&["macosx_11_0_arm64", "macosx_11_0_x86_64"]));
    let fake_metadata = fake_metadata();

    // a bundle that runs on both, on a host that runs both: the preferred
    // architecture wins
    let arm_only = pybi_platform
        .wheel_platform_for_pybi(&pybi_name(&["macosx_10_15_universal2"]), &fake_metadata)
        .unwrap();
    assert!(arm_only.compatibility("foo-bar-macosx_11_0_arm64").is_some());
    assert!(arm_only.compatibility("foo-bar-macosx_11_0_x86_64").is_none());

    // the tags are in order
    assert!(
        arm_only.compatibility("foo-bar-macosx_11_0_arm64").unwrap()
            > arm_only.compatibility("foo-bar-macosx_10_0_arm64").unwrap()
    );
    assert!(
        arm_only.compatibility("foo-bar-macosx_10_0_arm64").unwrap()
            > arm_only.compatibility("foo-none-any").unwrap()
    );
    assert!(
        arm_only.compatibility("foo-none-any").unwrap()
            > arm_only.compatibility("foo-baz-macosx_11_0_arm64").unwrap()
    );

    // a bundle that runs on one only decides
    let x86_64_only = pybi_platform
        .wheel_platform_for_pybi(&pybi_name(&["macosx_10_15_x86_64"]), &fake_metadata)
        .unwrap();
    assert!(x86_64_only.compatibility("foo-bar-macosx_11_0_arm64").is_none());
    assert!(x86_64_only.compatibility("foo-bar-macosx_11_0_x86_64").is_some());
}

#[test]
fn test_expand_platform_tag() {
    assert_eq!(expand_platform_tag("win32"), strings(&["win32"]));
    assert_eq!(expand_platform_tag("win_amd64"), strings(&["win_amd64"]));

    let mut expected: Vec<String> = Vec::new();
    for minor in (0..=10).rev() {
        for arch in ["x86_64", "universal2", "intel", "fat64", "fat3", "universal"] {
            expected.push(format!("macosx_10_{}_{}", minor, arch));
        }
    }
    assert_eq!(expected.len(), 66);
    assert_eq!(expected[0], "macosx_10_10_x86_64");
    assert_eq!(expected[65], "macosx_10_0_universal");
    assert_eq!(expand_platform_tag("macosx_10_10_x86_64"), expected);

    assert_eq!(
        expand_platform_tag("macosx_12_0_universal2"),
        strings(&[
            "macosx_12_0_universal2",
            "macosx_11_0_universal2",
            "macosx_10_15_universal2",
            "macosx_10_14_universal2",
            "macosx_10_13_universal2",
            "macosx_10_12_universal2",
            "macosx_10_11_universal2",
            "macosx_10_10_universal2",
            "macosx_10_9_universal2",
            "macosx_10_8_universal2",
            "macosx_10_7_universal2",
            "macosx_10_6_universal2",
            "macosx_10_5_universal2",
            "macosx_10_4_universal2",
            "macosx_10_3_universal2",
            "macosx_10_2_universal2",
            "macosx_10_1_universal2",
            "macosx_10_0_universal2",
        ])
    );

    assert_eq!(
        expand_platform_tag("manylinux_2_3_aarch64"),
        strings(&[
            "manylinux_2_3_aarch64",
            "manylinux_2_2_aarch64",
            "manylinux_2_1_aarch64",
            "manylinux_2_0_aarch64",
        ])
    );

    assert_eq!(
        expand_platform_tag("manylinux1_x86_64"),
        strings(&[
            "manylinux_2_5_x86_64",
            "manylinux1_x86_64",
            "manylinux_2_4_x86_64",
            "manylinux_2_3_x86_64",
            "manylinux_2_2_x86_64",
            "manylinux_2_1_x86_64",
            "manylinux_2_0_x86_64",
        ])
    );

    assert_eq!(
        expand_platform_tag("manylinux_2_24_x86_64"),
        strings(&[
            "manylinux_2_24_x86_64",
            "manylinux_2_23_x86_64",
            "manylinux_2_22_x86_64",
            "manylinux_2_21_x86_64",
            "manylinux_2_20_x86_64",
            "manylinux_2_19_x86_64",
            "manylinux_2_18_x86_64",
            "manylinux_2_17_x86_64",
            "manylinux2014_x86_64",
            "manylinux_2_16_x86_64",
            "manylinux_2_15_x86_64",
            "manylinux_2_14_x86_64",
            "manylinux_2_13_x86_64",
            "manylinux_2_12_x86_64",
            "manylinux2010_x86_64",
            "manylinux_2_11_x86_64",
            "manylinux_2_10_x86_64",
            "manylinux_2_9_x86_64",
            "manylinux_2_8_x86_64",
            "manylinux_2_7_x86_64",
            "manylinux_2_6_x86_64",
            "manylinux_2_5_x86_64",
            "manylinux1_x86_64",
            "manylinux_2_4_x86_64",
            "manylinux_2_3_x86_64",
            "manylinux_2_2_x86_64",
            "manylinux_2_1_x86_64",
            "manylinux_2_0_x86_64",
        ])
    );

    assert_eq!(
        expand_platform_tag("musllinux_1_2_x86_64"),
        strings(&["musllinux_1_2_x86_64", "musllinux_1_1_x86_64", "musllinux_1_0_x86_64"])
    );
}

#[test]
fn expand_passes_unrecognised_tags_through() {
    assert_eq!(expand_platform_tag("linux_x86_64"), strings(&["linux_x86_64"]));
    assert_eq!(expand_platform_tag(""), strings(&[""]));
    assert_eq!(expand_platform_tag("macosx_9_5_ppc"), strings(&["macosx_9_5_ppc"]));
    assert_eq!(expand_platform_tag("manylinux_2_x86_64"), strings(&["manylinux_2_x86_64"]));
    assert_eq!(expand_platform_tag("manylinux_2_5_x86-64"), strings(&["manylinux_2_5_x86-64"]));
    assert_eq!(
        expand_platform_tag("manylinux_2_99999999999_x86_64"),
        strings(&["manylinux_2_99999999999_x86_64"])
    );
}

#[test]
fn expand_reads_leading_zeros_and_legacy_tails() {
    assert_eq!(
        expand_platform_tag("musllinux_01_01_x"),
        strings(&["musllinux_1_1_x", "musllinux_1_0_x"])
    );
    // what follows the architecture of a legacy tag is not looked at
    assert_eq!(
        expand_platform_tag("manylinux1_i686.extra")[..2],
        strings(&["manylinux_2_5_i686", "manylinux1_i686"])[..]
    );
    // the aliases go by the minor version
    assert_eq!(
        expand_platform_tag("manylinux_3_5_x"),
        strings(&[
            "manylinux_3_5_x",
            "manylinux1_x",
            "manylinux_3_4_x",
            "manylinux_3_3_x",
            "manylinux_3_2_x",
            "manylinux_3_1_x",
            "manylinux_3_0_x",
        ])
    );
    // musl tags have no aliases
    assert_eq!(expand_platform_tag("musllinux_2_5_x").len(), 6);
}

#[test]
fn expand_macos_arm64_family() {
    assert_eq!(
        expand_platform_tag("macosx_11_0_arm64")[..4],
        strings(&[
            "macosx_11_0_arm64",
            "macosx_11_0_universal2",
            "macosx_10_15_arm64",
            "macosx_10_15_universal2",
        ])[..]
    );
    assert_eq!(expand_platform_tag("macosx_11_0_arm64").len(), 34);
    assert_eq!(
        expand_platform_tag("macosx_10_1_ppc"),
        strings(&["macosx_10_1_ppc", "macosx_10_0_ppc"])
    );
}

#[test]
fn compat_groups_by_shape() {
    assert_eq!(compat_groups("win32"), Ok(strings(&["win32"])));
    assert_eq!(compat_groups("win_amd64"), Ok(strings(&["win_amd64"])));
    assert_eq!(compat_groups("macosx_10_9_x86_64"), Ok(strings(&["macos-x86_64"])));
    assert_eq!(compat_groups("macosx_10_9_intel"), Ok(strings(&["macos-x86_64"])));
    assert_eq!(compat_groups("macosx_10_9_fat64"), Ok(strings(&["macos-x86_64"])));
    assert_eq!(compat_groups("macosx_10_9_fat3"), Ok(strings(&["macos-x86_64"])));
    assert_eq!(compat_groups("macosx_10_9_universal"), Ok(strings(&["macos-x86_64"])));
    assert_eq!(compat_groups("macosx_11_0_arm64"), Ok(strings(&["macos-arm64"])));
    assert_eq!(
        compat_groups("macosx_11_0_universal2"),
        Ok(strings(&["macos-x86_64", "macos-arm64"]))
    );
    assert_eq!(compat_groups("manylinux_2_17_x86_64"), Ok(strings(&["manylinux-x86_64"])));
    assert_eq!(compat_groups("musllinux_1_1_aarch64"), Ok(strings(&["musllinux-aarch64"])));
    assert_eq!(compat_groups("manylinux2014_x86_64"), Ok(strings(&["manylinux-x86_64"])));
    assert_eq!(compat_groups("manylinux2010_i686"), Ok(strings(&["manylinux-i686"])));
    assert_eq!(compat_groups("manylinux1_i686"), Ok(strings(&["manylinux-i686"])));
}

#[test]
fn compat_groups_errors() {
    assert_eq!(compat_groups("macosx_10_9_ppc"), Err(PlatformError::UnknownMacArch));
    assert_eq!(compat_groups("linux_x86_64"), Err(PlatformError::UnsupportedTag));
    assert_eq!(compat_groups("foo-none-any"), Err(PlatformError::UnsupportedTag));
    assert_eq!(compat_groups(""), Err(PlatformError::UnsupportedTag));
}

#[test]
fn platform_set_scores_fall_with_each_insert() {
    let mut set = PlatformImpl::empty();
    set.push("a".to_string());
    set.push("b".to_string());
    set.push("a".to_string());
    set.push("c".to_string());
    assert_eq!(set.tags().to_vec(), strings(&["a", "b", "c"]));
    assert_eq!(set.compatibility("a"), Some(u64::MAX));
    assert_eq!(set.compatibility("b"), Some(u64::MAX - 1));
    assert_eq!(set.compatibility("c"), Some(u64::MAX - 2));
    assert_eq!(set.compatibility("d"), None);
    assert_eq!(set.max_compatibility(&strings(&["c", "x", "b"])), Some(u64::MAX - 1));
    assert_eq!(set.max_compatibility(&strings(&["x", "y"])), None);
    assert_eq!(set.max_compatibility(&strings(&[])), None);
}

#[test]
fn current_platform_tags_concatenates_expansions() {
    let tags = current_platform_tags(&strings(&["musllinux_1_1_x86_64", "win32"]));
    assert_eq!(tags, strings(&["musllinux_1_1_x86_64", "musllinux_1_0_x86_64", "win32"]));
    let platform = PybiPlatform::current_platform(&strings(&["win32", "win32"]));
    assert_eq!(platform.tags().to_vec(), strings(&["win32"]));
}

#[test]
fn wheel_platform_failures() {
    let host = PybiPlatform::from_core_tags(&strings(&["macosx_11_0_arm64"]));
    let metadata = fake_metadata();
    // a bundle without architecture tags names no group
    assert_eq!(
        host.wheel_platform_for_pybi(&pybi_name(&[]), &metadata).err(),
        Some(PlatformError::NoCompatGroup)
    );
    // a bundle tag of no known shape
    assert_eq!(
        host.wheel_platform_for_pybi(&pybi_name(&["any"]), &metadata).err(),
        Some(PlatformError::UnsupportedTag)
    );
    // the host's tags leave no group of an x86_64 bundle's
    let linux_host = PybiPlatform::from_core_tags(&strings(&["manylinux_2_1_x86_64"]));
    assert_eq!(
        linux_host
            .wheel_platform_for_pybi(&pybi_name(&["macosx_11_0_universal2"]), &metadata)
            .err(),
        Some(PlatformError::AmbiguousGroups)
    );
}

#[test]
fn infer_platform_machine_reads_macos_groups() {
    let host = PybiPlatform::from_core_tags(&strings(&["macosx_11_0_arm64"]));
    let arm = PybiCoreMetadata {
        environment_marker_variables: vec![],
        tags: strings(&["PLATFORM", "x-PLATFORM"]),
    };
    let bare = host.wheel_platform_for_pybi(&pybi_name(&["macosx_11_0_arm64"]), &arm).unwrap();
    assert_eq!(bare.infer_platform_machine(), Err(PlatformError::UnknownMachine));
    let literal = PybiCoreMetadata {
        environment_marker_variables: vec![],
        tags: strings(&["foo-none-any", "macosx_11_0_universal2", "macosx_11_0_arm64"]),
    };
    let wheel = host.wheel_platform_for_pybi(&pybi_name(&["macosx_11_0_arm64"]), &literal).unwrap();
    assert_eq!(wheel.infer_platform_machine(), Ok("x86_64"));
    let literal_arm = PybiCoreMetadata {
        environment_marker_variables: vec![],
        tags: strings(&["macosx_11_0_arm64"]),
    };
    let wheel = host
        .wheel_platform_for_pybi(&pybi_name(&["macosx_11_0_arm64"]), &literal_arm)
        .unwrap();
    assert_eq!(wheel.infer_platform_machine(), Ok("arm64"));
}
