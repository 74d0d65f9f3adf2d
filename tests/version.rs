use std::cmp::Ordering;

use anneal::version::{exceeds_threshold, Segment, Threshold, Version};

#[test]
fn simple_semver() {
    let v = Version::parse("1.2.3").unwrap();
    assert_eq!(v.epoch, 0);
    assert_eq!(v.major(), Some(1));
    assert_eq!(v.minor(), Some(2));
    assert_eq!(v.patch(), Some(3));
    assert_eq!(v.pkgrel, None);
}

#[test]
fn two_part_version() {
    let v = Version::parse("1.2").unwrap();
    assert_eq!(v.major(), Some(1));
    assert_eq!(v.minor(), Some(2));
    assert_eq!(v.patch(), None);
}

#[test]
fn single_number() {
    let v = Version::parse("42").unwrap();
    assert_eq!(v.major(), Some(42));
    assert_eq!(v.minor(), None);
}

#[test]
fn with_epoch() {
    let v = Version::parse("1:2.3.4").unwrap();
    assert_eq!(v.epoch, 1);
    assert_eq!(v.major(), Some(2));
    assert_eq!(v.minor(), Some(3));
    assert_eq!(v.patch(), Some(4));
}

#[test]
fn with_pkgrel() {
    let v = Version::parse("1.2.3-1").unwrap();
    assert_eq!(v.major(), Some(1));
    assert_eq!(v.pkgrel, Some("1".to_string()));
}

#[test]
fn with_epoch_and_pkgrel() {
    let v = Version::parse("2:1.2.3-4").unwrap();
    assert_eq!(v.epoch, 2);
    assert_eq!(v.major(), Some(1));
    assert_eq!(v.minor(), Some(2));
    assert_eq!(v.patch(), Some(3));
    assert_eq!(v.pkgrel, Some("4".to_string()));
}

#[test]
fn pkgrel_with_subrelease() {
    let v = Version::parse("1.2.3-1.1").unwrap();
    assert_eq!(v.pkgrel, Some("1.1".to_string()));
}

#[test]
fn prerelease_alpha() {
    let v = Version::parse("1.2.3alpha").unwrap();
    assert_eq!(v.major(), Some(1));
    assert_eq!(v.minor(), Some(2));
    assert_eq!(v.patch(), Some(3));
    // "alpha" should be a separate segment
    assert!(v.segments.contains(&Segment::Alpha("alpha".to_string())));
}

#[test]
fn prerelease_rc() {
    let v = Version::parse("1.2.3-rc1").unwrap();
    assert_eq!(v.major(), Some(1));
    assert!(v.segments.contains(&Segment::Alpha("rc".to_string())));
    // The "1" after rc should be parsed as numeric
    assert_eq!(v.pkgrel, None); // -rc1 is not a pkgrel
}

#[test]
fn prerelease_beta_with_number() {
    let v = Version::parse("2.0beta3").unwrap();
    assert_eq!(v.major(), Some(2));
    assert_eq!(v.minor(), Some(0));
    assert!(v.segments.contains(&Segment::Alpha("beta".to_string())));
    assert!(v.segments.contains(&Segment::Numeric(3)));
}

#[test]
fn date_based_compact() {
    let v = Version::parse("20240115").unwrap();
    assert_eq!(v.major(), Some(20240115));
}

#[test]
fn date_based_dotted() {
    let v = Version::parse("2024.01.15").unwrap();
    assert_eq!(v.major(), Some(2024));
    assert_eq!(v.minor(), Some(1));
    assert_eq!(v.patch(), Some(15));
}

#[test]
fn abseil_cpp_style() {
    // abseil-cpp uses YYYYMMDD.N format
    let v = Version::parse("20240116.2").unwrap();
    assert_eq!(v.major(), Some(20240116));
    assert_eq!(v.minor(), Some(2));
}

#[test]
fn underscore_separator() {
    let v = Version::parse("1_2_3").unwrap();
    assert_eq!(v.major(), Some(1));
    assert_eq!(v.minor(), Some(2));
    assert_eq!(v.patch(), Some(3));
}

#[test]
fn mixed_separators() {
    let v = Version::parse("1.2_3-4").unwrap();
    // Should parse as 1, 2, 3 (4 is pkgrel)
    assert_eq!(v.major(), Some(1));
    assert_eq!(v.minor(), Some(2));
    assert_eq!(v.patch(), Some(3));
    assert_eq!(v.pkgrel, Some("4".to_string()));
}

#[test]
fn empty_string() {
    assert!(Version::parse("").is_none());
}

#[test]
fn only_epoch() {
    // "1:" with nothing after is invalid
    assert!(Version::parse("1:").is_none());
}

#[test]
fn large_version_numbers() {
    let v = Version::parse("2024.12.31").unwrap();
    assert_eq!(v.major(), Some(2024));
}

#[test]
fn qt_style_version() {
    let v = Version::parse("6.7.2").unwrap();
    assert_eq!(v.major(), Some(6));
    assert_eq!(v.minor(), Some(7));
    assert_eq!(v.patch(), Some(2));
}

#[test]
fn electron_style() {
    let v = Version::parse("31.0.0").unwrap();
    assert_eq!(v.major(), Some(31));
    assert_eq!(v.minor(), Some(0));
    assert_eq!(v.patch(), Some(0));
}

#[test]
fn boost_style() {
    let v = Version::parse("1.85.0").unwrap();
    assert_eq!(v.major(), Some(1));
    assert_eq!(v.minor(), Some(85));
    assert_eq!(v.patch(), Some(0));
}


fn v(s: &str) -> Version {
    Version::parse(s).unwrap()
}

#[test]
fn equal_versions() {
    assert_eq!(v("1.2.3").cmp_to(&v("1.2.3")), Ordering::Equal);
}

#[test]
fn major_difference() {
    assert_eq!(v("2.0.0").cmp_to(&v("1.0.0")), Ordering::Greater);
    assert_eq!(v("1.0.0").cmp_to(&v("2.0.0")), Ordering::Less);
}

#[test]
fn minor_difference() {
    assert_eq!(v("1.2.0").cmp_to(&v("1.1.0")), Ordering::Greater);
    assert_eq!(v("1.1.0").cmp_to(&v("1.2.0")), Ordering::Less);
}

#[test]
fn patch_difference() {
    assert_eq!(v("1.2.3").cmp_to(&v("1.2.2")), Ordering::Greater);
    assert_eq!(v("1.2.2").cmp_to(&v("1.2.3")), Ordering::Less);
}

#[test]
fn epoch_takes_precedence() {
    // 1:1.0.0 > 0:2.0.0
    assert_eq!(v("1:1.0.0").cmp_to(&v("2.0.0")), Ordering::Greater);
    assert_eq!(v("2.0.0").cmp_to(&v("1:1.0.0")), Ordering::Less);
}

#[test]
fn different_segment_counts() {
    // 1.2.3 > 1.2
    assert_eq!(v("1.2.3").cmp_to(&v("1.2")), Ordering::Greater);
    // 1.2 < 1.2.1
    assert_eq!(v("1.2").cmp_to(&v("1.2.1")), Ordering::Less);
}

#[test]
fn prerelease_less_than_release() {
    // 1.0.0 > 1.0.0rc1 (numeric > alpha)
    assert_eq!(v("1.0.0").cmp_to(&v("1.0.0rc1")), Ordering::Greater);
}

#[test]
fn prerelease_ordering() {
    // alpha < beta < rc
    assert_eq!(v("1.0alpha").cmp_to(&v("1.0beta")), Ordering::Less);
    assert_eq!(v("1.0beta").cmp_to(&v("1.0rc")), Ordering::Less);
}

#[test]
fn date_based_comparison() {
    assert_eq!(v("20240201").cmp_to(&v("20240115")), Ordering::Greater);
    assert_eq!(v("20240115").cmp_to(&v("20240201")), Ordering::Less);
}

#[test]
fn pkgrel_ignored_in_version_comparison() {
    // Version comparison ignores pkgrel
    assert_eq!(v("1.2.3-1").cmp_to(&v("1.2.3-2")), Ordering::Equal);
}

#[test]
fn major_triggers_on_major_change() {
    assert!(exceeds_threshold(
        &v("1.0.0"),
        &v("2.0.0"),
        Threshold::Major
    ));
}

#[test]
fn major_ignores_minor_change() {
    assert!(!exceeds_threshold(
        &v("1.0.0"),
        &v("1.1.0"),
        Threshold::Major
    ));
}

#[test]
fn major_ignores_patch_change() {
    assert!(!exceeds_threshold(
        &v("1.0.0"),
        &v("1.0.1"),
        Threshold::Major
    ));
}

#[test]
fn major_triggers_on_epoch_change() {
    assert!(exceeds_threshold(
        &v("1.0.0"),
        &v("1:1.0.0"),
        Threshold::Major
    ));
}

#[test]
fn minor_triggers_on_major_change() {
    assert!(exceeds_threshold(
        &v("1.0.0"),
        &v("2.0.0"),
        Threshold::Minor
    ));
}

#[test]
fn minor_triggers_on_minor_change() {
    assert!(exceeds_threshold(
        &v("1.0.0"),
        &v("1.1.0"),
        Threshold::Minor
    ));
}

#[test]
fn minor_ignores_patch_change() {
    assert!(!exceeds_threshold(
        &v("1.0.0"),
        &v("1.0.1"),
        Threshold::Minor
    ));
}

#[test]
fn minor_triggers_on_epoch_change() {
    assert!(exceeds_threshold(
        &v("1.0.0"),
        &v("1:1.0.0"),
        Threshold::Minor
    ));
}

#[test]
fn minor_triggers_when_minor_added() {
    // 1 -> 1.1 should trigger
    assert!(exceeds_threshold(&v("1"), &v("1.1"), Threshold::Minor));
}

#[test]
fn patch_triggers_on_major_change() {
    assert!(exceeds_threshold(
        &v("1.0.0"),
        &v("2.0.0"),
        Threshold::Patch
    ));
}

#[test]
fn patch_triggers_on_minor_change() {
    assert!(exceeds_threshold(
        &v("1.0.0"),
        &v("1.1.0"),
        Threshold::Patch
    ));
}

#[test]
fn patch_triggers_on_patch_change() {
    assert!(exceeds_threshold(
        &v("1.0.0"),
        &v("1.0.1"),
        Threshold::Patch
    ));
}

#[test]
fn patch_ignores_pkgrel_change() {
    assert!(!exceeds_threshold(
        &v("1.0.0-1"),
        &v("1.0.0-2"),
        Threshold::Patch
    ));
}

#[test]
fn always_triggers_on_any_change() {
    assert!(exceeds_threshold(
        &v("1.0.0"),
        &v("1.0.0a"),
        Threshold::Always
    ));
}

#[test]
fn always_triggers_on_pkgrel_change() {
    assert!(exceeds_threshold(
        &v("1.0.0-1"),
        &v("1.0.0-2"),
        Threshold::Always
    ));
}

#[test]
fn always_no_trigger_when_identical() {
    assert!(!exceeds_threshold(
        &v("1.0.0-1"),
        &v("1.0.0-1"),
        Threshold::Always
    ));
}

#[test]
fn qt6_minor_bump() {
    // Qt 6.7.2 -> 6.8.0 should trigger on minor
    assert!(exceeds_threshold(
        &v("6.7.2"),
        &v("6.8.0"),
        Threshold::Minor
    ));
    // Should not trigger on major
    assert!(!exceeds_threshold(
        &v("6.7.2"),
        &v("6.8.0"),
        Threshold::Major
    ));
}

#[test]
fn boost_minor_bump() {
    // Boost 1.85.0 -> 1.86.0
    assert!(exceeds_threshold(
        &v("1.85.0"),
        &v("1.86.0"),
        Threshold::Minor
    ));
}

#[test]
fn electron_major_bump() {
    // Electron 30.0.0 -> 31.0.0
    assert!(exceeds_threshold(
        &v("30.0.0"),
        &v("31.0.0"),
        Threshold::Major
    ));
}

#[test]
fn python_minor_bump() {
    // Python 3.11.9 -> 3.12.0
    assert!(exceeds_threshold(
        &v("3.11.9"),
        &v("3.12.0"),
        Threshold::Minor
    ));
}

#[test]
fn abseil_date_change() {
    // abseil-cpp date-based version
    assert!(exceeds_threshold(
        &v("20240116.2"),
        &v("20240722.0"),
        Threshold::Always
    ));
}

#[test]
fn protobuf_patch_sensitivity() {
    // protobuf is patch-sensitive
    assert!(exceeds_threshold(
        &v("27.0.0"),
        &v("27.0.1"),
        Threshold::Patch
    ));
    assert!(!exceeds_threshold(
        &v("27.0.0"),
        &v("27.0.1"),
        Threshold::Minor
    ));
}

#[test]
fn glibc_major_stability() {
    // glibc 2.39 -> 2.40 should not trigger major (still 2.x)
    assert!(!exceeds_threshold(&v("2.39"), &v("2.40"), Threshold::Major));
    // But should trigger minor
    assert!(exceeds_threshold(&v("2.39"), &v("2.40"), Threshold::Minor));
}

