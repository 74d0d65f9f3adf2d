use anneal::overrides::{ends_with_bin, Overrides};
use anneal::trigger::{deduplicate_marked, is_trigger, MarkedPackage, TriggerInput};
use anneal::version::Threshold;

#[test]
fn is_trigger_curated() {
    let overrides = Overrides::default();
    assert!(is_trigger("qt6-base", &overrides));
    assert!(is_trigger("gtk4", &overrides));
    assert!(!is_trigger("not-a-trigger", &overrides));
}

#[test]
fn deduplicate_keeps_first() {
    let mut marked = vec![
        MarkedPackage {
            package: "pkg1".into(),
            trigger: "trigger1".into(),
        },
        MarkedPackage {
            package: "pkg1".into(),
            trigger: "trigger2".into(),
        },
        MarkedPackage {
            package: "pkg2".into(),
            trigger: "trigger1".into(),
        },
    ];

    deduplicate_marked(&mut marked);

    assert_eq!(marked.len(), 2);
    assert_eq!(marked[0].package, "pkg1");
    assert_eq!(marked[0].trigger, "trigger1"); // First one kept
    assert_eq!(marked[1].package, "pkg2");
}

#[test]
fn bin_suffix_detection() {
    assert!(ends_with_bin("foo-bin"));
    assert!(!ends_with_bin("binary"));
    assert!(!ends_with_bin("bin-foo"));
}

#[test]
fn parse_name_only() {
    let input = TriggerInput::parse("qt6-base");
    assert_eq!(input.name, "qt6-base");
    assert_eq!(input.old_version, None);
    assert_eq!(input.new_version, None);
}

#[test]
fn parse_with_versions() {
    let input = TriggerInput::parse("qt6-base:6.6.0-1:6.7.0-1");
    assert_eq!(input.name, "qt6-base");
    assert_eq!(input.old_version, Some("6.6.0-1".to_string()));
    assert_eq!(input.new_version, Some("6.7.0-1".to_string()));
}

#[test]
fn parse_version_with_colons() {
    // Edge case: version contains colons (epoch)
    let input = TriggerInput::parse("pkg:1:2.0.0-1:1:3.0.0-1");
    assert_eq!(input.name, "pkg");
    // First split gives us name, then rest is treated as old:new
    assert_eq!(input.old_version, Some("1".to_string()));
    assert_eq!(input.new_version, Some("2.0.0-1:1:3.0.0-1".to_string()));
}

#[test]
fn exceeds_threshold_no_versions() {
    let input = TriggerInput::parse("qt6-base");
    // No versions = always trigger
    assert!(input.exceeds_threshold(Threshold::Major));
    assert!(input.exceeds_threshold(Threshold::Minor));
    assert!(input.exceeds_threshold(Threshold::Patch));
}

#[test]
fn exceeds_threshold_major_change() {
    let input = TriggerInput::parse("qt6-base:5.0.0:6.0.0");
    assert!(input.exceeds_threshold(Threshold::Major));
    assert!(input.exceeds_threshold(Threshold::Minor));
    assert!(input.exceeds_threshold(Threshold::Patch));
}

#[test]
fn exceeds_threshold_minor_change() {
    let input = TriggerInput::parse("qt6-base:6.6.0:6.7.0");
    assert!(!input.exceeds_threshold(Threshold::Major));
    assert!(input.exceeds_threshold(Threshold::Minor));
    assert!(input.exceeds_threshold(Threshold::Patch));
}

#[test]
fn exceeds_threshold_patch_change() {
    let input = TriggerInput::parse("qt6-base:6.7.0:6.7.1");
    assert!(!input.exceeds_threshold(Threshold::Major));
    assert!(!input.exceeds_threshold(Threshold::Minor));
    assert!(input.exceeds_threshold(Threshold::Patch));
}

#[test]
fn exceeds_threshold_unparseable_versions() {
    // Unparseable versions should trigger (conservative)
    let input = TriggerInput {
        name: "pkg".into(),
        old_version: Some("".into()),
        new_version: Some("".into()),
    };
    assert!(input.exceeds_threshold(Threshold::Major));
}

