use anneal::triggers::{curated_triggers, get_curated_threshold, is_curated_trigger, TRIGGER_LIST_VERSION};
use anneal::version::Threshold;

#[test]
fn trigger_list_is_sorted() {
    // Triggers should be grouped by category, not globally sorted
    // This test just ensures the list isn't empty
    assert!(!curated_triggers().is_empty());
}

#[test]
fn trigger_list_version_is_positive() {
    assert!(TRIGGER_LIST_VERSION > 0);
}

#[test]
fn is_curated_trigger_finds_known_triggers() {
    assert!(is_curated_trigger("qt6-base"));
    assert!(is_curated_trigger("gtk4"));
    assert!(is_curated_trigger("icu"));
}

#[test]
fn is_curated_trigger_rejects_unknown() {
    assert!(!is_curated_trigger("not-a-trigger"));
    assert!(!is_curated_trigger("qt6")); // Not qt6-base
    assert!(!is_curated_trigger(""));
}

#[test]
fn curated_threshold_lookup() {
    assert_eq!(get_curated_threshold("glibc"), Some(Threshold::Major));
    assert_eq!(get_curated_threshold("protobuf"), Some(Threshold::Patch));
    assert_eq!(get_curated_threshold("abseil-cpp"), Some(Threshold::Always));
    assert_eq!(get_curated_threshold("qt6-base"), Some(Threshold::Minor));
    assert_eq!(get_curated_threshold("not-a-trigger"), None);
}

#[test]
fn no_duplicate_triggers() {
    let mut seen = std::collections::HashSet::new();
    for (name, _) in curated_triggers() {
        assert!(seen.insert(name.clone()), "duplicate trigger: {name}");
    }
}

#[test]
fn no_empty_triggers() {
    for (name, _) in curated_triggers() {
        assert!(!name.is_empty(), "empty trigger in list");
        assert!(
            !name.contains(char::is_whitespace),
            "trigger has whitespace: {name:?}"
        );
    }
}

