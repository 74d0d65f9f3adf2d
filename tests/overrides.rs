use anneal::overrides::{parse_override_content, Overrides, PackageOverride, TriggerOverride};
use anneal::glob::matches_glob;

#[test]
fn exact_match() {
    assert!(matches_glob("hello", "hello"));
    assert!(!matches_glob("hello", "world"));
    assert!(!matches_glob("hello", "hello!"));
    assert!(!matches_glob("hello!", "hello"));
}

#[test]
fn asterisk_suffix() {
    assert!(matches_glob("hello*", "hello"));
    assert!(matches_glob("hello*", "helloworld"));
    assert!(matches_glob("hello*", "hello-world"));
    assert!(!matches_glob("hello*", "hell"));
    assert!(!matches_glob("hello*", "world"));
}

#[test]
fn asterisk_prefix() {
    assert!(matches_glob("*world", "world"));
    assert!(matches_glob("*world", "helloworld"));
    assert!(matches_glob("*world", "hello-world"));
    assert!(!matches_glob("*world", "worlds"));
}

#[test]
fn asterisk_middle() {
    assert!(matches_glob("h*o", "ho"));
    assert!(matches_glob("h*o", "hello"));
    assert!(matches_glob("h*o", "hxxxxo"));
    assert!(!matches_glob("h*o", "helloX"));
}

#[test]
fn asterisk_only() {
    assert!(matches_glob("*", ""));
    assert!(matches_glob("*", "anything"));
    assert!(matches_glob("*", "hello-world"));
}

#[test]
fn multiple_asterisks() {
    assert!(matches_glob("*-*", "hello-world"));
    assert!(matches_glob("*-*", "-"));
    assert!(matches_glob("a*b*c", "abc"));
    assert!(matches_glob("a*b*c", "aXXbYYc"));
    assert!(!matches_glob("a*b*c", "ac"));
}

#[test]
fn question_mark() {
    assert!(matches_glob("h?llo", "hello"));
    assert!(matches_glob("h?llo", "hallo"));
    assert!(!matches_glob("h?llo", "hllo"));
    assert!(!matches_glob("h?llo", "heello"));
}

#[test]
fn combined_wildcards() {
    assert!(matches_glob("*-git", "foo-git"));
    assert!(matches_glob("*-git", "bar-baz-git"));
    assert!(!matches_glob("*-git", "foo-git-extra"));

    assert!(matches_glob("qt?-*", "qt6-base"));
    assert!(matches_glob("qt?-*", "qt5-svg"));
    assert!(!matches_glob("qt?-*", "qt-base"));
}

#[test]
fn empty_strings() {
    assert!(matches_glob("", ""));
    assert!(!matches_glob("", "x"));
    assert!(matches_glob("*", ""));
    assert!(!matches_glob("?", ""));
}

#[test]
fn package_name_patterns() {
    // Common patterns for AUR packages
    assert!(matches_glob("*-bin", "discord-bin"));
    assert!(matches_glob("*-git", "neovim-git"));
    assert!(matches_glob("python-*", "python-requests"));
    assert!(matches_glob("lib32-*", "lib32-mesa"));
}


#[test]
fn parse_simple_patterns() {
    let patterns = parse_override_content("pkg1\npkg2\npkg3\n");
    assert_eq!(patterns, vec!["pkg1", "pkg2", "pkg3"]);
}

#[test]
fn parse_with_comments() {
    let patterns = parse_override_content("# Comment\npkg1\n# Another comment\npkg2\n");
    assert_eq!(patterns, vec!["pkg1", "pkg2"]);
}

#[test]
fn parse_with_blank_lines() {
    let patterns = parse_override_content("pkg1\n\n\npkg2\n");
    assert_eq!(patterns, vec!["pkg1", "pkg2"]);
}

#[test]
fn parse_with_whitespace() {
    let patterns = parse_override_content("  pkg1  \n\tpkg2\t\n");
    assert_eq!(patterns, vec!["pkg1", "pkg2"]);
}

#[test]
fn overrides_parse_empty_file() {
    let patterns = parse_override_content("");
    assert!(patterns.is_empty());
}

#[test]
fn parse_comments_only() {
    let patterns = parse_override_content("# Only comments\n# Nothing else\n");
    assert!(patterns.is_empty());
}

#[test]
fn parse_glob_patterns() {
    let patterns = parse_override_content("pkg-*\n*-git\nprefix-?-suffix\n");
    assert_eq!(patterns, vec!["pkg-*", "*-git", "prefix-?-suffix"]);
}

#[test]
fn load_disabled() {
    let override_ = TriggerOverride::from_patterns(parse_override_content(""));
    assert_eq!(override_, TriggerOverride::Disabled);
}

#[test]
fn load_with_patterns() {
    let override_ = TriggerOverride::from_patterns(parse_override_content("pkg1\npkg2\n"));
    assert_eq!(
        override_,
        TriggerOverride::Patterns(vec!["pkg1".into(), "pkg2".into()])
    );
}

#[test]
fn load_never_mark() {
    let override_ = PackageOverride::from_patterns(parse_override_content(""));
    assert_eq!(override_, PackageOverride::NeverMark);
}

#[test]
fn load_with_triggers() {
    let override_ = PackageOverride::from_patterns(parse_override_content("qt6-base\ngtk4\n"));
    assert_eq!(
        override_,
        PackageOverride::OnlyTriggers(vec!["qt6-base".into(), "gtk4".into()])
    );
}


fn make_overrides() -> Overrides {
    let mut overrides = Overrides::default();

    // Add trigger overrides
    overrides.insert_trigger(
        "custom-lib".into(),
        TriggerOverride::Patterns(vec!["custom-app".into(), "custom-*".into()]),
    );
    overrides.insert_trigger("disabled-trigger".into(), TriggerOverride::Disabled);

    // Add package overrides
    overrides.insert_package(
        "restricted-pkg".into(),
        PackageOverride::OnlyTriggers(vec!["qt6-base".into()]),
    );
    overrides.insert_package("never-pkg".into(), PackageOverride::NeverMark);

    overrides
}

#[test]
fn is_user_trigger() {
    let overrides = make_overrides();
    assert!(overrides.is_user_trigger("custom-lib"));
    assert!(overrides.is_user_trigger("disabled-trigger"));
    assert!(!overrides.is_user_trigger("qt6-base")); // curated, not user
    assert!(!overrides.is_user_trigger("unknown"));
}

#[test]
fn get_trigger_targets_with_patterns() {
    let overrides = make_overrides();
    let aur_packages: Vec<String> = [
        "custom-app",
        "custom-tool",
        "custom-bin", // -bin should be filtered
        "other-pkg",
    ]
    .into_iter()
    .map(String::from)
    .collect();

    let targets = overrides
        .get_trigger_targets("custom-lib", &aur_packages)
        .unwrap();
    assert!(targets.contains(&"custom-app".to_string()));
    assert!(targets.contains(&"custom-tool".to_string()));
    assert!(!targets.contains(&"custom-bin".to_string())); // -bin filtered
    assert!(!targets.contains(&"other-pkg".to_string()));
}

#[test]
fn get_trigger_targets_disabled() {
    let overrides = make_overrides();
    let aur_packages: Vec<String> =
        ["pkg1", "pkg2"].into_iter().map(String::from).collect();

    let targets = overrides
        .get_trigger_targets("disabled-trigger", &aur_packages)
        .unwrap();
    assert!(targets.is_empty());
}

#[test]
fn get_trigger_targets_no_override() {
    let overrides = make_overrides();
    let aur_packages: Vec<String> =
        ["pkg1", "pkg2"].into_iter().map(String::from).collect();

    // No override for qt6-base, should return None
    assert!(
        overrides
            .get_trigger_targets("qt6-base", &aur_packages)
            .is_none()
    );
}

#[test]
fn should_mark_package_no_override() {
    let overrides = make_overrides();
    // No override, should allow marking
    assert!(overrides.should_mark_package("normal-pkg", "any-trigger"));
}

#[test]
fn should_mark_package_never_mark() {
    let overrides = make_overrides();
    assert!(!overrides.should_mark_package("never-pkg", "qt6-base"));
    assert!(!overrides.should_mark_package("never-pkg", "any-trigger"));
}

#[test]
fn should_mark_package_restricted() {
    let overrides = make_overrides();
    // restricted-pkg only allows qt6-base
    assert!(overrides.should_mark_package("restricted-pkg", "qt6-base"));
    assert!(!overrides.should_mark_package("restricted-pkg", "gtk4"));
    assert!(!overrides.should_mark_package("restricted-pkg", "other"));
}

#[test]
fn glob_pattern_matching() {
    // Test various glob patterns
    assert!(matches_glob("*-git", "neovim-git"));
    assert!(matches_glob("*-git", "foo-bar-git"));
    assert!(!matches_glob("*-git", "neovim-git-extra"));

    assert!(matches_glob("python-*", "python-requests"));
    assert!(matches_glob("python-*", "python-"));
    assert!(!matches_glob("python-*", "python"));

    assert!(matches_glob("*", "anything"));
    assert!(matches_glob("*", ""));

    assert!(matches_glob("qt?-base", "qt6-base"));
    assert!(matches_glob("qt?-base", "qt5-base"));
    assert!(!matches_glob("qt?-base", "qt-base"));
    assert!(!matches_glob("qt?-base", "qt66-base"));
}
