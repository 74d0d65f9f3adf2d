use anneal::config::{parse_bool, Config, ConfigError};
use anneal::version::Threshold;

#[test]
fn default_config() {
    let config = Config::default();
    assert_eq!(config.version_threshold, Threshold::Minor);
    assert_eq!(config.helper, None);
    assert!(!config.include_checkrebuild);
    assert_eq!(config.retention_days, 90);
}

#[test]
fn config_parse_empty_file() {
    let config = Config::parse("").unwrap();
    assert_eq!(config, Config::default());
}

#[test]
    fn parse_comments_and_blank_lines() {
        let config = Config::parse(
            r"
# This is a comment
   # Indented comment

version_threshold = major
",
        )
        .unwrap();
        assert_eq!(config.version_threshold, Threshold::Major);
    }

#[test]
    fn parse_all_options() {
        let config = Config::parse(
            r"
version_threshold = patch
helper = yay
include_checkrebuild = true
retention_days = 30
",
        )
        .unwrap();

        assert_eq!(config.version_threshold, Threshold::Patch);
        assert_eq!(config.helper, Some("yay".into()));
        assert!(config.include_checkrebuild);
        assert_eq!(config.retention_days, 30);
    }

#[test]
fn parse_custom_helper_command() {
    let config = Config::parse("helper = my-helper -S --rebuild").unwrap();
    assert_eq!(config.helper, Some("my-helper -S --rebuild".into()));
}

#[test]
fn parse_empty_helper() {
    let config = Config::parse("helper =").unwrap();
    assert_eq!(config.helper, None);
}

#[test]
fn parse_bool_variants() {
    assert_eq!(parse_bool("true"), Some(true));
    assert_eq!(parse_bool("True"), Some(true));
    assert_eq!(parse_bool("TRUE"), Some(true));
    assert_eq!(parse_bool("yes"), Some(true));
    assert_eq!(parse_bool("1"), Some(true));

    assert_eq!(parse_bool("false"), Some(false));
    assert_eq!(parse_bool("False"), Some(false));
    assert_eq!(parse_bool("no"), Some(false));
    assert_eq!(parse_bool("0"), Some(false));

    assert_eq!(parse_bool("maybe"), None);
    assert_eq!(parse_bool(""), None);
}

#[test]
fn parse_error_missing_equals() {
    let err = Config::parse("version_threshold minor").unwrap_err();
    assert!(matches!(err, ConfigError::Parse { line: 1, .. }));
}

#[test]
fn parse_error_unknown_key() {
    let err = Config::parse("unknown_key = value").unwrap_err();
    match err {
        ConfigError::Parse { line, message } => {
            assert_eq!(line, 1);
            assert!(message.contains("unknown key"));
        }
        _ => panic!("expected parse error"),
    }
}

#[test]
fn parse_error_invalid_threshold() {
    let err = Config::parse("version_threshold = invalid").unwrap_err();
    match err {
        ConfigError::Parse { line, message } => {
            assert_eq!(line, 1);
            assert!(message.contains("invalid version_threshold"));
        }
        _ => panic!("expected parse error"),
    }
}

#[test]
fn parse_error_invalid_bool() {
    let err = Config::parse("include_checkrebuild = maybe").unwrap_err();
    assert!(matches!(err, ConfigError::Parse { line: 1, .. }));
}

#[test]
fn parse_error_invalid_retention() {
    let err = Config::parse("retention_days = -1").unwrap_err();
    assert!(matches!(err, ConfigError::Parse { line: 1, .. }));
}

#[test]
fn to_conf_roundtrip() {
    let config = Config {
        version_threshold: Threshold::Patch,
        helper: Some("paru".into()),
        include_checkrebuild: true,
        retention_days: 60,
    };

    let serialized = config.to_conf();
    let parsed = Config::parse(&serialized).unwrap();
    assert_eq!(parsed, config);
}

#[test]
fn to_conf_no_helper() {
    let config = Config::default();
    let serialized = config.to_conf();
    assert!(serialized.contains("# helper ="));
}

#[test]
fn known_helpers() {
    assert!(Config::is_known_helper("paru"));
    assert!(Config::is_known_helper("yay"));
    assert!(Config::is_known_helper("pikaur"));
    assert!(Config::is_known_helper("aura"));
    assert!(Config::is_known_helper("trizen"));
    assert!(!Config::is_known_helper("pacman"));
    assert!(!Config::is_known_helper("custom-helper"));
}

