use shellsense::config::{default_max_suggestions, pattern_matches_lowered, PrivacyConfig};

#[test]
fn test_privacy_exclusion() {
    let config = PrivacyConfig {
        exclude_patterns: vec!["*password*".to_string(), "*secret*".to_string()],
    };
    assert!(config.should_exclude("export PASSWORD=abc"));
    assert!(config.should_exclude("echo $SECRET_KEY"));
    assert!(!config.should_exclude("git commit -m 'hello'"));
}

#[test]
fn test_empty_wildcard_pattern_does_not_match_everything() {
    let config = PrivacyConfig {
        exclude_patterns: vec!["**".to_string(), "*".to_string(), "".to_string()],
    };
    assert!(!config.should_exclude("git status"));
    assert!(!config.should_exclude("ls -la"));
    assert!(!config.should_exclude("echo hello"));
}

#[test]
fn test_should_exclude_case_insensitive() {
    let config = PrivacyConfig {
        exclude_patterns: vec!["*PASSWORD*".to_string()],
    };
    assert!(config.should_exclude("export password=abc"));
    assert!(config.should_exclude("export PASSWORD=abc"));
    assert!(config.should_exclude("export Password=abc"));
}

#[test]
fn test_should_exclude_unicode() {
    let config = PrivacyConfig {
        exclude_patterns: vec!["*contraseña*".to_string()],
    };
    assert!(config.should_exclude("export CONTRASEÑA=secreto"));
    assert!(!config.should_exclude("echo hello"));
}

#[test]
fn inner_stars_are_literal_and_default_excludes_nothing() {
    let config = PrivacyConfig {
        exclude_patterns: vec!["*a*b*".to_string()],
    };
    assert!(config.should_exclude("xA*Bx"));
    assert!(!config.should_exclude("ab"));
    assert!(!PrivacyConfig::default().should_exclude("anything"));
    assert_eq!(default_max_suggestions(), 5);
}

#[test]
fn pattern_matches_lowered_needs_a_nonempty_substring() {
    assert!(pattern_matches_lowered("export aws_secret=1", "aws_secret"));
    assert!(!pattern_matches_lowered("export aws_secret=1", "token"));
    assert!(!pattern_matches_lowered("export aws_secret=1", ""));
    assert!(!pattern_matches_lowered("", "a"));
}

#[test]
fn ascii_case_variants_are_excluded_alike() {
    let config = PrivacyConfig { exclude_patterns: vec!["*aws_secret*".to_string()] };
    for cmd in ["export AWS_SECRET=1", "export aws_secret=1", "EXPORT Aws_Secret=1"] {
        assert!(config.should_exclude(cmd));
    }
    for cmd in ["export AWS_TOKEN=1", "export aws_token=1"] {
        assert!(!config.should_exclude(cmd));
    }
}
