use tag_track::config::{
    copy_strings, get_default_bump_rules, BumpRule, Config, ParsedConfig, DEFAULT_COMMIT_PATTERN,
    DEFAULT_TAG_PATTERN,
};
use tag_track::version::IncrementKind;

fn shown(rules: &[BumpRule]) -> String {
    format!("{:?}", rules)
}

#[test]
fn default_patterns() {
    assert_eq!(DEFAULT_TAG_PATTERN, r"(?<version>.*)");
    assert_eq!(
        DEFAULT_COMMIT_PATTERN,
        r"^(?<type>[a-zA-Z]*)(?<scope>\(.*\))?(?<breaking>!)?:(?<description>[\s\S]*)$"
    );
}

#[test]
fn default_rules() {
    let rules = get_default_bump_rules();
    assert_eq!(rules.len(), 3);
    assert_eq!(rules[0].bump, IncrementKind::Patch);
    assert_eq!(rules[0].types, Some(vec!["fix".to_string(), "style".to_string()]));
    assert_eq!(rules[1].bump, IncrementKind::Minor);
    assert_eq!(
        rules[1].types,
        Some(vec!["feat".to_string(), "refactor".to_string(), "perf".to_string()])
    );
    assert_eq!(rules[2].bump, IncrementKind::Major);
    assert_eq!(rules[2].types, None);
    assert_eq!(rules[2].if_breaking_field, Some(true));
    assert_eq!(rules[2].if_breaking_description, Some(true));
    for rule in &rules {
        assert_eq!(rule.scopes, None);
    }
    assert_eq!(rules[0].if_breaking_field, None);
    assert_eq!(rules[1].if_breaking_description, None);
}

#[test]
fn new_holds_every_default() {
    let config = Config::new();
    assert_eq!(config.tag_pattern, DEFAULT_TAG_PATTERN);
    assert_eq!(config.commit_pattern, DEFAULT_COMMIT_PATTERN);
    assert_eq!(shown(&config.bump_rules), shown(&get_default_bump_rules()));
    assert!(config.version_scopes.is_empty());
}

#[test]
fn from_parsed_fills_what_is_missing() {
    let parsed = ParsedConfig {
        tag_pattern: None,
        commit_pattern: None,
        bump_rules: None,
        version_scopes: None,
    };
    let config = Config::from_parsed(parsed);
    assert_eq!(format!("{:?}", config), format!("{:?}", Config::new()));
}

#[test]
fn from_parsed_keeps_what_is_there() {
    let rule = BumpRule {
        bump: IncrementKind::Major,
        types: Some(vec!["boom".to_string()]),
        scopes: None,
        if_breaking_field: None,
        if_breaking_description: None,
    };
    let parsed = ParsedConfig {
        tag_pattern: Some("t".to_string()),
        commit_pattern: None,
        bump_rules: Some(vec![rule.clone()]),
        version_scopes: Some(vec!["a".to_string(), "b".to_string()]),
    };
    let config = Config::from_parsed(parsed);
    assert_eq!(config.tag_pattern, "t");
    assert_eq!(config.commit_pattern, DEFAULT_COMMIT_PATTERN);
    assert_eq!(shown(&config.bump_rules), shown(&[rule]));
    assert_eq!(config.version_scopes, vec!["a", "b"]);
}

#[test]
fn scopes_default_to_the_unnamed_one() {
    let mut config = Config::new();
    assert_eq!(config.scopes(), vec![""]);
    config.version_scopes = vec!["a".to_string(), "b".to_string()];
    assert_eq!(config.scopes(), vec!["a", "b"]);
}

#[test]
fn copy_strings_copies() {
    let list = vec!["a".to_string(), String::new(), "c d".to_string()];
    assert_eq!(copy_strings(&list), list);
    assert!(copy_strings(&Vec::new()).is_empty());
}
