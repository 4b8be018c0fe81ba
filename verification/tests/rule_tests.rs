use tag_track::config::{get_default_bump_rules, BumpRule};
use tag_track::git::Commit;
use tag_track::parsing::CommitDetails;
use tag_track::version::{
    calculate_increment, contains_text, has_breaking_marker, rule_matches, IncrementKind,
};

fn details(kind: &str, scope: Option<&str>, breaking: bool, description: &str) -> CommitDetails {
    CommitDetails {
        commit_type: kind.to_string(),
        scope: scope.map(|s| s.to_string()),
        breaking,
        description: description.to_string(),
    }
}

fn commit(d: Option<CommitDetails>) -> Commit {
    Commit { sha: "abc".to_string(), message: "message".to_string(), details: d }
}

fn rule(bump: IncrementKind) -> BumpRule {
    BumpRule { bump, types: None, scopes: None, if_breaking_field: None, if_breaking_description: None }
}

fn typed(bump: IncrementKind, types: &[&str]) -> BumpRule {
    BumpRule { types: Some(types.iter().map(|t| t.to_string()).collect()), ..rule(bump) }
}

#[test]
fn default_rules_decide_patch_for_fix() {
    let c = commit(Some(details("fix", None, false, "a")));
    assert_eq!(calculate_increment(&c, &get_default_bump_rules()), Some(IncrementKind::Patch));
}

#[test]
fn default_rules_decide_minor_for_feat() {
    let c = commit(Some(details("feat", None, false, "b")));
    assert_eq!(calculate_increment(&c, &get_default_bump_rules()), Some(IncrementKind::Minor));
}

#[test]
fn default_rules_decide_nothing_for_chore() {
    let c = commit(Some(details("chore", None, false, "tidy")));
    assert_eq!(calculate_increment(&c, &get_default_bump_rules()), None);
}

#[test]
fn default_major_rule_needs_both_marks() {
    let rules = get_default_bump_rules();
    let only_field = commit(Some(details("feat", None, true, "new api")));
    assert_eq!(calculate_increment(&only_field, &rules), Some(IncrementKind::Minor));
    let only_text = commit(Some(details("fix", None, false, "BREAKING CHANGE: gone")));
    assert_eq!(calculate_increment(&only_text, &rules), Some(IncrementKind::Patch));
    let both = commit(Some(details("fix", None, true, "BREAKING-CHANGE: gone")));
    assert_eq!(calculate_increment(&both, &rules), Some(IncrementKind::Major));
}

#[test]
fn commit_without_details_gets_no_increment() {
    let rules = vec![BumpRule { if_breaking_field: Some(true), ..rule(IncrementKind::Major) }];
    assert_eq!(calculate_increment(&commit(None), &rules), None);
    assert_eq!(calculate_increment(&commit(None), &get_default_bump_rules()), None);
}

#[test]
fn no_rules_decide_nothing() {
    let c = commit(Some(details("feat", None, true, "x")));
    assert_eq!(calculate_increment(&c, &[]), None);
}

#[test]
fn major_wins_in_every_position() {
    let c = commit(Some(details("feat", Some("core"), true, "breaking")));
    let major = BumpRule { if_breaking_field: Some(true), ..rule(IncrementKind::Major) };
    let minor = typed(IncrementKind::Minor, &["feat"]);
    let patch = typed(IncrementKind::Patch, &["feat"]);
    let orders = [
        vec![major.clone(), minor.clone(), patch.clone()],
        vec![minor.clone(), major.clone(), patch.clone()],
        vec![minor.clone(), patch.clone(), major.clone()],
        vec![patch.clone(), minor.clone(), major.clone()],
    ];
    for rules in orders.iter() {
        assert_eq!(calculate_increment(&c, rules), Some(IncrementKind::Major));
    }
}

#[test]
fn breaking_field_rule_decides_major_whatever_type_and_scope_rules_say() {
    let c = commit(Some(details("feat", Some("core"), true, "breaking")));
    let rules = vec![
        typed(IncrementKind::Patch, &["feat"]),
        BumpRule { scopes: Some(vec!["core".to_string()]), ..rule(IncrementKind::Minor) },
        BumpRule { if_breaking_field: Some(true), ..rule(IncrementKind::Major) },
    ];
    assert_eq!(calculate_increment(&c, &rules), Some(IncrementKind::Major));
}

#[test]
fn minor_replaces_patch_and_patch_does_not_replace_minor() {
    let c = commit(Some(details("feat", None, false, "x")));
    let minor = typed(IncrementKind::Minor, &["feat"]);
    let patch = typed(IncrementKind::Patch, &["feat"]);
    assert_eq!(
        calculate_increment(&c, &[patch.clone(), minor.clone()]),
        Some(IncrementKind::Minor)
    );
    assert_eq!(calculate_increment(&c, &[minor, patch]), Some(IncrementKind::Minor));
}

#[test]
fn rule_with_other_types_never_matches() {
    let d = details("docs", Some("core"), true, "BREAKING CHANGE");
    let r = BumpRule {
        bump: IncrementKind::Major,
        types: Some(vec!["feat".to_string(), "fix".to_string()]),
        scopes: Some(vec!["core".to_string()]),
        if_breaking_field: Some(true),
        if_breaking_description: Some(true),
    };
    assert!(!rule_matches(&r, &d));
    assert_eq!(calculate_increment(&commit(Some(d)), &[r]), None);
}

#[test]
fn rule_with_every_condition_met_matches() {
    let d = details("feat", Some("core"), true, "BREAKING CHANGE");
    let r = BumpRule {
        bump: IncrementKind::Major,
        types: Some(vec!["feat".to_string(), "fix".to_string()]),
        scopes: Some(vec!["core".to_string()]),
        if_breaking_field: Some(true),
        if_breaking_description: Some(true),
    };
    assert!(rule_matches(&r, &d));
}

#[test]
fn rule_without_conditions_never_matches() {
    let d = details("feat", Some("core"), true, "BREAKING CHANGE");
    assert!(!rule_matches(&rule(IncrementKind::Major), &d));
    assert_eq!(calculate_increment(&commit(Some(d)), &[rule(IncrementKind::Major)]), None);
}

#[test]
fn scope_rule_needs_a_listed_scope() {
    let r = BumpRule { scopes: Some(vec!["api".to_string()]), ..rule(IncrementKind::Minor) };
    assert!(rule_matches(&r, &details("feat", Some("api"), false, "x")));
    assert!(!rule_matches(&r, &details("feat", Some("core"), false, "x")));
    assert!(!rule_matches(&r, &details("feat", None, false, "x")));
}

#[test]
fn breaking_conditions_set_to_false_are_never_met() {
    let field = BumpRule { if_breaking_field: Some(false), ..rule(IncrementKind::Major) };
    assert!(!rule_matches(&field, &details("feat", None, true, "x")));
    assert!(!rule_matches(&field, &details("feat", None, false, "x")));
    let text = BumpRule { if_breaking_description: Some(false), ..rule(IncrementKind::Major) };
    assert!(!rule_matches(&text, &details("feat", None, false, "BREAKING CHANGE")));
    assert!(!rule_matches(&text, &details("feat", None, false, "x")));
}

#[test]
fn breaking_marker_is_found_anywhere() {
    assert!(has_breaking_marker("BREAKING CHANGE"));
    assert!(has_breaking_marker("drop api BREAKING-CHANGE: yes"));
    assert!(has_breaking_marker("xBREAKING CHANGEx"));
    assert!(!has_breaking_marker("breaking change"));
    assert!(!has_breaking_marker("BREAKING  CHANGE"));
    assert!(!has_breaking_marker("BREAKING_CHANGE"));
    assert!(!has_breaking_marker("BREAKING CHANG"));
    assert!(!has_breaking_marker(""));
}

#[test]
fn contains_text_finds_whole_items_only() {
    let list = vec!["feat".to_string(), "fix".to_string()];
    assert!(contains_text(&list, "feat"));
    assert!(contains_text(&list, "fix"));
    assert!(!contains_text(&list, "fea"));
    assert!(!contains_text(&list, "feature"));
    assert!(!contains_text(&list, ""));
    assert!(!contains_text(&Vec::new(), "feat"));
}
