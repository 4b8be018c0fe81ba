use tag_track::config::{DEFAULT_COMMIT_PATTERN, DEFAULT_TAG_PATTERN};
use tag_track::error::ErrorKind;
use tag_track::parsing::{
    commit_details_from, parse_commit_details, parse_tag_details, scope_from, tag_details_from,
};

#[test]
fn conventional_commit_with_scope() {
    let d = parse_commit_details("feat(api): add x", DEFAULT_COMMIT_PATTERN).unwrap().unwrap();
    assert_eq!(d.commit_type, "feat");
    assert_eq!(d.scope.as_deref(), Some("api"));
    assert!(!d.breaking);
    assert_eq!(d.description, "add x");
}

#[test]
fn conventional_commit_without_scope() {
    let d = parse_commit_details("fix: a", DEFAULT_COMMIT_PATTERN).unwrap().unwrap();
    assert_eq!(d.commit_type, "fix");
    assert_eq!(d.scope, None);
    assert!(!d.breaking);
    assert_eq!(d.description, "a");
}

#[test]
fn conventional_commit_marked_breaking() {
    let d = parse_commit_details("feat(core)!: breaking", DEFAULT_COMMIT_PATTERN).unwrap().unwrap();
    assert_eq!(d.commit_type, "feat");
    assert_eq!(d.scope.as_deref(), Some("core"));
    assert!(d.breaking);
    assert_eq!(d.description, "breaking");
}

#[test]
fn description_is_trimmed_and_may_span_lines() {
    let d = parse_commit_details("fix:   two\nlines  \n", DEFAULT_COMMIT_PATTERN).unwrap().unwrap();
    assert_eq!(d.description, "two\nlines");
}

#[test]
fn scope_loses_parentheses_and_outer_blanks() {
    let d = parse_commit_details("feat( my scope ): x", DEFAULT_COMMIT_PATTERN).unwrap().unwrap();
    assert_eq!(d.scope.as_deref(), Some("my scope"));
}

#[test]
fn message_that_does_not_match_has_no_details() {
    assert!(parse_commit_details("no colon here", DEFAULT_COMMIT_PATTERN).unwrap().is_none());
    assert!(parse_commit_details("feat 1: x", DEFAULT_COMMIT_PATTERN).unwrap().is_none());
    assert!(parse_commit_details("", DEFAULT_COMMIT_PATTERN).unwrap().is_none());
}

#[test]
fn empty_description_has_no_details() {
    assert!(parse_commit_details("feat:", DEFAULT_COMMIT_PATTERN).unwrap().is_none());
}

#[test]
fn blank_description_is_kept_as_empty() {
    let d = parse_commit_details("feat: ", DEFAULT_COMMIT_PATTERN).unwrap().unwrap();
    assert_eq!(d.description, "");
}

#[test]
fn pattern_without_type_group_gives_no_details() {
    assert!(parse_commit_details("feat: x", r"^(?<description>.*)$").unwrap().is_none());
}

#[test]
fn pattern_without_description_group_gives_no_details() {
    assert!(parse_commit_details("feat: x", r"^(?<type>[a-z]+):").unwrap().is_none());
}

#[test]
fn invalid_commit_pattern_is_an_error() {
    let e = parse_commit_details("feat: x", "(unclosed").unwrap_err();
    assert_eq!(e.kind, ErrorKind::InvalidRegexPattern);
    assert!(e.message.starts_with("(unclosed - "));
    assert!(e.message.len() > "(unclosed - ".len());
    assert!(!e.message.contains('\n'));
}

#[test]
fn tag_with_version() {
    let d = parse_tag_details("v1.2.3", r"v(?<version>.*)").unwrap().unwrap();
    assert_eq!((d.version.major, d.version.minor, d.version.patch), (1, 2, 3));
    assert_eq!(d.version.pre, "");
    assert_eq!(d.version.build, "");
    assert_eq!(d.scope, None);
}

#[test]
fn tag_with_scope_and_prerelease() {
    let d = parse_tag_details("(api)/2.0.1-rc.1+x", r"(?<scope>\(.*\))/(?<version>.*)")
        .unwrap()
        .unwrap();
    assert_eq!((d.version.major, d.version.minor, d.version.patch), (2, 0, 1));
    assert_eq!(d.version.pre, "rc.1");
    assert_eq!(d.version.build, "x");
    assert_eq!(d.scope.as_deref(), Some("api"));
}

#[test]
fn tag_version_is_trimmed() {
    let d = parse_tag_details("v 1.2.3 ", r"v(?<version>.*)").unwrap().unwrap();
    assert_eq!((d.version.major, d.version.minor, d.version.patch), (1, 2, 3));
}

#[test]
fn tag_whose_version_is_no_version_has_no_details() {
    assert!(parse_tag_details("vnext", r"v(?<version>.*)").unwrap().is_none());
    assert!(parse_tag_details("v1.2", r"v(?<version>.*)").unwrap().is_none());
}

#[test]
fn tag_that_does_not_match_has_no_details() {
    assert!(parse_tag_details("release-1.2.3", r"^v(?<version>.*)").unwrap().is_none());
}

#[test]
fn default_tag_pattern_reads_the_whole_name_as_the_version() {
    let d = parse_tag_details("1.2.3-rc.1", DEFAULT_TAG_PATTERN).unwrap().unwrap();
    assert_eq!((d.version.major, d.version.minor, d.version.patch), (1, 2, 3));
    assert_eq!(d.version.pre, "rc.1");
    assert_eq!(d.scope, None);
    assert!(parse_tag_details("v1.2.3", DEFAULT_TAG_PATTERN).unwrap().is_none());
    assert!(parse_tag_details("", DEFAULT_TAG_PATTERN).unwrap().is_none());
}

#[test]
fn pattern_without_version_group_gives_no_details() {
    assert!(parse_tag_details("1.2.3", r"(.*)").unwrap().is_none());
}

#[test]
fn invalid_tag_pattern_is_an_error() {
    let e = parse_tag_details("v1.2.3", "v(?<version>").unwrap_err();
    assert_eq!(e.kind, ErrorKind::InvalidRegexPattern);
    assert!(e.message.starts_with("v(?<version> - "));
}

#[test]
fn commit_details_from_captures() {
    let captures = vec![
        Some(" feat ".to_string()),
        Some("(api)".to_string()),
        None,
        Some(" add x ".to_string()),
    ];
    let d = commit_details_from(&captures).unwrap();
    assert_eq!(d.commit_type, "feat");
    assert_eq!(d.scope.as_deref(), Some("api"));
    assert!(!d.breaking);
    assert_eq!(d.description, "add x");
}

#[test]
fn commit_details_from_captures_need_type_and_description() {
    let full = vec![
        Some("feat".to_string()),
        None,
        Some("!".to_string()),
        Some("x".to_string()),
    ];
    assert!(commit_details_from(&full).unwrap().breaking);
    let mut no_type = full.clone();
    no_type[0] = None;
    assert!(commit_details_from(&no_type).is_none());
    let mut no_description = full.clone();
    no_description[3] = None;
    assert!(commit_details_from(&no_description).is_none());
    let mut empty_description = full.clone();
    empty_description[3] = Some(String::new());
    assert!(commit_details_from(&empty_description).is_none());
}

#[test]
fn tag_details_from_captures() {
    let d = tag_details_from(&vec![Some(" 1.2.3 ".to_string()), Some("(core)".to_string())]).unwrap();
    assert_eq!((d.version.major, d.version.minor, d.version.patch), (1, 2, 3));
    assert_eq!(d.scope.as_deref(), Some("core"));
    assert!(tag_details_from(&vec![None, Some("(core)".to_string())]).is_none());
    assert!(tag_details_from(&vec![Some("one".to_string()), None]).is_none());
}

#[test]
fn scope_from_capture() {
    assert_eq!(scope_from(&Some("(a(b)c)".to_string())).as_deref(), Some("abc"));
    assert_eq!(scope_from(&Some("()".to_string())).as_deref(), Some(""));
    assert_eq!(scope_from(&None), None);
}
