use tag_track::config::Config;
use tag_track::error::ErrorKind;
use tag_track::git::{Commit, Tag};
use tag_track::parsing::{parse_commit_details, parse_tag_details};
use tag_track::source::tags::{copy_commit, copy_tag, find_scope, find_tags_from_commit_sha};
use tag_track::source::walk::{drop_settled, look};
use tag_track::source::{RawCommit, RefIterator, Reference, Step};

const TAG_PATTERN: &str = r"^(?:(?<scope>[a-z]+)/)?v(?<version>.*)$";

fn tag(sha: &str, name: &str) -> Tag {
    Tag {
        commit_sha: sha.to_string(),
        name: name.to_string(),
        details: parse_tag_details(name, TAG_PATTERN).unwrap(),
    }
}

fn raw(sha: &str, message: &str) -> RawCommit {
    RawCommit { sha: sha.to_string(), message: message.to_string() }
}

fn commit(sha: &str, message: &str) -> Commit {
    let config = Config::new();
    Commit {
        sha: sha.to_string(),
        message: message.to_string(),
        details: parse_commit_details(message, &config.commit_pattern).unwrap(),
    }
}

fn scoped(scopes: &[&str]) -> Config {
    let mut config = Config::new();
    config.tag_pattern = TAG_PATTERN.to_string();
    config.version_scopes = scopes.iter().map(|s| s.to_string()).collect();
    config
}

fn names(tags: &Option<Vec<Tag>>) -> Vec<String> {
    match tags {
        Some(tags) => tags.iter().map(|t| t.name.clone()).collect(),
        None => Vec::new(),
    }
}

fn report(step: Step) -> Reference {
    match step {
        Step::Report(reference) => reference,
        other => panic!("expected a report, got {:?}", other),
    }
}

fn unnamed() -> Vec<String> {
    vec![String::new()]
}

#[test]
fn highest_version_of_a_scope_is_kept() {
    let tags = vec![tag("c1", "v1.0.0"), tag("c1", "v1.1.0")];
    let found = find_tags_from_commit_sha("c1", &tags, &unnamed()).unwrap();
    assert_eq!(found.len(), 1);
    assert_eq!(found[0].name, "v1.1.0");
    let details = found[0].details.as_ref().unwrap();
    assert_eq!((details.version.major, details.version.minor, details.version.patch), (1, 1, 0));
}

#[test]
fn highest_version_is_kept_whatever_the_order() {
    let tags = vec![tag("c1", "v1.1.0"), tag("c1", "v1.0.0"), tag("c1", "v1.0.5")];
    let found = find_tags_from_commit_sha("c1", &tags, &unnamed()).unwrap();
    assert_eq!(names(&Some(found)), vec!["v1.1.0"]);
}

#[test]
fn first_seen_is_kept_on_a_tie() {
    let mut second = tag("c1", "v1.0.0");
    second.name = "again".to_string();
    let tags = vec![tag("c1", "v1.0.0"), second];
    let found = find_tags_from_commit_sha("c1", &tags, &unnamed()).unwrap();
    assert_eq!(names(&Some(found)), vec!["v1.0.0"]);
}

#[test]
fn one_tag_per_scope_in_order_of_first_appearance() {
    let tags = vec![
        tag("c1", "b/v2.0.0"),
        tag("c1", "a/v1.0.0"),
        tag("c1", "b/v2.1.0"),
        tag("c1", "a/v0.9.0"),
        tag("c2", "a/v9.0.0"),
    ];
    let scopes = vec!["a".to_string(), "b".to_string()];
    let found = find_tags_from_commit_sha("c1", &tags, &scopes).unwrap();
    assert_eq!(names(&Some(found)), vec!["b/v2.1.0", "a/v1.0.0"]);
}

#[test]
fn tags_of_other_commits_scopes_or_shapes_do_not_count() {
    let tags = vec![tag("c2", "v1.0.0"), tag("c1", "a/v1.0.0"), tag("c1", "nightly")];
    assert!(find_tags_from_commit_sha("c1", &tags, &unnamed()).is_none());
    assert!(find_tags_from_commit_sha("c1", &tags, &[]).is_none());
    assert!(find_tags_from_commit_sha("c1", &[], &unnamed()).is_none());
    assert!(find_tags_from_commit_sha("c3", &tags, &unnamed()).is_none());
    let found = find_tags_from_commit_sha("c1", &tags, &["a".to_string()]).unwrap();
    assert_eq!(names(&Some(found)), vec!["a/v1.0.0"]);
}

#[test]
fn find_scope_gives_the_first_index_or_the_length() {
    let found = vec![tag("c1", "a/v1.0.0"), tag("c1", "v1.0.0"), tag("c1", "b/v1.0.0")];
    assert_eq!(find_scope(&found, &Some("a".to_string())), 0);
    assert_eq!(find_scope(&found, &None), 1);
    assert_eq!(find_scope(&found, &Some(String::new())), 1);
    assert_eq!(find_scope(&found, &Some("b".to_string())), 2);
    assert_eq!(find_scope(&found, &Some("c".to_string())), 3);
    assert_eq!(find_scope(&Vec::new(), &None), 0);
}

#[test]
fn drop_settled_keeps_the_open_scopes_in_order() {
    let unresolved = vec!["a".to_string(), "b".to_string(), "c".to_string()];
    let found = vec![tag("c1", "b/v1.0.0")];
    assert_eq!(drop_settled(&unresolved, &found), vec!["a", "c"]);
    assert_eq!(drop_settled(&unresolved, &Vec::new()), vec!["a", "b", "c"]);
    let all = vec![tag("c1", "c/v1.0.0"), tag("c1", "a/v1.0.0"), tag("c1", "b/v1.0.0")];
    assert!(drop_settled(&unresolved, &all).is_empty());
}

#[test]
fn copies_are_equal_to_their_originals() {
    let t = tag("c1", "a/v1.2.3-rc.1+b");
    let u = copy_tag(&t);
    assert_eq!(format!("{:?}", t), format!("{:?}", u));
    let c = commit("c1", "feat(api)!: x");
    let d = copy_commit(&c);
    assert_eq!(format!("{:?}", c), format!("{:?}", d));
}

#[test]
fn look_reports_an_open_commit() {
    let tags = vec![tag("c0", "v1.0.0")];
    let (open, finished, reference) = look(commit("c1", "feat: x"), &tags, &unnamed());
    assert_eq!(open, unnamed());
    assert!(!finished);
    let reference = reference.unwrap();
    assert_eq!(reference.commit.unwrap().sha, "c1");
    assert!(reference.tags.is_none());
}

#[test]
fn look_reports_only_the_tags_of_a_commit_whose_scope_they_settle() {
    let tags = vec![tag("c1", "v1.0.0")];
    let (open, finished, reference) = look(commit("c1", "feat: x"), &tags, &unnamed());
    assert!(open.is_empty());
    assert!(finished);
    let reference = reference.unwrap();
    assert!(reference.commit.is_none());
    assert_eq!(names(&reference.tags), vec!["v1.0.0"]);
}

#[test]
fn look_always_reports_a_commit_without_details() {
    let tags = vec![tag("c1", "v1.0.0")];
    let (open, finished, reference) = look(commit("c1", "merge branch"), &tags, &unnamed());
    assert!(open.is_empty());
    assert!(finished);
    let reference = reference.unwrap();
    assert_eq!(reference.commit.unwrap().sha, "c1");
    assert_eq!(names(&reference.tags), vec!["v1.0.0"]);
    let (_, finished, reference) = look(commit("c2", "merge branch"), &tags, &Vec::new());
    assert!(!finished);
    assert_eq!(reference.unwrap().commit.unwrap().sha, "c2");
}

#[test]
fn look_passes_over_a_settled_commit_without_tags() {
    let tags = vec![tag("c0", "a/v1.0.0")];
    let open = vec!["a".to_string()];
    let (still, finished, reference) = look(commit("c1", "feat(b): x"), &tags, &open);
    assert_eq!(still, open);
    assert!(!finished);
    assert!(reference.is_none());
}

#[test]
fn new_walk_asks_for_the_first_page() {
    let config = Config::new();
    let mut it = RefIterator::new("head", vec![tag("c1", "v1.0.0")], &config);
    assert_eq!(it.sha(), "head");
    assert!(!it.finished());
    assert_eq!(it.unresolved(), unnamed());
    assert!(matches!(it.next(), Step::Fetch(1)));
    assert!(matches!(it.next(), Step::Fetch(1)));
}

#[test]
fn walk_reports_commits_down_to_the_tag() {
    let config = scoped(&[]);
    let tags = vec![tag("c1", "v1.2.3")];
    let mut it = RefIterator::new("c3", tags, &config);
    assert!(matches!(it.next(), Step::Fetch(1)));
    it.supply_page(vec![
        raw("c3", "feat: b"),
        raw("c2", "fix: a"),
        raw("c1", "chore: released"),
        raw("c0", "feat: older"),
    ])
    .unwrap();
    let first = report(it.next());
    assert_eq!(first.commit.as_ref().unwrap().sha, "c3");
    assert_eq!(first.commit.unwrap().details.unwrap().commit_type, "feat");
    assert!(first.tags.is_none());
    let second = report(it.next());
    assert_eq!(second.commit.unwrap().sha, "c2");
    assert!(!it.finished());
    let third = report(it.next());
    assert!(third.commit.is_none());
    assert_eq!(names(&third.tags), vec!["v1.2.3"]);
    assert!(it.finished());
    assert!(it.unresolved().is_empty());
    assert!(matches!(it.next(), Step::Done));
    assert!(matches!(it.next(), Step::Done));
}

#[test]
fn walk_runs_over_pages() {
    let config = scoped(&[]);
    let mut it = RefIterator::new("c3", vec![tag("c1", "v1.0.0")], &config);
    assert!(matches!(it.next(), Step::Fetch(1)));
    it.supply_page(vec![raw("c3", "feat: b")]).unwrap();
    assert_eq!(report(it.next()).commit.unwrap().sha, "c3");
    assert!(matches!(it.next(), Step::Fetch(2)));
    it.supply_page(vec![raw("c2", "fix: a"), raw("c1", "fix: released")]).unwrap();
    assert_eq!(report(it.next()).commit.unwrap().sha, "c2");
    assert_eq!(names(&report(it.next()).tags), vec!["v1.0.0"]);
    assert!(matches!(it.next(), Step::Done));
}

#[test]
fn walk_passes_over_commits_of_settled_scopes() {
    let config = scoped(&["a", "b"]);
    let tags = vec![tag("c3", "a/v1.0.0"), tag("c1", "b/v2.0.0")];
    let mut it = RefIterator::new("c4", tags, &config);
    it.supply_page(vec![
        raw("c4", "feat(a): new"),
        raw("c3", "fix(b): tagged for a"),
        raw("c2", "feat(a): before the tag of a"),
        raw("c1", "fix(b): tagged for b"),
        raw("c0", "feat(a): old"),
    ])
    .unwrap();
    assert_eq!(report(it.next()).commit.unwrap().sha, "c4");
    let at_a = report(it.next());
    assert_eq!(at_a.commit.unwrap().sha, "c3");
    assert_eq!(names(&at_a.tags), vec!["a/v1.0.0"]);
    assert_eq!(it.unresolved(), vec!["b"]);
    let at_b = report(it.next());
    assert!(at_b.commit.is_none());
    assert_eq!(names(&at_b.tags), vec!["b/v2.0.0"]);
    assert!(it.finished());
    assert!(matches!(it.next(), Step::Done));
}

#[test]
fn walk_reports_commits_that_do_not_follow_the_pattern() {
    let config = scoped(&["a"]);
    let mut it = RefIterator::new("c2", vec![tag("c0", "a/v1.0.0")], &config);
    it.supply_page(vec![raw("c2", "Merge pull request"), raw("c1", "feat(b): other scope")]).unwrap();
    let first = report(it.next());
    assert_eq!(first.commit.as_ref().unwrap().sha, "c2");
    assert!(first.commit.unwrap().details.is_none());
    assert!(matches!(it.next(), Step::Fetch(2)));
}

#[test]
fn scope_without_tag_stays_open_when_the_history_ends() {
    let config = scoped(&["a", "b"]);
    let mut it = RefIterator::new("c2", vec![tag("c1", "a/v1.0.0")], &config);
    it.supply_page(vec![raw("c2", "feat(b): x"), raw("c1", "fix(a): y"), raw("c0", "fix(b): z")])
        .unwrap();
    assert_eq!(report(it.next()).commit.unwrap().sha, "c2");
    let at_a = report(it.next());
    assert!(at_a.commit.is_none());
    assert_eq!(names(&at_a.tags), vec!["a/v1.0.0"]);
    assert!(!it.finished());
    assert_eq!(report(it.next()).commit.unwrap().sha, "c0");
    assert!(matches!(it.next(), Step::Fetch(2)));
    it.supply_page(Vec::new()).unwrap();
    assert!(it.finished());
    assert_eq!(it.unresolved(), vec!["b"]);
    assert!(matches!(it.next(), Step::Done));
}

#[test]
fn empty_history_ends_the_walk() {
    let config = Config::new();
    let mut it = RefIterator::new("head", Vec::new(), &config);
    assert!(matches!(it.next(), Step::Fetch(1)));
    it.supply_page(Vec::new()).unwrap();
    assert!(matches!(it.next(), Step::Done));
    assert_eq!(it.unresolved(), unnamed());
}

#[test]
fn stop_ends_the_walk() {
    let config = Config::new();
    let mut it = RefIterator::new("head", Vec::new(), &config);
    it.supply_page(vec![raw("c1", "feat: x")]).unwrap();
    it.stop();
    assert!(it.finished());
    assert!(matches!(it.next(), Step::Done));
}

#[test]
fn page_behind_pending_commits_is_appended() {
    let config = Config::new();
    let mut it = RefIterator::new("head", Vec::new(), &config);
    it.supply_page(vec![raw("c3", "feat: x"), raw("c2", "feat: y")]).unwrap();
    assert_eq!(report(it.next()).commit.unwrap().sha, "c3");
    it.supply_page(vec![raw("c1", "feat: z")]).unwrap();
    assert_eq!(report(it.next()).commit.unwrap().sha, "c2");
    assert_eq!(report(it.next()).commit.unwrap().sha, "c1");
    assert!(matches!(it.next(), Step::Fetch(3)));
}

#[test]
fn invalid_commit_pattern_fails_the_page_and_changes_nothing() {
    let mut config = Config::new();
    config.commit_pattern = "(".to_string();
    let mut it = RefIterator::new("head", Vec::new(), &config);
    let e = it.supply_page(vec![raw("c1", "feat: x")]).unwrap_err();
    assert_eq!(e.kind, ErrorKind::InvalidRegexPattern);
    assert!(!it.finished());
    assert!(matches!(it.next(), Step::Fetch(1)));
    it.supply_page(Vec::new()).unwrap();
    assert!(it.finished());
}

#[test]
fn same_input_gives_the_same_walk() {
    let run = || {
        let config = scoped(&["a", "b"]);
        let tags = vec![tag("c3", "a/v1.0.0"), tag("c1", "b/v2.0.0"), tag("c1", "b/v2.0.1")];
        let mut it = RefIterator::new("c4", tags, &config);
        let mut seen = Vec::new();
        let mut pages = vec![
            vec![raw("c2", "oops"), raw("c1", "fix(b): y")],
            vec![raw("c4", "feat(a): x"), raw("c3", "fix(b): z")],
        ];
        loop {
            match it.next() {
                Step::Report(reference) => seen.push(format!("{:?}", reference)),
                Step::Fetch(_) => it.supply_page(pages.pop().unwrap_or_default()).unwrap(),
                Step::Done => break,
            }
        }
        seen
    };
    let first = run();
    assert_eq!(first.len(), 4);
    assert_eq!(first, run());
}

#[test]
fn walk_begins_only_with_tags() {
    let config = Config::new();
    let e = RefIterator::begin("head", None, &config).unwrap_err();
    assert_eq!(e.kind, ErrorKind::MissingGitTags);
    assert_eq!(e.message, "no tags found for repository");
    let mut it = RefIterator::begin("head", Some(vec![tag("c1", "v1.0.0")]), &config).unwrap();
    assert_eq!(it.sha(), "head");
    assert_eq!(it.page(), 1);
    assert!(matches!(it.next(), Step::Fetch(1)));
    it.supply_page(vec![raw("c2", "feat: x")]).unwrap();
    assert_eq!(it.page(), 2);
}
