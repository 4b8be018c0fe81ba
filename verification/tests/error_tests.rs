use tag_track::error::{Error, ErrorKind};

#[test]
fn every_kind_has_its_description() {
    assert_eq!(ErrorKind::GenericCommandFailed.as_str(), "shell command failed");
    assert_eq!(ErrorKind::MissingGit.as_str(), "missing git installation");
    assert_eq!(
        ErrorKind::NotGitWorkingTree.as_str(),
        "the current directory does not seem to be a git working tree"
    );
    assert_eq!(ErrorKind::GithubRestError.as_str(), "error while calling GitHub REST API");
    assert_eq!(ErrorKind::MissingGitTags.as_str(), "cannot get tags from source");
    assert_eq!(ErrorKind::InvalidOutputFormat.as_str(), "the specified output format is not valid");
    assert_eq!(ErrorKind::InvalidRegexPattern.as_str(), "the regex pattern is not valid");
    assert_eq!(
        ErrorKind::AuthenticationRequired.as_str(),
        "authentication is required for the action you are trying to call"
    );
    assert_eq!(ErrorKind::Other.as_str(), "other error");
}

#[test]
fn new_keeps_kind_and_message() {
    let e = Error::new(ErrorKind::MissingGitTags, Some("no tags found for repository"));
    assert_eq!(e.kind, ErrorKind::MissingGitTags);
    assert_eq!(e.message, "no tags found for repository");
}

#[test]
fn new_without_message_has_the_empty_one() {
    let e = Error::new(ErrorKind::Other, None);
    assert_eq!(e.kind, ErrorKind::Other);
    assert_eq!(e.message, "");
}

#[test]
fn new_puts_the_message_on_one_line() {
    let e = Error::new(ErrorKind::GenericCommandFailed, Some("one\ntwo\n\nthree\n"));
    assert_eq!(e.message, "one # two #  # three # ");
}

#[test]
fn to_string_without_message_is_the_description() {
    assert_eq!(Error::new(ErrorKind::MissingGit, None).to_string(), "missing git installation");
    assert_eq!(Error::new(ErrorKind::MissingGit, Some("")).to_string(), "missing git installation");
}

#[test]
fn to_string_with_message_joins_description_and_trimmed_message() {
    let e = Error::new(ErrorKind::InvalidOutputFormat, Some("  yaml \t"));
    assert_eq!(e.to_string(), "the specified output format is not valid: yaml");
}

#[test]
fn to_string_with_blank_message_keeps_the_separator() {
    let e = Error::new(ErrorKind::Other, Some("  "));
    assert_eq!(e.to_string(), "other error: ");
}
