//! Reads the fields of a conventional commit out of a commit message, and a
//! version and scope out of a tag name, each by a pattern with named groups.

use crate::error::{single_line, Error, ErrorKind};
use crate::text::{chars_of, remove_chars, string_of, trim, trimmed, without_chars};
use crate::version::{semver_parts, Version};
use regex::Regex;
use vstd::prelude::*;
use vstd::string::StringExecFns;

verus! {

/// `None` where `pattern` compiles, else the reason why it does not.
pub uninterp spec fn compile_failure(pattern: Seq<char>) -> Option<Seq<char>>;

/// What the first match of `pattern` in `text` captured in each of the named
/// `groups`, in their order; `None` where `pattern` matches nowhere in
/// `text`. A group that the pattern lacks, or that took no part in the
/// match, captured nothing.
pub uninterp spec fn captures_of(
    pattern: Seq<char>,
    text: Seq<char>,
    groups: Seq<Seq<char>>,
) -> Option<Seq<Option<Seq<char>>>>;

/// The texts of a list of group names.
pub open spec fn names_view(groups: Seq<&str>) -> Seq<Seq<char>> {
    groups.map_values(|g: &str| g@)
}

/// A captured text as a plain value.
pub open spec fn capture_view(capture: Option<String>) -> Option<Seq<char>> {
    match capture {
        Some(s) => Some(s@),
        None => None,
    }
}

/// A list of captured texts as plain values.
pub open spec fn captures_view(captures: Seq<Option<String>>) -> Seq<Option<Seq<char>>> {
    captures.map_values(|c: Option<String>| capture_view(c))
}

/// `Regex::new` on `pattern`, then `Regex::captures` on `text`, then
/// `Captures::name` for each of `groups`: the matched text of each named
/// group in the first match, one entry per name, and none where nothing
/// matches. Where the pattern does not compile, the error's own text.
/// Both depend on the pattern, the text and the names alone.
#[verifier::external_body]
fn capture_groups(pattern: &str, text: &str, groups: &Vec<&str>) -> (r: Result<
    Option<Vec<Option<String>>>,
    String,
>)
    ensures
        match r {
            Ok(Some(found)) => compile_failure(pattern@) is None && captures_of(
                pattern@,
                text@,
                names_view(groups@),
            ) == Some(captures_view(found@)) && found.len() == groups.len(),
            Ok(None) => compile_failure(pattern@) is None && captures_of(
                pattern@,
                text@,
                names_view(groups@),
            ) is None,
            Err(reason) => compile_failure(pattern@) == Some(reason@),
        },
{
    let re = match Regex::new(pattern) {
        Ok(re) => re,
        Err(error) => return Err(error.to_string()),
    };
    let captures = match re.captures(text) {
        Some(captures) => captures,
        None => return Ok(None),
    };
    let mut found = Vec::new();
    for group in groups {
        found.push(captures.name(group).map(|m| m.as_str().to_owned()));
    }
    Ok(Some(found))
}

/// The fields of a conventional commit.
#[derive(Debug, Clone)]
pub struct CommitDetails {
    /// Type of the commit, such as `feat` or `fix`.
    pub commit_type: String,
    /// Scope of the commit, where it names one.
    pub scope: Option<String>,
    /// Whether the commit is marked as a breaking change.
    pub breaking: bool,
    /// Description of the commit.
    pub description: String,
}

/// The fields of a commit as plain values.
pub struct CommitFields {
    pub commit_type: Seq<char>,
    pub scope: Option<Seq<char>>,
    pub breaking: bool,
    pub description: Seq<char>,
}

impl View for CommitDetails {
    type V = CommitFields;

    open spec fn view(&self) -> CommitFields {
        CommitFields {
            commit_type: self.commit_type@,
            scope: capture_view(self.scope),
            breaking: self.breaking,
            description: self.description@,
        }
    }
}

/// The version and scope that a tag names.
#[derive(Debug, Clone)]
pub struct TagDetails {
    /// Version inside the tag.
    pub version: Version,
    /// Scope of the version, where the tag names one.
    pub scope: Option<String>,
}

/// The scope as a group captured it: without parentheses, then trimmed.
pub open spec fn scope_text(capture: Seq<char>) -> Seq<char> {
    trimmed(without_chars(capture, '(', ')'))
}

/// The scope read from an optional capture.
pub open spec fn scope_of(capture: Option<Seq<char>>) -> Option<Seq<char>> {
    match capture {
        Some(s) => Some(scope_text(s)),
        None => None,
    }
}

/// The names of the groups read from a commit message, in the order in
/// which their captures are handed on.
pub open spec fn commit_groups() -> Seq<Seq<char>> {
    seq!["type"@, "scope"@, "breaking"@, "description"@]
}

/// The names of the groups read from a tag name.
pub open spec fn tag_groups() -> Seq<Seq<char>> {
    seq!["version"@, "scope"@]
}

/// The commit fields that four captures (type, scope, breaking,
/// description) stand for: none without a type, without a description, or
/// with a description that captured the empty text.
pub open spec fn commit_fields(captures: Seq<Option<Seq<char>>>) -> Option<CommitFields>
    recommends
        captures.len() == 4,
{
    match (captures[0], captures[3]) {
        (Some(commit_type), Some(description)) if description.len() > 0 => Some(
            CommitFields {
                commit_type: trimmed(commit_type),
                scope: scope_of(captures[1]),
                breaking: captures[2] is Some,
                description: trimmed(description),
            },
        ),
        _ => None,
    }
}

/// The version parts and scope that two captures (version, scope) stand
/// for: none without a version capture, or with one whose trimmed text is
/// no semantic version.
pub open spec fn tag_fields(captures: Seq<Option<Seq<char>>>) -> Option<
    ((u64, u64, u64, Seq<char>, Seq<char>), Option<Seq<char>>),
>
    recommends
        captures.len() == 2,
{
    match captures[0] {
        Some(version) => match semver_parts(trimmed(version)) {
            Some(parts) => Some((parts, scope_of(captures[1]))),
            None => None,
        },
        None => None,
    }
}

/// Whether `details` holds exactly `fields`.
pub open spec fn commit_matches(
    details: Option<CommitDetails>,
    fields: Option<CommitFields>,
) -> bool {
    match (details, fields) {
        (Some(d), Some(f)) => d@ == f,
        (None, None) => true,
        _ => false,
    }
}

/// Whether `details` holds exactly `fields`.
pub open spec fn tag_matches(
    details: Option<TagDetails>,
    fields: Option<((u64, u64, u64, Seq<char>, Seq<char>), Option<Seq<char>>)>,
) -> bool {
    match (details, fields) {
        (Some(d), Some(f)) => d.version.parts() == f.0 && capture_view(d.scope) == f.1,
        (None, None) => true,
        _ => false,
    }
}

/// What reading a commit message by a pattern that compiles gives: the
/// fields that the first match stands for, if any.
pub open spec fn commit_parse(message: Seq<char>, pattern: Seq<char>) -> Option<CommitFields> {
    match captures_of(pattern, message, commit_groups()) {
        Some(captures) => commit_fields(captures),
        None => None,
    }
}

/// What reading a tag name by a pattern that compiles gives: the version
/// and scope that the first match stands for, if any.
pub open spec fn tag_parse(name: Seq<char>, pattern: Seq<char>) -> Option<
    ((u64, u64, u64, Seq<char>, Seq<char>), Option<Seq<char>>),
> {
    match captures_of(pattern, name, tag_groups()) {
        Some(captures) => tag_fields(captures),
        None => None,
    }
}

/// The message of the error for a pattern that does not compile.
pub open spec fn pattern_error_message(pattern: Seq<char>, reason: Seq<char>) -> Seq<char> {
    single_line(pattern + seq![' ', '-', ' '] + reason)
}

/// Whether `error` is the one reported for `pattern` failing with `reason`.
pub open spec fn is_pattern_error(error: Error, pattern: Seq<char>, reason: Seq<char>) -> bool {
    error.kind == ErrorKind::InvalidRegexPattern && error.message@ == pattern_error_message(
        pattern,
        reason,
    )
}

/// Trimmed copy of a captured text.
fn trimmed_text(capture: &String) -> (out: String)
    ensures
        out@ == trimmed(capture@),
{
    string_of(&trim(&chars_of(capture.as_str())))
}

/// The scope that an optional capture names.
pub fn scope_from(capture: &Option<String>) -> (scope: Option<String>)
    ensures
        capture_view(scope) == scope_of(capture_view(*capture)),
{
    match capture {
        Some(s) => Some(string_of(&trim(&remove_chars(&chars_of(s.as_str()), '(', ')')))),
        None => None,
    }
}

/// The error for `pattern` failing to compile with `reason`.
fn pattern_error(pattern: &str, reason: &String) -> (error: Error)
    ensures
        is_pattern_error(error, pattern@, reason@),
{
    let mut dash: Vec<char> = Vec::new();
    dash.push(' ');
    dash.push('-');
    dash.push(' ');
    assert(dash@ =~= seq![' ', '-', ' ']);
    let dash = string_of(&dash);
    let message = String::from_str(pattern).concat(dash.as_str()).concat(reason.as_str());
    Error::new(ErrorKind::InvalidRegexPattern, Some(message.as_str()))
}

/// Builds commit details from the captures of the groups `type`, `scope`,
/// `breaking` and `description`, in this order.
pub fn commit_details_from(captures: &Vec<Option<String>>) -> (details: Option<CommitDetails>)
    requires
        captures.len() == 4,
    ensures
        commit_matches(details, commit_fields(captures_view(captures@))),
{
    let commit_type = match &captures[0] {
        Some(found) => trimmed_text(found),
        None => return None,
    };
    let scope = scope_from(&captures[1]);
    let breaking = captures[2].is_some();
    let description = match &captures[3] {
        Some(found) => {
            if found.as_str().is_empty() {
                return None;
            }
            trimmed_text(found)
        },
        None => return None,
    };
    Some(CommitDetails { commit_type, scope, breaking, description })
}

/// Builds tag details from the captures of the groups `version` and
/// `scope`, in this order.
pub fn tag_details_from(captures: &Vec<Option<String>>) -> (details: Option<TagDetails>)
    requires
        captures.len() == 2,
    ensures
        tag_matches(details, tag_fields(captures_view(captures@))),
{
    let version = match &captures[0] {
        Some(found) => {
            let text = trimmed_text(found);
            match Version::parse(text.as_str()) {
                Some(version) => version,
                None => return None,
            }
        },
        None => return None,
    };
    let scope = scope_from(&captures[1]);
    Some(TagDetails { version, scope })
}

/// Reads the commit details out of `commit_message` by `commit_pattern`.
///
/// Fails, with `InvalidRegexPattern`, exactly where the pattern does not
/// compile. Otherwise gives the details of the first match, and none where
/// nothing matches, the type or the description is missing, or the
/// description captured the empty text.
pub fn parse_commit_details(commit_message: &str, commit_pattern: &str) -> (r: Result<
    Option<CommitDetails>,
    Error,
>)
    ensures
        match compile_failure(commit_pattern@) {
            Some(reason) => r matches Err(e) && is_pattern_error(e, commit_pattern@, reason),
            None => r matches Ok(details) && commit_matches(
                details,
                commit_parse(commit_message@, commit_pattern@),
            ),
        },
{
    let mut groups: Vec<&str> = Vec::new();
    groups.push("type");
    groups.push("scope");
    groups.push("breaking");
    groups.push("description");
    assert(names_view(groups@) =~= commit_groups());
    match capture_groups(commit_pattern, commit_message, &groups) {
        Ok(Some(captures)) => Ok(commit_details_from(&captures)),
        Ok(None) => Ok(None),
        Err(reason) => Err(pattern_error(commit_pattern, &reason)),
    }
}

/// Reads the tag details out of `tag_name` by `tag_pattern`.
///
/// Fails, with `InvalidRegexPattern`, exactly where the pattern does not
/// compile. Otherwise gives the details of the first match, and none where
/// nothing matches, the version is missing, or its trimmed text is no
/// semantic version.
pub fn parse_tag_details(tag_name: &str, tag_pattern: &str) -> (r: Result<
    Option<TagDetails>,
    Error,
>)
    ensures
        match compile_failure(tag_pattern@) {
            Some(reason) => r matches Err(e) && is_pattern_error(e, tag_pattern@, reason),
            None => r matches Ok(details) && tag_matches(
                details,
                tag_parse(tag_name@, tag_pattern@),
            ),
        },
{
    let mut groups: Vec<&str> = Vec::new();
    groups.push("version");
    groups.push("scope");
    assert(names_view(groups@) =~= tag_groups());
    match capture_groups(tag_pattern, tag_name, &groups) {
        Ok(Some(captures)) => Ok(tag_details_from(&captures)),
        Ok(None) => Ok(None),
        Err(reason) => Err(pattern_error(tag_pattern, &reason)),
    }
}

} // verus!
