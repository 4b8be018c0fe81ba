//! Error kinds and the error value every fallible operation returns.

use crate::text::{chars_of, replace_char, replace_each, string_of, trim, trimmed};
use vstd::prelude::*;
use vstd::string::StringExecFns;

verus! {

/// What went wrong.
#[derive(Debug, Clone, Copy, PartialEq, Eq, Structural)]
pub enum ErrorKind {
    /// A command could not be run, or failed unexpectedly.
    GenericCommandFailed,
    /// The git command cannot be invoked.
    MissingGit,
    /// The working directory is not inside a git working tree.
    NotGitWorkingTree,
    /// The GitHub REST API answered with an error.
    GithubRestError,
    /// The source holds no tags.
    MissingGitTags,
    /// The requested output format is not known.
    InvalidOutputFormat,
    /// A configured pattern is not a valid regular expression.
    InvalidRegexPattern,
    /// The action needs credentials that were not given.
    AuthenticationRequired,
    /// Any other failure, including those of collaborating libraries.
    Other,
}

impl ErrorKind {
    /// The fixed description of each kind.
    pub open spec fn text(self) -> Seq<char> {
        match self {
            ErrorKind::GenericCommandFailed => "shell command failed"@,
            ErrorKind::MissingGit => "missing git installation"@,
            ErrorKind::NotGitWorkingTree =>
                "the current directory does not seem to be a git working tree"@,
            ErrorKind::GithubRestError => "error while calling GitHub REST API"@,
            ErrorKind::MissingGitTags => "cannot get tags from source"@,
            ErrorKind::InvalidOutputFormat => "the specified output format is not valid"@,
            ErrorKind::InvalidRegexPattern => "the regex pattern is not valid"@,
            ErrorKind::AuthenticationRequired =>
                "authentication is required for the action you are trying to call"@,
            ErrorKind::Other => "other error"@,
        }
    }

    /// The description of this kind.
    pub fn as_str(&self) -> (r: &'static str)
        ensures
            r@ == self.text(),
    {
        match self {
            ErrorKind::GenericCommandFailed => "shell command failed",
            ErrorKind::MissingGit => "missing git installation",
            ErrorKind::NotGitWorkingTree =>
                "the current directory does not seem to be a git working tree",
            ErrorKind::GithubRestError => "error while calling GitHub REST API",
            ErrorKind::MissingGitTags => "cannot get tags from source",
            ErrorKind::InvalidOutputFormat => "the specified output format is not valid",
            ErrorKind::InvalidRegexPattern => "the regex pattern is not valid",
            ErrorKind::AuthenticationRequired =>
                "authentication is required for the action you are trying to call",
            ErrorKind::Other => "other error",
        }
    }
}

/// An error: its kind and a single-line message, which may be empty.
#[derive(Debug)]
pub struct Error {
    /// Kind of the error.
    pub kind: ErrorKind,
    /// Message on a single line; empty where the kind says it all.
    pub message: String,
}

/// What a line break in a message is replaced by.
pub open spec fn line_break_mark() -> Seq<char> {
    seq![' ', '#', ' ']
}

/// The single-line form of a message.
pub open spec fn single_line(message: Seq<char>) -> Seq<char> {
    replace_char(message, '\n', line_break_mark())
}

/// The text shown for an error of `kind` carrying `message`.
pub open spec fn rendered(kind: ErrorKind, message: Seq<char>) -> Seq<char> {
    if message.len() == 0 {
        kind.text()
    } else {
        kind.text() + seq![':', ' '] + trimmed(message)
    }
}

impl Error {
    /// An error of `kind`; line breaks in `message` become ` # `, and a
    /// missing message is the empty one.
    pub fn new(kind: ErrorKind, message: Option<&str>) -> (e: Error)
        ensures
            e.kind == kind,
            e.message@ == match message {
                Some(m) => single_line(m@),
                None => Seq::<char>::empty(),
            },
    {
        let message = match message {
            Some(m) => {
                let mut mark: Vec<char> = Vec::new();
                mark.push(' ');
                mark.push('#');
                mark.push(' ');
                assert(mark@ =~= line_break_mark());
                string_of(&replace_each(&chars_of(m), '\n', &mark))
            },
            None => String::new(),
        };
        Error { kind, message }
    }

    /// The kind's description, followed by `: ` and the trimmed message
    /// where there is one.
    pub fn to_string(&self) -> (s: String)
        ensures
            s@ == rendered(self.kind, self.message@),
    {
        let head = String::from_str(self.kind.as_str());
        if self.message.as_str().is_empty() {
            head
        } else {
            let mut sep: Vec<char> = Vec::new();
            sep.push(':');
            sep.push(' ');
            assert(sep@ =~= seq![':', ' ']);
            let sep = string_of(&sep);
            let tail = string_of(&trim(&chars_of(self.message.as_str())));
            head.concat(sep.as_str()).concat(tail.as_str())
        }
    }
}

} // verus!
