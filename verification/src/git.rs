//! Commits and tags as the sources hand them over.

use crate::parsing::{CommitDetails, TagDetails};
use vstd::prelude::*;

verus! {

/// A commit of the history.
#[derive(Debug, Clone)]
pub struct Commit {
    /// Identifier of the commit.
    pub sha: String,
    /// Message of the commit.
    pub message: String,
    /// Conventional-commit fields; absent where the message does not follow
    /// the commit pattern.
    pub details: Option<CommitDetails>,
}

/// A tag and the commit it points at.
#[derive(Debug, Clone)]
pub struct Tag {
    /// Identifier of the commit that the tag references.
    pub commit_sha: String,
    /// Name of the tag.
    pub name: String,
    /// Version and scope; absent where the name does not follow the tag
    /// pattern.
    pub details: Option<TagDetails>,
}

/// The scope that an optional scope text stands for: the unnamed scope is
/// the empty text.
pub open spec fn scope_key(scope: Option<String>) -> Seq<char> {
    match scope {
        Some(s) => s@,
        None => Seq::<char>::empty(),
    }
}

impl Commit {
    /// The scope this commit belongs to; only meaningful with details.
    pub open spec fn scope(self) -> Seq<char> {
        match self.details {
            Some(d) => scope_key(d.scope),
            None => Seq::<char>::empty(),
        }
    }
}

impl Tag {
    /// The scope this tag belongs to; only meaningful with details.
    pub open spec fn scope(self) -> Seq<char> {
        match self.details {
            Some(d) => scope_key(d.scope),
            None => Seq::<char>::empty(),
        }
    }
}

} // verus!
