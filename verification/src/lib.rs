//! Version bumps for independently versioned scopes of a repository, decided
//! from conventional-commit history between the latest tags and a commit.

pub mod config;
pub mod engine;
pub mod error;
pub mod git;
pub mod parsing;
pub mod source;
pub mod text;
pub mod version;
