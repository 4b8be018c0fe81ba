//! The GitHub REST API as a source: turns what the API answered into
//! commits and tags.

use crate::config::Config;
use crate::error::{single_line, Error, ErrorKind};
use crate::git::{Commit, Tag};
use crate::parsing::{
    commit_matches, commit_parse, compile_failure, is_pattern_error, parse_commit_details,
    parse_tag_details, tag_matches, tag_parse,
};
use crate::text::{chars_of, slice_of, string_of};
use vstd::prelude::*;

verus! {

/// Base address of the GitHub REST API.
pub const GITHUB_API_BASE_URL: &'static str = "https://api.github.com";

/// Number of items asked for with each page.
pub const DEFAULT_PER_PAGE: u64 = 100;

/// What the error says where a request that changes the repository has no
/// token to carry.
pub const MISSING_TOKEN: &'static str =
    "missing GitHub token to create tag, use the `--github-token` to pass the token";

/// Status with which the API answers once it created what was asked for.
pub const STATUS_CREATED: u16 = 201;

/// A repository on GitHub as a source.
#[derive(Debug)]
pub struct GithubSource<'a> {
    /// Configuration in force.
    pub config: &'a Config,
    /// Repository in the form `owner/name`.
    pub repo_id: String,
    /// Base address of the API.
    pub api_url: String,
    /// Token that authorises the requests, if any.
    pub token: Option<String>,
}

impl<'a> GithubSource<'a> {
    /// The repository `repo_id` behind the API at `api_url`, read under
    /// `config`, with requests authorised by `token` where there is one.
    pub fn new(
        config: &'a Config,
        repo_id: String,
        api_url: String,
        token: Option<String>,
    ) -> (source: Self)
        ensures
            source.config == config,
            source.repo_id == repo_id,
            source.api_url == api_url,
            source.token == token,
    {
        Self { config, repo_id, api_url, token }
    }

    /// The token that a request which changes the repository must carry.
    ///
    /// Fails, with `AuthenticationRequired`, exactly where the source has
    /// no token.
    pub fn required_token(&self) -> (r: Result<&str, Error>)
        ensures
            match r {
                Ok(token) => self.token matches Some(held) && token@ == held@,
                Err(e) => self.token is None && e.kind == ErrorKind::AuthenticationRequired
                    && e.message@ == single_line(MISSING_TOKEN@),
            },
    {
        match &self.token {
            Some(token) => Ok(token.as_str()),
            None => Err(Error::new(ErrorKind::AuthenticationRequired, Some(MISSING_TOKEN))),
        }
    }
}

/// The commit that a tag of the API points at.
#[derive(Debug, Clone)]
pub struct GithubTagCommit {
    /// Identifier of the commit.
    pub sha: String,
}

/// A tag as the API lists it.
#[derive(Debug, Clone)]
pub struct GithubTag {
    /// Name of the tag.
    pub name: String,
    /// Commit that the tag points at.
    pub commit: GithubTagCommit,
}

/// The message of a commit of the API.
#[derive(Debug, Clone)]
pub struct GithubCommit {
    /// Message of the commit.
    pub message: String,
}

/// A commit as the API lists it.
#[derive(Debug, Clone)]
pub struct GithubCommitDetails {
    /// Identifier of the commit.
    pub sha: String,
    /// What the commit holds.
    pub commit: GithubCommit,
}

impl GithubTag {
    /// The tag with its name read by `tag_pattern`.
    ///
    /// Fails, with `InvalidRegexPattern`, exactly where the pattern does
    /// not compile.
    pub fn convert_to_git_tag(self, tag_pattern: &str) -> (r: Result<Tag, Error>)
        ensures
            match compile_failure(tag_pattern@) {
                Some(reason) => r matches Err(e) && is_pattern_error(e, tag_pattern@, reason),
                None => r matches Ok(tag) && tag.name == self.name && tag.commit_sha
                    == self.commit.sha && tag_matches(
                    tag.details,
                    tag_parse(self.name@, tag_pattern@),
                ),
            },
    {
        let details = match parse_tag_details(self.name.as_str(), tag_pattern) {
            Ok(details) => details,
            Err(error) => {
                return Err(error);
            },
        };
        Ok(Tag { name: self.name, commit_sha: self.commit.sha, details })
    }
}

impl GithubCommitDetails {
    /// The commit with its message read by `commit_pattern`.
    ///
    /// Fails, with `InvalidRegexPattern`, exactly where the pattern does
    /// not compile.
    pub fn convert_to_git_commit(self, commit_pattern: &str) -> (r: Result<Commit, Error>)
        ensures
            match compile_failure(commit_pattern@) {
                Some(reason) => r matches Err(e) && is_pattern_error(e, commit_pattern@, reason),
                None => r matches Ok(commit) && commit.sha == self.sha && commit.message
                    == self.commit.message && commit_matches(
                    commit.details,
                    commit_parse(self.commit.message@, commit_pattern@),
                ),
            },
    {
        let details = match parse_commit_details(self.commit.message.as_str(), commit_pattern) {
            Ok(details) => details,
            Err(error) => {
                return Err(error);
            },
        };
        Ok(Commit { sha: self.sha, message: self.commit.message, details })
    }
}

/// Whether `tag` is `listed` with its name read by `pattern`.
pub open spec fn converts(tag: Tag, listed: GithubTag, pattern: Seq<char>) -> bool {
    &&& tag.name == listed.name
    &&& tag.commit_sha == listed.commit.sha
    &&& tag_matches(tag.details, tag_parse(listed.name@, pattern))
}

/// Whether `tags` are `page`, each with its name read by `pattern`.
pub open spec fn converts_all(tags: Seq<Tag>, page: Seq<GithubTag>, pattern: Seq<char>) -> bool {
    &&& tags.len() == page.len()
    &&& forall|i: int| 0 <= i < page.len() ==> converts(#[trigger] tags[i], page[i], pattern)
}

/// Takes in one page of the tag listing and says whether another page is
/// to be asked for: the listing ends with the first page without tags.
///
/// Fails, with `InvalidRegexPattern` and without any change, exactly where
/// the page holds a tag and the pattern does not compile. Otherwise the
/// tags of the page, each with its name read by `tag_pattern`, are added
/// behind those of `tags`.
pub fn take_tag_page(tags: &mut Vec<Tag>, page: Vec<GithubTag>, tag_pattern: &str) -> (r: Result<
    bool,
    Error,
>)
    ensures
        match r {
            Ok(more) => {
                &&& more == (page.len() > 0)
                &&& page.len() > 0 ==> compile_failure(tag_pattern@) is None
                &&& final(tags)@.len() == old(tags)@.len() + page.len()
                &&& final(tags)@.take(old(tags)@.len() as int) == old(tags)@
                &&& converts_all(
                    final(tags)@.skip(old(tags)@.len() as int),
                    page@,
                    tag_pattern@,
                )
            },
            Err(e) => {
                &&& page.len() > 0
                &&& compile_failure(tag_pattern@) matches Some(reason) && is_pattern_error(
                    e,
                    tag_pattern@,
                    reason,
                )
                &&& final(tags)@ == old(tags)@
            },
        },
{
    let ghost before = tags@;
    let mut i: usize = 0;
    proof {
        assert(tags@.take(before.len() as int) =~= before);
    }
    while i < page.len()
        invariant
            i <= page.len(),
            before == old(tags)@,
            i > 0 ==> compile_failure(tag_pattern@) is None,
            i == 0 ==> tags@ == before,
            tags@.len() == before.len() + i,
            tags@.take(before.len() as int) == before,
            converts_all(tags@.skip(before.len() as int), page@.take(i as int), tag_pattern@),
        decreases page.len() - i,
    {
        let listed = &page[i];
        let details = match parse_tag_details(listed.name.as_str(), tag_pattern) {
            Ok(details) => details,
            Err(error) => {
                return Err(error);
            },
        };
        let ghost held = tags@;
        tags.push(
            Tag { name: listed.name.clone(), commit_sha: listed.commit.sha.clone(), details },
        );
        proof {
            assert(tags@.take(before.len() as int) =~= held.take(before.len() as int));
            let tail = tags@.skip(before.len() as int);
            let earlier = held.skip(before.len() as int);
            assert forall|k: int| 0 <= k < i + 1 implies converts(
                #[trigger] tail[k],
                page@.take(i + 1)[k],
                tag_pattern@,
            ) by {
                if k < i {
                    assert(tail[k] == earlier[k]);
                    assert(page@.take(i + 1)[k] == page@.take(i as int)[k]);
                }
            }
        }
        i += 1;
    }
    proof {
        assert(page@.take(page.len() as int) =~= page@);
    }
    Ok(page.len() > 0)
}

/// `url` without one slash at its end.
pub open spec fn without_trailing_slash(url: Seq<char>) -> Seq<char> {
    if url.len() > 0 && url.last() == '/' {
        url.drop_last()
    } else {
        url
    }
}

/// The address `url` without a slash at its end: one is taken off, a
/// second one would stay.
pub fn validate_trailing_slash(url: &str) -> (out: String)
    ensures
        out@ == without_trailing_slash(url@),
{
    let chars = chars_of(url);
    let n = chars.len();
    if n > 0 && chars[n - 1] == '/' {
        let cut = slice_of(&chars, 0, n - 1);
        proof {
            assert(chars@.subrange(0, n - 1) =~= chars@.drop_last());
        }
        string_of(&cut)
    } else {
        url.to_owned()
    }
}

/// What the API's answer to a request that creates something stands for:
/// success with the status for "created", and else a `GithubRestError` that
/// carries the answer's text.
pub fn created_or_error(status: u16, body: &str) -> (r: Result<(), Error>)
    ensures
        match r {
            Ok(_) => status == STATUS_CREATED,
            Err(e) => status != STATUS_CREATED && e.kind == ErrorKind::GithubRestError
                && e.message@ == single_line(body@),
        },
{
    if status == STATUS_CREATED {
        Ok(())
    } else {
        Err(Error::new(ErrorKind::GithubRestError, Some(body)))
    }
}

} // verus!
