//! The local history as a source: reads what the git command printed.

use crate::config::Config;
use crate::error::Error;
use crate::git::{Commit, Tag};
use crate::source::RawCommit;
use crate::parsing::{
    commit_matches, commit_parse, compile_failure, is_pattern_error, parse_commit_details,
    parse_tag_details, tag_matches, tag_parse,
};
use crate::text::{
    after_first, before_first, chars_of, lines, remove_substring, rows, split_first, split_lines,
    string_of, trim, trimmed, without_substring,
};
use vstd::prelude::*;

verus! {

/// The local repository as a source.
#[derive(Debug)]
pub struct GitSource<'a> {
    /// Configuration in force.
    pub config: &'a Config,
}

impl<'a> GitSource<'a> {
    /// The local repository, read under `config`.
    pub fn new(config: &'a Config) -> (source: Self)
        ensures
            source.config == config,
    {
        Self { config }
    }
}

/// A line of a tag listing without the words that only mark it as a tag.
pub open spec fn bare_line(line: Seq<char>) -> Seq<char> {
    without_substring(without_substring(line, "refs/tags/"@), "^{}"@)
}

/// The rows of a tag listing that name a tag's commit: every second line
/// of the trimmed listing, starting with the second.
pub open spec fn tag_rows(output: Seq<char>) -> Seq<Seq<char>> {
    let all = lines(trimmed(output));
    Seq::new((all.len() / 2) as nat, |i: int| all[2 * i + 1])
}

/// Whether `tag` is what `row` lists, its name read by `pattern`: the
/// commit in front of the first blank, the name behind it.
pub open spec fn lists(tag: Tag, row: Seq<char>, pattern: Seq<char>) -> bool {
    &&& tag.commit_sha@ == before_first(bare_line(row), ' ')
    &&& tag.name@ == after_first(bare_line(row), ' ')
    &&& tag_matches(tag.details, tag_parse(tag.name@, pattern))
}

/// Whether `tags` are what `listed` lists, row by row.
pub open spec fn lists_all(tags: Seq<Tag>, listed: Seq<Seq<char>>, pattern: Seq<char>) -> bool {
    &&& tags.len() == listed.len()
    &&& forall|i: int| 0 <= i < listed.len() ==> lists(#[trigger] tags[i], listed[i], pattern)
}

/// The part of a commit listing that describes the commit: what follows
/// the first line of the trimmed listing.
pub open spec fn commit_row(output: Seq<char>) -> Seq<char> {
    after_first(trimmed(output), '\n')
}

/// Whether `raw` is what `output` lists: the identifier in front of the
/// first blank of the commit's row, the message behind it.
pub open spec fn lists_raw(raw: RawCommit, output: Seq<char>) -> bool {
    &&& raw.sha@ == before_first(commit_row(output), ' ')
    &&& raw.message@ == after_first(commit_row(output), ' ')
}

/// Whether `commit` is what `output` lists, its message read by `pattern`.
pub open spec fn lists_commit(commit: Commit, output: Seq<char>, pattern: Seq<char>) -> bool {
    &&& commit.sha@ == before_first(commit_row(output), ' ')
    &&& commit.message@ == after_first(commit_row(output), ' ')
    &&& commit_matches(commit.details, commit_parse(commit.message@, pattern))
}

/// Reads the tags out of a listing of tag references, as
/// `git show-ref --tags -d` prints it, each name read by `tag_pattern`.
///
/// Gives no tags where the listing has no row that names a tag's commit.
/// Otherwise fails, with `InvalidRegexPattern`, exactly where the pattern
/// does not compile, and else gives one tag for each such row, in order.
pub fn tags_from_output(output: &str, tag_pattern: &str) -> (r: Result<Option<Vec<Tag>>, Error>)
    ensures
        match r {
            Ok(Some(tags)) => compile_failure(tag_pattern@) is None && tags.len() > 0
                && lists_all(tags@, tag_rows(output@), tag_pattern@),
            Ok(None) => tag_rows(output@).len() == 0,
            Err(e) => tag_rows(output@).len() > 0 && (compile_failure(tag_pattern@) matches Some(
                reason,
            ) && is_pattern_error(e, tag_pattern@, reason)),
        },
{
    let all = split_lines(&trim(&chars_of(output)));
    let marker = chars_of("refs/tags/");
    let peeled = chars_of("^{}");
    proof {
        reveal_strlit("refs/tags/");
        reveal_strlit("^{}");
    }
    let ghost listed = tag_rows(output@);
    let count = all.len() / 2;
    let mut tags: Vec<Tag> = Vec::new();
    let mut k: usize = 0;
    while k < count
        invariant
            k <= count,
            count == all.len() / 2,
            rows(all@) == lines(trimmed(output@)),
            listed == tag_rows(output@),
            listed.len() == count,
            marker@ == "refs/tags/"@,
            peeled@ == "^{}"@,
            marker.len() > 0,
            peeled.len() > 0,
            k > 0 ==> compile_failure(tag_pattern@) is None,
            lists_all(tags@, listed.take(k as int), tag_pattern@),
        decreases count - k,
    {
        let line = &all[2 * k + 1];
        proof {
            assert(rows(all@)[2 * k + 1] == line@);
            assert(listed[k as int] == line@);
        }
        let bare = remove_substring(&remove_substring(line, &marker), &peeled);
        let (sha, name) = split_first(&bare, ' ');
        let name = string_of(&name);
        let details = match parse_tag_details(name.as_str(), tag_pattern) {
            Ok(details) => details,
            Err(error) => {
                return Err(error);
            },
        };
        let ghost before = tags@;
        tags.push(Tag { commit_sha: string_of(&sha), name, details });
        proof {
            assert forall|i: int| 0 <= i < k + 1 implies lists(
                #[trigger] tags@[i],
                listed.take(k + 1)[i],
                tag_pattern@,
            ) by {
                if i < k {
                    assert(tags@[i] == before[i]);
                    assert(listed.take(k + 1)[i] == listed.take(k as int)[i]);
                }
            }
        }
        k += 1;
    }
    proof {
        assert(listed.take(count as int) =~= listed);
    }
    if tags.len() == 0 {
        Ok(None)
    } else {
        Ok(Some(tags))
    }
}

/// Reads identifier and message of a commit out of a listing of one
/// commit, as `git rev-list --max-count=1 --format="%H %s"` prints it: they
/// stand on the line behind the first one. Gives no commit where the
/// listing is blank.
pub fn raw_commit_from_output(output: &str) -> (r: Option<RawCommit>)
    ensures
        match r {
            Some(raw) => trimmed(output@).len() > 0 && lists_raw(raw, output@),
            None => trimmed(output@).len() == 0,
        },
{
    let text = trim(&chars_of(output));
    if text.len() == 0 {
        return None;
    }
    let (_, row) = split_first(&text, '\n');
    let (sha, message) = split_first(&row, ' ');
    Some(RawCommit { sha: string_of(&sha), message: string_of(&message) })
}

/// Reads a commit out of a listing of one commit, its message read by
/// `commit_pattern`.
///
/// Gives no commit where the listing is blank. Otherwise fails, with
/// `InvalidRegexPattern`, exactly where the pattern does not compile, and
/// else gives the commit that the line behind the first one describes.
pub fn commit_from_output(output: &str, commit_pattern: &str) -> (r: Result<Option<Commit>, Error>)
    ensures
        match r {
            Ok(Some(commit)) => trimmed(output@).len() > 0 && compile_failure(commit_pattern@)
                is None && lists_commit(commit, output@, commit_pattern@),
            Ok(None) => trimmed(output@).len() == 0,
            Err(e) => trimmed(output@).len() > 0 && (compile_failure(
                commit_pattern@,
            ) matches Some(reason) && is_pattern_error(e, commit_pattern@, reason)),
        },
{
    let raw = match raw_commit_from_output(output) {
        Some(raw) => raw,
        None => {
            return Ok(None);
        },
    };
    let details = match parse_commit_details(raw.message.as_str(), commit_pattern) {
        Ok(details) => details,
        Err(error) => {
            return Err(error);
        },
    };
    Ok(Some(Commit { sha: raw.sha, message: raw.message, details }))
}

} // verus!
