//! Walks the history from a starting commit and reports, step by step, the
//! commits and tags that bear on the version of each scope.
//!
//! The walk itself decides; fetching commits is left to the caller. `next`
//! either reports a reference, asks for a page of commits, or says that the
//! walk is over; the caller answers a request with `supply_page`.

pub mod git;
pub mod github;
pub mod tags;
pub mod walk;

use crate::config::{copy_strings, texts, tracked_scopes, Config};
use crate::error::{single_line, Error, ErrorKind};
use crate::git::{Commit, Tag};
use crate::parsing::{
    commit_matches, commit_parse, compile_failure, is_pattern_error, parse_commit_details,
};
use crate::source::tags::copy_commit;
use crate::source::walk::{look, walk};
use vstd::prelude::*;

verus! {

/// One step of the walk worth reporting: a commit, the tags found on it, or
/// both.
#[derive(Debug)]
pub struct Reference {
    /// Commit of this step; absent in a step that only reports tags.
    pub commit: Option<Commit>,
    /// Tags found on the commit of this step, one per scope; absent where
    /// none was found.
    pub tags: Option<Vec<Tag>>,
}

/// The sources that commits and tags can come from.
#[derive(Debug)]
pub enum SourceKind<'a> {
    /// The local repository.
    Git(git::GitSource<'a>),
    /// A repository on GitHub.
    Github(github::GithubSource<'a>),
}

/// A commit as a source delivers it, before its message is read.
#[derive(Debug, Clone)]
pub struct RawCommit {
    /// Identifier of the commit.
    pub sha: String,
    /// Message of the commit.
    pub message: String,
}

impl View for Reference {
    type V = (Option<Commit>, Option<Seq<Tag>>);

    open spec fn view(&self) -> (Option<Commit>, Option<Seq<Tag>>) {
        (
            self.commit,
            match self.tags {
                Some(tags) => Some(tags@),
                None => None,
            },
        )
    }
}

/// Whether `commit` is `raw` with its message read by `pattern`.
pub open spec fn reads(commit: Commit, raw: RawCommit, pattern: Seq<char>) -> bool {
    &&& commit.sha == raw.sha
    &&& commit.message == raw.message
    &&& commit_matches(commit.details, commit_parse(raw.message@, pattern))
}

/// Whether `commits` are `page`, each with its message read by `pattern`.
pub open spec fn reads_page(
    commits: Seq<Commit>,
    page: Seq<RawCommit>,
    pattern: Seq<char>,
) -> bool {
    &&& commits.len() == page.len()
    &&& forall|i: int| 0 <= i < page.len() ==> reads(#[trigger] commits[i], page[i], pattern)
}

/// Why a page cannot be read: the reason for which the commit pattern does
/// not compile, where the page holds a commit to read.
pub open spec fn page_failure(pattern: Seq<char>, page: Seq<RawCommit>) -> Option<Seq<char>> {
    if page.len() == 0 {
        None
    } else {
        compile_failure(pattern)
    }
}

/// What the error says where a source has no tags.
pub const NO_TAGS: &'static str = "no tags found for repository";

/// What `next` answers.
#[derive(Debug)]
pub enum Step {
    /// A reference to take note of.
    Report(Reference),
    /// The buffered commits ran out: the page with this number is wanted.
    Fetch(u64),
    /// The walk is over.
    Done,
}

/// The walk over the history: single pass, most recent commit first.
#[derive(Debug)]
pub struct RefIterator {
    unresolved: Vec<String>,
    finished: bool,
    page: u64,
    buffer: Vec<Commit>,
    position: usize,
    sha: String,
    tags: Vec<Tag>,
    commit_pattern: String,
}

impl RefIterator {
    /// The buffer position never runs past the buffer.
    #[verifier::type_invariant]
    closed spec fn valid(self) -> bool {
        self.position <= self.buffer.len()
    }

    /// Scopes that have not found their tag yet.
    pub closed spec fn unresolved_scopes(self) -> Seq<Seq<char>> {
        texts(self.unresolved@)
    }

    /// Whether the walk is over.
    pub closed spec fn is_finished(self) -> bool {
        self.finished
    }

    /// Number of the page that is asked for next; the first page is 1.
    pub closed spec fn next_page(self) -> u64 {
        self.page
    }

    /// Commits that were supplied and not looked at yet.
    pub closed spec fn pending(self) -> Seq<Commit> {
        self.buffer@.skip(self.position as int)
    }

    /// Commit that the walk starts from.
    pub closed spec fn start(self) -> Seq<char> {
        self.sha@
    }

    /// Every tag of the source.
    pub closed spec fn all_tags(self) -> Seq<Tag> {
        self.tags@
    }

    /// Pattern by which commit messages are read.
    pub closed spec fn pattern(self) -> Seq<char> {
        self.commit_pattern@
    }

    /// Whether `other` differs from this walk at most in what `next` and
    /// `supply_page` change.
    pub open spec fn same_inputs(self, other: RefIterator) -> bool {
        &&& self.start() == other.start()
        &&& self.all_tags() == other.all_tags()
        &&& self.pattern() == other.pattern()
    }

    /// A walk from `sha` with the tags of the source: nothing is buffered,
    /// the first page is wanted, and every scope of the configuration, or
    /// the unnamed one where it lists none, is open.
    pub fn new(sha: &str, tags: Vec<Tag>, config: &Config) -> (it: RefIterator)
        ensures
            it.unresolved_scopes() == tracked_scopes(texts(config.version_scopes@)),
            !it.is_finished(),
            it.next_page() == 1,
            it.pending().len() == 0,
            it.start() == sha@,
            it.all_tags() == tags@,
            it.pattern() == config.commit_pattern@,
    {
        RefIterator {
            unresolved: config.scopes(),
            finished: false,
            page: 1,
            buffer: Vec::new(),
            position: 0,
            sha: sha.to_owned(),
            tags,
            commit_pattern: config.commit_pattern.clone(),
        }
    }

    /// A walk from `sha` over a source with the tags `tags`.
    ///
    /// Fails, with `MissingGitTags`, exactly where the source has no tags:
    /// no scope could ever find its tag.
    pub fn begin(sha: &str, tags: Option<Vec<Tag>>, config: &Config) -> (r: Result<
        RefIterator,
        Error,
    >)
        ensures
            match r {
                Ok(it) => {
                    &&& tags matches Some(found) && it.all_tags() == found@
                    &&& it.unresolved_scopes() == tracked_scopes(texts(config.version_scopes@))
                    &&& !it.is_finished()
                    &&& it.next_page() == 1
                    &&& it.pending().len() == 0
                    &&& it.start() == sha@
                    &&& it.pattern() == config.commit_pattern@
                },
                Err(e) => tags is None && e.kind == ErrorKind::MissingGitTags && e.message@
                    == single_line(NO_TAGS@),
            },
    {
        match tags {
            Some(found) => Ok(RefIterator::new(sha, found, config)),
            None => Err(Error::new(ErrorKind::MissingGitTags, Some(NO_TAGS))),
        }
    }

    /// Commit that the walk starts from.
    pub fn sha(&self) -> (sha: &str)
        ensures
            sha@ == self.start(),
    {
        self.sha.as_str()
    }

    /// Number of the page that is asked for next.
    pub fn page(&self) -> (r: u64)
        ensures
            r == self.next_page(),
    {
        self.page
    }

    /// Whether the walk is over.
    pub fn finished(&self) -> (r: bool)
        ensures
            r == self.is_finished(),
    {
        self.finished
    }

    /// Scopes that have not found their tag yet.
    pub fn unresolved(&self) -> (scopes: Vec<String>)
        ensures
            texts(scopes@) == self.unresolved_scopes(),
    {
        copy_strings(&self.unresolved)
    }

    /// Ends the walk, as after a page that could not be fetched.
    pub fn stop(&mut self)
        ensures
            final(self).is_finished(),
            final(self).unresolved_scopes() == old(self).unresolved_scopes(),
            final(self).pending() == old(self).pending(),
            final(self).next_page() == old(self).next_page(),
            final(self).same_inputs(*old(self)),
    {
        proof {
            use_type_invariant(&*self);
        }
        self.finished = true;
    }

    /// Answers a request for a page with its commits, oldest last.
    ///
    /// Fails, with `InvalidRegexPattern` and without any change, exactly
    /// where the page holds a commit and the commit pattern does not
    /// compile. Otherwise the commits,
    /// each with its message read by the commit pattern, are buffered
    /// behind those still pending, and the next page becomes the wanted
    /// one. A page without commits ends the walk.
    pub fn supply_page(&mut self, page: Vec<RawCommit>) -> (r: Result<(), Error>)
        requires
            old(self).next_page() < u64::MAX,
        ensures
            final(self).same_inputs(*old(self)),
            final(self).unresolved_scopes() == old(self).unresolved_scopes(),
            match page_failure(old(self).pattern(), page@) {
                Some(reason) => {
                    &&& r matches Err(e) && is_pattern_error(e, old(self).pattern(), reason)
                    &&& final(self).pending() == old(self).pending()
                    &&& final(self).next_page() == old(self).next_page()
                    &&& final(self).is_finished() == old(self).is_finished()
                },
                None => {
                    &&& r is Ok
                    &&& final(self).next_page() == old(self).next_page() + 1
                    &&& final(self).is_finished() == (old(self).is_finished() || page.len() == 0)
                    &&& final(self).pending().len() == old(self).pending().len() + page.len()
                    &&& final(self).pending().take(old(self).pending().len() as int) == old(
                        self,
                    ).pending()
                    &&& reads_page(
                        final(self).pending().skip(old(self).pending().len() as int),
                        page@,
                        old(self).pattern(),
                    )
                },
            },
    {
        proof {
            use_type_invariant(&*self);
        }
        let ghost old_pending = self.pending();
        let mut buffer: Vec<Commit> = Vec::new();
        let mut i: usize = self.position;
        while i < self.buffer.len()
            invariant
                self.position <= i <= self.buffer.len(),
                buffer@ == self.buffer@.subrange(self.position as int, i as int),
            decreases self.buffer.len() - i,
        {
            buffer.push(copy_commit(&self.buffer[i]));
            proof {
                assert(buffer@ =~= self.buffer@.subrange(self.position as int, i + 1));
            }
            i += 1;
        }
        proof {
            assert(buffer@ =~= old_pending);
        }
        let mut j: usize = 0;
        while j < page.len()
            invariant
                j <= page.len(),
                compile_failure(self.commit_pattern@) is None || j == 0,
                buffer@.len() == old_pending.len() + j,
                buffer@.take(old_pending.len() as int) == old_pending,
                reads_page(
                    buffer@.skip(old_pending.len() as int),
                    page@.take(j as int),
                    self.commit_pattern@,
                ),
            decreases page.len() - j,
        {
            let raw = &page[j];
            let details = match parse_commit_details(
                raw.message.as_str(),
                self.commit_pattern.as_str(),
            ) {
                Ok(details) => details,
                Err(error) => {
                    return Err(error);
                },
            };
            let ghost before = buffer@;
            buffer.push(Commit { sha: raw.sha.clone(), message: raw.message.clone(), details });
            proof {
                assert(buffer@.take(old_pending.len() as int) =~= before.take(
                    old_pending.len() as int,
                ));
                let tail = buffer@.skip(old_pending.len() as int);
                let earlier = before.skip(old_pending.len() as int);
                assert forall|k: int| 0 <= k < j + 1 implies reads(
                    #[trigger] tail[k],
                    page@.take(j + 1)[k],
                    self.commit_pattern@,
                ) by {
                    if k < j {
                        assert(tail[k] == earlier[k]);
                        assert(page@.take(j + 1)[k] == page@.take(j as int)[k]);
                    }
                }
            }
            j += 1;
        }
        proof {
            assert(page@.take(page.len() as int) =~= page@);
            assert(buffer@.skip(0) =~= buffer@);
        }
        if page.len() == 0 {
            self.finished = true;
        }
        self.position = 0;
        self.buffer = buffer;
        self.page = self.page + 1;
        Ok(())
    }

    /// The next step of the walk.
    ///
    /// Once the walk is over the answer is `Done`. Otherwise the pending
    /// commits are looked at in turn, those that lead to no report being
    /// passed over, up to the first report. Where the pending commits run
    /// out first, the answer asks for the next page.
    pub fn next(&mut self) -> (step: Step)
        ensures
            final(self).same_inputs(*old(self)),
            final(self).next_page() == old(self).next_page(),
            old(self).is_finished() ==> {
                &&& step is Done
                &&& final(self).pending() == old(self).pending()
                &&& final(self).unresolved_scopes() == old(self).unresolved_scopes()
                &&& final(self).is_finished()
            },
            !old(self).is_finished() ==> ({
                let halt = walk(
                    old(self).pending(),
                    0,
                    old(self).all_tags(),
                    old(self).unresolved_scopes(),
                );
                &&& final(self).pending() == old(self).pending().skip(halt.position)
                &&& final(self).unresolved_scopes() == halt.unresolved
                &&& final(self).is_finished() == halt.finished
                &&& match step {
                    Step::Report(reference) => halt.report == Some(reference@),
                    Step::Fetch(page) => halt.report is None && page == old(self).next_page(),
                    Step::Done => false,
                }
            }),
    {
        proof {
            use_type_invariant(&*self);
        }
        if self.finished {
            return Step::Done;
        }
        let ghost start = self.pending();
        let ghost tags = self.tags@;
        let ghost first = self.position;
        proof {
            assert(start.skip(0) =~= start);
        }
        while self.position < self.buffer.len()
            invariant
                first <= self.position <= self.buffer.len(),
                self.buffer == old(self).buffer,
                self.tags == old(self).tags,
                self.sha == old(self).sha,
                self.commit_pattern == old(self).commit_pattern,
                self.page == old(self).page,
                !self.finished,
                !old(self).finished,
                first == old(self).position,
                tags == self.tags@,
                start == self.buffer@.skip(first as int),
                walk(start, 0, tags, texts(old(self).unresolved@)) == walk(
                    start,
                    self.position - first,
                    tags,
                    texts(self.unresolved@),
                ),
            decreases self.buffer.len() - self.position,
        {
            let ghost at = self.position - first;
            proof {
                assert(start[at] == self.buffer@[self.position as int]);
            }
            let commit = copy_commit(&self.buffer[self.position]);
            self.position = self.position + 1;
            let (open, finished, report) = look(commit, &self.tags, &self.unresolved);
            self.unresolved = open;
            if let Some(reference) = report {
                self.finished = finished;
                proof {
                    assert(self.buffer@.skip(self.position as int) =~= start.skip(at + 1));
                }
                return Step::Report(reference);
            }
        }
        proof {
            assert(self.buffer@.skip(self.position as int) =~= start.skip(
                self.position - first,
            ));
        }
        Step::Fetch(self.page)
    }
}

} // verus!
