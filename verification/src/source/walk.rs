//! What each commit of the history leads to, and how far a walk over
//! buffered commits gets before it has something to report.

use crate::config::{copy_strings, texts};
use crate::git::{Commit, Tag};
use crate::source::tags::{
    covers, find_scope, find_tags_from_commit_sha, law_tags_on_one_per_scope, lemma_scope_index,
    scope_index, scope_listed, tag_counts, tags_on,
};
use crate::source::Reference;
use vstd::prelude::*;

verus! {

/// The scopes of `unresolved` that no tag of `found` settles, in order.
pub open spec fn still_open(unresolved: Seq<Seq<char>>, found: Seq<Tag>) -> Seq<Seq<char>>
    decreases unresolved.len(),
{
    if unresolved.len() == 0 {
        unresolved
    } else if covers(found, unresolved.last()) {
        still_open(unresolved.drop_last(), found)
    } else {
        still_open(unresolved.drop_last(), found).push(unresolved.last())
    }
}

/// What one commit of the history leads to.
pub struct Outcome {
    /// Scopes still without a tag once the commit was looked at.
    pub unresolved: Seq<Seq<char>>,
    /// Whether the last open scope found its tag on this commit.
    pub finished: bool,
    /// What is reported, if anything: the commit, unless only its tags
    /// matter, and the tags found on it, unless there are none.
    pub report: Option<(Option<Commit>, Option<Seq<Tag>>)>,
}

/// The tags of a step as they are reported: absent where none was found.
pub open spec fn reported_tags(found: Seq<Tag>) -> Option<Seq<Tag>> {
    if found.len() == 0 {
        None
    } else {
        Some(found)
    }
}

/// What looking at `commit` leads to, with `unresolved` scopes still open.
///
/// The tags found on the commit settle their scopes; the walk is finished
/// once they settle the last one. A commit without details is always
/// reported. A commit with details is reported while its scope is still
/// open. Otherwise the tags alone are reported, and nothing where there are
/// none.
pub open spec fn look_at(commit: Commit, tags: Seq<Tag>, unresolved: Seq<Seq<char>>) -> Outcome {
    let found = tags_on(tags, commit.sha@, unresolved);
    let open = if found.len() == 0 {
        unresolved
    } else {
        still_open(unresolved, found)
    };
    let finished = found.len() > 0 && open.len() == 0;
    let report = if commit.details is None || open.contains(commit.scope()) {
        Some((Some(commit), reported_tags(found)))
    } else if found.len() == 0 {
        None
    } else {
        Some((None, Some(found)))
    };
    Outcome { unresolved: open, finished, report }
}

/// Where a walk over buffered commits stops.
pub struct Halt {
    /// Index behind the last commit that was looked at.
    pub position: int,
    /// Scopes still without a tag.
    pub unresolved: Seq<Seq<char>>,
    /// Whether the walk is over.
    pub finished: bool,
    /// What is reported; nothing where the buffer ran out first.
    pub report: Option<(Option<Commit>, Option<Seq<Tag>>)>,
}

/// Walks `buffer` from `position` on, passing over the commits that lead to
/// no report, up to the first report or the end of the buffer.
pub open spec fn walk(
    buffer: Seq<Commit>,
    position: int,
    tags: Seq<Tag>,
    unresolved: Seq<Seq<char>>,
) -> Halt
    decreases buffer.len() - position,
{
    if position < 0 || position >= buffer.len() {
        Halt { position, unresolved, finished: false, report: None }
    } else {
        let outcome = look_at(buffer[position], tags, unresolved);
        if outcome.report is Some {
            Halt {
                position: position + 1,
                unresolved: outcome.unresolved,
                finished: outcome.finished,
                report: outcome.report,
            }
        } else {
            walk(buffer, position + 1, tags, outcome.unresolved)
        }
    }
}

/// The scopes that stay open are those of the open ones that the tags do
/// not settle: nothing else joins them and none of those is lost.
pub proof fn law_still_open(unresolved: Seq<Seq<char>>, found: Seq<Tag>, scope: Seq<char>)
    ensures
        still_open(unresolved, found).contains(scope) <==> (unresolved.contains(scope) && !covers(
            found,
            scope,
        )),
    decreases unresolved.len(),
{
    if unresolved.len() > 0 {
        let earlier = unresolved.drop_last();
        let kept = still_open(earlier, found);
        let after = still_open(unresolved, found);
        law_still_open(earlier, found, scope);
        if unresolved.contains(scope) {
            let at = choose|at: int| 0 <= at < unresolved.len() && unresolved[at] == scope;
            if at < earlier.len() {
                assert(earlier[at] == scope);
            }
        }
        if earlier.contains(scope) {
            let at = choose|at: int| 0 <= at < earlier.len() && earlier[at] == scope;
            assert(unresolved[at] == scope);
        }
        assert(unresolved[unresolved.len() - 1] == unresolved.last());
        if covers(found, unresolved.last()) {
        } else {
            if kept.contains(scope) {
                let at = choose|at: int| 0 <= at < kept.len() && kept[at] == scope;
                assert(after[at] == scope);
            }
            if after.contains(scope) {
                let at = choose|at: int| 0 <= at < after.len() && after[at] == scope;
                if at < kept.len() {
                    assert(kept[at] == scope);
                }
            }
            assert(after[kept.len() as int] == unresolved.last());
        }
    }
}

/// Looking at a commit opens no scope. It finishes the walk only by
/// settling the last open scope. Where nothing is reported, no scope was
/// settled and the walk is not finished.
pub proof fn law_look_at(commit: Commit, tags: Seq<Tag>, unresolved: Seq<Seq<char>>)
    ensures
        forall|scope: Seq<char>| #[trigger]
            look_at(commit, tags, unresolved).unresolved.contains(scope) ==> unresolved.contains(
                scope,
            ),
        look_at(commit, tags, unresolved).finished ==> look_at(
            commit,
            tags,
            unresolved,
        ).unresolved.len() == 0,
        look_at(commit, tags, unresolved).report is None ==> look_at(
            commit,
            tags,
            unresolved,
        ).unresolved == unresolved && !look_at(commit, tags, unresolved).finished,
{
    let found = tags_on(tags, commit.sha@, unresolved);
    assert forall|scope: Seq<char>| #[trigger]
        look_at(commit, tags, unresolved).unresolved.contains(scope) implies unresolved.contains(
        scope,
    ) by {
        law_still_open(unresolved, found, scope);
    }
}

/// Whether some tag that follows the tag pattern belongs to `scope`.
pub open spec fn has_tag(tags: Seq<Tag>, scope: Seq<char>) -> bool {
    exists|k: int|
        0 <= k < tags.len() && (#[trigger] tags[k]).details is Some && tags[k].scope() == scope
}

/// A scope that is open and has no tag anywhere stays open, whatever
/// commits are walked over: the walk cannot finish by itself, and ends only
/// when the history runs out.
pub proof fn law_scope_without_tag_stays_open(
    buffer: Seq<Commit>,
    position: int,
    tags: Seq<Tag>,
    unresolved: Seq<Seq<char>>,
    scope: Seq<char>,
)
    requires
        0 <= position,
        unresolved.contains(scope),
        !has_tag(tags, scope),
    ensures
        walk(buffer, position, tags, unresolved).unresolved.contains(scope),
        !walk(buffer, position, tags, unresolved).finished,
    decreases buffer.len() - position,
{
    if position < buffer.len() {
        let commit = buffer[position];
        let found = tags_on(tags, commit.sha@, unresolved);
        let outcome = look_at(commit, tags, unresolved);
        law_still_open(unresolved, found, scope);
        law_tags_on_one_per_scope(tags, commit.sha@, unresolved);
        if covers(found, scope) {
            lemma_scope_index(found, scope);
            let held = found[scope_index(found, scope)];
            assert(tag_counts(held, commit.sha@, unresolved) && tags.contains(held));
            let at = choose|at: int| 0 <= at < tags.len() && tags[at] == held;
            assert(tags[at].details is Some && tags[at].scope() == scope);
        }
        assert(outcome.unresolved.contains(scope));
        if outcome.report is None {
            law_scope_without_tag_stays_open(buffer, position + 1, tags, outcome.unresolved, scope);
        }
    }
}

/// A walk over buffered commits moves forward only, by at least one commit
/// where it reports, and stays within the buffer.
pub proof fn law_walk_advances(
    buffer: Seq<Commit>,
    position: int,
    tags: Seq<Tag>,
    unresolved: Seq<Seq<char>>,
)
    requires
        0 <= position <= buffer.len(),
    ensures
        position <= walk(buffer, position, tags, unresolved).position <= buffer.len(),
        walk(buffer, position, tags, unresolved).report is Some ==> walk(
            buffer,
            position,
            tags,
            unresolved,
        ).position > position,
        walk(buffer, position, tags, unresolved).report is None ==> walk(
            buffer,
            position,
            tags,
            unresolved,
        ).position == buffer.len() && walk(buffer, position, tags, unresolved).unresolved
            == unresolved,
    decreases buffer.len() - position,
{
    if position < buffer.len() {
        let outcome = look_at(buffer[position], tags, unresolved);
        law_look_at(buffer[position], tags, unresolved);
        if outcome.report is None {
            law_walk_advances(buffer, position + 1, tags, outcome.unresolved);
        }
    }
}

/// Pages do not matter to a walk: where the commits of one page run out
/// without a report, the walk over that page followed by another goes on in
/// the other as if it had started there.
pub proof fn law_walk_over_pages(
    page: Seq<Commit>,
    next: Seq<Commit>,
    position: int,
    tags: Seq<Tag>,
    unresolved: Seq<Seq<char>>,
)
    requires
        0 <= position <= page.len(),
    ensures
        walk(page, position, tags, unresolved).report is Some ==> walk(
            page + next,
            position,
            tags,
            unresolved,
        ) == walk(page, position, tags, unresolved),
        walk(page, position, tags, unresolved).report is None ==> ({
            let behind = walk(next, 0, tags, unresolved);
            walk(page + next, position, tags, unresolved) == Halt {
                position: page.len() + behind.position,
                unresolved: behind.unresolved,
                finished: behind.finished,
                report: behind.report,
            }
        }),
    decreases page.len() + next.len() - position,
{
    let both = page + next;
    if position < page.len() {
        assert(both[position] == page[position]);
        let outcome = look_at(page[position], tags, unresolved);
        law_look_at(page[position], tags, unresolved);
        if outcome.report is None {
            law_walk_over_pages(page, next, position + 1, tags, unresolved);
        }
    } else {
        lemma_walk_shifted(page, next, 0, tags, unresolved);
    }
}

/// A walk in the second of two pages is the walk in that page alone, with
/// positions counted from the start of the first.
proof fn lemma_walk_shifted(
    page: Seq<Commit>,
    next: Seq<Commit>,
    position: int,
    tags: Seq<Tag>,
    unresolved: Seq<Seq<char>>,
)
    requires
        0 <= position <= next.len(),
    ensures
        walk(page + next, page.len() + position, tags, unresolved) == ({
            let behind = walk(next, position, tags, unresolved);
            Halt {
                position: page.len() + behind.position,
                unresolved: behind.unresolved,
                finished: behind.finished,
                report: behind.report,
            }
        }),
    decreases next.len() - position,
{
    let both = page + next;
    if position < next.len() {
        assert(both[page.len() + position] == next[position]);
        let outcome = look_at(next[position], tags, unresolved);
        if outcome.report is None {
            lemma_walk_shifted(page, next, position + 1, tags, outcome.unresolved);
        }
    }
}

/// The scopes of `unresolved` that no tag of `found` settles.
pub fn drop_settled(unresolved: &Vec<String>, found: &Vec<Tag>) -> (open: Vec<String>)
    ensures
        texts(open@) == still_open(texts(unresolved@), found@),
{
    let mut open: Vec<String> = Vec::new();
    let mut i: usize = 0;
    assert(texts(unresolved@).take(0) =~= Seq::<Seq<char>>::empty());
    assert(texts(open@) =~= Seq::<Seq<char>>::empty());
    while i < unresolved.len()
        invariant
            i <= unresolved.len(),
            texts(open@) == still_open(texts(unresolved@).take(i as int), found@),
        decreases unresolved.len() - i,
    {
        proof {
            assert(texts(unresolved@).take(i + 1).drop_last() =~= texts(unresolved@).take(
                i as int,
            ));
            assert(texts(unresolved@).take(i + 1).last() == unresolved@[i as int]@);
        }
        let scope = Some(unresolved[i].clone());
        let ghost before = texts(open@);
        if find_scope(found, &scope) >= found.len() {
            open.push(unresolved[i].clone());
            assert(texts(open@) =~= before.push(unresolved@[i as int]@));
        }
        i += 1;
    }
    proof {
        assert(texts(unresolved@).take(unresolved.len() as int) =~= texts(unresolved@));
    }
    open
}

/// Looks at one commit of the history: settles the scopes whose tags sit on
/// it and decides what to report. Gives the scopes that stay open, whether
/// the walk is finished, and the report.
pub fn look(commit: Commit, tags: &Vec<Tag>, unresolved: &Vec<String>) -> (r: (
    Vec<String>,
    bool,
    Option<Reference>,
))
    ensures
        texts(r.0@) == look_at(commit, tags@, texts(unresolved@)).unresolved,
        r.1 == look_at(commit, tags@, texts(unresolved@)).finished,
        match r.2 {
            Some(reference) => look_at(commit, tags@, texts(unresolved@)).report == Some(
                reference@,
            ),
            None => look_at(commit, tags@, texts(unresolved@)).report is None,
        },
{
    let found = find_tags_from_commit_sha(
        commit.sha.as_str(),
        tags.as_slice(),
        unresolved.as_slice(),
    );
    let open = match &found {
        Some(found) => drop_settled(unresolved, found),
        None => copy_strings(unresolved),
    };
    let finished = found.is_some() && open.len() == 0;
    assert(texts(open@).len() == open@.len());
    let wanted = match &commit.details {
        Some(details) => scope_listed(open.as_slice(), &details.scope),
        None => true,
    };
    if wanted {
        (open, finished, Some(Reference { commit: Some(commit), tags: found }))
    } else if found.is_none() {
        (open, finished, None)
    } else {
        (open, finished, Some(Reference { commit: None, tags: found }))
    }
}

} // verus!
