//! Folds the references of a walk into one decision per scope, and applies
//! each decision to the version of the scope's closest tag.
//!
//! Every scope is decided on its own: the strongest increment that one of
//! its commits asked for. A Major in one scope settles that scope and
//! nothing about the others.

use crate::config::{rules_view, texts, tracked_scopes, BumpRule, Config, RuleView};
use crate::git::{Commit, Tag};
use crate::source::tags::{copy_commit, copy_tag, copy_version};
use crate::source::walk::{law_look_at, look, look_at, walk};
use crate::source::Reference;
use crate::text::{chars_of, replace_substring, same_text, string_of, with_substring_replaced};
use crate::version::{
    calculate_increment, increment_major, increment_minor, increment_of, increment_patch,
    major_raised, minor_raised, patch_raised, IncrementKind, Version,
};
use vstd::prelude::*;

verus! {

/// The increment decided for a scope.
#[derive(Debug, Clone)]
pub struct ScopeBump {
    /// Scope that the decision is for; empty for the unnamed scope.
    pub scope: String,
    /// Strongest increment that a commit of the scope asked for.
    pub increment: IncrementKind,
}

/// What a walk has led to so far.
#[derive(Debug)]
pub struct Tally {
    /// Decisions, at most one of which counts for a scope: the first.
    pub bumps: Vec<ScopeBump>,
    /// Identifiers of the commits whose message did not follow the commit
    /// pattern, in the order in which they were met.
    pub skipped_commits: Vec<String>,
    /// Tags that the walk reported, in the order in which they were met.
    pub closest_tags: Vec<Tag>,
}

/// The outcome for one tag: the version it names and the version that
/// follows from the decision for its scope.
#[derive(Debug)]
pub struct VersionBump {
    /// Scope of the tag; empty for the unnamed scope.
    pub scope: String,
    /// Version that the tag names.
    pub old_version: Version,
    /// Version after the increment; the old one where none was decided.
    pub new_version: Version,
    /// Increment that was decided for the scope, if any.
    pub increment_kind: Option<IncrementKind>,
}

/// The stronger of two increments.
pub open spec fn stronger(a: IncrementKind, b: IncrementKind) -> IncrementKind {
    if a.rank() >= b.rank() {
        a
    } else {
        b
    }
}

/// The decision for a scope once a commit asked for `asked`: the stronger
/// of it and the decision so far.
pub open spec fn raised(so_far: Option<IncrementKind>, asked: IncrementKind) -> IncrementKind {
    match so_far {
        Some(kind) => stronger(kind, asked),
        None => asked,
    }
}

/// Where in `bumps` the decision for `scope` stands: the first index with
/// that scope, or the length of `bumps` where there is none.
pub open spec fn bump_index(bumps: Seq<ScopeBump>, scope: Seq<char>) -> int
    decreases bumps.len(),
{
    if bumps.len() == 0 {
        0
    } else if bumps[0].scope@ == scope {
        0
    } else {
        1 + bump_index(bumps.drop_first(), scope)
    }
}

/// The increment decided for `scope`, if any.
pub open spec fn decided(bumps: Seq<ScopeBump>, scope: Seq<char>) -> Option<IncrementKind> {
    let at = bump_index(bumps, scope);
    if 0 <= at < bumps.len() {
        Some(bumps[at].increment)
    } else {
        None
    }
}

/// Whether `raised` is the version that `kind` leads to from `version`.
pub open spec fn raised_version(version: Version, kind: IncrementKind, raised: Version) -> bool {
    match kind {
        IncrementKind::Major => major_raised(version, raised),
        IncrementKind::Minor => minor_raised(version, raised),
        IncrementKind::Patch => patch_raised(version, raised),
    }
}

/// Whether the part of `version` that `kind` raises can still be raised.
pub open spec fn can_raise(version: Version, kind: IncrementKind) -> bool {
    match kind {
        IncrementKind::Major => version.major < u64::MAX,
        IncrementKind::Minor => version.minor < u64::MAX,
        IncrementKind::Patch => version.patch < u64::MAX,
    }
}

/// `bump_index` counts the decisions in front of the first one of the scope.
proof fn lemma_bump_index(bumps: Seq<ScopeBump>, scope: Seq<char>)
    ensures
        0 <= bump_index(bumps, scope) <= bumps.len(),
        forall|k: int| 0 <= k < bump_index(bumps, scope) ==> (#[trigger] bumps[k]).scope@ != scope,
        bump_index(bumps, scope) < bumps.len() ==> bumps[bump_index(bumps, scope)].scope@
            == scope,
    decreases bumps.len(),
{
    if bumps.len() > 0 && bumps[0].scope@ != scope {
        let rest = bumps.drop_first();
        lemma_bump_index(rest, scope);
        assert forall|k: int| 0 <= k < bump_index(bumps, scope) implies (#[trigger] bumps[k]).scope@
            != scope by {
            if k > 0 {
                assert(bumps[k] == rest[k - 1]);
            }
        }
        if bump_index(bumps, scope) < bumps.len() {
            assert(bumps[bump_index(bumps, scope)] == rest[bump_index(rest, scope)]);
        }
    }
}

/// The first index with a scope is the only index that has the scope and
/// none of it in front.
proof fn lemma_bump_index_is(bumps: Seq<ScopeBump>, scope: Seq<char>, at: int)
    requires
        0 <= at <= bumps.len(),
        forall|k: int| 0 <= k < at ==> (#[trigger] bumps[k]).scope@ != scope,
        at < bumps.len() ==> bumps[at].scope@ == scope,
    ensures
        bump_index(bumps, scope) == at,
{
    lemma_bump_index(bumps, scope);
    let found = bump_index(bumps, scope);
    if found < at {
        assert(bumps[found].scope@ == scope);
    } else if at < found {
        assert(bumps[at].scope@ != scope);
    }
}

/// The stronger of two increments.
pub fn strongest(a: IncrementKind, b: IncrementKind) -> (r: IncrementKind)
    ensures
        r == stronger(a, b),
{
    match (a, b) {
        (IncrementKind::Major, _) => IncrementKind::Major,
        (_, IncrementKind::Major) => IncrementKind::Major,
        (IncrementKind::Minor, _) => IncrementKind::Minor,
        (_, IncrementKind::Minor) => IncrementKind::Minor,
        _ => IncrementKind::Patch,
    }
}

/// The index of the decision for `scope`, or the number of decisions.
pub fn find_bump(bumps: &Vec<ScopeBump>, scope: &str) -> (at: usize)
    ensures
        at == bump_index(bumps@, scope@),
{
    let mut i: usize = 0;
    while i < bumps.len()
        invariant
            i <= bumps.len(),
            forall|k: int| 0 <= k < i ==> (#[trigger] bumps@[k]).scope@ != scope@,
        decreases bumps.len() - i,
    {
        if same_text(bumps[i].scope.as_str(), scope) {
            proof {
                lemma_bump_index_is(bumps@, scope@, i as int);
            }
            return i;
        }
        i += 1;
    }
    proof {
        lemma_bump_index_is(bumps@, scope@, i as int);
    }
    i
}

/// The increment decided for `scope`, if any.
pub fn lookup(bumps: &Vec<ScopeBump>, scope: &str) -> (r: Option<IncrementKind>)
    ensures
        r == decided(bumps@, scope@),
{
    let at = find_bump(bumps, scope);
    if at < bumps.len() {
        Some(bumps[at].increment)
    } else {
        None
    }
}

/// Takes note that a commit of `scope` asked for `asked`: the decision for
/// the scope becomes the stronger of the two, and no other scope changes.
pub fn raise(bumps: &mut Vec<ScopeBump>, scope: &str, asked: IncrementKind)
    ensures
        decided(final(bumps)@, scope@) == Some(raised(decided(old(bumps)@, scope@), asked)),
        forall|other: Seq<char>|
            other != scope@ ==> decided(final(bumps)@, other) == decided(old(bumps)@, other),
{
    let at = find_bump(bumps, scope);
    let ghost before = bumps@;
    proof {
        lemma_bump_index(before, scope@);
    }
    if at < bumps.len() {
        let kind = strongest(bumps[at].increment, asked);
        bumps.set(at, ScopeBump { scope: scope.to_owned(), increment: kind });
    } else {
        bumps.push(ScopeBump { scope: scope.to_owned(), increment: asked });
    }
    proof {
        let after = bumps@;
        lemma_bump_index_is(after, scope@, at as int);
        assert forall|other: Seq<char>| other != scope@ implies decided(after, other) == decided(
            before,
            other,
        ) by {
            lemma_bump_index(before, other);
            let held = bump_index(before, other);
            if held < before.len() {
                assert(held != at);
                lemma_bump_index_is(after, other, held);
            } else {
                assert forall|k: int| 0 <= k < after.len() implies (#[trigger] after[k]).scope@
                    != other by {
                    if k < before.len() && k != at {
                        assert(after[k] == before[k]);
                    }
                }
                lemma_bump_index_is(after, other, after.len() as int);
            }
        }
    }
}

/// The skipped commits once `commit` was taken note of: a commit without
/// details joins them.
pub open spec fn skipped_follow(before: Seq<Seq<char>>, commit: Option<Commit>) -> Seq<Seq<char>> {
    match commit {
        Some(c) if c.details is None => before.push(c.sha@),
        _ => before,
    }
}

/// The closest tags once a reference with `tags` was taken note of.
pub open spec fn tags_follow(before: Seq<Tag>, tags: Option<Seq<Tag>>) -> Seq<Tag> {
    match tags {
        Some(found) => before + found,
        None => before,
    }
}

/// The decisions once `commit` was taken note of: the increment that the
/// rules decide for a commit raises the decision for the commit's scope.
pub open spec fn decisions_follow(
    before: Map<Seq<char>, IncrementKind>,
    commit: Option<Commit>,
    rules: Seq<RuleView>,
) -> Map<Seq<char>, IncrementKind> {
    match commit {
        Some(c) => match increment_of(c, rules) {
            Some(asked) => before.insert(
                c.scope(),
                raised(
                    if before.contains_key(c.scope()) {
                        Some(before[c.scope()])
                    } else {
                        None
                    },
                    asked,
                ),
            ),
            None => before,
        },
        None => before,
    }
}

/// The decisions of a list as a map from scope to increment.
pub open spec fn decisions(bumps: Seq<ScopeBump>) -> Map<Seq<char>, IncrementKind> {
    Map::new(
        |scope: Seq<char>| decided(bumps, scope) is Some,
        |scope: Seq<char>| decided(bumps, scope)->0,
    )
}

/// What a tally holds, as plain values.
pub struct TallyView {
    /// Increment decided for each scope that has one.
    pub decisions: Map<Seq<char>, IncrementKind>,
    /// Identifiers of the skipped commits.
    pub skipped: Seq<Seq<char>>,
    /// Tags that the walk reported.
    pub closest: Seq<Tag>,
}

/// The tally of nothing.
pub open spec fn nothing() -> TallyView {
    TallyView {
        decisions: Map::<Seq<char>, IncrementKind>::empty(),
        skipped: Seq::<Seq<char>>::empty(),
        closest: Seq::<Tag>::empty(),
    }
}

/// The tally `before` with one reference taken note of under `rules`: its
/// tags join the closest tags; its commit joins the skipped commits where it
/// has no details, and else raises the decision for its scope by what the
/// rules decide for it.
pub open spec fn noted(
    before: TallyView,
    reference: (Option<Commit>, Option<Seq<Tag>>),
    rules: Seq<RuleView>,
) -> TallyView {
    TallyView {
        decisions: decisions_follow(before.decisions, reference.0, rules),
        skipped: skipped_follow(before.skipped, reference.0),
        closest: tags_follow(before.closest, reference.1),
    }
}

/// The tally that a history leads to, from its commit at `position` on:
/// each commit is looked at in turn, and what it reports is taken note of,
/// until the last open scope is settled or the history ends.
pub open spec fn history_tally(
    history: Seq<Commit>,
    position: int,
    tags: Seq<Tag>,
    unresolved: Seq<Seq<char>>,
    so_far: TallyView,
    rules: Seq<RuleView>,
) -> TallyView
    decreases history.len() - position,
{
    if position < 0 || position >= history.len() {
        so_far
    } else {
        let outcome = look_at(history[position], tags, unresolved);
        let next = match outcome.report {
            Some(reference) => noted(so_far, reference, rules),
            None => so_far,
        };
        if outcome.finished {
            next
        } else {
            history_tally(history, position + 1, tags, outcome.unresolved, next, rules)
        }
    }
}

impl View for Tally {
    type V = TallyView;

    open spec fn view(&self) -> TallyView {
        TallyView {
            decisions: decisions(self.bumps@),
            skipped: texts(self.skipped_commits@),
            closest: self.closest_tags@,
        }
    }
}

impl Tally {
    /// A tally of nothing.
    pub fn new() -> (tally: Tally)
        ensures
            tally@ == nothing(),
    {
        let tally = Tally {
            bumps: Vec::new(),
            skipped_commits: Vec::new(),
            closest_tags: Vec::new(),
        };
        proof {
            assert(decisions(tally.bumps@) =~= Map::<Seq<char>, IncrementKind>::empty());
            assert(texts(tally.skipped_commits@) =~= Seq::<Seq<char>>::empty());
            assert(tally.closest_tags@ =~= Seq::<Tag>::empty());
        }
        tally
    }

    /// Takes note of one reference of the walk.
    ///
    /// Its tags join the closest tags. Its commit, where it has one, joins
    /// the skipped commits if it has no details; otherwise the increment
    /// that `rules` decide for it, if any, raises the decision for its
    /// scope.
    pub fn record(&mut self, reference: Reference, rules: &[BumpRule])
        ensures
            final(self)@ == noted(old(self)@, reference@, rules_view(rules@)),
    {
        let ghost skipped = texts(self.skipped_commits@);
        let ghost held = decisions(self.bumps@);
        if let Some(tags) = &reference.tags {
            let ghost before = self.closest_tags@;
            let mut i: usize = 0;
            while i < tags.len()
                invariant
                    i <= tags.len(),
                    self.closest_tags@ == before + tags@.take(i as int),
                    self.bumps == old(self).bumps,
                    self.skipped_commits == old(self).skipped_commits,
                decreases tags.len() - i,
            {
                self.closest_tags.push(copy_tag(&tags[i]));
                proof {
                    assert(self.closest_tags@ =~= before + tags@.take(i + 1));
                }
                i += 1;
            }
            proof {
                assert(tags@.take(tags.len() as int) =~= tags@);
                assert(before + Seq::<Tag>::empty() =~= before);
            }
        }
        let commit = match &reference.commit {
            Some(commit) => commit,
            None => {
                return ;
            },
        };
        let details = match &commit.details {
            Some(details) => details,
            None => {
                self.skipped_commits.push(commit.sha.clone());
                assert(texts(self.skipped_commits@) =~= skipped.push(commit.sha@));
                return ;
            },
        };
        let asked = match calculate_increment(commit, rules) {
            Some(asked) => asked,
            None => {
                return ;
            },
        };
        let scope = match &details.scope {
            Some(scope) => scope.clone(),
            None => String::new(),
        };
        raise(&mut self.bumps, scope.as_str(), asked);
        proof {
            assert(decisions(self.bumps@) =~= decisions_follow(
                held,
                reference.commit,
                rules_view(rules@),
            ));
        }
    }

    /// The outcome for each closest tag, in order. `None` where one of them
    /// names no version, or a version that the decision for its scope
    /// cannot raise.
    pub fn version_bumps(&self) -> (r: Option<Vec<VersionBump>>)
        ensures
            match r {
                Some(bumps) => bumps.len() == self.closest_tags.len() && forall|i: int|
                    0 <= i < bumps.len() ==> is_outcome(
                        #[trigger] bumps@[i],
                        self.closest_tags@[i],
                        self.bumps@,
                    ),
                None => exists|i: int|
                    0 <= i < self.closest_tags.len() && !has_outcome(
                        #[trigger] self.closest_tags@[i],
                        self.bumps@,
                    ),
            },
    {
        let mut bumps: Vec<VersionBump> = Vec::new();
        let mut i: usize = 0;
        while i < self.closest_tags.len()
            invariant
                i <= self.closest_tags.len(),
                bumps.len() == i,
                forall|k: int|
                    0 <= k < i ==> is_outcome(
                        #[trigger] bumps@[k],
                        self.closest_tags@[k],
                        self.bumps@,
                    ),
            decreases self.closest_tags.len() - i,
        {
            match version_bump(&self.closest_tags[i], &self.bumps) {
                Some(bump) => bumps.push(bump),
                None => {
                    assert(!has_outcome(self.closest_tags@[i as int], self.bumps@));
                    return None;
                },
            }
            i += 1;
        }
        proof {
            assert forall|k: int| 0 <= k < bumps.len() implies has_outcome(
                #[trigger] self.closest_tags@[k],
                self.bumps@,
            ) by {
                assert(is_outcome(bumps@[k], self.closest_tags@[k], self.bumps@));
            }
        }
        Some(bumps)
    }
}

/// Walks a whole history, most recent commit first, and tallies what it
/// reports: the decision for each scope, the commits that were skipped and
/// the tags that bound the walk. The scopes are those of `config`, or the
/// unnamed one where it lists none.
pub fn tally_history(history: &Vec<Commit>, tags: &Vec<Tag>, config: &Config) -> (tally: Tally)
    ensures
        tally@ == history_tally(
            history@,
            0,
            tags@,
            tracked_scopes(texts(config.version_scopes@)),
            nothing(),
            rules_view(config.bump_rules@),
        ),
{
    let mut tally = Tally::new();
    let mut unresolved = config.scopes();
    let ghost rules = rules_view(config.bump_rules@);
    let mut i: usize = 0;
    while i < history.len()
        invariant
            i <= history.len(),
            rules == rules_view(config.bump_rules@),
            history_tally(
                history@,
                0,
                tags@,
                tracked_scopes(texts(config.version_scopes@)),
                nothing(),
                rules,
            ) == history_tally(history@, i as int, tags@, texts(unresolved@), tally@, rules),
        decreases history.len() - i,
    {
        let (open, finished, report) = look(copy_commit(&history[i]), tags, &unresolved);
        unresolved = open;
        if let Some(reference) = report {
            tally.record(reference, config.bump_rules.as_slice());
        }
        if finished {
            return tally;
        }
        i += 1;
    }
    tally
}

/// The same history, tags, scopes and rules lead to the same tally: the
/// same decisions, the same skipped commits and the same closest tags.
pub proof fn law_same_input_same_outcome(
    first: Tally,
    second: Tally,
    history: Seq<Commit>,
    tags: Seq<Tag>,
    scopes: Seq<Seq<char>>,
    rules: Seq<RuleView>,
)
    requires
        first@ == history_tally(history, 0, tags, scopes, nothing(), rules),
        second@ == history_tally(history, 0, tags, scopes, nothing(), rules),
    ensures
        first@.decisions == second@.decisions,
        first@.skipped == second@.skipped,
        first@.closest == second@.closest,
        forall|scope: Seq<char>| decided(first.bumps@, scope) == decided(second.bumps@, scope),
{
    assert forall|scope: Seq<char>| decided(first.bumps@, scope) == decided(
        second.bumps@,
        scope,
    ) by {
        let one = decisions(first.bumps@);
        let other = decisions(second.bumps@);
        assert(one == other);
        assert(one.contains_key(scope) == (decided(first.bumps@, scope) is Some));
        assert(other.contains_key(scope) == (decided(second.bumps@, scope) is Some));
        if one.contains_key(scope) {
            assert(one[scope] == decided(first.bumps@, scope)->0);
            assert(other[scope] == decided(second.bumps@, scope)->0);
        }
    }
}

/// The tally of a history is what comes of taking note of the reports of a
/// walk over it, one after the other: up to the report that finishes the
/// walk, or until the walk runs out of commits.
pub proof fn law_history_by_reports(
    history: Seq<Commit>,
    position: int,
    tags: Seq<Tag>,
    unresolved: Seq<Seq<char>>,
    so_far: TallyView,
    rules: Seq<RuleView>,
)
    requires
        0 <= position,
    ensures
        history_tally(history, position, tags, unresolved, so_far, rules) == ({
            let halt = walk(history, position, tags, unresolved);
            match halt.report {
                Some(reference) => if halt.finished {
                    noted(so_far, reference, rules)
                } else {
                    history_tally(
                        history,
                        halt.position,
                        tags,
                        halt.unresolved,
                        noted(so_far, reference, rules),
                        rules,
                    )
                },
                None => so_far,
            }
        }),
    decreases history.len() - position,
{
    if position < history.len() {
        let outcome = look_at(history[position], tags, unresolved);
        law_look_at(history[position], tags, unresolved);
        if outcome.report is None {
            law_history_by_reports(history, position + 1, tags, unresolved, so_far, rules);
        }
    }
}

/// A decision for a scope never weakens, and a commit of another scope
/// leaves it alone.
pub proof fn law_decisions_only_rise(
    before: TallyView,
    reference: (Option<Commit>, Option<Seq<Tag>>),
    rules: Seq<RuleView>,
    scope: Seq<char>,
)
    ensures
        before.decisions.contains_key(scope) ==> noted(
            before,
            reference,
            rules,
        ).decisions.contains_key(scope) && noted(before, reference, rules).decisions[scope].rank()
            >= before.decisions[scope].rank(),
        (reference.0 matches Some(commit) ==> commit.scope() != scope) ==> (noted(
            before,
            reference,
            rules,
        ).decisions.contains_key(scope) == before.decisions.contains_key(scope) && noted(
            before,
            reference,
            rules,
        ).decisions[scope] == before.decisions[scope]),
{
}

/// A commit without details changes no decision: it is skipped.
pub proof fn law_commit_without_details_is_skipped(
    before: TallyView,
    commit: Commit,
    tags: Option<Seq<Tag>>,
    rules: Seq<RuleView>,
)
    requires
        commit.details is None,
    ensures
        noted(before, (Some(commit), tags), rules).decisions == before.decisions,
        noted(before, (Some(commit), tags), rules).skipped == before.skipped.push(commit.sha@),
{
}

/// The name of the tag for `new_version`, made from the name of the tag
/// for `old_version`: each place where the name spells the old version
/// spells the new one.
pub open spec fn tag_name_after(name: Seq<char>, old_version: Version, new_version: Version) -> Seq<
    char,
> {
    with_substring_replaced(name, old_version.text(), new_version.text())
}

/// The message of the tag for `new_version` of `scope`, made from
/// `template`: `{scope}` stands for the scope, `{version}` for the version.
pub open spec fn tag_message_for(
    template: Seq<char>,
    scope: Seq<char>,
    new_version: Version,
) -> Seq<char> {
    with_substring_replaced(
        with_substring_replaced(template, "{scope}"@, scope),
        "{version}"@,
        new_version.text(),
    )
}

/// The name of the tag for `new_version`, made from the name of the tag
/// for `old_version`.
pub fn new_tag_name(name: &str, old_version: &Version, new_version: &Version) -> (out: String)
    ensures
        out@ == tag_name_after(name@, *old_version, *new_version),
{
    let old_text = chars_of(old_version.to_string().as_str());
    let new_text = chars_of(new_version.to_string().as_str());
    string_of(&replace_substring(&chars_of(name), &old_text, &new_text))
}

/// The message of the tag for `new_version` of `scope`, made from
/// `template`.
pub fn new_tag_message(template: &str, scope: &str, new_version: &Version) -> (out: String)
    ensures
        out@ == tag_message_for(template@, scope@, *new_version),
{
    let scope_mark = chars_of("{scope}");
    let version_mark = chars_of("{version}");
    proof {
        reveal_strlit("{scope}");
        reveal_strlit("{version}");
    }
    let with_scope = replace_substring(&chars_of(template), &scope_mark, &chars_of(scope));
    let new_text = chars_of(new_version.to_string().as_str());
    string_of(&replace_substring(&with_scope, &version_mark, &new_text))
}

/// The version that follows `version` by `kind`.
pub fn apply_increment(version: &Version, kind: IncrementKind) -> (raised: Version)
    requires
        can_raise(*version, kind),
    ensures
        raised_version(*version, kind, raised),
{
    let mut raised = copy_version(version);
    match kind {
        IncrementKind::Major => increment_major(&mut raised),
        IncrementKind::Minor => increment_minor(&mut raised),
        IncrementKind::Patch => increment_patch(&mut raised),
    }
    raised
}

/// Whether the part of `version` that `kind` raises can still be raised.
pub fn may_raise(version: &Version, kind: IncrementKind) -> (r: bool)
    ensures
        r == can_raise(*version, kind),
{
    match kind {
        IncrementKind::Major => version.major < u64::MAX,
        IncrementKind::Minor => version.minor < u64::MAX,
        IncrementKind::Patch => version.patch < u64::MAX,
    }
}

/// Whether `bump` is the outcome for `tag` under the decisions `bumps`.
pub open spec fn is_outcome(bump: VersionBump, tag: Tag, bumps: Seq<ScopeBump>) -> bool {
    &&& tag.details is Some
    &&& bump.scope@ == tag.scope()
    &&& bump.old_version == tag.details->0.version
    &&& bump.increment_kind == decided(bumps, tag.scope())
    &&& match bump.increment_kind {
        Some(kind) => raised_version(bump.old_version, kind, bump.new_version),
        None => bump.new_version == bump.old_version,
    }
}

/// Whether `tag` has an outcome under the decisions `bumps`: it names a
/// version, and the decision for its scope, if any, can raise it.
pub open spec fn has_outcome(tag: Tag, bumps: Seq<ScopeBump>) -> bool {
    tag.details is Some && (decided(bumps, tag.scope()) matches Some(kind) ==> can_raise(
        tag.details->0.version,
        kind,
    ))
}

/// The outcome for `tag`: its version raised by the decision for its scope,
/// and unchanged where there is none. `None` for a tag that names no
/// version, or whose version the decision cannot raise.
pub fn version_bump(tag: &Tag, bumps: &Vec<ScopeBump>) -> (r: Option<VersionBump>)
    ensures
        match r {
            Some(bump) => is_outcome(bump, *tag, bumps@),
            None => !has_outcome(*tag, bumps@),
        },
{
    let details = match &tag.details {
        Some(details) => details,
        None => {
            return None;
        },
    };
    let scope = match &details.scope {
        Some(scope) => scope.clone(),
        None => String::new(),
    };
    let increment_kind = lookup(bumps, scope.as_str());
    let new_version = match increment_kind {
        Some(kind) => {
            if !may_raise(&details.version, kind) {
                return None;
            }
            apply_increment(&details.version, kind)
        },
        None => copy_version(&details.version),
    };
    Some(
        VersionBump {
            scope,
            old_version: copy_version(&details.version),
            new_version,
            increment_kind,
        },
    )
}

} // verus!
