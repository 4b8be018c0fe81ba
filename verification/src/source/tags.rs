//! Which tags sit on a commit: for each scope the one with the highest
//! version.

use crate::config::texts;
use crate::git::{scope_key, Commit, Tag};
use crate::parsing::{CommitDetails, TagDetails};
use crate::text::same_text;
use crate::version::{law_release_order, Version};
use vstd::prelude::*;

verus! {

/// Whether `tag` sits on the commit `sha`, follows the tag pattern and
/// belongs to one of `scopes`.
pub open spec fn tag_counts(tag: Tag, sha: Seq<char>, scopes: Seq<Seq<char>>) -> bool {
    tag.commit_sha@ == sha && tag.details is Some && scopes.contains(tag.scope())
}

/// Where in `found` the tag of `scope` stands: the first index whose tag has
/// that scope, or the length of `found` where there is none.
pub open spec fn scope_index(found: Seq<Tag>, scope: Seq<char>) -> int
    decreases found.len(),
{
    if found.len() == 0 {
        0
    } else if found[0].scope() == scope {
        0
    } else {
        1 + scope_index(found.drop_first(), scope)
    }
}

/// `found` after `tag` was considered: `tag` takes the place of the tag of
/// its scope where its version is strictly greater, is dropped where it is
/// not, and is added at the end where its scope had no tag yet.
pub open spec fn absorb(found: Seq<Tag>, tag: Tag) -> Seq<Tag>
    recommends
        tag.details is Some,
{
    let at = scope_index(found, tag.scope());
    if at < found.len() {
        if found[at].details is Some && tag.details->0.version.exceeds(
            found[at].details->0.version,
        ) {
            found.update(at, tag)
        } else {
            found
        }
    } else {
        found.push(tag)
    }
}

/// The tags on the commit `sha`: of the tags that count, for each scope the
/// one with the highest version, the earlier one where neither is greater,
/// in the order in which the scopes first appear.
pub open spec fn tags_on(tags: Seq<Tag>, sha: Seq<char>, scopes: Seq<Seq<char>>) -> Seq<Tag>
    decreases tags.len(),
{
    if tags.len() == 0 {
        Seq::<Tag>::empty()
    } else if tag_counts(tags.last(), sha, scopes) {
        absorb(tags_on(tags.drop_last(), sha, scopes), tags.last())
    } else {
        tags_on(tags.drop_last(), sha, scopes)
    }
}

/// Whether some tag of `found` has the scope `scope`.
pub open spec fn covers(found: Seq<Tag>, scope: Seq<char>) -> bool {
    scope_index(found, scope) < found.len()
}

/// A copy of `version`.
pub fn copy_version(version: &Version) -> (out: Version)
    ensures
        out == *version,
{
    Version {
        major: version.major,
        minor: version.minor,
        patch: version.patch,
        pre: version.pre.clone(),
        build: version.build.clone(),
    }
}

/// A copy of an optional string.
pub fn copy_optional(text: &Option<String>) -> (out: Option<String>)
    ensures
        out == *text,
{
    match text {
        Some(s) => Some(s.clone()),
        None => None,
    }
}

/// A copy of `tag`.
pub fn copy_tag(tag: &Tag) -> (out: Tag)
    ensures
        out == *tag,
{
    let details = match &tag.details {
        Some(d) => Some(
            TagDetails { version: copy_version(&d.version), scope: copy_optional(&d.scope) },
        ),
        None => None,
    };
    Tag { commit_sha: tag.commit_sha.clone(), name: tag.name.clone(), details }
}

/// A copy of `commit`.
pub fn copy_commit(commit: &Commit) -> (out: Commit)
    ensures
        out == *commit,
{
    let details = match &commit.details {
        Some(d) => Some(
            CommitDetails {
                commit_type: d.commit_type.clone(),
                scope: copy_optional(&d.scope),
                breaking: d.breaking,
                description: d.description.clone(),
            },
        ),
        None => None,
    };
    Commit { sha: commit.sha.clone(), message: commit.message.clone(), details }
}

/// Whether the optional scope `scope` is the scope spelled by `text`.
pub fn is_scope(scope: &Option<String>, text: &str) -> (r: bool)
    ensures
        r == (scope_key(*scope) == text@),
{
    match scope {
        Some(s) => same_text(s.as_str(), text),
        None => {
            assert(text@.len() == 0 <==> text@ =~= Seq::<char>::empty());
            text.is_empty()
        },
    }
}

/// Whether `tag` belongs to the scope `scope`.
pub fn tag_in_scope(tag: &Tag, scope: &Option<String>) -> (r: bool)
    ensures
        r == (tag.scope() == scope_key(*scope)),
{
    let held = match &tag.details {
        Some(d) => copy_optional(&d.scope),
        None => None,
    };
    match scope {
        Some(s) => is_scope(&held, s.as_str()),
        None => {
            let empty = String::new();
            is_scope(&held, empty.as_str())
        },
    }
}

/// Whether `scope` is one of `scopes`.
pub fn scope_listed(scopes: &[String], scope: &Option<String>) -> (r: bool)
    ensures
        r == texts(scopes@).contains(scope_key(*scope)),
{
    let mut i: usize = 0;
    while i < scopes.len()
        invariant
            i <= scopes.len(),
            forall|k: int| 0 <= k < i ==> scopes@[k]@ != scope_key(*scope),
        decreases scopes.len() - i,
    {
        if is_scope(scope, scopes[i].as_str()) {
            assert(texts(scopes@)[i as int] == scope_key(*scope));
            return true;
        }
        i += 1;
    }
    assert forall|k: int| 0 <= k < texts(scopes@).len() implies texts(scopes@)[k] != scope_key(
        *scope,
    ) by {
        assert(texts(scopes@)[k] == scopes@[k]@);
    }
    false
}

/// `scope_index` counts the tags in front of the first one of the scope.
pub proof fn lemma_scope_index(found: Seq<Tag>, scope: Seq<char>)
    ensures
        0 <= scope_index(found, scope) <= found.len(),
        forall|k: int|
            0 <= k < scope_index(found, scope) ==> (#[trigger] found[k]).scope() != scope,
        scope_index(found, scope) < found.len() ==> found[scope_index(found, scope)].scope()
            == scope,
    decreases found.len(),
{
    if found.len() > 0 && found[0].scope() != scope {
        let rest = found.drop_first();
        lemma_scope_index(rest, scope);
        assert forall|k: int| 0 <= k < scope_index(found, scope) implies (
        #[trigger] found[k]).scope() != scope by {
            if k > 0 {
                assert(found[k] == rest[k - 1]);
            }
        }
        if scope_index(found, scope) < found.len() {
            assert(found[scope_index(found, scope)] == rest[scope_index(rest, scope)]);
        }
    }
}

/// The first index that holds a tag of the scope, with none of it in
/// front, is `scope_index`.
proof fn lemma_scope_index_is(found: Seq<Tag>, scope: Seq<char>, at: int)
    requires
        0 <= at <= found.len(),
        forall|k: int| 0 <= k < at ==> (#[trigger] found[k]).scope() != scope,
        at < found.len() ==> found[at].scope() == scope,
    ensures
        scope_index(found, scope) == at,
{
    lemma_scope_index(found, scope);
    let held = scope_index(found, scope);
    if held < at {
        assert(found[held].scope() == scope);
    } else if at < held {
        assert(found[at].scope() != scope);
    }
}

/// Considering one more tag moves the tag of no scope that has one.
proof fn lemma_absorb_keeps_index(found: Seq<Tag>, tag: Tag, scope: Seq<char>)
    requires
        covers(found, scope),
    ensures
        scope_index(absorb(found, tag), scope) == scope_index(found, scope),
        absorb(found, tag).len() >= found.len(),
{
    let after = absorb(found, tag);
    let held = scope_index(found, scope);
    lemma_scope_index(found, scope);
    lemma_scope_index(found, tag.scope());
    assert forall|k: int| 0 <= k < held implies (#[trigger] after[k]).scope() != scope by {
        assert(found[k].scope() != scope);
    }
    lemma_scope_index_is(after, scope, held);
}

/// A list that holds a tag of a scope covers the scope.
proof fn lemma_covers(found: Seq<Tag>, at: int)
    requires
        0 <= at < found.len(),
    ensures
        covers(found, found[at].scope()),
{
    lemma_scope_index(found, found[at].scope());
}

/// Whether no two tags of `found` share a scope.
pub open spec fn one_per_scope(found: Seq<Tag>) -> bool {
    forall|i: int, j: int| 0 <= i < j < found.len() ==> found[i].scope() != found[j].scope()
}

/// The tags found on a commit hold at most one tag for a scope; each of
/// them is one of the source's tags, sits on the commit, follows the tag
/// pattern and belongs to one of the scopes asked for.
pub proof fn law_tags_on_one_per_scope(tags: Seq<Tag>, sha: Seq<char>, scopes: Seq<Seq<char>>)
    ensures
        one_per_scope(tags_on(tags, sha, scopes)),
        forall|k: int|
            0 <= k < tags_on(tags, sha, scopes).len() ==> tag_counts(
                #[trigger] tags_on(tags, sha, scopes)[k],
                sha,
                scopes,
            ) && tags.contains(tags_on(tags, sha, scopes)[k]),
    decreases tags.len(),
{
    if tags.len() > 0 {
        let earlier = tags.drop_last();
        let found = tags_on(earlier, sha, scopes);
        let after = tags_on(tags, sha, scopes);
        law_tags_on_one_per_scope(earlier, sha, scopes);
        assert forall|k: int| 0 <= k < found.len() implies tags.contains(#[trigger] found[k]) by {
            let at = choose|at: int| 0 <= at < earlier.len() && earlier[at] == found[k];
            assert(tags[at] == found[k]);
        }
        if tag_counts(tags.last(), sha, scopes) {
            let tag = tags.last();
            assert(tags[tags.len() - 1] == tag);
            lemma_scope_index(found, tag.scope());
            let at = scope_index(found, tag.scope());
            assert forall|k: int| 0 <= k < after.len() implies tag_counts(
                #[trigger] after[k],
                sha,
                scopes,
            ) && tags.contains(after[k]) by {
                if after[k] != tag {
                    assert(after[k] == found[k]);
                }
            }
            assert forall|i: int, j: int| 0 <= i < j < after.len() implies after[i].scope()
                != after[j].scope() by {
                if at < found.len() {
                    assert(after[i].scope() == found[i].scope());
                    assert(after[j].scope() == found[j].scope());
                } else if j == found.len() {
                    assert(after[i] == found[i]);
                } else {
                    assert(after[i] == found[i] && after[j] == found[j]);
                }
            }
        }
    }
}

/// Of two tags of one scope on a commit, the second is kept where its
/// version exceeds that of the first, and the first where it does not.
pub proof fn law_two_tags_of_a_scope(
    first: Tag,
    second: Tag,
    sha: Seq<char>,
    scopes: Seq<Seq<char>>,
)
    requires
        tag_counts(first, sha, scopes),
        tag_counts(second, sha, scopes),
        first.scope() == second.scope(),
    ensures
        tags_on(seq![first, second], sha, scopes) == if second.details->0.version.exceeds(
            first.details->0.version,
        ) {
            seq![second]
        } else {
            seq![first]
        },
{
    let both = seq![first, second];
    let one = seq![first];
    assert(both.drop_last() =~= one);
    assert(one.drop_last() =~= Seq::<Tag>::empty());
    assert(tags_on(one.drop_last(), sha, scopes) =~= Seq::<Tag>::empty());
    assert(scope_index(Seq::<Tag>::empty(), first.scope()) == 0);
    assert(Seq::<Tag>::empty().push(first) =~= one);
    assert(tags_on(one, sha, scopes) == one);
    assert(one.drop_first() =~= Seq::<Tag>::empty());
    assert(scope_index(one, second.scope()) == 0);
    assert(one.update(0, second) =~= seq![second]);
}

/// Every tag that counts has its scope among the tags found on the commit.
pub proof fn law_tags_on_covers(tags: Seq<Tag>, sha: Seq<char>, scopes: Seq<Seq<char>>, at: int)
    requires
        0 <= at < tags.len(),
        tag_counts(tags[at], sha, scopes),
    ensures
        covers(tags_on(tags, sha, scopes), tags[at].scope()),
    decreases tags.len(),
{
    let earlier = tags.drop_last();
    let found = tags_on(earlier, sha, scopes);
    let after = tags_on(tags, sha, scopes);
    let scope = tags[at].scope();
    if at < tags.len() - 1 {
        assert(earlier[at] == tags[at]);
        law_tags_on_covers(earlier, sha, scopes, at);
        lemma_scope_index(found, scope);
        let held = scope_index(found, scope);
        if tag_counts(tags.last(), sha, scopes) {
            lemma_scope_index(found, tags.last().scope());
            assert(after[held].scope() == scope);
            lemma_covers(after, held);
        }
    } else {
        lemma_scope_index(found, scope);
        let held = scope_index(found, scope);
        if held < found.len() {
            assert(after[held].scope() == scope);
            lemma_covers(after, held);
        } else {
            assert(after[found.len() as int] == tags[at]);
            lemma_covers(after, found.len() as int);
        }
    }
}

/// Whether every tag that counts names a release: a version without
/// pre-release and build metadata.
pub open spec fn all_releases(tags: Seq<Tag>, sha: Seq<char>, scopes: Seq<Seq<char>>) -> bool {
    forall|k: int|
        0 <= k < tags.len() && tag_counts(#[trigger] tags[k], sha, scopes)
            ==> tags[k].details->0.version.is_release()
}

/// Whether `tag` is one of the tags of `scope` that count.
pub open spec fn competes(
    tag: Tag,
    tags: Seq<Tag>,
    sha: Seq<char>,
    scopes: Seq<Seq<char>>,
    scope: Seq<char>,
) -> bool {
    tags.contains(tag) && tag_counts(tag, sha, scopes) && tag.scope() == scope
}

/// Whether `a`, `b` and `c` are all tags of `scope` that count.
pub open spec fn all_compete(
    a: Tag,
    b: Tag,
    c: Tag,
    tags: Seq<Tag>,
    sha: Seq<char>,
    scopes: Seq<Seq<char>>,
    scope: Seq<char>,
) -> bool {
    &&& competes(a, tags, sha, scopes, scope)
    &&& competes(b, tags, sha, scopes, scope)
    &&& competes(c, tags, sha, scopes, scope)
}

/// Whether the versions of the tags of `scope` that count stand in an
/// order: none exceeds itself, and one that does not exceed another
/// exceeds nothing that exceeds that other.
pub open spec fn well_ordered(
    tags: Seq<Tag>,
    sha: Seq<char>,
    scopes: Seq<Seq<char>>,
    scope: Seq<char>,
) -> bool {
    &&& forall|a: Tag| #[trigger]
        competes(a, tags, sha, scopes, scope) ==> !a.details->0.version.exceeds(
            a.details->0.version,
        )
    &&& forall|a: Tag, b: Tag, c: Tag| #[trigger]
        all_compete(a, b, c, tags, sha, scopes, scope) && c.details->0.version.exceeds(
            b.details->0.version,
        ) && !a.details->0.version.exceeds(b.details->0.version)
            ==> !a.details->0.version.exceeds(c.details->0.version)
}

/// Releases stand in an order: that of their numbers.
pub proof fn law_releases_are_well_ordered(
    tags: Seq<Tag>,
    sha: Seq<char>,
    scopes: Seq<Seq<char>>,
    scope: Seq<char>,
)
    requires
        all_releases(tags, sha, scopes),
    ensures
        well_ordered(tags, sha, scopes, scope),
{
    assert forall|a: Tag| #[trigger]
        competes(a, tags, sha, scopes, scope) implies a.details->0.version.is_release() by {
        let at = choose|at: int| 0 <= at < tags.len() && tags[at] == a;
        assert(tag_counts(tags[at], sha, scopes));
    }
    assert forall|a: Tag| #[trigger]
        competes(a, tags, sha, scopes, scope) implies !a.details->0.version.exceeds(
        a.details->0.version,
    ) by {
        law_release_order(a.details->0.version, a.details->0.version);
    }
    assert forall|a: Tag, b: Tag, c: Tag| #[trigger]
        all_compete(a, b, c, tags, sha, scopes, scope) && c.details->0.version.exceeds(
            b.details->0.version,
        ) && !a.details->0.version.exceeds(
            b.details->0.version,
        ) implies !a.details->0.version.exceeds(c.details->0.version) by {
        law_release_order(a.details->0.version, b.details->0.version);
        law_release_order(c.details->0.version, b.details->0.version);
        law_release_order(a.details->0.version, c.details->0.version);
    }
}

/// The tag kept for a scope has the highest version of the scope: no tag
/// of the scope that counts exceeds it, wherever the versions of those
/// tags stand in an order.
pub proof fn law_kept_is_highest(tags: Seq<Tag>, sha: Seq<char>, scopes: Seq<Seq<char>>, at: int)
    requires
        0 <= at < tags.len(),
        tag_counts(tags[at], sha, scopes),
        well_ordered(tags, sha, scopes, tags[at].scope()),
    ensures
        ({
            let found = tags_on(tags, sha, scopes);
            let kept = found[scope_index(found, tags[at].scope())];
            &&& covers(found, tags[at].scope())
            &&& competes(kept, tags, sha, scopes, tags[at].scope())
            &&& !tags[at].details->0.version.exceeds(kept.details->0.version)
        }),
    decreases tags.len(),
{
    let earlier = tags.drop_last();
    let before = tags_on(earlier, sha, scopes);
    let found = tags_on(tags, sha, scopes);
    let last = tags.last();
    let tag = tags[at];
    let scope = tag.scope();
    law_tags_on_covers(tags, sha, scopes, at);
    law_tags_on_one_per_scope(tags, sha, scopes);
    law_tags_on_one_per_scope(earlier, sha, scopes);
    lemma_scope_index(found, scope);
    lemma_scope_index(before, scope);
    lemma_scope_index(before, last.scope());
    let kept = found[scope_index(found, scope)];
    assert(tag_counts(kept, sha, scopes) && tags.contains(kept));
    assert(competes(kept, tags, sha, scopes, scope));
    assert(competes(tag, tags, sha, scopes, scope));
    if at < tags.len() - 1 {
        assert(earlier[at] == tag);
        assert forall|a: Tag| #[trigger]
            competes(a, earlier, sha, scopes, scope) implies competes(
            a,
            tags,
            sha,
            scopes,
            scope,
        ) by {
            let from = choose|from: int| 0 <= from < earlier.len() && earlier[from] == a;
            assert(tags[from] == a);
        }
        assert forall|a: Tag, b: Tag, c: Tag| #[trigger]
            all_compete(a, b, c, earlier, sha, scopes, scope) implies all_compete(
            a,
            b,
            c,
            tags,
            sha,
            scopes,
            scope,
        ) by {
            assert(competes(a, earlier, sha, scopes, scope));
            assert(competes(b, earlier, sha, scopes, scope));
            assert(competes(c, earlier, sha, scopes, scope));
        }
        law_kept_is_highest(earlier, sha, scopes, at);
        law_tags_on_covers(earlier, sha, scopes, at);
        let held = scope_index(before, scope);
        let earlier_kept = before[held];
        assert(competes(earlier_kept, tags, sha, scopes, scope));
        if tag_counts(last, sha, scopes) {
            assert(tags[tags.len() - 1] == last);
            lemma_absorb_keeps_index(before, last, scope);
            if last.scope() == scope {
                assert(competes(last, tags, sha, scopes, scope));
                assert(all_compete(tag, earlier_kept, last, tags, sha, scopes, scope));
            }
        }
    } else {
        assert(tag == last);
        let held = scope_index(before, scope);
        if held < before.len() {
            lemma_absorb_keeps_index(before, last, scope);
        } else {
            assert(found == before.push(last));
            lemma_scope_index_is(found, scope, before.len() as int);
        }
    }
}

/// Among releases the tag kept for a scope has the highest version: no
/// tag of the scope that counts exceeds it.
pub proof fn law_kept_release_is_highest(
    tags: Seq<Tag>,
    sha: Seq<char>,
    scopes: Seq<Seq<char>>,
    at: int,
)
    requires
        0 <= at < tags.len(),
        tag_counts(tags[at], sha, scopes),
        all_releases(tags, sha, scopes),
    ensures
        ({
            let found = tags_on(tags, sha, scopes);
            let kept = found[scope_index(found, tags[at].scope())];
            &&& covers(found, tags[at].scope())
            &&& kept.details is Some
            &&& kept.scope() == tags[at].scope()
            &&& !tags[at].details->0.version.exceeds(kept.details->0.version)
        }),
{
    law_releases_are_well_ordered(tags, sha, scopes, tags[at].scope());
    law_kept_is_highest(tags, sha, scopes, at);
}

/// The index of the first tag of `found` that belongs to `scope`, or the
/// length of `found`.
pub fn find_scope(found: &Vec<Tag>, scope: &Option<String>) -> (at: usize)
    ensures
        at == scope_index(found@, scope_key(*scope)),
{
    let ghost key = scope_key(*scope);
    let mut i: usize = 0;
    proof {
        assert(found@.skip(0) =~= found@);
    }
    while i < found.len()
        invariant
            i <= found.len(),
            key == scope_key(*scope),
            scope_index(found@, key) == i + scope_index(found@.skip(i as int), key),
        decreases found.len() - i,
    {
        let ghost rest = found@.skip(i as int);
        proof {
            assert(rest[0] == found@[i as int]);
            assert(rest.drop_first() =~= found@.skip(i + 1));
        }
        let here = tag_in_scope(&found[i], scope);
        if here {
            return i;
        }
        i += 1;
    }
    proof {
        assert(found@.skip(found.len() as int).len() == 0);
    }
    i
}

/// The tags of `tags` on the commit `sha`, one per scope of `valid_scopes`:
/// for each scope the tag with the highest version, the first one seen
/// where a later one is not strictly greater. `None` where no tag counts.
pub fn find_tags_from_commit_sha(sha: &str, tags: &[Tag], valid_scopes: &[String]) -> (r: Option<
    Vec<Tag>,
>)
    ensures
        match r {
            Some(found) => found@ == tags_on(tags@, sha@, texts(valid_scopes@)) && found.len()
                > 0,
            None => tags_on(tags@, sha@, texts(valid_scopes@)).len() == 0,
        },
{
    let ghost scopes = texts(valid_scopes@);
    let mut found: Vec<Tag> = Vec::new();
    let mut i: usize = 0;
    while i < tags.len()
        invariant
            i <= tags.len(),
            scopes == texts(valid_scopes@),
            found@ == tags_on(tags@.take(i as int), sha@, scopes),
        decreases tags.len() - i,
    {
        proof {
            assert(tags@.take(i + 1).drop_last() =~= tags@.take(i as int));
            assert(tags@.take(i + 1).last() == tags@[i as int]);
        }
        let tag = &tags[i];
        i += 1;
        if !same_text(tag.commit_sha.as_str(), sha) {
            continue;
        }
        let details = match &tag.details {
            Some(details) => details,
            None => {
                continue;
            },
        };
        if !scope_listed(valid_scopes, &details.scope) {
            continue;
        }
        let at = find_scope(&found, &details.scope);
        proof {
            lemma_scope_index(found@, tag.scope());
        }
        if at < found.len() {
            let greater = match &found[at].details {
                Some(held) => details.version.is_greater(&held.version),
                None => false,
            };
            if greater {
                found.set(at, copy_tag(tag));
            }
        } else {
            found.push(copy_tag(tag));
        }
    }
    proof {
        assert(tags@.take(tags.len() as int) =~= tags@);
    }
    if found.len() == 0 {
        None
    } else {
        Some(found)
    }
}

} // verus!
