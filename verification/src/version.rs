//! Semantic versions, their precedence, and the three increments.

use crate::config::{rules_view, texts, BumpRule, RuleView};
use crate::git::Commit;
use crate::parsing::{CommitDetails, CommitFields};
use crate::text::{
    append_chars, chars_of, contains, decimal_of, decimal_u64, has_substring, same_text,
    string_of,
};
use vstd::prelude::*;

verus! {

/// Which part of a version an increment raises. Major outranks Minor, which
/// outranks Patch.
#[derive(Debug, Clone, Copy, PartialEq, Eq, Hash, Structural)]
pub enum IncrementKind {
    /// Raise the major part.
    Major,
    /// Raise the minor part.
    Minor,
    /// Raise the patch part.
    Patch,
}

impl IncrementKind {
    /// Severity: 3 for Major, 2 for Minor, 1 for Patch.
    pub open spec fn rank(self) -> nat {
        match self {
            IncrementKind::Major => 3,
            IncrementKind::Minor => 2,
            IncrementKind::Patch => 1,
        }
    }
}

/// How one value stands to another in an order.
#[derive(Debug, Clone, Copy, PartialEq, Eq, Structural)]
pub enum Precedence {
    /// It comes before the other.
    Lower,
    /// Neither comes before the other.
    Same,
    /// It comes after the other.
    Higher,
}

/// A semantic version: three numbers, a pre-release and build metadata, the
/// last two as text without their `-` and `+` and empty where absent.
#[derive(Debug, Clone)]
pub struct Version {
    /// Major part.
    pub major: u64,
    /// Minor part.
    pub minor: u64,
    /// Patch part.
    pub patch: u64,
    /// Pre-release identifiers, dot separated; empty for a release.
    pub pre: String,
    /// Build metadata identifiers, dot separated; empty where there are none.
    pub build: String,
}

/// The parts that `semver` reads out of `text`, or `None` where it rejects
/// the text.
pub uninterp spec fn semver_parts(text: Seq<char>) -> Option<
    (u64, u64, u64, Seq<char>, Seq<char>),
>;

/// How `semver` orders the pre-release `a` against `b`, or `None` where
/// one of the two texts is no pre-release to it.
pub uninterp spec fn prerelease_order(a: Seq<char>, b: Seq<char>) -> Option<Precedence>;

/// How `semver` orders the build metadata `a` against `b`, or `None` where
/// one of the two texts is no build metadata to it.
pub uninterp spec fn build_order(a: Seq<char>, b: Seq<char>) -> Option<Precedence>;

/// `semver::Version::parse`, with the parsed version's five fields copied
/// out, and `None` where it fails. The result is a function of the text
/// alone; what it is for a given text is left to `semver`.
#[verifier::external_body]
fn semver_parse(text: &str) -> (r: Option<Version>)
    ensures
        match r {
            Some(v) => semver_parts(text@) == Some(v.parts()),
            None => semver_parts(text@) is None,
        },
{
    let v = semver::Version::parse(text).ok()?;
    Some(
        Version {
            major: v.major,
            minor: v.minor,
            patch: v.patch,
            pre: v.pre.as_str().to_owned(),
            build: v.build.as_str().to_owned(),
        },
    )
}

/// The order `semver::Prerelease` gives to two pre-release texts, after
/// `semver::Prerelease::new` accepted both; `None` where it refused one.
/// The empty text is accepted as the absent pre-release, and two absent
/// pre-releases are ordered as the same.
#[verifier::external_body]
fn semver_prerelease_order(a: &str, b: &str) -> (r: Option<Precedence>)
    ensures
        r == prerelease_order(a@, b@),
        a@.len() == 0 && b@.len() == 0 ==> r == Some(Precedence::Same),
{
    let x = semver::Prerelease::new(a).ok()?;
    let y = semver::Prerelease::new(b).ok()?;
    Some(
        match x.cmp(&y) {
            std::cmp::Ordering::Less => Precedence::Lower,
            std::cmp::Ordering::Equal => Precedence::Same,
            std::cmp::Ordering::Greater => Precedence::Higher,
        },
    )
}

/// The order `semver::BuildMetadata` gives to two build metadata texts,
/// after `semver::BuildMetadata::new` accepted both; `None` where it refused
/// one. The empty text is accepted as absent build metadata, and two absent
/// ones are ordered as the same.
#[verifier::external_body]
fn semver_build_order(a: &str, b: &str) -> (r: Option<Precedence>)
    ensures
        r == build_order(a@, b@),
        a@.len() == 0 && b@.len() == 0 ==> r == Some(Precedence::Same),
{
    let x = semver::BuildMetadata::new(a).ok()?;
    let y = semver::BuildMetadata::new(b).ok()?;
    Some(
        match x.cmp(&y) {
            std::cmp::Ordering::Less => Precedence::Lower,
            std::cmp::Ordering::Equal => Precedence::Same,
            std::cmp::Ordering::Greater => Precedence::Higher,
        },
    )
}

/// How the pre-release `a` stands to `b`: two absent ones are the same,
/// and all else is as `semver` orders them.
pub open spec fn prerelease_precedence(a: Seq<char>, b: Seq<char>) -> Option<Precedence> {
    if a.len() == 0 && b.len() == 0 {
        Some(Precedence::Same)
    } else {
        prerelease_order(a, b)
    }
}

/// How the build metadata `a` stands to `b`: two absent ones are the same,
/// and all else is as `semver` orders them.
pub open spec fn build_precedence(a: Seq<char>, b: Seq<char>) -> Option<Precedence> {
    if a.len() == 0 && b.len() == 0 {
        Some(Precedence::Same)
    } else {
        build_order(a, b)
    }
}

/// What follows the three numbers in the text of a version: the mark and
/// the identifiers, and nothing where there are no identifiers.
pub open spec fn marked(mark: char, identifiers: Seq<char>) -> Seq<char> {
    if identifiers.len() > 0 {
        seq![mark] + identifiers
    } else {
        identifiers
    }
}

/// The text of a version with these parts: `major.minor.patch`, then `-`
/// and the pre-release where there is one, then `+` and the build metadata
/// where there is one.
pub open spec fn version_text(parts: (u64, u64, u64, Seq<char>, Seq<char>)) -> Seq<char> {
    decimal_u64(parts.0) + seq!['.'] + decimal_u64(parts.1) + seq!['.'] + decimal_u64(parts.2)
        + marked('-', parts.3) + marked('+', parts.4)
}

/// How the number `a` stands to `b`.
pub open spec fn number_order(a: u64, b: u64) -> Precedence {
    if a < b {
        Precedence::Lower
    } else if a > b {
        Precedence::Higher
    } else {
        Precedence::Same
    }
}

impl Version {
    /// The five fields as plain values.
    pub open spec fn parts(self) -> (u64, u64, u64, Seq<char>, Seq<char>) {
        (self.major, self.minor, self.patch, self.pre@, self.build@)
    }

    /// The text of this version.
    pub open spec fn text(self) -> Seq<char> {
        version_text(self.parts())
    }

    /// Whether this is a release: no pre-release and no build metadata.
    pub open spec fn is_release(self) -> bool {
        self.pre@.len() == 0 && self.build@.len() == 0
    }

    /// How this version stands to `other`: by major, then minor, then patch,
    /// then pre-release, then build metadata, the first difference deciding.
    /// `None` where the numbers agree and a pre-release or build text is
    /// not one that can be ordered.
    pub open spec fn order(self, other: Version) -> Option<Precedence> {
        if self.major != other.major {
            Some(number_order(self.major, other.major))
        } else if self.minor != other.minor {
            Some(number_order(self.minor, other.minor))
        } else if self.patch != other.patch {
            Some(number_order(self.patch, other.patch))
        } else {
            match prerelease_precedence(self.pre@, other.pre@) {
                Some(Precedence::Same) => build_precedence(self.build@, other.build@),
                decided => decided,
            }
        }
    }

    /// Whether this version comes strictly after `other`.
    pub open spec fn exceeds(self, other: Version) -> bool {
        self.order(other) == Some(Precedence::Higher)
    }

    /// How the numbers of this version stand to those of `other`: by major,
    /// then minor, then patch.
    pub open spec fn number_precedence(self, other: Version) -> Precedence {
        if self.major != other.major {
            number_order(self.major, other.major)
        } else if self.minor != other.minor {
            number_order(self.minor, other.minor)
        } else {
            number_order(self.patch, other.patch)
        }
    }

    /// The release `major.minor.patch`.
    pub fn new(major: u64, minor: u64, patch: u64) -> (v: Version)
        ensures
            v.major == major,
            v.minor == minor,
            v.patch == patch,
            v.is_release(),
    {
        Version { major, minor, patch, pre: String::new(), build: String::new() }
    }

    /// Reads a version out of `text`; `None` where `text` is no semantic
    /// version.
    pub fn parse(text: &str) -> (r: Option<Version>)
        ensures
            match r {
                Some(v) => semver_parts(text@) == Some(v.parts()),
                None => semver_parts(text@) is None,
            },
    {
        semver_parse(text)
    }

    /// The text of this version, which is never empty.
    pub fn to_string(&self) -> (out: String)
        ensures
            out@ == self.text(),
            out@.len() > 0,
    {
        let mut out = decimal_of(self.major);
        out.push('.');
        append_chars(&mut out, &decimal_of(self.minor));
        out.push('.');
        append_chars(&mut out, &decimal_of(self.patch));
        let ghost numbers = out@;
        proof {
            assert(numbers =~= decimal_u64(self.major) + seq!['.'] + decimal_u64(self.minor)
                + seq!['.'] + decimal_u64(self.patch));
        }
        if !self.pre.as_str().is_empty() {
            out.push('-');
            append_chars(&mut out, &chars_of(self.pre.as_str()));
        }
        let ghost with_pre = out@;
        proof {
            assert(with_pre =~= numbers + marked('-', self.pre@));
        }
        if !self.build.as_str().is_empty() {
            out.push('+');
            append_chars(&mut out, &chars_of(self.build.as_str()));
        }
        proof {
            assert(out@ =~= with_pre + marked('+', self.build@));
        }
        string_of(&out)
    }

    /// How this version stands to `other`.
    pub fn precedence(&self, other: &Version) -> (r: Option<Precedence>)
        ensures
            r == self.order(*other),
    {
        if self.major != other.major {
            Some(compare_numbers(self.major, other.major))
        } else if self.minor != other.minor {
            Some(compare_numbers(self.minor, other.minor))
        } else if self.patch != other.patch {
            Some(compare_numbers(self.patch, other.patch))
        } else {
            match semver_prerelease_order(self.pre.as_str(), other.pre.as_str()) {
                Some(Precedence::Same) => semver_build_order(
                    self.build.as_str(),
                    other.build.as_str(),
                ),
                decided => decided,
            }
        }
    }

    /// Whether this version comes strictly after `other`.
    pub fn is_greater(&self, other: &Version) -> (r: bool)
        ensures
            r == self.exceeds(*other),
    {
        match self.precedence(other) {
            Some(Precedence::Higher) => true,
            _ => false,
        }
    }
}

/// How the number `a` stands to `b`.
pub fn compare_numbers(a: u64, b: u64) -> (r: Precedence)
    ensures
        r == number_order(a, b),
{
    if a < b {
        Precedence::Lower
    } else if a > b {
        Precedence::Higher
    } else {
        Precedence::Same
    }
}

/// Whether `after` is `before` with the patch part raised: one more patch,
/// the other numbers kept, neither pre-release nor build metadata.
pub open spec fn patch_raised(before: Version, after: Version) -> bool {
    &&& after.major == before.major
    &&& after.minor == before.minor
    &&& after.patch == before.patch + 1
    &&& after.is_release()
}

/// Whether `after` is `before` with the minor part raised: one more minor,
/// patch zero, major kept, neither pre-release nor build metadata.
pub open spec fn minor_raised(before: Version, after: Version) -> bool {
    &&& after.major == before.major
    &&& after.minor == before.minor + 1
    &&& after.patch == 0
    &&& after.is_release()
}

/// Whether `after` is `before` with the major part raised: one more major,
/// minor and patch zero, neither pre-release nor build metadata.
pub open spec fn major_raised(before: Version, after: Version) -> bool {
    &&& after.major == before.major + 1
    &&& after.minor == 0
    &&& after.patch == 0
    &&& after.is_release()
}

/// Raises the patch part by one and clears pre-release and build metadata.
pub fn increment_patch(version: &mut Version)
    requires
        old(version).patch < u64::MAX,
    ensures
        patch_raised(*old(version), *final(version)),
{
    version.patch += 1;
    version.pre = String::new();
    version.build = String::new();
}

/// Raises the minor part by one, resets patch to zero and clears pre-release
/// and build metadata.
pub fn increment_minor(version: &mut Version)
    requires
        old(version).minor < u64::MAX,
    ensures
        minor_raised(*old(version), *final(version)),
{
    version.minor += 1;
    version.patch = 0;
    version.pre = String::new();
    version.build = String::new();
}

/// Raises the major part by one, resets minor and patch to zero and clears
/// pre-release and build metadata.
pub fn increment_major(version: &mut Version)
    requires
        old(version).major < u64::MAX,
    ensures
        major_raised(*old(version), *final(version)),
{
    version.major += 1;
    version.minor = 0;
    version.patch = 0;
    version.pre = String::new();
    version.build = String::new();
}

/// Releases are ordered by their numbers alone: by major, then minor, then
/// patch. Two releases with the same numbers are the same, so neither
/// exceeds the other.
pub proof fn law_release_order(a: Version, b: Version)
    requires
        a.is_release(),
        b.is_release(),
    ensures
        a.order(b) == Some(a.number_precedence(b)),
        a.exceeds(b) <==> (a.major > b.major || (a.major == b.major && (a.minor > b.minor || (
        a.minor == b.minor && a.patch > b.patch)))),
{
}

/// No version exceeds another on the strength of its pre-release or build
/// metadata where the numbers already differ.
pub proof fn law_numbers_decide_first(a: Version, b: Version)
    requires
        a.major != b.major || a.minor != b.minor || a.patch != b.patch,
    ensures
        a.order(b) == Some(a.number_precedence(b)),
{
}

/// Raising the patch part twice raises it by two, keeps major and minor,
/// and leaves neither pre-release nor build metadata after either step.
pub proof fn law_patch_twice(version: Version, once: Version, twice: Version)
    requires
        patch_raised(version, once),
        patch_raised(once, twice),
    ensures
        twice.patch == version.patch + 2,
        twice.major == version.major,
        twice.minor == version.minor,
        once.pre@.len() == 0 && once.build@.len() == 0,
        twice.pre@.len() == 0 && twice.build@.len() == 0,
{
}

/// Raising the minor part of a version that has a pre-release leaves none.
pub proof fn law_minor_clears_prerelease(version: Version, raised: Version)
    requires
        version.pre@.len() > 0,
        minor_raised(version, raised),
    ensures
        raised.pre@.len() == 0,
{
}

/// Whether a description mentions a breaking change: it holds
/// `BREAKING CHANGE` or `BREAKING-CHANGE`.
pub open spec fn mentions_breaking_change(description: Seq<char>) -> bool {
    has_substring(description, "BREAKING CHANGE"@) || has_substring(
        description,
        "BREAKING-CHANGE"@,
    )
}

/// Whether `rule` applies to a commit with the fields `details`: the rule
/// states at least one condition, and the commit meets every condition that
/// the rule states.
pub open spec fn rule_applies(rule: RuleView, details: CommitFields) -> bool {
    &&& (rule.types is Some || rule.scopes is Some || rule.if_breaking_field is Some
        || rule.if_breaking_description is Some)
    &&& (rule.types matches Some(types) ==> types.contains(details.commit_type))
    &&& (rule.scopes matches Some(scopes) ==> (details.scope matches Some(scope)
        && scopes.contains(scope)))
    &&& (rule.if_breaking_field matches Some(on) ==> on && details.breaking)
    &&& (rule.if_breaking_description matches Some(on) ==> on && mentions_breaking_change(
        details.description,
    ))
}

/// Whether some rule among `rules` applies to the commit and asks for `kind`.
pub open spec fn asked(rules: Seq<RuleView>, details: CommitFields, kind: IncrementKind) -> bool {
    exists|i: int|
        0 <= i < rules.len() && #[trigger] rule_applies(rules[i], details) && rules[i].bump
            == kind
}

/// The increment that `rules` decide for a commit with the fields
/// `details`: the strongest one that an applying rule asks for, and none
/// where no rule applies.
pub open spec fn decision(rules: Seq<RuleView>, details: CommitFields) -> Option<IncrementKind> {
    if asked(rules, details, IncrementKind::Major) {
        Some(IncrementKind::Major)
    } else if asked(rules, details, IncrementKind::Minor) {
        Some(IncrementKind::Minor)
    } else if asked(rules, details, IncrementKind::Patch) {
        Some(IncrementKind::Patch)
    } else {
        None
    }
}

/// The increment that `rules` decide for `commit`: none for a commit
/// without details.
pub open spec fn increment_of(commit: Commit, rules: Seq<RuleView>) -> Option<IncrementKind> {
    match commit.details {
        Some(details) => decision(rules, details@),
        None => None,
    }
}

/// Adding one rule at the end adds what that rule asks for, and nothing else.
proof fn lemma_asked_grows(rules: Seq<RuleView>, i: int, details: CommitFields, kind: IncrementKind)
    requires
        0 <= i < rules.len(),
    ensures
        asked(rules.take(i + 1), details, kind) <==> (asked(rules.take(i), details, kind) || (
        rule_applies(rules[i], details) && rules[i].bump == kind)),
{
    let shorter = rules.take(i);
    let longer = rules.take(i + 1);
    if asked(longer, details, kind) {
        let k = choose|k: int|
            0 <= k < longer.len() && #[trigger] rule_applies(longer[k], details) && longer[k].bump
                == kind;
        if k < i {
            assert(rule_applies(shorter[k], details) && shorter[k].bump == kind);
        }
    }
    if asked(shorter, details, kind) {
        let k = choose|k: int|
            0 <= k < shorter.len() && #[trigger] rule_applies(shorter[k], details)
                && shorter[k].bump == kind;
        assert(rule_applies(longer[k], details) && longer[k].bump == kind);
    }
    if rule_applies(rules[i], details) && rules[i].bump == kind {
        assert(rule_applies(longer[i], details) && longer[i].bump == kind);
    }
}

/// A rule that applies and asks for Major settles the decision, wherever
/// it stands among the rules and whatever the others ask for.
pub proof fn law_major_wins(rules: Seq<RuleView>, details: CommitFields, at: int)
    requires
        0 <= at < rules.len(),
        rules[at].bump == IncrementKind::Major,
        rule_applies(rules[at], details),
    ensures
        decision(rules, details) == Some(IncrementKind::Major),
{
}

/// A rule that lists commit types applies to no commit of another type,
/// whatever its other conditions say.
pub proof fn law_other_type_never_applies(rule: RuleView, details: CommitFields)
    requires
        rule.types matches Some(types) && !types.contains(details.commit_type),
    ensures
        !rule_applies(rule, details),
{
}

/// A rule without any condition applies to no commit.
pub proof fn law_bare_rule_never_applies(rule: RuleView, details: CommitFields)
    requires
        rule.types is None,
        rule.scopes is None,
        rule.if_breaking_field is None,
        rule.if_breaking_description is None,
    ensures
        !rule_applies(rule, details),
{
}

/// The decision is the strongest increment that an applying rule asks for:
/// some applying rule asks for it, and none asks for a stronger one.
pub proof fn law_decision_is_strongest(rules: Seq<RuleView>, details: CommitFields, at: int)
    requires
        0 <= at < rules.len(),
        rule_applies(rules[at], details),
    ensures
        decision(rules, details) matches Some(kind) && kind.rank() >= rules[at].bump.rank()
            && asked(rules, details, kind),
{
}

/// Whether `item` is one of the strings of `list`.
pub fn contains_text(list: &Vec<String>, item: &str) -> (r: bool)
    ensures
        r == texts(list@).contains(item@),
{
    let mut i: usize = 0;
    while i < list.len()
        invariant
            i <= list.len(),
            forall|k: int| 0 <= k < i ==> list@[k]@ != item@,
        decreases list.len() - i,
    {
        if same_text(list[i].as_str(), item) {
            assert(texts(list@)[i as int] == item@);
            return true;
        }
        i += 1;
    }
    assert forall|k: int| 0 <= k < texts(list@).len() implies texts(list@)[k] != item@ by {
        assert(texts(list@)[k] == list@[k]@);
    }
    false
}

/// Whether `description` mentions a breaking change.
pub fn has_breaking_marker(description: &str) -> (r: bool)
    ensures
        r == mentions_breaking_change(description@),
{
    let hay = chars_of(description);
    contains(&hay, &chars_of("BREAKING CHANGE")) || contains(&hay, &chars_of("BREAKING-CHANGE"))
}

/// Whether `rule` applies to a commit with these details.
pub fn rule_matches(rule: &BumpRule, details: &CommitDetails) -> (r: bool)
    ensures
        r == rule_applies(rule@, details@),
{
    let mut stated = false;
    if let Some(types) = &rule.types {
        if !contains_text(types, details.commit_type.as_str()) {
            return false;
        }
        stated = true;
    }
    if let Some(scopes) = &rule.scopes {
        match &details.scope {
            Some(scope) => {
                if !contains_text(scopes, scope.as_str()) {
                    return false;
                }
            },
            None => {
                return false;
            },
        }
        stated = true;
    }
    if let Some(on) = &rule.if_breaking_field {
        if !(*on && details.breaking) {
            return false;
        }
        stated = true;
    }
    if let Some(on) = &rule.if_breaking_description {
        if !(*on && has_breaking_marker(details.description.as_str())) {
            return false;
        }
        stated = true;
    }
    stated
}

/// Decides the increment that `rules` ask for `commit`.
///
/// The rules are tried in order. A rule that applies and asks for Major
/// settles the decision at once; one that asks for Minor replaces a weaker
/// decision; one that asks for Patch counts only where nothing is decided
/// yet. A commit without details gets no increment.
pub fn calculate_increment(commit: &Commit, rules: &[BumpRule]) -> (r: Option<IncrementKind>)
    ensures
        r == increment_of(*commit, rules_view(rules@)),
{
    if commit.details.is_none() {
        return None;
    }
    let details = commit.details.as_ref().unwrap();
    let ghost all = rules_view(rules@);
    let mut current: Option<IncrementKind> = None;
    let mut i: usize = 0;
    assert(!asked(all.take(0), details@, IncrementKind::Major));
    assert(!asked(all.take(0), details@, IncrementKind::Minor));
    assert(!asked(all.take(0), details@, IncrementKind::Patch));
    while i < rules.len()
        invariant
            i <= rules.len(),
            all == rules_view(rules@),
            all.len() == rules.len(),
            commit.details == Some(*details),
            current == decision(all.take(i as int), details@),
            current != Some(IncrementKind::Major),
        decreases rules.len() - i,
    {
        proof {
            lemma_asked_grows(all, i as int, details@, IncrementKind::Major);
            lemma_asked_grows(all, i as int, details@, IncrementKind::Minor);
            lemma_asked_grows(all, i as int, details@, IncrementKind::Patch);
            assert(all[i as int] == rules@[i as int]@);
        }
        let rule = &rules[i];
        if rule_matches(rule, details) {
            match rule.bump {
                IncrementKind::Major => {
                    assert(rule_applies(all[i as int], details@) && all[i as int].bump
                        == IncrementKind::Major);
                    return Some(IncrementKind::Major);
                },
                IncrementKind::Minor => {
                    current = Some(IncrementKind::Minor);
                },
                IncrementKind::Patch => {
                    if current.is_none() {
                        current = Some(IncrementKind::Patch);
                    }
                },
            }
        }
        i += 1;
    }
    assert(all.take(rules.len() as int) =~= all);
    current
}

} // verus!
