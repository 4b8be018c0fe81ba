//! Configuration of the engine and its defaults.

use crate::text::{has_substring, occurs_at};
use crate::version::IncrementKind;
use vstd::prelude::*;
use vstd::string::StringExecFns;

verus! {

/// Pattern that reads a tag name unless another is configured: the whole
/// name is the version, captured by the group `version`.
pub const DEFAULT_TAG_PATTERN: &'static str = r"(?<version>.*)";

/// Pattern that reads the fields of a conventional commit unless another is
/// configured.
pub const DEFAULT_COMMIT_PATTERN: &'static str =
    r"^(?<type>[a-zA-Z]*)(?<scope>\(.*\))?(?<breaking>!)?:(?<description>[\s\S]*)$";

/// The text that opens the named group `group` in a pattern.
pub open spec fn group_opening(group: Seq<char>) -> Seq<char> {
    seq!['(', '?', '<'] + group + seq!['>']
}

/// Whether `pattern` names the group `group`.
pub open spec fn names_group(pattern: Seq<char>, group: Seq<char>) -> bool {
    has_substring(pattern, group_opening(group))
}

/// The default tag pattern names the group `version`; the default commit
/// pattern names the groups `type`, `scope`, `breaking` and `description`.
pub proof fn law_default_patterns_name_their_groups()
    ensures
        names_group(DEFAULT_TAG_PATTERN@, "version"@),
        names_group(DEFAULT_COMMIT_PATTERN@, "type"@),
        names_group(DEFAULT_COMMIT_PATTERN@, "scope"@),
        names_group(DEFAULT_COMMIT_PATTERN@, "breaking"@),
        names_group(DEFAULT_COMMIT_PATTERN@, "description"@),
{
    reveal_strlit(r"(?<version>.*)");
    reveal_strlit(
        r"^(?<type>[a-zA-Z]*)(?<scope>\(.*\))?(?<breaking>!)?:(?<description>[\s\S]*)$",
    );
    reveal_strlit("version");
    reveal_strlit("type");
    reveal_strlit("scope");
    reveal_strlit("breaking");
    reveal_strlit("description");
    let tag = DEFAULT_TAG_PATTERN@;
    let commit = DEFAULT_COMMIT_PATTERN@;
    assert(tag.subrange(0, 11) =~= group_opening("version"@));
    assert(occurs_at(tag, group_opening("version"@), 0));
    assert(commit.subrange(1, 9) =~= group_opening("type"@));
    assert(occurs_at(commit, group_opening("type"@), 1));
    assert(commit.subrange(19, 28) =~= group_opening("scope"@));
    assert(occurs_at(commit, group_opening("scope"@), 19));
    assert(commit.subrange(36, 48) =~= group_opening("breaking"@));
    assert(occurs_at(commit, group_opening("breaking"@), 36));
    assert(commit.subrange(52, 67) =~= group_opening("description"@));
    assert(occurs_at(commit, group_opening("description"@), 52));
}

/// A rule: the increment it asks for, and the conditions a commit must meet.
/// A condition that is absent asks nothing; a rule without any condition
/// applies to no commit.
#[derive(Debug, Clone)]
pub struct BumpRule {
    /// Increment that the rule asks for.
    pub bump: IncrementKind,
    /// Commit types that the rule accepts.
    pub types: Option<Vec<String>>,
    /// Commit scopes that the rule accepts.
    pub scopes: Option<Vec<String>>,
    /// With `true`, the commit must be marked as breaking; with `false`, no
    /// commit meets the condition.
    pub if_breaking_field: Option<bool>,
    /// With `true`, the description must mention `BREAKING CHANGE` or
    /// `BREAKING-CHANGE`; with `false`, no commit meets the condition.
    pub if_breaking_description: Option<bool>,
}

/// A rule as plain values.
pub struct RuleView {
    pub bump: IncrementKind,
    pub types: Option<Seq<Seq<char>>>,
    pub scopes: Option<Seq<Seq<char>>>,
    pub if_breaking_field: Option<bool>,
    pub if_breaking_description: Option<bool>,
}

/// The texts of a list of strings.
pub open spec fn texts(list: Seq<String>) -> Seq<Seq<char>> {
    list.map_values(|s: String| s@)
}

/// The texts of an optional list of strings.
pub open spec fn optional_texts(list: Option<Vec<String>>) -> Option<Seq<Seq<char>>> {
    match list {
        Some(l) => Some(texts(l@)),
        None => None,
    }
}

impl View for BumpRule {
    type V = RuleView;

    open spec fn view(&self) -> RuleView {
        RuleView {
            bump: self.bump,
            types: optional_texts(self.types),
            scopes: optional_texts(self.scopes),
            if_breaking_field: self.if_breaking_field,
            if_breaking_description: self.if_breaking_description,
        }
    }
}

/// A list of rules as plain values.
pub open spec fn rules_view(rules: Seq<BumpRule>) -> Seq<RuleView> {
    rules.map_values(|r: BumpRule| r@)
}

/// The rules in force unless others are configured: `fix` and `style` ask
/// for Patch; `feat`, `refactor` and `perf` for Minor; a commit marked as
/// breaking whose description also mentions the breaking change for Major.
pub open spec fn default_rules() -> Seq<RuleView> {
    seq![
        RuleView {
            bump: IncrementKind::Patch,
            types: Some(seq!["fix"@, "style"@]),
            scopes: None,
            if_breaking_field: None,
            if_breaking_description: None,
        },
        RuleView {
            bump: IncrementKind::Minor,
            types: Some(seq!["feat"@, "refactor"@, "perf"@]),
            scopes: None,
            if_breaking_field: None,
            if_breaking_description: None,
        },
        RuleView {
            bump: IncrementKind::Major,
            types: None,
            scopes: None,
            if_breaking_field: Some(true),
            if_breaking_description: Some(true),
        },
    ]
}

/// The default rules.
pub fn get_default_bump_rules() -> (rules: Vec<BumpRule>)
    ensures
        rules_view(rules@) == default_rules(),
{
    let mut patch_types: Vec<String> = Vec::new();
    patch_types.push(String::from_str("fix"));
    patch_types.push(String::from_str("style"));
    let mut minor_types: Vec<String> = Vec::new();
    minor_types.push(String::from_str("feat"));
    minor_types.push(String::from_str("refactor"));
    minor_types.push(String::from_str("perf"));
    assert(texts(patch_types@) =~= seq!["fix"@, "style"@]);
    assert(texts(minor_types@) =~= seq!["feat"@, "refactor"@, "perf"@]);
    let mut rules: Vec<BumpRule> = Vec::new();
    rules.push(
        BumpRule {
            bump: IncrementKind::Patch,
            types: Some(patch_types),
            scopes: None,
            if_breaking_field: None,
            if_breaking_description: None,
        },
    );
    rules.push(
        BumpRule {
            bump: IncrementKind::Minor,
            types: Some(minor_types),
            scopes: None,
            if_breaking_field: None,
            if_breaking_description: None,
        },
    );
    rules.push(
        BumpRule {
            bump: IncrementKind::Major,
            types: None,
            scopes: None,
            if_breaking_field: Some(true),
            if_breaking_description: Some(true),
        },
    );
    assert(rules_view(rules@) =~= default_rules());
    rules
}

/// A configuration as read from a file: every field may be missing.
#[derive(Debug, Clone)]
pub struct ParsedConfig {
    /// Pattern that reads version and scope out of a tag name.
    pub tag_pattern: Option<String>,
    /// Pattern that reads the fields of a conventional commit; it names the
    /// groups `type` and `description`, and may name `scope` and `breaking`.
    pub commit_pattern: Option<String>,
    /// Rules that decide the increment, in the order in which they apply.
    pub bump_rules: Option<Vec<BumpRule>>,
    /// Scopes that are versioned on their own.
    pub version_scopes: Option<Vec<String>>,
}

/// The configuration the engine works with.
#[derive(Debug, Clone)]
pub struct Config {
    /// Pattern that reads version and scope out of a tag name.
    pub tag_pattern: String,
    /// Pattern that reads the fields of a conventional commit; it names the
    /// groups `type` and `description`, and may name `scope` and `breaking`.
    pub commit_pattern: String,
    /// Rules that decide the increment, in the order in which they apply.
    pub bump_rules: Vec<BumpRule>,
    /// Scopes that are versioned on their own; empty where the repository
    /// has one version, which then belongs to the unnamed scope.
    pub version_scopes: Vec<String>,
}

/// The scopes that must each find their tag: the configured ones, or the
/// unnamed scope alone where none is configured.
pub open spec fn tracked_scopes(version_scopes: Seq<Seq<char>>) -> Seq<Seq<char>> {
    if version_scopes.len() == 0 {
        seq![Seq::<char>::empty()]
    } else {
        version_scopes
    }
}

impl Config {
    /// Whether every field holds its default.
    pub open spec fn is_default(self) -> bool {
        &&& self.tag_pattern@ == DEFAULT_TAG_PATTERN@
        &&& self.commit_pattern@ == DEFAULT_COMMIT_PATTERN@
        &&& rules_view(self.bump_rules@) == default_rules()
        &&& self.version_scopes@.len() == 0
    }

    /// What `parsed` stands for: each field that is present, and the default
    /// for each that is missing.
    pub open spec fn completes(self, parsed: ParsedConfig) -> bool {
        &&& self.tag_pattern@ == match parsed.tag_pattern {
            Some(p) => p@,
            None => DEFAULT_TAG_PATTERN@,
        }
        &&& self.commit_pattern@ == match parsed.commit_pattern {
            Some(p) => p@,
            None => DEFAULT_COMMIT_PATTERN@,
        }
        &&& rules_view(self.bump_rules@) == match parsed.bump_rules {
            Some(r) => rules_view(r@),
            None => default_rules(),
        }
        &&& texts(self.version_scopes@) == match parsed.version_scopes {
            Some(s) => texts(s@),
            None => Seq::<Seq<char>>::empty(),
        }
    }

    /// The configuration with every default.
    pub fn new() -> (config: Config)
        ensures
            config.is_default(),
            names_group(config.tag_pattern@, "version"@),
            names_group(config.commit_pattern@, "type"@),
            names_group(config.commit_pattern@, "description"@),
    {
        proof {
            law_default_patterns_name_their_groups();
        }
        Config {
            tag_pattern: String::from_str(DEFAULT_TAG_PATTERN),
            commit_pattern: String::from_str(DEFAULT_COMMIT_PATTERN),
            bump_rules: get_default_bump_rules(),
            version_scopes: Vec::new(),
        }
    }

    /// Fills the fields missing from `parsed` with their defaults.
    pub fn from_parsed(parsed: ParsedConfig) -> (config: Config)
        ensures
            config.completes(parsed),
    {
        let tag_pattern = match parsed.tag_pattern {
            Some(tag_pattern) => tag_pattern,
            None => String::from_str(DEFAULT_TAG_PATTERN),
        };
        let commit_pattern = match parsed.commit_pattern {
            Some(commit_pattern) => commit_pattern,
            None => String::from_str(DEFAULT_COMMIT_PATTERN),
        };
        let bump_rules = match parsed.bump_rules {
            Some(bump_rules) => bump_rules,
            None => get_default_bump_rules(),
        };
        let version_scopes = match parsed.version_scopes {
            Some(version_scopes) => version_scopes,
            None => {
                let none: Vec<String> = Vec::new();
                assert(texts(none@) =~= Seq::<Seq<char>>::empty());
                none
            },
        };
        Config { tag_pattern, commit_pattern, bump_rules, version_scopes }
    }

    /// The scopes that must each find their tag.
    pub fn scopes(&self) -> (scopes: Vec<String>)
        ensures
            texts(scopes@) == tracked_scopes(texts(self.version_scopes@)),
    {
        if self.version_scopes.len() == 0 {
            let mut scopes: Vec<String> = Vec::new();
            scopes.push(String::new());
            assert(texts(scopes@) =~= seq![Seq::<char>::empty()]);
            assert(texts(self.version_scopes@).len() == 0);
            scopes
        } else {
            assert(texts(self.version_scopes@).len() == self.version_scopes@.len());
            copy_strings(&self.version_scopes)
        }
    }
}

/// A copy of a list of strings.
pub fn copy_strings(list: &Vec<String>) -> (out: Vec<String>)
    ensures
        texts(out@) == texts(list@),
{
    let mut out: Vec<String> = Vec::new();
    let mut i: usize = 0;
    while i < list.len()
        invariant
            i <= list.len(),
            out.len() == i,
            forall|k: int| 0 <= k < i ==> out@[k]@ == list@[k]@,
        decreases list.len() - i,
    {
        out.push(list[i].clone());
        i += 1;
    }
    assert(texts(out@) =~= texts(list@));
    out
}

} // verus!
