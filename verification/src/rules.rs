//! The rules that a commit has to meet, by its type, and the validation of a
//! parsed header against them.

use vstd::prelude::*;
use crate::chars::{fold, folded};
use crate::text::chars_of;

verus! {

/// A rule: a commit type, and the names of the fields that a commit of that
/// type must fill in. The names that validation knows are `scope` and
/// `description`.
#[derive(Clone, Debug, PartialEq, Eq)]
pub struct CommitMessage {
    pub commit_type: String,
    pub required: Vec<String>,
}

/// A rule as character sequences.
pub struct Rule {
    pub commit_type: Seq<char>,
    pub required: Seq<Seq<char>>,
}

impl View for CommitMessage {
    type V = Rule;

    open spec fn view(&self) -> Rule {
        Rule { commit_type: self.commit_type@, required: self.required.deep_view() }
    }
}

impl DeepView for CommitMessage {
    type V = Rule;

    open spec fn deep_view(&self) -> Rule {
        self@
    }
}

/// Why a commit does not meet the rules.
#[derive(Clone, Copy, Debug, PartialEq, Eq)]
pub enum ValidationError {
    /// No rule is about the commit's type.
    TypeNotAllowed,
    /// The rule requires a scope, and the commit has none.
    MissingScope,
    /// The rule requires a description, and the commit has none.
    MissingDescription,
}

impl ValidationError {
    /// What the error says.
    pub open spec fn text(self) -> Seq<char> {
        match self {
            ValidationError::TypeNotAllowed => "Commit type not allowed"@,
            ValidationError::MissingScope => "Commit type requires a scope, but none given"@,
            ValidationError::MissingDescription => "Commit type requires a description, but none given"@,
        }
    }

    /// The error in words: what the rules miss in the commit.
    pub fn message(&self) -> (text: String)
        ensures
            text@ == self.text(),
    {
        match self {
            ValidationError::TypeNotAllowed => "Commit type not allowed".to_owned(),
            ValidationError::MissingScope => "Commit type requires a scope, but none given".to_owned(),
            ValidationError::MissingDescription => "Commit type requires a description, but none given".to_owned(),
        }
    }
}

/// The rule with the given type and required fields.
pub open spec fn rule(commit_type: Seq<char>, required: Seq<Seq<char>>) -> Rule {
    Rule { commit_type, required }
}

/// The name under which a rule requires a scope.
pub open spec fn scope_field() -> Seq<char> {
    "scope"@
}

/// The name under which a rule requires a description.
pub open spec fn description_field() -> Seq<char> {
    "description"@
}

/// Whether a commit of type `given` falls under a rule for the type `named`:
/// the two are equal, character by character, or, where `ignore_case` is set,
/// equal but for the case of their ASCII letters.
pub open spec fn same_type(named: Seq<char>, given: Seq<char>, ignore_case: bool) -> bool {
    if ignore_case {
        named.len() == given.len() && forall|i: int|
            0 <= i < named.len() ==> folded(#[trigger] named[i]) == folded(given[i])
    } else {
        named == given
    }
}

/// The first of `rules` that a commit of type `commit_type` falls under.
pub open spec fn rule_for(rules: Seq<Rule>, commit_type: Seq<char>, ignore_case: bool) -> Option<
    Rule,
>
    decreases rules.len(),
{
    if rules.len() == 0 {
        None
    } else if same_type(rules.first().commit_type, commit_type, ignore_case) {
        Some(rules.first())
    } else {
        rule_for(rules.drop_first(), commit_type, ignore_case)
    }
}

/// What `r` finds of a commit with the given scope and description: a
/// required scope is looked for first, a required description second.
pub open spec fn checked(r: Rule, scope: Seq<char>, description: Seq<char>) -> Result<
    bool,
    ValidationError,
> {
    if r.required.contains(scope_field()) && scope.len() == 0 {
        Err(ValidationError::MissingScope)
    } else if r.required.contains(description_field()) && description.len() == 0 {
        Err(ValidationError::MissingDescription)
    } else {
        Ok(true)
    }
}

/// The verdict of `rules` on a commit: that of the first rule that the
/// commit's type falls under, and a refusal of the type where there is none.
pub open spec fn validated(
    rules: Seq<Rule>,
    ignore_case: bool,
    commit_type: Seq<char>,
    scope: Seq<char>,
    description: Seq<char>,
) -> Result<bool, ValidationError> {
    match rule_for(rules, commit_type, ignore_case) {
        Some(r) => checked(r, scope, description),
        None => Err(ValidationError::TypeNotAllowed),
    }
}

/// The rule that applies is the first one whose type matches: there is such a
/// rule exactly where some rule matches, and no rule before it does.
pub proof fn lemma_rule_for_is_first_match(
    rules: Seq<Rule>,
    commit_type: Seq<char>,
    ignore_case: bool,
) -> (at: int)
    ensures
        rule_for(rules, commit_type, ignore_case) is None <==> forall|i: int|
            0 <= i < rules.len() ==> !same_type(
                (#[trigger] rules[i]).commit_type,
                commit_type,
                ignore_case,
            ),
        rule_for(rules, commit_type, ignore_case) matches Some(r) ==> {
            &&& 0 <= at < rules.len()
            &&& rules[at] == r
            &&& same_type(r.commit_type, commit_type, ignore_case)
            &&& forall|i: int|
                0 <= i < at ==> !same_type(
                    (#[trigger] rules[i]).commit_type,
                    commit_type,
                    ignore_case,
                )
        },
    decreases rules.len(),
{
    if rules.len() == 0 {
        0
    } else if same_type(rules.first().commit_type, commit_type, ignore_case) {
        0
    } else {
        let rest = rules.drop_first();
        let at = lemma_rule_for_is_first_match(rest, commit_type, ignore_case);
        assert forall|i: int| 0 <= i < rest.len() implies rest[i] == rules[i + 1] by {}
        if rule_for(rest, commit_type, ignore_case) is None {
            assert forall|i: int| 0 <= i < rules.len() implies !same_type(
                (#[trigger] rules[i]).commit_type,
                commit_type,
                ignore_case,
            ) by {
                if i > 0 {
                    assert(rules[i] == rest[i - 1]);
                }
            }
        } else {
            assert forall|i: int| 0 <= i < at + 1 implies !same_type(
                (#[trigger] rules[i]).commit_type,
                commit_type,
                ignore_case,
            ) by {
                if i > 0 {
                    assert(rules[i] == rest[i - 1]);
                }
            }
            assert(same_type(rules[at + 1].commit_type, commit_type, ignore_case));
        }
        at + 1
    }
}

/// No commit meets an empty set of rules: whatever its type, it is not
/// allowed.
pub proof fn lemma_empty_rules_allow_nothing(
    ignore_case: bool,
    commit_type: Seq<char>,
    scope: Seq<char>,
    description: Seq<char>,
)
    ensures
        validated(Seq::empty(), ignore_case, commit_type, scope, description) == Err::<
            bool,
            ValidationError,
        >(ValidationError::TypeNotAllowed),
{
}

/// The fields that the default rules require of a commit: a description,
/// and before it a scope where `with_scope` is set.
pub open spec fn default_required(with_scope: bool) -> Seq<Seq<char>> {
    if with_scope {
        seq![scope_field(), description_field()]
    } else {
        seq![description_field()]
    }
}

/// The rules that hold where none are given: `feat` and `fix` require a scope
/// and a description, the other nine types a description only.
pub open spec fn default_rules() -> Seq<Rule> {
    seq![
        rule("feat"@, default_required(true)),
        rule("fix"@, default_required(true)),
        rule("build"@, default_required(false)),
        rule("chore"@, default_required(false)),
        rule("ci"@, default_required(false)),
        rule("docs"@, default_required(false)),
        rule("perf"@, default_required(false)),
        rule("refactor"@, default_required(false)),
        rule("revert"@, default_required(false)),
        rule("style"@, default_required(false)),
        rule("test"@, default_required(false)),
    ]
}

/// The default rule for `commit_type`.
fn default_rule(commit_type: &str, with_scope: bool) -> (m: CommitMessage)
    ensures
        m@ == rule(commit_type@, default_required(with_scope)),
{
    let mut required: Vec<String> = Vec::new();
    if with_scope {
        required.push("scope".to_owned());
    }
    required.push("description".to_owned());
    assert(required.deep_view() =~= default_required(with_scope));
    CommitMessage { commit_type: commit_type.to_owned(), required }
}

/// The rules that hold where none are given.
pub fn default_commit_types() -> (rules: Vec<CommitMessage>)
    ensures
        rules.deep_view() == default_rules(),
{
    let mut rules: Vec<CommitMessage> = Vec::new();
    rules.push(default_rule("feat", true));
    rules.push(default_rule("fix", true));
    rules.push(default_rule("build", false));
    rules.push(default_rule("chore", false));
    rules.push(default_rule("ci", false));
    rules.push(default_rule("docs", false));
    rules.push(default_rule("perf", false));
    rules.push(default_rule("refactor", false));
    rules.push(default_rule("revert", false));
    rules.push(default_rule("style", false));
    rules.push(default_rule("test", false));
    assert(rules.deep_view() =~= default_rules());
    rules
}

/// Whether `fields` holds `name`.
pub fn requires_field(fields: &Vec<String>, name: &str) -> (found: bool)
    ensures
        found == fields.deep_view().contains(name@),
{
    let wanted = name.to_owned();
    let mut i: usize = 0;
    while i < fields.len()
        invariant
            i <= fields.len(),
            wanted@ == name@,
            forall|j: int| 0 <= j < i ==> fields.deep_view()[j] != name@,
        decreases fields.len() - i,
    {
        if fields[i] == wanted {
            assert(fields.deep_view()[i as int] == name@);
            return true;
        }
        i = i + 1;
    }
    false
}

/// Whether a commit of type `given` falls under a rule for the type `named`.
pub fn is_same_type(named: &String, given: &String, ignore_case: bool) -> (same: bool)
    ensures
        same == same_type(named@, given@, ignore_case),
{
    if !ignore_case {
        return *named == *given;
    }
    let a = chars_of(named.as_str());
    let b = chars_of(given.as_str());
    if a.len() != b.len() {
        return false;
    }
    let mut i: usize = 0;
    while i < a.len()
        invariant
            i <= a.len() == b.len(),
            a@ == named@,
            b@ == given@,
            forall|j: int| 0 <= j < i ==> folded(#[trigger] a@[j]) == folded(b@[j]),
        decreases a.len() - i,
    {
        if fold(a[i]) != fold(b[i]) {
            assert(folded(a@[i as int]) != folded(b@[i as int]));
            return false;
        }
        i = i + 1;
    }
    true
}

/// Validates a commit against `rules`, with the commit's type matched
/// without regard to the case of ASCII letters where `allow_caps_types` is
/// set, and character by character where it is not.
///
/// The first rule whose type matches decides. The commit passes, with `true`,
/// unless that rule requires a scope and `scope` is empty, or requires a
/// description and `description` is empty; a missing scope is reported before
/// a missing description. Where no rule matches, the type is not allowed.
pub fn validate_with_case(
    rules: Vec<CommitMessage>,
    allow_caps_types: bool,
    commit_type: &str,
    scope: &str,
    description: &str,
) -> (r: Result<bool, ValidationError>)
    ensures
        r == validated(rules.deep_view(), allow_caps_types, commit_type@, scope@, description@),
{
    let wanted = commit_type.to_owned();
    let ghost all = rules.deep_view();
    assert(all.skip(0) =~= all);
    let mut i: usize = 0;
    while i < rules.len()
        invariant
            i <= rules.len(),
            wanted@ == commit_type@,
            all == rules.deep_view(),
            rule_for(all, commit_type@, allow_caps_types) == rule_for(
                all.skip(i as int),
                commit_type@,
                allow_caps_types,
            ),
        decreases rules.len() - i,
    {
        let ghost rest = all.skip(i as int);
        assert(rest.first() == rules[i as int]@);
        assert(rest.drop_first() =~= all.skip(i + 1));
        if is_same_type(&rules[i].commit_type, &wanted, allow_caps_types) {
            if requires_field(&rules[i].required, "scope") && scope.is_empty() {
                return Err(ValidationError::MissingScope);
            }
            if requires_field(&rules[i].required, "description") && description.is_empty() {
                return Err(ValidationError::MissingDescription);
            }
            return Ok(true);
        }
        i = i + 1;
    }
    Err(ValidationError::TypeNotAllowed)
}

/// Validates a commit against `rules`, with the commit's type matched
/// character by character.
///
/// The first rule whose type is `commit_type` decides. The commit passes,
/// with `true`, unless that rule requires a scope and `scope` is empty, or
/// requires a description and `description` is empty; a missing scope is
/// reported before a missing description. Where no rule has that type, the
/// type is not allowed.
pub fn validate(rules: Vec<CommitMessage>, commit_type: &str, scope: &str, description: &str) -> (r:
    Result<bool, ValidationError>)
    ensures
        r == validated(rules.deep_view(), false, commit_type@, scope@, description@),
{
    validate_with_case(rules, false, commit_type, scope, description)
}

} // verus!
