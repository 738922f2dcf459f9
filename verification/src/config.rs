//! Rules written down in one line: `type1=field1,field2;type2=field3`.
//!
//! Rules are separated by `;`. Within a rule `=` separates the commit type
//! from the fields that it requires, and `,` separates the fields.

use vstd::prelude::*;
use crate::rules::{rule, CommitMessage, Rule};
use crate::text::{chars_of, split, split_chars, string_of, views};

verus! {

/// The field names in `list`: its parts between commas, without the empty
/// ones.
pub open spec fn fields_of(list: Seq<char>) -> Seq<Seq<char>> {
    split(list, ',').filter(|field: Seq<char>| field.len() > 0)
}

/// The rule that `item` writes down: the type is what stands before the
/// first `=`, the required fields are listed between the first `=` and the
/// second, and what follows a second `=` is not read. An item without `=`
/// requires nothing.
pub open spec fn rule_of(item: Seq<char>) -> Rule {
    let parts = split(item, '=');
    rule(
        parts[0],
        if parts.len() > 1 {
            fields_of(parts[1])
        } else {
            Seq::empty()
        },
    )
}

/// The rules that `text` writes down, in order: none for the empty text, and
/// else one for each part between semicolons, the empty parts too.
pub open spec fn rules_of(text: Seq<char>) -> Seq<Rule> {
    if text.len() == 0 {
        Seq::empty()
    } else {
        split(text, ';').map_values(|item: Seq<char>| rule_of(item))
    }
}

/// The field names in `list`.
fn parse_fields(list: &Vec<char>) -> (fields: Vec<String>)
    ensures
        fields.deep_view() == fields_of(list@),
{
    let parts = split_chars(list, ',');
    let ghost all = split(list@, ',');
    let ghost filled = |field: Seq<char>| field.len() > 0;
    let mut fields: Vec<String> = Vec::new();
    let mut i: usize = 0;
    assert(fields.deep_view() =~= all.take(0).filter(filled)) by {
        reveal(Seq::filter);
    }
    while i < parts.len()
        invariant
            i <= parts.len(),
            views(parts@) == all,
            filled == |field: Seq<char>| field.len() > 0,
            fields.deep_view() == all.take(i as int).filter(filled),
        decreases parts.len() - i,
    {
        assert(all.take(i + 1).drop_last() =~= all.take(i as int));
        assert(all[i as int] == parts[i as int]@);
        let ghost before = fields.deep_view();
        assert(all.take(i + 1).filter(filled) == if filled(all[i as int]) {
            before.push(all[i as int])
        } else {
            before
        }) by {
            reveal(Seq::filter);
        }
        if parts[i].len() > 0 {
            fields.push(string_of(&parts[i], 0, parts[i].len()));
            assert(parts[i as int]@.subrange(0, parts[i as int]@.len() as int) =~= parts[i as int]@);
            assert(fields.deep_view() =~= before.push(all[i as int]));
        }
        i = i + 1;
    }
    assert(all.take(i as int) =~= all);
    fields
}

/// The rule that `item` writes down.
fn parse_rule(item: &Vec<char>) -> (m: CommitMessage)
    ensures
        m@ == rule_of(item@),
{
    let parts = split_chars(item, '=');
    proof {
        crate::text::lemma_split(item@, '=');
    }
    assert(views(parts@)[0] == parts[0]@);
    let commit_type = string_of(&parts[0], 0, parts[0].len());
    assert(parts[0]@.subrange(0, parts[0]@.len() as int) =~= parts[0]@);
    let required = if parts.len() > 1 {
        assert(views(parts@)[1] == parts[1]@);
        parse_fields(&parts[1])
    } else {
        let none: Vec<String> = Vec::new();
        assert(none.deep_view() =~= Seq::<Seq<char>>::empty());
        none
    };
    CommitMessage { commit_type, required }
}

/// Reads a set of rules from its one-line form.
///
/// The empty text holds no rule. Any other text holds one rule for each of
/// its parts between semicolons, in order; see [`rule_of`] for how a part is
/// read.
pub fn parse_commit_types(text: String) -> (rules: Vec<CommitMessage>)
    ensures
        rules.deep_view() == rules_of(text@),
{
    let mut rules: Vec<CommitMessage> = Vec::new();
    if text.as_str().is_empty() {
        assert(rules.deep_view() =~= rules_of(text@));
        return rules;
    }
    let v = chars_of(text.as_str());
    let items = split_chars(&v, ';');
    let ghost all = split(text@, ';');
    let mut i: usize = 0;
    while i < items.len()
        invariant
            i <= items.len(),
            views(items@) == all,
            rules.deep_view() == all.take(i as int).map_values(|item: Seq<char>| rule_of(item)),
        decreases items.len() - i,
    {
        let ghost before = rules.deep_view();
        assert(all[i as int] == items[i as int]@);
        rules.push(parse_rule(&items[i]));
        i = i + 1;
        assert(rules.deep_view() =~= before.push(rule_of(all[i - 1])));
        assert(rules.deep_view() =~= all.take(i as int).map_values(
            |item: Seq<char>| rule_of(item),
        ));
    }
    assert(all.take(i as int) =~= all);
    rules
}

} // verus!
