//! Character sequences: conversion between strings and vectors of characters,
//! and trimming of surrounding white space.

use vstd::prelude::*;
use crate::chars::{is_white_space, white_space};

verus! {

/// Trusted: `String::push` appends the character to the end of the string and
/// changes nothing else.
pub assume_specification[ String::push ](s: &mut String, c: char)
    ensures
        final(s)@ == old(s)@.push(c),
;

/// The length of the run of white space that `s` opens with.
pub open spec fn leading_white_space(s: Seq<char>) -> nat
    decreases s.len(),
{
    if s.len() > 0 && white_space(s.first()) {
        1 + leading_white_space(s.drop_first())
    } else {
        0
    }
}

/// The length of the run of white space that `s` ends with.
pub open spec fn trailing_white_space(s: Seq<char>) -> nat
    decreases s.len(),
{
    if s.len() > 0 && white_space(s.last()) {
        1 + trailing_white_space(s.drop_last())
    } else {
        0
    }
}

/// `s` without the white space that it opens with.
pub open spec fn trimmed_start(s: Seq<char>) -> Seq<char> {
    s.skip(leading_white_space(s) as int)
}

/// `s` without the white space that it ends with.
pub open spec fn trimmed_end(s: Seq<char>) -> Seq<char> {
    s.take(s.len() - trailing_white_space(s))
}

/// `s` without the white space around it. White space inside stays.
pub open spec fn trimmed(s: Seq<char>) -> Seq<char> {
    trimmed_end(trimmed_start(s))
}

/// Neither the first nor the last character of `s` is white space.
pub open spec fn clean_ends(s: Seq<char>) -> bool {
    s.len() > 0 ==> !white_space(s.first()) && !white_space(s.last())
}

/// The leading run is made of white space, lies within the sequence, and ends
/// at a character that is none.
pub proof fn lemma_leading_white_space(s: Seq<char>)
    ensures
        leading_white_space(s) <= s.len(),
        forall|i: int| 0 <= i < leading_white_space(s) ==> white_space(#[trigger] s[i]),
        leading_white_space(s) < s.len() ==> !white_space(s[leading_white_space(s) as int]),
    decreases s.len(),
{
    if s.len() > 0 && white_space(s.first()) {
        let rest = s.drop_first();
        lemma_leading_white_space(rest);
        assert forall|i: int| 0 <= i < leading_white_space(s) implies white_space(
            #[trigger] s[i],
        ) by {
            if i > 0 {
                assert(s[i] == rest[i - 1]);
            }
        }
        if leading_white_space(s) < s.len() {
            assert(s[leading_white_space(s) as int] == rest[leading_white_space(rest) as int]);
        }
    }
}

/// The leading run is the only prefix of white space that a character which
/// is none, or the end of the sequence, follows.
pub proof fn lemma_leading_white_space_is(s: Seq<char>, k: int)
    requires
        0 <= k <= s.len(),
        forall|i: int| 0 <= i < k ==> white_space(#[trigger] s[i]),
        k < s.len() ==> !white_space(s[k]),
    ensures
        leading_white_space(s) == k,
    decreases s.len(),
{
    if k > 0 {
        let rest = s.drop_first();
        assert(white_space(s[0]));
        assert forall|i: int| 0 <= i < k - 1 implies white_space(#[trigger] rest[i]) by {
            assert(rest[i] == s[i + 1]);
        }
        lemma_leading_white_space_is(rest, k - 1);
    }
}

/// The trailing run is made of white space, lies within the sequence, and a
/// character that is none stands before it.
pub proof fn lemma_trailing_white_space(s: Seq<char>)
    ensures
        trailing_white_space(s) <= s.len(),
        forall|i: int|
            s.len() - trailing_white_space(s) <= i < s.len() ==> white_space(#[trigger] s[i]),
        trailing_white_space(s) < s.len() ==> !white_space(
            s[s.len() - trailing_white_space(s) - 1],
        ),
    decreases s.len(),
{
    if s.len() > 0 && white_space(s.last()) {
        let rest = s.drop_last();
        lemma_trailing_white_space(rest);
        assert forall|i: int| s.len() - trailing_white_space(s) <= i < s.len() implies white_space(
            #[trigger] s[i],
        ) by {
            if i < s.len() - 1 {
                assert(s[i] == rest[i]);
            }
        }
        if trailing_white_space(s) < s.len() {
            assert(s[s.len() - trailing_white_space(s) - 1] == rest[rest.len()
                - trailing_white_space(rest) - 1]);
        }
    }
}

/// The trailing run is the only suffix of white space that a character which
/// is none, or the start of the sequence, precedes.
pub proof fn lemma_trailing_white_space_is(s: Seq<char>, k: int)
    requires
        0 <= k <= s.len(),
        forall|i: int| s.len() - k <= i < s.len() ==> white_space(#[trigger] s[i]),
        k < s.len() ==> !white_space(s[s.len() - k - 1]),
    ensures
        trailing_white_space(s) == k,
    decreases s.len(),
{
    if k > 0 {
        let rest = s.drop_last();
        assert(white_space(s[s.len() - 1]));
        assert forall|i: int| rest.len() - (k - 1) <= i < rest.len() implies white_space(
            #[trigger] rest[i],
        ) by {
            assert(rest[i] == s[i]);
        }
        lemma_trailing_white_space_is(rest, k - 1);
    }
}

/// What trimming returns is a stretch of what it was given: the stretch from
/// the end of the leading run to the start of the trailing run, or nothing
/// where the sequence is white space throughout.
pub proof fn lemma_trimmed_is_subrange(s: Seq<char>) -> (bounds: (int, int))
    ensures
        0 <= bounds.0 <= bounds.1 <= s.len(),
        trimmed(s) == s.subrange(bounds.0, bounds.1),
        forall|i: int| 0 <= i < bounds.0 ==> white_space(#[trigger] s[i]),
        forall|i: int| bounds.1 <= i < s.len() ==> white_space(#[trigger] s[i]),
        bounds.0 < bounds.1 ==> !white_space(s[bounds.0]) && !white_space(s[bounds.1 - 1]),
{
    let a = leading_white_space(s) as int;
    lemma_leading_white_space(s);
    let t = trimmed_start(s);
    lemma_trailing_white_space(t);
    let b = s.len() - trailing_white_space(t);
    assert(trimmed(s) =~= s.subrange(a, b));
    assert forall|i: int| b <= i < s.len() implies white_space(#[trigger] s[i]) by {
        assert(s[i] == t[i - a]);
    }
    if a < b {
        assert(t[t.len() - trailing_white_space(t) - 1] == s[b - 1]);
    }
    (a, b)
}

/// No white space is left at either end of a trimmed sequence.
pub proof fn lemma_trimmed_has_clean_ends(s: Seq<char>)
    ensures
        clean_ends(trimmed(s)),
{
    let (a, b) = lemma_trimmed_is_subrange(s);
    if trimmed(s).len() > 0 {
        assert(trimmed(s).first() == s[a]);
        assert(trimmed(s).last() == s[b - 1]);
    }
}

/// Trimming changes nothing where there is nothing to trim.
pub proof fn lemma_trimmed_of_clean_ends(s: Seq<char>)
    requires
        clean_ends(s),
    ensures
        trimmed(s) == s,
{
    lemma_leading_white_space_is(s, 0);
    assert(trimmed_start(s) =~= s);
    lemma_trailing_white_space_is(s, 0);
    assert(trimmed_end(s) =~= s);
}

/// Trimming twice is trimming once.
pub proof fn lemma_trimmed_is_idempotent(s: Seq<char>)
    ensures
        trimmed(trimmed(s)) == trimmed(s),
{
    lemma_trimmed_has_clean_ends(s);
    lemma_trimmed_of_clean_ends(trimmed(s));
}

/// The characters of `s`, in order.
pub fn chars_of(s: &str) -> (v: Vec<char>)
    ensures
        v@ == s@,
{
    let mut v: Vec<char> = Vec::new();
    let chars = s.chars();
    for c in it: chars
        invariant
            it.seq() == s@,
            v@ == s@.take(it.index()),
    {
        v.push(c);
    }
    v
}

/// The string made of the characters `v[from..to]`.
pub fn string_of(v: &Vec<char>, from: usize, to: usize) -> (s: String)
    requires
        from <= to <= v.len(),
    ensures
        s@ == v@.subrange(from as int, to as int),
{
    let mut s = String::new();
    let mut i: usize = from;
    while i < to
        invariant
            from <= i <= to <= v.len(),
            s@ == v@.subrange(from as int, i as int),
        decreases to - i,
    {
        s.push(v[i]);
        i = i + 1;
    }
    s
}

/// The characters of `v` without the white space around them, as a string.
pub fn trim_chars(v: &Vec<char>) -> (r: String)
    ensures
        r@ == trimmed(v@),
{
    let n = v.len();
    let mut start: usize = 0;
    while start < n && is_white_space(v[start])
        invariant
            start <= n == v.len(),
            forall|i: int| 0 <= i < start ==> white_space(#[trigger] v@[i]),
        decreases n - start,
    {
        start = start + 1;
    }
    let mut end: usize = n;
    while end > start && is_white_space(v[end - 1])
        invariant
            start <= end <= n == v.len(),
            forall|i: int| end <= i < n ==> white_space(#[trigger] v@[i]),
        decreases end,
    {
        end = end - 1;
    }
    proof {
        lemma_leading_white_space_is(v@, start as int);
        let t = trimmed_start(v@);
        assert forall|i: int| t.len() - (n - end) <= i < t.len() implies white_space(
            #[trigger] t[i],
        ) by {
            assert(t[i] == v@[i + start]);
        }
        if n - end < t.len() {
            assert(t[t.len() - (n - end) - 1] == v@[end - 1]);
        }
        lemma_trailing_white_space_is(t, n - end);
        assert(trimmed(v@) =~= v@.subrange(start as int, end as int));
    }
    string_of(v, start, end)
}

/// `s` without the white space around it.
pub fn trim(s: &str) -> (r: String)
    ensures
        r@ == trimmed(s@),
{
    let v = chars_of(s);
    trim_chars(&v)
}

/// The parts of `s` between the occurrences of `sep`: one part more than
/// there are separators, each part possibly empty.
pub open spec fn split(s: Seq<char>, sep: char) -> Seq<Seq<char>>
    decreases s.len(),
{
    if s.len() == 0 {
        seq![Seq::empty()]
    } else {
        let before = split(s.drop_last(), sep);
        if s.last() == sep {
            before.push(Seq::empty())
        } else {
            before.drop_last().push(before.last().push(s.last()))
        }
    }
}

/// `parts` put together again, with `sep` between each two.
pub open spec fn joined(parts: Seq<Seq<char>>, sep: char) -> Seq<char>
    decreases parts.len(),
{
    if parts.len() == 0 {
        Seq::empty()
    } else if parts.len() == 1 {
        parts[0]
    } else {
        joined(parts.drop_last(), sep) + seq![sep] + parts.last()
    }
}

/// The character sequences that the vectors of `parts` hold.
pub open spec fn views(parts: Seq<Vec<char>>) -> Seq<Seq<char>> {
    parts.map_values(|part: Vec<char>| part@)
}

/// Splitting is the inverse of joining: there is at least one part, no part
/// holds the separator, and the parts joined by the separator are the
/// sequence that was split.
pub proof fn lemma_split(s: Seq<char>, sep: char)
    ensures
        split(s, sep).len() >= 1,
        forall|i: int| 0 <= i < split(s, sep).len() ==> !(#[trigger] split(s, sep)[i]).contains(sep),
        joined(split(s, sep), sep) == s,
    decreases s.len(),
{
    if s.len() == 0 {
        assert(joined(split(s, sep), sep) =~= s);
    } else {
        let before = split(s.drop_last(), sep);
        lemma_split(s.drop_last(), sep);
        let parts = split(s, sep);
        if s.last() == sep {
            assert(parts.drop_last() =~= before);
            assert(joined(parts, sep) =~= s);
            assert forall|i: int| 0 <= i < parts.len() implies !(#[trigger] parts[i]).contains(
                sep,
            ) by {
                if i < before.len() {
                    assert(parts[i] == before[i]);
                }
            }
        } else {
            let grown = before.last().push(s.last());
            assert forall|i: int| 0 <= i < parts.len() implies !(#[trigger] parts[i]).contains(
                sep,
            ) by {
                if i < before.len() - 1 {
                    assert(parts[i] == before[i]);
                } else {
                    assert(parts[i] == grown);
                    if grown.contains(sep) {
                        let j = choose|j: int| 0 <= j < grown.len() && grown[j] == sep;
                        assert(before.last()[j] == sep);
                    }
                }
            }
            if before.len() == 1 {
                assert(joined(parts, sep) =~= s);
            } else {
                assert(parts.drop_last() =~= before.drop_last());
                assert(joined(parts, sep) =~= joined(before, sep).push(s.last()));
                assert(joined(parts, sep) =~= s);
            }
        }
    }
}

/// There is one part, the sequence itself, where there is no separator, and
/// more than one part where there is one.
pub proof fn lemma_split_without_separator(s: Seq<char>, sep: char)
    ensures
        split(s, sep).len() == 1 <==> !s.contains(sep),
        !s.contains(sep) ==> split(s, sep) == seq![s],
    decreases s.len(),
{
    lemma_split(s, sep);
    if s.len() == 0 {
        assert(split(s, sep) =~= seq![s]);
    } else {
        let front = s.drop_last();
        lemma_split_without_separator(front, sep);
        lemma_split(front, sep);
        assert(s[s.len() - 1] == s.last());
        if front.contains(sep) {
            let i = choose|i: int| 0 <= i < front.len() && front[i] == sep;
            assert(s[i] == sep);
        }
        if s.contains(sep) && s.last() != sep {
            let i = choose|i: int| 0 <= i < s.len() && s[i] == sep;
            assert(front[i] == sep);
        }
        if !s.contains(sep) {
            assert(front.push(s.last()) =~= s);
            assert(split(s, sep) =~= seq![s]);
        }
    }
}

/// The parts of `v` between the occurrences of `sep`.
pub fn split_chars(v: &Vec<char>, sep: char) -> (parts: Vec<Vec<char>>)
    ensures
        views(parts@) == split(v@, sep),
{
    let mut parts: Vec<Vec<char>> = Vec::new();
    let mut part: Vec<char> = Vec::new();
    let mut i: usize = 0;
    assert(views(parts@).push(part@) =~= split(v@.take(0), sep));
    while i < v.len()
        invariant
            i <= v.len(),
            views(parts@).push(part@) == split(v@.take(i as int), sep),
        decreases v.len() - i,
    {
        let ghost before = split(v@.take(i as int), sep);
        assert(v@.take(i + 1).drop_last() =~= v@.take(i as int));
        assert(before.drop_last() =~= views(parts@));
        if v[i] == sep {
            parts.push(part);
            part = Vec::new();
            assert(views(parts@) =~= before);
        } else {
            part.push(v[i]);
        }
        i = i + 1;
        assert(views(parts@).push(part@) =~= split(v@.take(i as int), sep));
    }
    assert(v@.take(i as int) =~= v@);
    parts.push(part);
    assert(views(parts@) =~= split(v@, sep));
    parts
}

} // verus!
