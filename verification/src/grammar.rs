//! What the header parser accepts and what it refuses, by the shape of the
//! line.
//!
//! The parser is defined one character at a time. The laws of this module say
//! what that comes to for whole lines: which shapes are headers, with which
//! fields, and which shapes fail, with which error.

use vstd::prelude::*;
use crate::chars::{ascii, scope_char, type_char, white_space};
use crate::header::{
    header, parsed, scan, scan_from, start, step, Header, ParseError, Scan, State,
};
use crate::text::{
    clean_ends, lemma_leading_white_space_is, lemma_split, lemma_split_without_separator,
    lemma_trailing_white_space_is, lemma_trimmed_has_clean_ends, lemma_trimmed_is_subrange,
    lemma_trimmed_of_clean_ends, split, trimmed,
};

verus! {

/// Every character of `s` may stand in a commit type.
pub open spec fn all_type_chars(s: Seq<char>) -> bool {
    forall|i: int| 0 <= i < s.len() ==> type_char(#[trigger] s[i])
}

/// Every character of `s` may stand in a scope.
pub open spec fn all_scope_chars(s: Seq<char>) -> bool {
    forall|i: int| 0 <= i < s.len() ==> scope_char(#[trigger] s[i])
}

/// `s` holds no line feed.
pub open spec fn single_line(s: Seq<char>) -> bool {
    forall|i: int| 0 <= i < s.len() ==> #[trigger] s[i] != '\n'
}

/// `s` up to its first line feed, or all of `s` where it holds none.
pub open spec fn first_line(s: Seq<char>) -> Seq<char> {
    split(s, '\n')[0]
}

/// The first and the last character of `s` are ASCII.
pub open spec fn ascii_ends(s: Seq<char>) -> bool {
    s.len() > 0 ==> ascii(s.first()) && ascii(s.last())
}

/// `sc` with `s` gathered into the type.
pub open spec fn with_type(sc: Scan, s: Seq<char>) -> Scan {
    Scan { commit_type: sc.commit_type + s, ..sc }
}

/// `sc` with `s` gathered into the scope.
pub open spec fn with_scope(sc: Scan, s: Seq<char>) -> Scan {
    Scan { scope: sc.scope + s, ..sc }
}

/// `sc` with `s` gathered into the description.
pub open spec fn with_description(sc: Scan, s: Seq<char>) -> Scan {
    Scan { description: sc.description + s, ..sc }
}

/// `sc` moved to the phase `state`.
pub open spec fn in_state(sc: Scan, state: State) -> Scan {
    Scan { state, ..sc }
}

/// Scanning `a` and then `b` is scanning `a + b`.
pub proof fn lemma_scan_concat(sc: Scan, a: Seq<char>, b: Seq<char>)
    ensures
        scan_from(sc, a + b) == match scan_from(sc, a) {
            Ok(at) => scan_from(at, b),
            Err(e) => Err(e),
        },
    decreases b.len(),
{
    if b.len() == 0 {
        assert(a + b =~= a);
    } else {
        assert((a + b).drop_last() =~= a + b.drop_last());
        lemma_scan_concat(sc, a, b.drop_last());
    }
}

/// Scanning a single character is one step.
pub proof fn lemma_scan_one(sc: Scan, c: char)
    ensures
        scan_from(sc, seq![c]) == step(sc, c),
{
    assert(seq![c].drop_last() =~= Seq::<char>::empty());
    assert(scan_from(sc, seq![c].drop_last()) == Ok::<Scan, ParseError>(sc));
}

/// In the type phase, type characters are gathered into the type.
pub proof fn lemma_scan_type(sc: Scan, s: Seq<char>)
    requires
        sc.state == State::Type,
        all_type_chars(s),
    ensures
        scan_from(sc, s) == Ok::<Scan, ParseError>(with_type(sc, s)),
    decreases s.len(),
{
    if s.len() == 0 {
        assert(sc.commit_type + s =~= sc.commit_type);
    } else {
        lemma_scan_type(sc, s.drop_last());
        assert(type_char(s[s.len() - 1]));
        assert((sc.commit_type + s.drop_last()).push(s.last()) =~= sc.commit_type + s);
    }
}

/// In the scope phase, before the closing parenthesis, scope characters are
/// gathered into the scope.
pub proof fn lemma_scan_scope(sc: Scan, s: Seq<char>)
    requires
        sc.state == State::Scope,
        !sc.closed,
        all_scope_chars(s),
    ensures
        scan_from(sc, s) == Ok::<Scan, ParseError>(with_scope(sc, s)),
    decreases s.len(),
{
    if s.len() == 0 {
        assert(sc.scope + s =~= sc.scope);
    } else {
        lemma_scan_scope(sc, s.drop_last());
        assert(scope_char(s[s.len() - 1]));
        assert((sc.scope + s.drop_last()).push(s.last()) =~= sc.scope + s);
    }
}

/// Once the parser has left the header, the rest of the line changes
/// nothing.
pub proof fn lemma_scan_rest_is_ignored(sc: Scan, s: Seq<char>)
    requires
        sc.state == State::Body,
    ensures
        scan_from(sc, s) == Ok::<Scan, ParseError>(sc),
    decreases s.len(),
{
    if s.len() > 0 {
        lemma_scan_rest_is_ignored(sc, s.drop_last());
    }
}

/// In the description phase, everything up to the first line feed is
/// gathered into the description, and the line feed ends the header.
pub proof fn lemma_scan_lines(sc: Scan, s: Seq<char>)
    requires
        sc.state == State::Description,
    ensures
        scan_from(sc, s) == Ok::<Scan, ParseError>(
            in_state(
                with_description(sc, first_line(s)),
                if s.contains('\n') {
                    State::Body
                } else {
                    State::Description
                },
            ),
        ),
    decreases s.len(),
{
    lemma_split(s, '\n');
    lemma_split_without_separator(s, '\n');
    if s.len() == 0 {
        assert(sc.description + first_line(s) =~= sc.description);
    } else {
        let front = s.drop_last();
        lemma_scan_lines(sc, front);
        lemma_split(front, '\n');
        lemma_split_without_separator(front, '\n');
        assert(s[s.len() - 1] == s.last());
        if front.contains('\n') {
            let i = choose|i: int| 0 <= i < front.len() && front[i] == '\n';
            assert(s[i] == '\n');
        } else if s.last() != '\n' {
            assert((sc.description + first_line(front)).push(s.last()) =~= sc.description
                + first_line(s));
        }
    }
}

/// The parser after `TYPE(`: in the scope phase, with the type gathered.
proof fn lemma_scan_opened(commit_type: Seq<char>)
    requires
        all_type_chars(commit_type),
    ensures
        scan(commit_type + seq!['(']) == Ok::<Scan, ParseError>(
            in_state(with_type(start(), commit_type), State::Scope),
        ),
{
    let typed = with_type(start(), commit_type);
    lemma_scan_type(start(), commit_type);
    lemma_scan_one(typed, '(');
    lemma_scan_concat(start(), commit_type, seq!['(']);
}

/// A line `TYPE:REST`, its type made of type characters, is a header with
/// the empty scope, whatever follows the `:`: its description is the first
/// line of what follows.
pub proof fn lemma_unscoped_line(commit_type: Seq<char>, rest: Seq<char>)
    requires
        all_type_chars(commit_type),
    ensures
        parsed(commit_type + seq![':'] + rest) == Ok::<Header, ParseError>(
            header(trimmed(commit_type), Seq::empty(), trimmed(first_line(rest))),
        ),
{
    let typed = with_type(start(), commit_type);
    let described = in_state(typed, State::Description);
    lemma_scan_type(start(), commit_type);
    lemma_scan_one(typed, ':');
    lemma_scan_concat(start(), commit_type, seq![':']);
    lemma_scan_lines(described, rest);
    lemma_scan_concat(start(), commit_type + seq![':'], rest);
    assert(start().commit_type + commit_type =~= commit_type);
    assert(described.description + first_line(rest) =~= first_line(rest));
    assert(trimmed(Seq::<char>::empty()) =~= Seq::<char>::empty());
}

/// A line `TYPE(SCOPE):REST`, its type made of type characters and its scope
/// of scope characters, is a header with that scope, whatever follows the
/// `:`: its description is the first line of what follows.
pub proof fn lemma_scoped_line(commit_type: Seq<char>, scope: Seq<char>, rest: Seq<char>)
    requires
        all_type_chars(commit_type),
        all_scope_chars(scope),
    ensures
        parsed(commit_type + seq!['('] + scope + seq![')', ':'] + rest) == Ok::<
            Header,
            ParseError,
        >(header(trimmed(commit_type), trimmed(scope), trimmed(first_line(rest)))),
{
    let opened = in_state(with_type(start(), commit_type), State::Scope);
    let scoped = with_scope(opened, scope);
    let closed = Scan { closed: true, ..scoped };
    let described = in_state(closed, State::Description);
    let to_paren = commit_type + seq!['('];
    lemma_scan_opened(commit_type);
    lemma_scan_scope(opened, scope);
    lemma_scan_concat(start(), to_paren, scope);
    lemma_scan_one(scoped, ')');
    lemma_scan_one(closed, ':');
    lemma_scan_concat(scoped, seq![')'], seq![':']);
    assert(seq![')'] + seq![':'] =~= seq![')', ':']);
    lemma_scan_concat(start(), to_paren + scope, seq![')', ':']);
    lemma_scan_lines(described, rest);
    lemma_scan_concat(start(), to_paren + scope + seq![')', ':'], rest);
    assert(start().commit_type + commit_type =~= commit_type);
    assert(opened.scope + scope =~= scope);
    assert(described.description + first_line(rest) =~= first_line(rest));
}

/// A line that holds no line feed is its own first line.
proof fn lemma_first_line_of_single_line(s: Seq<char>)
    requires
        single_line(s),
    ensures
        first_line(s) == s,
{
    if s.contains('\n') {
        let i = choose|i: int| 0 <= i < s.len() && s[i] == '\n';
        assert(s[i] != '\n');
    }
    lemma_split_without_separator(s, '\n');
}

/// A line `TYPE:DESCRIPTION`, its type made of type characters and its
/// description free of line feeds, is a header with the empty scope.
pub proof fn lemma_unscoped_header(commit_type: Seq<char>, description: Seq<char>)
    requires
        all_type_chars(commit_type),
        single_line(description),
    ensures
        parsed(commit_type + seq![':'] + description) == Ok::<Header, ParseError>(
            header(trimmed(commit_type), Seq::empty(), trimmed(description)),
        ),
{
    lemma_unscoped_line(commit_type, description);
    lemma_first_line_of_single_line(description);
}

/// A line `TYPE(SCOPE):DESCRIPTION`, its type made of type characters, its
/// scope of scope characters and its description free of line feeds, is a
/// header with that scope: with the scope as it stands between the
/// parentheses wherever neither end of it is white space, which holds
/// whenever both ends are ASCII.
pub proof fn lemma_scoped_header(
    commit_type: Seq<char>,
    scope: Seq<char>,
    description: Seq<char>,
)
    requires
        all_type_chars(commit_type),
        all_scope_chars(scope),
        single_line(description),
    ensures
        parsed(commit_type + seq!['('] + scope + seq![')', ':'] + description) == Ok::<
            Header,
            ParseError,
        >(header(trimmed(commit_type), trimmed(scope), trimmed(description))),
        clean_ends(scope) ==> trimmed(scope) == scope,
        ascii_ends(scope) ==> trimmed(scope) == scope,
{
    lemma_scoped_line(commit_type, scope, description);
    lemma_first_line_of_single_line(description);
    if scope.len() > 0 {
        assert(scope_char(scope[0]));
        assert(scope_char(scope[scope.len() - 1]));
    }
    if clean_ends(scope) || ascii_ends(scope) {
        lemma_trimmed_of_clean_ends(scope);
    }
}

/// How far the parser has come tells the shape of what it has read: in the
/// type phase type characters only; in the scope phase `TYPE(SCOPE`, or
/// `TYPE(SCOPE)` once the scope is closed; after that `TYPE:REST` or
/// `TYPE(SCOPE):REST`.
proof fn lemma_scan_shape(s: Seq<char>) -> (parts: (Seq<char>, Option<Seq<char>>, Seq<char>))
    ensures
        scan(s) matches Ok(sc) ==> all_type_chars(parts.0) && match sc.state {
            State::Type => parts.0 == s && !sc.closed,
            State::Scope => parts.1 matches Some(scope) && all_scope_chars(scope) && s == parts.0
                + seq!['('] + scope + if sc.closed {
                seq![')']
            } else {
                Seq::empty()
            },
            State::Description | State::Body => match parts.1 {
                None => s == parts.0 + seq![':'] + parts.2,
                Some(scope) => all_scope_chars(scope) && s == parts.0 + seq!['('] + scope
                    + seq![')', ':'] + parts.2,
            },
        },
    decreases s.len(),
{
    if s.len() == 0 {
        (s, None, Seq::empty())
    } else {
        let front = s.drop_last();
        let c = s.last();
        let (commit_type, group, rest) = lemma_scan_shape(front);
        assert(front.push(c) =~= s);
        match scan(front) {
            Ok(at) => match at.state {
                State::Type => {
                    if type_char(c) {
                        (s, None, Seq::empty())
                    } else if c == '(' {
                        assert(s =~= front + seq!['('] + Seq::<char>::empty() + Seq::<
                            char,
                        >::empty());
                        (front, Some(Seq::empty()), Seq::empty())
                    } else if c == ':' {
                        assert(s =~= front + seq![':'] + Seq::<char>::empty());
                        (front, None, Seq::empty())
                    } else {
                        (s, None, Seq::empty())
                    }
                },
                State::Scope => {
                    let scope = group->Some_0;
                    if at.closed {
                        if c == ':' {
                            assert(s =~= commit_type + seq!['('] + scope + seq![')', ':'] + Seq::<
                                char,
                            >::empty());
                        }
                        (commit_type, group, Seq::empty())
                    } else if scope_char(c) {
                        let grown = scope.push(c);
                        assert(s =~= commit_type + seq!['('] + grown + Seq::<char>::empty());
                        (commit_type, Some(grown), Seq::empty())
                    } else {
                        assert(s =~= commit_type + seq!['('] + scope + seq![c]);
                        (commit_type, group, Seq::empty())
                    }
                },
                State::Description | State::Body => {
                    let more = rest.push(c);
                    match group {
                        None => {
                            assert(s =~= commit_type + seq![':'] + more);
                        },
                        Some(scope) => {
                            assert(s =~= commit_type + seq!['('] + scope + seq![')', ':'] + more);
                        },
                    }
                    (commit_type, group, more)
                },
            },
            Err(_) => (s, None, Seq::empty()),
        }
    }
}

/// Every header has one of two shapes: `TYPE:REST` or `TYPE(SCOPE):REST`,
/// where the type is made of type characters and the scope of scope
/// characters. Returned are the type, the scope where there are parentheses,
/// and the rest.
pub proof fn lemma_header_has_a_shape(line: Seq<char>) -> (parts: (
    Seq<char>,
    Option<Seq<char>>,
    Seq<char>,
))
    requires
        parsed(line) is Ok,
    ensures
        all_type_chars(parts.0),
        match parts.1 {
            None => line == parts.0 + seq![':'] + parts.2,
            Some(scope) => all_scope_chars(scope) && line == parts.0 + seq!['('] + scope
                + seq![')', ':'] + parts.2,
        },
{
    lemma_scan_shape(line)
}

/// A line made of type characters alone ends in the type phase: the empty
/// line does, and so does a bare word.
pub proof fn lemma_bare_type_is_incomplete(commit_type: Seq<char>)
    requires
        all_type_chars(commit_type),
    ensures
        parsed(commit_type) == Err::<Header, ParseError>(ParseError::Incomplete(State::Type)),
{
    lemma_scan_type(start(), commit_type);
}

/// A line `TYPE(SCOPE` or `TYPE(SCOPE)`, which ends before the `:`, ends in
/// the scope phase.
pub proof fn lemma_open_scope_is_incomplete(commit_type: Seq<char>, scope: Seq<char>)
    requires
        all_type_chars(commit_type),
        all_scope_chars(scope),
    ensures
        parsed(commit_type + seq!['('] + scope) == Err::<Header, ParseError>(
            ParseError::Incomplete(State::Scope),
        ),
        parsed(commit_type + seq!['('] + scope + seq![')']) == Err::<Header, ParseError>(
            ParseError::Incomplete(State::Scope),
        ),
{
    let opened = in_state(with_type(start(), commit_type), State::Scope);
    let scoped = with_scope(opened, scope);
    lemma_scan_opened(commit_type);
    lemma_scan_scope(opened, scope);
    lemma_scan_concat(start(), commit_type + seq!['('], scope);
    lemma_scan_one(scoped, ')');
    lemma_scan_concat(start(), commit_type + seq!['('] + scope, seq![')']);
}

/// A line `TYPE` + `c` + anything, where `c` is no type character, no `(`
/// and no `:`, fails at `c`: the type is invalid.
pub proof fn lemma_invalid_type(commit_type: Seq<char>, c: char, rest: Seq<char>)
    requires
        all_type_chars(commit_type),
        !type_char(c),
        c != '(',
        c != ':',
    ensures
        parsed(commit_type + seq![c] + rest) == Err::<Header, ParseError>(
            ParseError::InvalidType,
        ),
{
    let typed = with_type(start(), commit_type);
    lemma_scan_type(start(), commit_type);
    lemma_scan_one(typed, c);
    lemma_scan_concat(start(), commit_type, seq![c]);
    lemma_scan_concat(start(), commit_type + seq![c], rest);
}

/// A line `TYPE(SCOPE:` + anything, with no `)` before the `:`, fails at the
/// `:`: the scope is not closed.
pub proof fn lemma_unclosed_scope(commit_type: Seq<char>, scope: Seq<char>, rest: Seq<char>)
    requires
        all_type_chars(commit_type),
        all_scope_chars(scope),
    ensures
        parsed(commit_type + seq!['('] + scope + seq![':'] + rest) == Err::<Header, ParseError>(
            ParseError::UnclosedScope,
        ),
{
    let opened = in_state(with_type(start(), commit_type), State::Scope);
    let scoped = with_scope(opened, scope);
    let to_paren = commit_type + seq!['('];
    lemma_scan_opened(commit_type);
    lemma_scan_scope(opened, scope);
    lemma_scan_concat(start(), to_paren, scope);
    lemma_scan_one(scoped, ':');
    lemma_scan_concat(start(), to_paren + scope, seq![':']);
    lemma_scan_concat(start(), to_paren + scope + seq![':'], rest);
}

/// A line `TYPE(SCOPE)` + `c` + anything, where `c` is not `:`, fails at `c`:
/// after the closing parenthesis the `:` is missing.
pub proof fn lemma_missing_colon_after_scope(
    commit_type: Seq<char>,
    scope: Seq<char>,
    c: char,
    rest: Seq<char>,
)
    requires
        all_type_chars(commit_type),
        all_scope_chars(scope),
        c != ':',
    ensures
        parsed(commit_type + seq!['('] + scope + seq![')'] + seq![c] + rest) == Err::<
            Header,
            ParseError,
        >(ParseError::InvalidScope),
{
    let opened = in_state(with_type(start(), commit_type), State::Scope);
    let scoped = with_scope(opened, scope);
    let closed = Scan { closed: true, ..scoped };
    let to_paren = commit_type + seq!['('];
    lemma_scan_opened(commit_type);
    lemma_scan_scope(opened, scope);
    lemma_scan_concat(start(), to_paren, scope);
    lemma_scan_one(scoped, ')');
    lemma_scan_concat(start(), to_paren + scope, seq![')']);
    lemma_scan_one(closed, c);
    lemma_scan_concat(start(), to_paren + scope + seq![')'], seq![c]);
    lemma_scan_concat(start(), to_paren + scope + seq![')'] + seq![c], rest);
}

/// A line `TYPE(SCOPE` + `c` + anything, where `c` is no scope character, no
/// `)` and no `:`, fails at `c`: the scope is invalid.
pub proof fn lemma_invalid_scope(
    commit_type: Seq<char>,
    scope: Seq<char>,
    c: char,
    rest: Seq<char>,
)
    requires
        all_type_chars(commit_type),
        all_scope_chars(scope),
        !scope_char(c),
        c != ')',
        c != ':',
    ensures
        parsed(commit_type + seq!['('] + scope + seq![c] + rest) == Err::<Header, ParseError>(
            ParseError::InvalidScope,
        ),
{
    let opened = in_state(with_type(start(), commit_type), State::Scope);
    let scoped = with_scope(opened, scope);
    let to_paren = commit_type + seq!['('];
    lemma_scan_opened(commit_type);
    lemma_scan_scope(opened, scope);
    lemma_scan_concat(start(), to_paren, scope);
    lemma_scan_one(scoped, c);
    lemma_scan_concat(start(), to_paren + scope, seq![c]);
    lemma_scan_concat(start(), to_paren + scope + seq![c], rest);
}

/// As long as no `:` has been read, the parser is in the type or in the
/// scope phase.
proof fn lemma_scan_before_colon(s: Seq<char>)
    requires
        !s.contains(':'),
    ensures
        scan(s) matches Ok(sc) ==> sc.state == State::Type || sc.state == State::Scope,
    decreases s.len(),
{
    if s.len() > 0 {
        assert forall|c: char| s.drop_last().contains(c) implies s.contains(c) by {
            let i = choose|i: int| 0 <= i < s.drop_last().len() && s.drop_last()[i] == c;
            assert(s[i] == c);
        }
        lemma_scan_before_colon(s.drop_last());
        assert(s[s.len() - 1] == s.last());
        assert(s.contains(s.last()));
    }
}

/// No line without a `:` is a header.
pub proof fn lemma_header_needs_colon(line: Seq<char>)
    requires
        !line.contains(':'),
    ensures
        parsed(line) is Err,
{
    lemma_scan_before_colon(line);
}

/// What the parser has gathered is made of the characters of its phases: the
/// type of type characters, the scope of scope characters, and the
/// description holds no line feed.
pub proof fn lemma_scan_gathers(s: Seq<char>)
    ensures
        scan(s) matches Ok(sc) ==> all_type_chars(sc.commit_type) && all_scope_chars(sc.scope)
            && single_line(sc.description),
    decreases s.len(),
{
    if s.len() > 0 {
        lemma_scan_gathers(s.drop_last());
    }
}

/// The fields of a header are well formed: the type is made of type
/// characters, the scope of scope characters, the description holds no line
/// feed, and none of the three has white space at either end.
pub proof fn lemma_header_is_well_formed(line: Seq<char>)
    ensures
        parsed(line) matches Ok(h) ==> {
            &&& all_type_chars(h.commit_type)
            &&& all_scope_chars(h.scope)
            &&& single_line(h.description)
            &&& clean_ends(h.commit_type)
            &&& clean_ends(h.scope)
            &&& clean_ends(h.description)
        },
{
    lemma_scan_gathers(line);
    if let Ok(sc) = scan(line) {
        lemma_trimmed_is_subrange(sc.commit_type);
        lemma_trimmed_is_subrange(sc.scope);
        lemma_trimmed_is_subrange(sc.description);
        lemma_trimmed_has_clean_ends(sc.commit_type);
        lemma_trimmed_has_clean_ends(sc.scope);
        lemma_trimmed_has_clean_ends(sc.description);
    }
}

/// What follows the line feed that ends a header is not part of it: the body
/// of a message changes nothing about its header.
pub proof fn lemma_body_is_not_read(line: Seq<char>, body: Seq<char>)
    requires
        parsed(line) is Ok,
    ensures
        parsed(line + seq!['\n'] + body) == parsed(line),
{
    let sc = scan(line)->Ok_0;
    let ended = in_state(sc, State::Body);
    lemma_scan_one(sc, '\n');
    lemma_scan_concat(start(), line, seq!['\n']);
    lemma_scan_rest_is_ignored(ended, body);
    lemma_scan_concat(start(), line + seq!['\n'], body);
}

/// A header written out: `TYPE: DESCRIPTION`, or `TYPE(SCOPE): DESCRIPTION`
/// where there is a scope.
pub open spec fn rendered(h: Header) -> Seq<char> {
    if h.scope.len() == 0 {
        h.commit_type + seq![':'] + (seq![' '] + h.description)
    } else {
        h.commit_type + seq!['('] + h.scope + seq![')', ':'] + (seq![' '] + h.description)
    }
}

/// Trimming takes a single leading blank off a sequence with clean ends.
proof fn lemma_trimmed_after_blank(s: Seq<char>)
    requires
        clean_ends(s),
    ensures
        trimmed(seq![' '] + s) == s,
{
    let padded = seq![' '] + s;
    assert(white_space(padded[0]));
    if s.len() > 0 {
        assert(padded[1] == s[0]);
        assert(padded[padded.len() - 1] == s[s.len() - 1]);
    }
    lemma_leading_white_space_is(padded, 1);
    assert(padded.skip(1) =~= s);
    lemma_trailing_white_space_is(s, 0);
    assert(s.take(s.len() as int) =~= s);
}

/// Round trip: a header that was read from a line, written out and read
/// again, is the same header.
pub proof fn lemma_round_trip(line: Seq<char>)
    requires
        parsed(line) is Ok,
    ensures
        parsed(rendered(parsed(line)->Ok_0)) == parsed(line),
{
    let h = parsed(line)->Ok_0;
    let padded = seq![' '] + h.description;
    lemma_header_is_well_formed(line);
    assert(single_line(padded)) by {
        assert forall|i: int| 0 <= i < padded.len() implies #[trigger] padded[i] != '\n' by {
            if i > 0 {
                assert(padded[i] == h.description[i - 1]);
            }
        }
    }
    lemma_trimmed_of_clean_ends(h.commit_type);
    lemma_trimmed_of_clean_ends(h.scope);
    lemma_trimmed_after_blank(h.description);
    if h.scope.len() == 0 {
        lemma_unscoped_header(h.commit_type, padded);
        assert(h.scope =~= Seq::<char>::empty());
    } else {
        lemma_scoped_header(h.commit_type, h.scope, padded);
    }
}

} // verus!
