//! The header of a commit message: `TYPE[(SCOPE)]: DESCRIPTION`.
//!
//! The header is read from left to right, one character at a time and without
//! looking back, by a machine of four phases. [`scan`] is that machine,
//! [`parsed`] is what it makes of a whole line, and [`parse`] computes it.

use vstd::prelude::*;
use vstd::string::StringExecFns;
use crate::chars::{is_scope_char, is_type_char, scope_char, type_char};
use crate::grammar::{all_scope_chars, all_type_chars, lemma_header_is_well_formed, single_line};
use crate::text::{clean_ends, trim_chars, trimmed};

verus! {

/// The phase that the parser is in.
#[derive(Clone, Copy, Debug, PartialEq, Eq)]
pub enum State {
    /// Reading the commit type: the phase that every line starts in.
    Type,
    /// Reading the scope, after `(`.
    Scope,
    /// Reading the description, after `:`.
    Description,
    /// Past the line feed that ends the header: nothing more is read.
    Body,
}

/// Why a line is no header.
#[derive(Clone, Copy, Debug, PartialEq, Eq)]
pub enum ParseError {
    /// The type holds a character that is neither a type character nor `(`
    /// nor `:`.
    InvalidType,
    /// The scope holds a character that is neither a scope character nor `)`
    /// nor `:`, or something other than `:` follows its `)`.
    InvalidScope,
    /// The `:` that ends the scope came before any `)`.
    UnclosedScope,
    /// The line ended in the given phase, before any description began.
    Incomplete(State),
}

impl State {
    /// The name of the phase.
    pub open spec fn name(self) -> Seq<char> {
        match self {
            State::Type => "Type"@,
            State::Scope => "Scope"@,
            State::Description => "Description"@,
            State::Body => "Body"@,
        }
    }

    /// The name of the phase, as it stands in messages.
    pub fn to_string(&self) -> (text: String)
        ensures
            text@ == self.name(),
    {
        match self {
            State::Type => "Type".to_owned(),
            State::Scope => "Scope".to_owned(),
            State::Description => "Description".to_owned(),
            State::Body => "Body".to_owned(),
        }
    }
}

impl ParseError {
    /// What the error says. An invalid and an unclosed scope say the same.
    pub open spec fn text(self) -> Seq<char> {
        match self {
            ParseError::InvalidType => "Incorrect commit message, expected format 'TYPE([SCOPE]): MESSAGE\n[BODY]'! Failed to read the type from the header"@,
            ParseError::InvalidScope | ParseError::UnclosedScope => "Incorrect commit message, expected format 'TYPE([SCOPE]): MESSAGE\n[BODY]'!! Failed to retrieve the scope from the header"@,
            ParseError::Incomplete(state) => "Incorrect commit message, expected format 'TYPE([SCOPE]): MESSAGE\n[BODY]'!! Failed to read the body, ended up with the state "@
                + state.name() + " instead."@,
        }
    }

    /// The error in words: which part of the header could not be read.
    pub fn message(&self) -> (text: String)
        ensures
            text@ == self.text(),
    {
        match self {
            ParseError::InvalidType => "Incorrect commit message, expected format 'TYPE([SCOPE]): MESSAGE\n[BODY]'! Failed to read the type from the header".to_owned(),
            ParseError::InvalidScope | ParseError::UnclosedScope => "Incorrect commit message, expected format 'TYPE([SCOPE]): MESSAGE\n[BODY]'!! Failed to retrieve the scope from the header".to_owned(),
            ParseError::Incomplete(state) => {
                let name = state.to_string();
                "Incorrect commit message, expected format 'TYPE([SCOPE]): MESSAGE\n[BODY]'!! Failed to read the body, ended up with the state ".to_owned().concat(
                    name.as_str(),
                ).concat(" instead.")
            },
        }
    }
}

/// The three fields of a header, as character sequences.
pub struct Header {
    pub commit_type: Seq<char>,
    pub scope: Seq<char>,
    pub description: Seq<char>,
}

/// What the parser knows after a part of the line: its phase, what it has
/// gathered of each field, and whether the scope has seen its `)`.
pub struct Scan {
    pub state: State,
    pub commit_type: Seq<char>,
    pub scope: Seq<char>,
    pub description: Seq<char>,
    pub closed: bool,
}

/// The header with the given fields.
pub open spec fn header(commit_type: Seq<char>, scope: Seq<char>, description: Seq<char>) -> Header {
    Header { commit_type, scope, description }
}

/// The parser before the first character.
pub open spec fn start() -> Scan {
    Scan {
        state: State::Type,
        commit_type: Seq::empty(),
        scope: Seq::empty(),
        description: Seq::empty(),
        closed: false,
    }
}

/// One character's work.
///
/// - In the type: a type character is gathered, `(` opens the scope, `:` opens
///   the description, anything else is an error.
/// - In the scope, before its `)`: a scope character is gathered, `)` closes
///   the scope and is not gathered, `:` is an error, as the scope is not
///   closed, and so is anything else.
/// - In the scope, after its `)`: `:` opens the description, and anything
///   else is an error. So nothing stands between `)` and `:`, and there is
///   one pair of parentheses at most.
/// - In the description: a line feed ends the header, anything else is
///   gathered.
/// - Past the header nothing changes.
pub open spec fn step(sc: Scan, c: char) -> Result<Scan, ParseError> {
    match sc.state {
        State::Type => {
            if type_char(c) {
                Ok(Scan { commit_type: sc.commit_type.push(c), ..sc })
            } else if c == '(' {
                Ok(Scan { state: State::Scope, ..sc })
            } else if c == ':' {
                Ok(Scan { state: State::Description, ..sc })
            } else {
                Err(ParseError::InvalidType)
            }
        },
        State::Scope => {
            if sc.closed {
                if c == ':' {
                    Ok(Scan { state: State::Description, ..sc })
                } else {
                    Err(ParseError::InvalidScope)
                }
            } else if scope_char(c) {
                Ok(Scan { scope: sc.scope.push(c), ..sc })
            } else if c == ')' {
                Ok(Scan { closed: true, ..sc })
            } else if c == ':' {
                Err(ParseError::UnclosedScope)
            } else {
                Err(ParseError::InvalidScope)
            }
        },
        State::Description => {
            if c != '\n' {
                Ok(Scan { description: sc.description.push(c), ..sc })
            } else {
                Ok(Scan { state: State::Body, ..sc })
            }
        },
        State::Body => Ok(sc),
    }
}

/// The parser that was at `sc`, after the characters of `s`: or the error that
/// the first offending character of `s` raised.
pub open spec fn scan_from(sc: Scan, s: Seq<char>) -> Result<Scan, ParseError>
    decreases s.len(),
{
    if s.len() == 0 {
        Ok(sc)
    } else {
        match scan_from(sc, s.drop_last()) {
            Ok(at) => step(at, s.last()),
            Err(e) => Err(e),
        }
    }
}

/// The parser after the characters of `s`, read from the start.
pub open spec fn scan(s: Seq<char>) -> Result<Scan, ParseError> {
    scan_from(start(), s)
}

/// What a line is as a header: its three fields, each trimmed, where the
/// parser reaches the description; the error that its first offending
/// character raises; or, where the line ends before any description,
/// the phase in which it ends.
pub open spec fn parsed(line: Seq<char>) -> Result<Header, ParseError> {
    match scan(line) {
        Ok(sc) => match sc.state {
            State::Type | State::Scope => Err(ParseError::Incomplete(sc.state)),
            State::Description | State::Body => Ok(
                header(trimmed(sc.commit_type), trimmed(sc.scope), trimmed(sc.description)),
            ),
        },
        Err(e) => Err(e),
    }
}

/// Scanning one character more is one step more.
pub proof fn lemma_scan_next(s: Seq<char>, i: int)
    requires
        0 <= i < s.len(),
    ensures
        scan(s.take(i + 1)) == match scan(s.take(i)) {
            Ok(sc) => step(sc, s[i]),
            Err(e) => Err(e),
        },
{
    assert(s.take(i + 1).drop_last() =~= s.take(i));
}

/// Once the parser has failed or has left the header, no further character
/// changes the outcome.
pub proof fn lemma_scan_settled(s: Seq<char>, i: int)
    requires
        0 <= i <= s.len(),
        scan(s.take(i)) matches Ok(sc) ==> sc.state == State::Body,
    ensures
        scan(s) == scan(s.take(i)),
    decreases s.len() - i,
{
    if i < s.len() {
        lemma_scan_next(s, i);
        lemma_scan_settled(s, i + 1);
    } else {
        assert(s.take(i) =~= s);
    }
}

/// Reads a header.
///
/// Returns the type, the scope and the description of `line`, each without
/// surrounding white space, or the reason why `line` is no header. A line
/// without a scope has the empty scope. What follows the first line feed of
/// the description is not looked at.
///
/// The fields that come back are well formed: the type is made of type
/// characters, the scope of scope characters, and the description holds no
/// line feed.
pub fn parse(line: &str) -> (r: Result<(String, String, String), ParseError>)
    ensures
        match r {
            Ok(h) => parsed(line@) == Ok::<Header, ParseError>(header(h.0@, h.1@, h.2@)),
            Err(e) => parsed(line@) == Err::<Header, ParseError>(e),
        },
        r matches Ok(h) ==> clean_ends(h.0@) && clean_ends(h.1@) && clean_ends(h.2@),
        r matches Ok(h) ==> all_type_chars(h.0@) && all_scope_chars(h.1@) && single_line(h.2@),
{
    let mut state = State::Type;
    let mut commit_type: Vec<char> = Vec::new();
    let mut scope: Vec<char> = Vec::new();
    let mut description: Vec<char> = Vec::new();
    let mut closed = false;
    let chars = line.chars();
    assert(line@.take(line@.len() as int) =~= line@);
    for c in it: chars
        invariant_except_break
            scan(line@.take(it.index())) == Ok::<Scan, ParseError>(
                Scan {
                    state,
                    commit_type: commit_type@,
                    scope: scope@,
                    description: description@,
                    closed,
                },
            ),
        invariant
            it.seq() == line@,
            line@.take(line@.len() as int) == line@,
        ensures
            scan(line@) == Ok::<Scan, ParseError>(
                Scan {
                    state,
                    commit_type: commit_type@,
                    scope: scope@,
                    description: description@,
                    closed,
                },
            ),
    {
        proof {
            lemma_scan_next(line@, it.index());
        }
        match state {
            State::Type => {
                if is_type_char(c) {
                    commit_type.push(c);
                } else if c == '(' {
                    state = State::Scope;
                } else if c == ':' {
                    state = State::Description;
                } else {
                    proof {
                        lemma_scan_settled(line@, it.index() + 1);
                    }
                    return Err(ParseError::InvalidType);
                }
            },
            State::Scope => {
                if closed {
                    if c == ':' {
                        state = State::Description;
                    } else {
                        proof {
                            lemma_scan_settled(line@, it.index() + 1);
                        }
                        return Err(ParseError::InvalidScope);
                    }
                } else if is_scope_char(c) {
                    scope.push(c);
                } else if c == ')' {
                    closed = true;
                } else {
                    proof {
                        lemma_scan_settled(line@, it.index() + 1);
                    }
                    if c == ':' {
                        return Err(ParseError::UnclosedScope);
                    }
                    return Err(ParseError::InvalidScope);
                }
            },
            State::Description => {
                if c != '\n' {
                    description.push(c);
                } else {
                    state = State::Body;
                    proof {
                        lemma_scan_settled(line@, it.index() + 1);
                    }
                    break;
                }
            },
            State::Body => {},
        }
    }
    proof {
        lemma_header_is_well_formed(line@);
    }
    match state {
        State::Type | State::Scope => Err(ParseError::Incomplete(state)),
        State::Description | State::Body => Ok(
            (trim_chars(&commit_type), trim_chars(&scope), trim_chars(&description)),
        ),
    }
}

} // verus!
