//! Character classes of the header grammar.
//!
//! Letters and digits are classified by the standard library, which follows
//! the Unicode character database. Those tables are not reproduced here: what
//! the standard library answers is given a name, and only its restriction to
//! ASCII is written out.

use vstd::prelude::*;

verus! {

/// What `char::is_alphanumeric` answers for `c`.
pub uninterp spec fn char_is_alphanumeric(c: char) -> bool;

/// What `char::is_whitespace` answers for `c`.
pub uninterp spec fn char_is_whitespace(c: char) -> bool;

/// The 128 characters of ASCII.
pub open spec fn ascii(c: char) -> bool {
    (c as u32) < 0x80
}

/// The ASCII letters and digits.
pub open spec fn ascii_alphanumeric(c: char) -> bool {
    ||| '0' <= c <= '9'
    ||| 'A' <= c <= 'Z'
    ||| 'a' <= c <= 'z'
}

/// The ASCII white space: space, tab, line feed, vertical tab, form feed and
/// carriage return.
pub open spec fn ascii_white_space(c: char) -> bool {
    c == ' ' || '\t' <= c <= '\r'
}

/// Trusted: `char::is_alphanumeric` is a function of the character alone, and
/// within ASCII it holds of the letters `A-Z`, `a-z` and the digits `0-9`
/// only. Outside ASCII nothing is claimed but that the answer has a name.
pub assume_specification[ char::is_alphanumeric ](c: char) -> (b: bool)
    ensures
        b == char_is_alphanumeric(c),
        ascii(c) ==> b == ascii_alphanumeric(c),
;

/// Trusted: `char::is_whitespace` is a function of the character alone, and
/// within ASCII it holds of U+0020 and of U+0009 to U+000D only. Outside ASCII
/// nothing is claimed but that the answer has a name.
pub assume_specification[ char::is_whitespace ](c: char) -> (b: bool)
    ensures
        b == char_is_whitespace(c),
        ascii(c) ==> b == ascii_white_space(c),
;

/// A letter or a digit: within ASCII the usual 62 characters, beyond it
/// whatever the standard library holds to be alphanumeric.
pub open spec fn alphanumeric(c: char) -> bool {
    if ascii(c) {
        ascii_alphanumeric(c)
    } else {
        char_is_alphanumeric(c)
    }
}

/// White space: within ASCII the usual six characters, beyond it whatever the
/// standard library holds to be white space.
pub open spec fn white_space(c: char) -> bool {
    if ascii(c) {
        ascii_white_space(c)
    } else {
        char_is_whitespace(c)
    }
}

/// A character that a commit type may hold: a letter, a digit or `_`.
pub open spec fn type_char(c: char) -> bool {
    alphanumeric(c) || c == '_'
}

/// A character that a scope may hold: a letter, a digit or one of
/// `_ , $ . / -`.
pub open spec fn scope_char(c: char) -> bool {
    alphanumeric(c) || c == '_' || c == ',' || c == '$' || c == '.' || c == '/' || c == '-'
}

/// `c` in lower case where it is an ASCII capital, and `c` itself where it is
/// not.
pub open spec fn folded(c: char) -> char {
    if 'A' <= c <= 'Z' {
        ((c as u32) + 32) as char
    } else {
        c
    }
}

/// The code point of `c` folded to lower case.
pub fn fold(c: char) -> (code: u32)
    ensures
        code == folded(c) as u32,
{
    if 'A' <= c && c <= 'Z' {
        c as u32 + 32
    } else {
        c as u32
    }
}

/// Whether `c` may stand in a commit type.
pub fn is_type_char(c: char) -> (b: bool)
    ensures
        b == type_char(c),
{
    c.is_alphanumeric() || c == '_'
}

/// Whether `c` may stand in a scope.
pub fn is_scope_char(c: char) -> (b: bool)
    ensures
        b == scope_char(c),
{
    c.is_alphanumeric() || c == '_' || c == ',' || c == '$' || c == '.' || c == '/' || c == '-'
}

/// Whether `c` is white space.
pub fn is_white_space(c: char) -> (b: bool)
    ensures
        b == white_space(c),
{
    c.is_whitespace()
}

/// An ASCII character of a type or a scope is never white space.
pub proof fn lemma_ascii_word_char_is_not_white_space(c: char)
    requires
        ascii(c),
        type_char(c) || scope_char(c),
    ensures
        !white_space(c),
{
}

} // verus!
