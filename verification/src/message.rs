//! A whole commit message: the header on its first line, and the body in the
//! lines after it.

use vstd::prelude::*;
use vstd::string::StringExecFns;
use crate::grammar::{all_scope_chars, all_type_chars, single_line};
use crate::header::{header, parse, parsed, Header, ParseError};
use crate::text::{clean_ends, lemma_trimmed_has_clean_ends, trim, trimmed};

verus! {

/// Why a text is no commit message.
#[derive(Clone, Copy, Debug, PartialEq, Eq)]
pub enum MessageError {
    /// The text has no line at all.
    NoFirstLine,
    /// The first line is no header, for the given reason.
    Header(ParseError),
}

impl MessageError {
    /// What the error says.
    pub open spec fn text(self) -> Seq<char> {
        match self {
            MessageError::NoFirstLine => "Failed to read first line"@,
            MessageError::Header(e) => e.text(),
        }
    }

    /// The error in words.
    pub fn message(&self) -> (text: String)
        ensures
            text@ == self.text(),
    {
        match self {
            MessageError::NoFirstLine => "Failed to read first line".to_owned(),
            MessageError::Header(e) => e.message(),
        }
    }
}

/// A commit message as character sequences: the fields of its header, and
/// its body.
pub struct Message {
    pub header: Header,
    pub body: Seq<char>,
}

/// The message with the given header and body.
pub open spec fn message(header: Header, body: Seq<char>) -> Message {
    Message { header, body }
}

/// `lines` in one piece, a line feed after each.
pub open spec fn text_of(lines: Seq<Seq<char>>) -> Seq<char>
    decreases lines.len(),
{
    if lines.len() == 0 {
        Seq::empty()
    } else {
        text_of(lines.drop_last()) + lines.last() + seq!['\n']
    }
}

/// What `lines` are as a commit message: the first line is the header, the
/// lines after it, put together and trimmed, are the body. The body is not
/// held against any grammar.
pub open spec fn message_of(lines: Seq<Seq<char>>) -> Result<Message, MessageError> {
    if lines.len() == 0 {
        Err(MessageError::NoFirstLine)
    } else {
        match parsed(lines[0]) {
            Ok(h) => Ok(message(h, trimmed(text_of(lines.skip(1))))),
            Err(e) => Err(MessageError::Header(e)),
        }
    }
}

/// Reads a commit message from its lines, each given without the line break
/// that ended it.
///
/// Returns the type, the scope and the description of the header, and the
/// body, each without surrounding white space; or the reason why the first
/// line is no header; or `NoFirstLine` where there is no line.
pub fn parse_stream(lines: Vec<String>) -> (r: Result<
    (String, String, String, String),
    MessageError,
>)
    ensures
        match r {
            Ok(m) => message_of(lines.deep_view()) == Ok::<Message, MessageError>(
                message(header(m.0@, m.1@, m.2@), m.3@),
            ),
            Err(e) => message_of(lines.deep_view()) == Err::<Message, MessageError>(e),
        },
        r matches Ok(m) ==> clean_ends(m.0@) && clean_ends(m.1@) && clean_ends(m.2@)
            && clean_ends(m.3@),
        r matches Ok(m) ==> all_type_chars(m.0@) && all_scope_chars(m.1@) && single_line(m.2@),
{
    if lines.len() == 0 {
        return Err(MessageError::NoFirstLine);
    }
    let ghost all = lines.deep_view();
    assert(all[0] == lines[0]@);
    let parsed_header = match parse(lines[0].as_str()) {
        Ok(h) => h,
        Err(e) => {
            return Err(MessageError::Header(e));
        },
    };
    let mut text = String::new();
    let mut i: usize = 1;
    assert(all.skip(1).take(0) =~= Seq::<Seq<char>>::empty());
    while i < lines.len()
        invariant
            1 <= i <= lines.len(),
            all == lines.deep_view(),
            text@ == text_of(all.skip(1).take(i - 1)),
        decreases lines.len() - i,
    {
        assert(all.skip(1).take(i as int).drop_last() =~= all.skip(1).take(i - 1));
        assert(all.skip(1).take(i as int).last() == lines[i as int]@);
        text.append(lines[i].as_str());
        text.push('\n');
        i = i + 1;
    }
    assert(all.skip(1).take(i - 1) =~= all.skip(1));
    proof {
        lemma_trimmed_has_clean_ends(text@);
    }
    let body = trim(text.as_str());
    Ok((parsed_header.0, parsed_header.1, parsed_header.2, body))
}

} // verus!
