//! Structural validation of commit messages.
//!
//! A commit message opens with a header of the form `TYPE[(SCOPE)]: DESCRIPTION`,
//! optionally followed by a free-text body. The modules of this crate take such a
//! message apart and hold the result against a set of per-type rules:
//!
//! - [`chars`]: the character classes of the header grammar;
//! - [`text`]: trimming and splitting of character sequences;
//! - [`header`]: the header parser, a four-phase state machine;
//! - [`grammar`]: what the parser accepts and refuses, by the shape of a line;
//! - [`rules`]: the rule set and the validation of a parsed header against it;
//! - [`config`]: a rule set written down in one line;
//! - [`message`]: a whole message, header and body;
//! - [`options`]: the options of the command line.
//!
//! Every function is stated over the character sequences that its strings
//! denote, and proved against that statement.

pub mod chars;
pub mod text;
pub mod header;
pub mod grammar;
pub mod rules;
pub mod config;
pub mod message;
pub mod options;
