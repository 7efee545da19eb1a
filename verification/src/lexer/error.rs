//! The errors the lexer reports, and their messages.

use vstd::prelude::*;

use crate::text::{append_str, push_char};

verus! {

/// Why the lexer could not produce a token.
#[derive(Debug, Clone, Copy, PartialEq, Eq, Structural)]
pub enum LexError {
    InvalidCharacter(char),
    UnterminatedString,
}

impl LexError {
    /// The message the error is reported with.
    pub open spec fn spec_message(self) -> Seq<char> {
        match self {
            LexError::InvalidCharacter(c) => "found invalid character `"@ + seq![c] + "`"@,
            LexError::UnterminatedString => "found unterminated string"@,
        }
    }

    /// The message the error is reported with (its display form).
    pub fn message(&self) -> (s: String)
        ensures
            s@ == self.spec_message(),
    {
        match self {
            LexError::InvalidCharacter(c) => {
                let mut s = String::from_str("found invalid character `");
                push_char(&mut s, *c);
                append_str(&mut s, "`");
                s
            },
            LexError::UnterminatedString => String::from_str("found unterminated string"),
        }
    }
}

} // verus!
