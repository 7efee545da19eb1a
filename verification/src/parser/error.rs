//! The errors the parser records, and their messages.

use vstd::prelude::*;

use crate::lexer::TokenKind;
use crate::text::append_str;

verus! {

/// Why the parser rejected a declaration.
#[derive(Debug)]
pub enum SyntaxError {
    UnexpectedToken { expected: Vec<TokenKind>, found: TokenKind },
    InvalidExpression,
    TooManyArguments,
}

/// The model of a syntax error.
pub enum SSyntaxError {
    UnexpectedToken { expected: Seq<TokenKind>, found: TokenKind },
    InvalidExpression,
    TooManyArguments,
}

impl View for SyntaxError {
    type V = SSyntaxError;

    open spec fn view(&self) -> SSyntaxError {
        match self {
            SyntaxError::UnexpectedToken { expected, found } => SSyntaxError::UnexpectedToken {
                expected: expected@,
                found: *found,
            },
            SyntaxError::InvalidExpression => SSyntaxError::InvalidExpression,
            SyntaxError::TooManyArguments => SSyntaxError::TooManyArguments,
        }
    }
}

/// The texts of the kinds, separated by `, `.
pub open spec fn join_kinds(ks: Seq<TokenKind>) -> Seq<char>
    decreases ks.len(),
{
    if ks.len() == 0 {
        Seq::empty()
    } else if ks.len() == 1 {
        ks[0].spec_text()
    } else {
        join_kinds(ks.drop_last()) + ", "@ + ks.last().spec_text()
    }
}

impl SSyntaxError {
    /// The message the error is reported with. The list of expected kinds is
    /// introduced by `expected one of` unless the list's text is a single
    /// character long.
    pub open spec fn message(self) -> Seq<char> {
        match self {
            SSyntaxError::UnexpectedToken { expected, found } => {
                let list = join_kinds(expected);
                "unexpected token `"@ + found.spec_text() + "`; expected"@ + (if list.len() == 1 {
                    ""@
                } else {
                    " one of"@
                }) + ": "@ + list
            },
            SSyntaxError::InvalidExpression => "invalid expression"@,
            SSyntaxError::TooManyArguments => "too many arguments"@,
        }
    }
}

impl SyntaxError {
    /// The message the error is reported with (its display form).
    pub fn message(&self) -> (s: String)
        ensures
            s@ == self@.message(),
    {
        match self {
            SyntaxError::UnexpectedToken { expected, found } => {
                let mut list = String::new();
                let n = expected.len();
                for i in 0..n
                    invariant
                        n == expected@.len(),
                        list@ == join_kinds(expected@.take(i as int)),
                {
                    proof {
                        assert(expected@.take(i + 1).drop_last() =~= expected@.take(i as int));
                    }
                    if i != 0 {
                        append_str(&mut list, ", ");
                    }
                    append_str(&mut list, expected[i].text());
                    proof {
                        if i == 0 {
                            assert(list@ =~= join_kinds(expected@.take(1)));
                        }
                    }
                }
                assert(expected@.take(n as int) =~= expected@);
                let mut s = String::from_str("unexpected token `");
                append_str(&mut s, found.text());
                append_str(&mut s, "`; expected");
                if list.as_str().unicode_len() != 1 {
                    append_str(&mut s, " one of");
                } else {
                    append_str(&mut s, "");
                }
                append_str(&mut s, ": ");
                append_str(&mut s, list.as_str());
                s
            },
            SyntaxError::InvalidExpression => String::from_str("invalid expression"),
            SyntaxError::TooManyArguments => String::from_str("too many arguments"),
        }
    }
}

} // verus!
