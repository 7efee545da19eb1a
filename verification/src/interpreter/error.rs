//! Why evaluating a program stopped.

use vstd::prelude::*;

use super::value::{Value, ValueKind};
use crate::parser::{BinaryOp, UnaryOp};
use crate::text::{append_str, decimal, push_decimal};

verus! {

/// A run-time error. `Return` carries the value of a `return` out of a
/// function body; it is not reported as a message.
#[derive(Debug)]
pub enum RuntimeError<N> {
    UndefinedUnaryOp { op: UnaryOp, operand: ValueKind },
    UndefinedBinaryOp { op: BinaryOp, left: ValueKind, right: ValueKind },
    VariableNotFound(String),
    NotCallable,
    ArityMismatch { expected: usize, found: usize },
    Return(Value<N>),
}

impl<N> RuntimeError<N> {
    /// The message the error is reported with.
    pub open spec fn spec_message(&self) -> Seq<char> {
        match self {
            RuntimeError::UndefinedUnaryOp { op, operand } => "undefined unary operator `"@
                + op.spec_symbol() + "` for "@ + operand.spec_text(),
            RuntimeError::UndefinedBinaryOp { op, left, right } => "undefined binary operator `"@
                + op.spec_symbol() + "` for "@ + left.spec_text() + " and "@ + right.spec_text(),
            RuntimeError::VariableNotFound(name) => "undefined variable `"@ + name@ + "`"@,
            RuntimeError::NotCallable => "can only call functions and classes"@,
            RuntimeError::ArityMismatch { expected, found } =>
                "argument count must match function arity; expected `"@ + decimal(
                *expected as nat,
            ) + "`, received `"@ + decimal(*found as nat) + "`"@,
            RuntimeError::Return(_) => Seq::empty(),
        }
    }

    /// The message the error is reported with (its display form). A
    /// `Return` has none.
    pub fn message(&self) -> (s: String)
        requires
            !(self is Return),
        ensures
            s@ == self.spec_message(),
    {
        match self {
            RuntimeError::UndefinedUnaryOp { op, operand } => {
                let mut s = String::from_str("undefined unary operator `");
                append_str(&mut s, op.symbol());
                append_str(&mut s, "` for ");
                let kind = operand.text();
                append_str(&mut s, kind.as_str());
                s
            },
            RuntimeError::UndefinedBinaryOp { op, left, right } => {
                let mut s = String::from_str("undefined binary operator `");
                append_str(&mut s, op.symbol());
                append_str(&mut s, "` for ");
                let l = left.text();
                append_str(&mut s, l.as_str());
                append_str(&mut s, " and ");
                let r = right.text();
                append_str(&mut s, r.as_str());
                s
            },
            RuntimeError::VariableNotFound(name) => {
                let mut s = String::from_str("undefined variable `");
                append_str(&mut s, name.as_str());
                append_str(&mut s, "`");
                s
            },
            RuntimeError::NotCallable => String::from_str("can only call functions and classes"),
            RuntimeError::ArityMismatch { expected, found } => {
                let mut s = String::from_str(
                    "argument count must match function arity; expected `",
                );
                push_decimal(&mut s, *expected);
                append_str(&mut s, "`, received `");
                push_decimal(&mut s, *found);
                append_str(&mut s, "`");
                s
            },
            RuntimeError::Return(_) => String::new(),
        }
    }
}

} // verus!
