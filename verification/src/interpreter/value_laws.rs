//! What the value operators mean, stated without the definitions they are
//! computed from: truthiness, `!`, and `==` on values that are not both
//! numbers.

use vstd::prelude::*;

use super::operators::{same_value, unary_outcome, UnaryOutcome};
use super::value::{truthy, Value, ValueKind};
use super::error::RuntimeError;
use crate::parser::UnaryOp;

verus! {

/// Only `false` and `nil` are false in a condition.
pub proof fn law_truthiness<N>(v: Value<N>)
    ensures
        v matches Value::Bool(b) ==> truthy(v) == b,
        v is Nil ==> !truthy(v),
        (v is Number || v is String) ==> truthy(v),
{
}

/// `!` gives the boolean opposite of a value's truthiness: `!false` and
/// `!nil` are `true`, `!true` is `false`, and `!` of a number or string is
/// `false`; on booleans it is negation.
pub proof fn law_not<N>(v: Value<N>)
    ensures
        unary_outcome(UnaryOp::Not, v) == Ok::<UnaryOutcome<N>, RuntimeError<N>>(
            UnaryOutcome::Value(
                Value::Bool(
                    match v {
                        Value::Bool(b) => !b,
                        Value::Nil => true,
                        _ => false,
                    },
                ),
            ),
        ),
{
}

/// `==` on two values that are not both numbers holds exactly when they are
/// the same value: two strings with the same characters, the same boolean,
/// or both `nil`; values of different kinds are never equal. It is
/// symmetric.
pub proof fn law_equality<N>(l: Value<N>, r: Value<N>)
    requires
        !(l is Number && r is Number),
    ensures
        same_value(l, r) <==> match (l, r) {
            (Value::String(a), Value::String(b)) => a@ == b@,
            _ => l == r,
        },
        same_value(l, r) == same_value(r, l),
{
}

/// `-` negates numbers and nothing else: on any other value it is the error
/// that names the value's kind.
pub proof fn law_negate<N>(v: Value<N>)
    ensures
        v matches Value::Number(n) ==> unary_outcome(UnaryOp::Negate, v) == Ok::<
            UnaryOutcome<N>,
            RuntimeError<N>,
        >(UnaryOutcome::Negated(n)),
        !(v is Number) ==> unary_outcome(UnaryOp::Negate, v) is Err,
        v is String ==> unary_outcome(UnaryOp::Negate, v) == Err::<UnaryOutcome<N>, RuntimeError<N>>(
            RuntimeError::UndefinedUnaryOp { op: UnaryOp::Negate, operand: ValueKind::String },
        ),
        v is Bool ==> unary_outcome(UnaryOp::Negate, v) == Err::<UnaryOutcome<N>, RuntimeError<N>>(
            RuntimeError::UndefinedUnaryOp { op: UnaryOp::Negate, operand: ValueKind::Bool },
        ),
        v is Nil ==> unary_outcome(UnaryOp::Negate, v) == Err::<UnaryOutcome<N>, RuntimeError<N>>(
            RuntimeError::UndefinedUnaryOp { op: UnaryOp::Negate, operand: ValueKind::Nil },
        ),
{
}

} // verus!
