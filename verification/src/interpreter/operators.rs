//! Which operators apply to which values, and what they give where no
//! arithmetic on numbers is involved. Arithmetic and comparison of two
//! numbers are left to the evaluator, which knows the number type.

use std::rc::Rc;

use vstd::prelude::*;

use super::error::RuntimeError;
use super::value::{kind_of, truthy, Value};
use crate::parser::{BinaryOp, UnaryOp};
use crate::text::{append_str, same_text};

verus! {

/// The result of a unary operator: a value, or the negation of a number,
/// which the evaluator computes.
#[derive(Debug)]
pub enum UnaryOutcome<N> {
    Negated(N),
    Value(Value<N>),
}

/// The result of a binary operator: a value, or the operator applied to two
/// numbers, which the evaluator computes.
#[derive(Debug)]
pub enum BinaryOutcome<N> {
    Numbers(BinaryOp, N, N),
    Value(Value<N>),
}

/// What a unary operator gives for a value: `-` negates a number and is
/// undefined on the other kinds; `!` gives the opposite of the value's
/// truthiness.
pub open spec fn unary_outcome<N>(op: UnaryOp, v: Value<N>) -> Result<UnaryOutcome<N>, RuntimeError<N>> {
    match op {
        UnaryOp::Negate => match v {
            Value::Number(n) => Ok(UnaryOutcome::Negated(n)),
            _ => Err(RuntimeError::UndefinedUnaryOp { op, operand: kind_of(v) }),
        },
        UnaryOp::Not => Ok(UnaryOutcome::Value(Value::Bool(!truthy(v)))),
    }
}

/// Equality of two values that are not both numbers: same kind and same
/// contents.
pub open spec fn same_value<N>(l: Value<N>, r: Value<N>) -> bool {
    match (l, r) {
        (Value::String(a), Value::String(b)) => a@ == b@,
        (Value::Bool(a), Value::Bool(b)) => a == b,
        (Value::Nil, Value::Nil) => true,
        _ => false,
    }
}

/// Applies a unary operator to a value.
pub fn apply_unary<N>(op: UnaryOp, v: Value<N>) -> (r: Result<UnaryOutcome<N>, RuntimeError<N>>)
    ensures
        r == unary_outcome(op, v),
{
    match op {
        UnaryOp::Negate => match v {
            Value::Number(n) => Ok(UnaryOutcome::Negated(n)),
            _ => {
                let operand = v.kind();
                Err(RuntimeError::UndefinedUnaryOp { op, operand })
            },
        },
        UnaryOp::Not => {
            let b = v.is_truthy();
            Ok(UnaryOutcome::Value(Value::Bool(!b)))
        },
    }
}

/// Applies a binary operator to two values. Two numbers go to the evaluator
/// under any operator. Otherwise `+` joins two strings, `==` and `!=`
/// compare kind and contents, and every other combination is undefined.
pub fn apply_binary<N>(left: Value<N>, op: BinaryOp, right: Value<N>) -> (r: Result<
    BinaryOutcome<N>,
    RuntimeError<N>,
>)
    ensures
        (left is Number && right is Number) ==> r == Ok::<BinaryOutcome<N>, RuntimeError<N>>(
            BinaryOutcome::Numbers(op, left->Number_0, right->Number_0),
        ),
        !(left is Number && right is Number) ==> {
            if op == BinaryOp::Add && left is String && right is String {
                r matches Ok(BinaryOutcome::Value(Value::String(s))) && s@ == left->String_0@
                    + right->String_0@
            } else if op == BinaryOp::Eq {
                r == Ok::<BinaryOutcome<N>, RuntimeError<N>>(
                    BinaryOutcome::Value(Value::Bool(same_value(left, right))),
                )
            } else if op == BinaryOp::Neq {
                r == Ok::<BinaryOutcome<N>, RuntimeError<N>>(
                    BinaryOutcome::Value(Value::Bool(!same_value(left, right))),
                )
            } else {
                r == Err::<BinaryOutcome<N>, RuntimeError<N>>(
                    RuntimeError::UndefinedBinaryOp {
                        op,
                        left: kind_of(left),
                        right: kind_of(right),
                    },
                )
            }
        },
{
    match (left, right) {
        (Value::Number(l), Value::Number(r)) => Ok(BinaryOutcome::Numbers(op, l, r)),
        (left, right) => apply_to_others(left, op, right),
    }
}

/// `apply_binary` on two values that are not both numbers.
fn apply_to_others<N>(left: Value<N>, op: BinaryOp, right: Value<N>) -> (r: Result<
    BinaryOutcome<N>,
    RuntimeError<N>,
>)
    requires
        !(left is Number && right is Number),
    ensures
        if op == BinaryOp::Add && left is String && right is String {
            r matches Ok(BinaryOutcome::Value(Value::String(s))) && s@ == left->String_0@
                + right->String_0@
        } else if op == BinaryOp::Eq {
            r == Ok::<BinaryOutcome<N>, RuntimeError<N>>(
                BinaryOutcome::Value(Value::Bool(same_value(left, right))),
            )
        } else if op == BinaryOp::Neq {
            r == Ok::<BinaryOutcome<N>, RuntimeError<N>>(
                BinaryOutcome::Value(Value::Bool(!same_value(left, right))),
            )
        } else {
            r == Err::<BinaryOutcome<N>, RuntimeError<N>>(
                RuntimeError::UndefinedBinaryOp { op, left: kind_of(left), right: kind_of(right) },
            )
        },
{
    if op == BinaryOp::Add {
        match (&left, &right) {
            (Value::String(a), Value::String(b)) => {
                let mut s = String::from_str(a.as_str());
                append_str(&mut s, b.as_str());
                return Ok(BinaryOutcome::Value(Value::String(Rc::new(s))));
            },
            _ => {},
        }
    }
    if op == BinaryOp::Eq || op == BinaryOp::Neq {
        let same = values_same(&left, &right);
        if op == BinaryOp::Eq {
            Ok(BinaryOutcome::Value(Value::Bool(same)))
        } else {
            Ok(BinaryOutcome::Value(Value::Bool(!same)))
        }
    } else {
        let lk = left.kind();
        let rk = right.kind();
        Err(RuntimeError::UndefinedBinaryOp { op, left: lk, right: rk })
    }
}

/// Whether two values, not both numbers, are equal.
fn values_same<N>(l: &Value<N>, r: &Value<N>) -> (b: bool)
    requires
        !(*l is Number && *r is Number),
    ensures
        b == same_value(*l, *r),
{
    match (l, r) {
        (Value::String(a), Value::String(b)) => same_text(a.as_str(), b.as_str()),
        (Value::Bool(a), Value::Bool(b)) => *a == *b,
        (Value::Nil, Value::Nil) => true,
        _ => false,
    }
}

} // verus!
