//! The values a program computes with, and their kinds.

use std::rc::Rc;

use vstd::prelude::*;

verus! {

/// A value of the language. Numbers are of the type `N` that the evaluator
/// computes with.
#[derive(Debug, Clone, PartialEq)]
pub enum Value<N> {
    Number(N),
    String(Rc<String>),
    Bool(bool),
    Nil,
}

/// The kind of a value, as run-time errors name it.
#[derive(Debug, Clone, Copy, PartialEq, Eq, Structural)]
pub enum ValueKind {
    Number,
    String,
    Bool,
    Nil,
}

impl ValueKind {
    /// The name of the kind.
    pub open spec fn spec_text(self) -> Seq<char> {
        match self {
            ValueKind::Number => "number"@,
            ValueKind::String => "string"@,
            ValueKind::Bool => "bool"@,
            ValueKind::Nil => "nil"@,
        }
    }

    /// The name of the kind (its display form).
    pub fn text(&self) -> (s: String)
        ensures
            s@ == self.spec_text(),
    {
        match self {
            ValueKind::Number => String::from_str("number"),
            ValueKind::String => String::from_str("string"),
            ValueKind::Bool => String::from_str("bool"),
            ValueKind::Nil => String::from_str("nil"),
        }
    }
}

/// The kind of a value.
pub open spec fn kind_of<N>(v: Value<N>) -> ValueKind {
    match v {
        Value::Number(_) => ValueKind::Number,
        Value::String(_) => ValueKind::String,
        Value::Bool(_) => ValueKind::Bool,
        Value::Nil => ValueKind::Nil,
    }
}

/// Truthiness: `false` and `nil` are false, every other value is true.
pub open spec fn truthy<N>(v: Value<N>) -> bool {
    !(v matches Value::Bool(false)) && !(v is Nil)
}

impl<N> Value<N> {
    /// Whether the value counts as true in a condition.
    pub fn is_truthy(&self) -> (b: bool)
        ensures
            b == truthy(*self),
    {
        match self {
            Value::Bool(false) | Value::Nil => false,
            _ => true,
        }
    }

    /// The kind of the value.
    pub fn kind(&self) -> (k: ValueKind)
        ensures
            k == kind_of(*self),
    {
        match self {
            Value::Number(_) => ValueKind::Number,
            Value::String(_) => ValueKind::String,
            Value::Bool(_) => ValueKind::Bool,
            Value::Nil => ValueKind::Nil,
        }
    }
}

impl<N> From<Value<N>> for ValueKind {
    fn from(value: Value<N>) -> (k: Self) {
        value.kind()
    }
}

impl<N> vstd::std_specs::convert::FromSpecImpl<Value<N>> for ValueKind {
    open spec fn obeys_from_spec() -> bool {
        true
    }

    open spec fn from_spec(v: Value<N>) -> ValueKind {
        kind_of(v)
    }
}

} // verus!
