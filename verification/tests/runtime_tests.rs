use std::rc::Rc;

use interpreter::error::CliError;
use interpreter::interpreter::operators::{apply_binary, apply_unary, BinaryOutcome, UnaryOutcome};
use interpreter::interpreter::{Environment, RuntimeError, Value, ValueKind};
use interpreter::parser::{BinaryOp, UnaryOp};
use interpreter::script::decode_source;

fn string(s: &str) -> Value<f64> {
    Value::String(Rc::new(s.to_string()))
}

#[test]
fn define_then_get() {
    let mut env: Environment<i32> = Environment::new();
    assert_eq!(env.get("x"), None);
    env.define("x".to_string(), 1);
    assert_eq!(env.get("x"), Some(&1));
    env.define("x".to_string(), 2);
    assert_eq!(env.get("x"), Some(&2));
    assert_eq!(env.get("y"), None);
}

#[test]
fn assign_needs_a_binding() {
    let mut env: Environment<i32> = Environment::new();
    assert_eq!(env.assign("x", 5), None);
    assert_eq!(env.get("x"), None);
    env.define("x".to_string(), 1);
    assert_eq!(env.assign("x", 5), Some(()));
    assert_eq!(env.get("x"), Some(&5));
}

#[test]
fn child_scope_sees_and_shadows_outer_names() {
    let mut outer: Environment<i32> = Environment::new();
    outer.define("a".to_string(), 1);
    outer.define("b".to_string(), 2);
    let mut inner = Environment::child(outer);
    assert_eq!(inner.get("a"), Some(&1));
    inner.define("a".to_string(), 10);
    assert_eq!(inner.get("a"), Some(&10));
    assert_eq!(inner.assign("b", 20), Some(()));
    inner.define("c".to_string(), 3);
    let outer = inner.into_enclosing().expect("a child has an enclosing scope");
    assert_eq!(outer.get("a"), Some(&1));
    assert_eq!(outer.get("b"), Some(&20));
    assert_eq!(outer.get("c"), None);
}

#[test]
fn assignment_goes_to_the_innermost_binding() {
    let mut outer: Environment<i32> = Environment::new();
    outer.define("a".to_string(), 1);
    let mut inner = Environment::child(outer);
    inner.define("a".to_string(), 2);
    assert_eq!(inner.assign("a", 3), Some(()));
    assert_eq!(inner.get("a"), Some(&3));
    let outer = inner.into_enclosing().unwrap();
    assert_eq!(outer.get("a"), Some(&1));
}

#[test]
fn global_scope_has_no_enclosing() {
    let env: Environment<i32> = Environment::new();
    assert!(env.into_enclosing().is_none());
}

#[test]
fn deep_nesting() {
    let mut env: Environment<i32> = Environment::new();
    env.define("x".to_string(), 0);
    for i in 1..50 {
        env = Environment::child(env);
        assert_eq!(env.assign("x", i), Some(()));
    }
    for _ in 1..50 {
        env = env.into_enclosing().unwrap();
    }
    assert_eq!(env.get("x"), Some(&49));
}

#[test]
fn value_kinds_and_names() {
    assert_eq!(Value::Number(1.5).kind(), ValueKind::Number);
    assert_eq!(string("a").kind(), ValueKind::String);
    assert_eq!(Value::<f64>::Bool(true).kind(), ValueKind::Bool);
    assert_eq!(Value::<f64>::Nil.kind(), ValueKind::Nil);
    assert_eq!(ValueKind::from(Value::Number(0.0)), ValueKind::Number);
    assert_eq!(ValueKind::from(Value::<f64>::Nil), ValueKind::Nil);
    assert_eq!(ValueKind::Number.text(), "number");
    assert_eq!(ValueKind::String.text(), "string");
    assert_eq!(ValueKind::Bool.text(), "bool");
    assert_eq!(ValueKind::Nil.text(), "nil");
}

#[test]
fn truthiness() {
    assert!(!Value::<f64>::Nil.is_truthy());
    assert!(!Value::<f64>::Bool(false).is_truthy());
    assert!(Value::<f64>::Bool(true).is_truthy());
    assert!(Value::Number(0.0).is_truthy());
    assert!(string("").is_truthy());
}

#[test]
fn unary_operators() {
    match apply_unary(UnaryOp::Negate, Value::Number(2.0)) {
        Ok(UnaryOutcome::Negated(n)) => assert_eq!(n, 2.0),
        other => panic!("unexpected {:?}", other),
    }
    match apply_unary(UnaryOp::Not, Value::<f64>::Nil) {
        Ok(UnaryOutcome::Value(v)) => assert_eq!(v, Value::Bool(true)),
        other => panic!("unexpected {:?}", other),
    }
    match apply_unary(UnaryOp::Not, Value::Number(0.0)) {
        Ok(UnaryOutcome::Value(v)) => assert_eq!(v, Value::Bool(false)),
        other => panic!("unexpected {:?}", other),
    }
    match apply_unary(UnaryOp::Negate, string("x")) {
        Err(e) => assert_eq!(e.message(), "undefined unary operator `-` for string"),
        other => panic!("unexpected {:?}", other),
    }
}

#[test]
fn two_numbers_go_to_the_evaluator() {
    for op in [BinaryOp::Add, BinaryOp::Div, BinaryOp::Eq, BinaryOp::Lte] {
        match apply_binary(Value::Number(1.0), op, Value::Number(2.0)) {
            Ok(BinaryOutcome::Numbers(o, l, r)) => {
                assert_eq!(o, op);
                assert_eq!((l, r), (1.0, 2.0));
            }
            other => panic!("unexpected {:?}", other),
        }
    }
}

#[test]
fn strings_concatenate() {
    match apply_binary(string("foo"), BinaryOp::Add, string("bar")) {
        Ok(BinaryOutcome::Value(v)) => assert_eq!(v, string("foobar")),
        other => panic!("unexpected {:?}", other),
    }
}

#[test]
fn equality_of_other_values() {
    let cases: Vec<(Value<f64>, BinaryOp, Value<f64>, bool)> = vec![
        (string("a"), BinaryOp::Eq, string("a"), true),
        (string("a"), BinaryOp::Eq, string("b"), false),
        (Value::Nil, BinaryOp::Eq, Value::Nil, true),
        (Value::Nil, BinaryOp::Eq, Value::Bool(false), false),
        (Value::Bool(true), BinaryOp::Neq, Value::Bool(true), false),
        (Value::Number(1.0), BinaryOp::Eq, string("1"), false),
        (Value::Number(1.0), BinaryOp::Neq, Value::Nil, true),
    ];
    for (l, op, r, expected) in cases {
        match apply_binary(l, op, r) {
            Ok(BinaryOutcome::Value(v)) => assert_eq!(v, Value::Bool(expected)),
            other => panic!("unexpected {:?}", other),
        }
    }
}

#[test]
fn undefined_binary_operators() {
    match apply_binary(string("a"), BinaryOp::Sub, string("b")) {
        Err(e) => assert_eq!(e.message(), "undefined binary operator `-` for string and string"),
        other => panic!("unexpected {:?}", other),
    }
    match apply_binary(Value::Number(1.0), BinaryOp::Add, string("b")) {
        Err(e) => assert_eq!(e.message(), "undefined binary operator `+` for number and string"),
        other => panic!("unexpected {:?}", other),
    }
    match apply_binary(Value::<f64>::Bool(true), BinaryOp::Lt, Value::Nil) {
        Err(e) => assert_eq!(e.message(), "undefined binary operator `<` for bool and nil"),
        other => panic!("unexpected {:?}", other),
    }
}

#[test]
fn runtime_error_messages() {
    let e: RuntimeError<f64> = RuntimeError::VariableNotFound("x".to_string());
    assert_eq!(e.message(), "undefined variable `x`");
    let e: RuntimeError<f64> = RuntimeError::NotCallable;
    assert_eq!(e.message(), "can only call functions and classes");
    let e: RuntimeError<f64> = RuntimeError::ArityMismatch { expected: 2, found: 105 };
    assert_eq!(
        e.message(),
        "argument count must match function arity; expected `2`, received `105`"
    );
    let e: RuntimeError<f64> = RuntimeError::ArityMismatch { expected: 0, found: 10 };
    assert_eq!(
        e.message(),
        "argument count must match function arity; expected `0`, received `10`"
    );
}

#[test]
fn decode_valid_and_invalid_sources() {
    assert_eq!(decode_source(b"print 1;".to_vec()), Ok("print 1;".to_string()));
    assert_eq!(decode_source("é".as_bytes().to_vec()), Ok("é".to_string()));
    assert_eq!(decode_source(vec![0xff, 0xfe]), Err(CliError::InvalidEncoding));
    assert_eq!(decode_source(Vec::new()), Ok(String::new()));
}
