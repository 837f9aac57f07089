use exprlang::arith::{binary_op, power, quotient, unary_op};
use exprlang::ast::{BinaryOperator, Literal, Scope, Term, UnaryOperator};
use exprlang::environment::{Environment, SyntaxRule};
use exprlang::float::{bits_are_zero, negated, FloatRequest, FloatTable};
use exprlang::interpreter::{EvalError, Interpreter, Value};

fn integer(value: Option<Value>) -> i64 {
    match value {
        Some(Value::Integer(n)) => n,
        other => panic!("expected an integer, got {:?}", other),
    }
}

#[test]
fn root_environment_has_the_identity_builtin() {
    let env = Environment::new();
    match env.lookup(&"ID".to_string()) {
        Some(Value::Builtin(name)) => assert_eq!(name, "ID"),
        other => panic!("expected the builtin, got {:?}", other),
    }
    assert!(env.lookup(&"id".to_string()).is_none());
    assert!(Environment::empty().lookup(&"ID".to_string()).is_none());
}

#[test]
fn bind_overwrites_in_the_current_scope() {
    let mut env = Environment::empty();
    env.bind("x".to_string(), Value::Integer(1));
    env.bind("y".to_string(), Value::Integer(2));
    env.bind("x".to_string(), Value::Integer(3));
    assert_eq!(integer(env.lookup(&"x".to_string())), 3);
    assert_eq!(integer(env.lookup(&"y".to_string())), 2);
    assert!(env.lookup(&"z".to_string()).is_none());
}

#[test]
fn inner_bindings_hide_outer_ones() {
    let mut outer = Environment::new();
    outer.bind("x".to_string(), Value::Integer(1));
    outer.bind("y".to_string(), Value::Integer(2));
    let mut inner = Environment::child_of(&outer);
    assert_eq!(integer(inner.lookup(&"x".to_string())), 1);
    inner.bind("x".to_string(), Value::Integer(10));
    assert_eq!(integer(inner.lookup(&"x".to_string())), 10);
    assert_eq!(integer(inner.lookup(&"y".to_string())), 2);
    assert_eq!(integer(outer.lookup(&"x".to_string())), 1);
    outer.bind("late".to_string(), Value::Integer(5));
    assert!(inner.lookup(&"late".to_string()).is_none());
    let innermost = Environment::child_of(&inner);
    assert_eq!(integer(innermost.lookup(&"x".to_string())), 10);
    assert!(matches!(innermost.lookup(&"ID".to_string()), Some(Value::Builtin(_))));
    let copy = innermost.duplicate();
    assert_eq!(integer(copy.lookup(&"y".to_string())), 2);
}

#[test]
fn builtins_and_rules_can_be_added() {
    let mut env = Environment::empty();
    env.add_builtin("SQRT");
    assert!(matches!(env.lookup(&"SQRT".to_string()), Some(Value::Builtin(_))));
    env.add_syntax_rule(SyntaxRule {
        name: "R".to_string(),
        pattern: "{a}".to_string(),
        precedence: 3,
        scope: Scope::Local,
    });
    assert!(env.lookup(&"R".to_string()).is_none());
    let mut interpreter = Interpreter::new();
    let mut unknown = Term::FunctionCall { name: "SQRT".to_string(), args: vec![] };
    assert!(matches!(
        interpreter.interpret(unknown.clone()),
        Err(EvalError::FunctionNotFound(_))
    ));
    unknown = Term::Identifier("SQRT".to_string());
    assert!(matches!(interpreter.interpret(unknown), Err(EvalError::UndefinedVariable(_))));
}

#[test]
fn float_patterns() {
    assert!(bits_are_zero(0.0f64.to_bits()));
    assert!(bits_are_zero((-0.0f64).to_bits()));
    assert!(!bits_are_zero(1.0f64.to_bits()));
    assert!(!bits_are_zero(f64::NAN.to_bits()));
    assert!(!bits_are_zero(f64::MIN_POSITIVE.to_bits()));
    assert_eq!(negated(1.5f64.to_bits()), (-1.5f64).to_bits());
    assert_eq!(negated((-0.0f64).to_bits()), 0.0f64.to_bits());
    assert_eq!(negated(f64::INFINITY.to_bits()), f64::NEG_INFINITY.to_bits());
}

#[test]
fn float_table_keeps_the_first_answer() {
    let mut table = FloatTable::new();
    let request = FloatRequest::Literal("1.5".to_string());
    assert_eq!(table.lookup(&request), None);
    table.record(request.clone(), 7);
    table.record(FloatRequest::FromInteger(2), 8);
    table.record(request.clone(), 9);
    assert_eq!(table.lookup(&request), Some(7));
    assert_eq!(table.lookup(&FloatRequest::FromInteger(2)), Some(8));
    assert_eq!(table.lookup(&FloatRequest::FromInteger(3)), None);
    assert!(request.same_as(&FloatRequest::Literal("1.5".to_string())));
    assert!(!request.same_as(&FloatRequest::Literal("1.50".to_string())));
    assert!(!request.same_as(&FloatRequest::FromInteger(1)));
    assert!(FloatRequest::Binary { op: BinaryOperator::Plus, left: 1, right: 2 }
        .same_as(&FloatRequest::Binary { op: BinaryOperator::Plus, left: 1, right: 2 }));
    assert!(!FloatRequest::Binary { op: BinaryOperator::Plus, left: 1, right: 2 }
        .same_as(&FloatRequest::Binary { op: BinaryOperator::Minus, left: 1, right: 2 }));
}

#[test]
fn arithmetic_on_values() {
    let table = FloatTable::new();
    assert_eq!(quotient(-9, 4), -2);
    assert_eq!(quotient(9, -4), -2);
    assert_eq!(quotient(i64::MIN, -1), i64::MIN);
    assert_eq!(quotient(i64::MIN, 1), i64::MIN);
    assert_eq!(power(3, 4), 81);
    assert_eq!(power(-2, 3), -8);
    assert_eq!(power(0, 0), 1);
    assert_eq!(power(2, 64), 0);
    assert_eq!(power(3, 41), 3i64.wrapping_pow(41));
    assert!(matches!(
        binary_op(BinaryOperator::Times, &Value::Integer(6), &Value::Integer(7), &table),
        Ok(Value::Integer(42))
    ));
    assert!(matches!(
        binary_op(BinaryOperator::Pow, &Value::Integer(2), &Value::Integer(21), &table),
        Err(EvalError::FloatPending(FloatRequest::FromInteger(2)))
    ));
    assert!(matches!(
        binary_op(BinaryOperator::Pow, &Value::Integer(2), &Value::Integer(-1), &table),
        Err(EvalError::FloatPending(FloatRequest::FromInteger(2)))
    ));
    assert!(matches!(
        binary_op(BinaryOperator::Div, &Value::Float(5), &Value::Float(0), &table),
        Err(EvalError::DivisionByZero)
    ));
    assert!(matches!(
        binary_op(BinaryOperator::Plus, &Value::Float(5), &Value::Float(0), &table),
        Err(EvalError::FloatPending(FloatRequest::Binary { op: BinaryOperator::Plus, left: 5, right: 0 }))
    ));
    assert!(matches!(
        binary_op(BinaryOperator::Plus, &Value::Builtin("ID".to_string()), &Value::Float(0), &table),
        Err(EvalError::InvalidOperandTypes)
    ));
    assert!(matches!(unary_op(UnaryOperator::Neg, &Value::Integer(3)), Ok(Value::Integer(-3))));
}

#[test]
fn literals_from_plain_values() {
    assert_eq!(Literal::from("s".to_string()), Literal::String("s".to_string()));
    assert_eq!(Literal::from(true), Literal::Boolean(true));
    assert_eq!(Literal::from(5i64), Literal::Integer(5));
    let term = Term::FunctionCall {
        name: "f".to_string(),
        args: vec![Term::Float("1.5".to_string()), Term::Identifier("x".to_string())],
    };
    assert_eq!(term.clone(), term);
    assert_eq!(term.duplicate(), term);
}
