use exprlang::ast::{BinaryOperator, Scope, Term, UnaryOperator};
use exprlang::float::FloatRequest;
use exprlang::interpreter::{EvalError, Interpreter, Value};
use exprlang::lexer::{tokenize, Token};
use exprlang::parser::parse;
use std::f64::consts::PI;

/// Does the floating-point work that the interpreter asks for.
fn answer(request: &FloatRequest) -> u64 {
    match request {
        FloatRequest::Literal(text) => text.parse::<f64>().unwrap().to_bits(),
        FloatRequest::FromInteger(n) => (*n as f64).to_bits(),
        FloatRequest::Binary { op, left, right } => {
            let l = f64::from_bits(*left);
            let r = f64::from_bits(*right);
            let result = match op {
                BinaryOperator::Plus => l + r,
                BinaryOperator::Minus => l - r,
                BinaryOperator::Times => l * r,
                BinaryOperator::Div => l / r,
                BinaryOperator::Pow => l.powf(r),
            };
            result.to_bits()
        }
    }
}

/// Interprets a term, answering float requests until none is pending.
fn evaluate(interpreter: &mut Interpreter, term: &Term) -> Result<Value, EvalError> {
    loop {
        match interpreter.interpret(term.clone()) {
            Err(EvalError::FloatPending(request)) => {
                let bits = answer(&request);
                interpreter.provide_float(request, bits);
            }
            other => return other,
        }
    }
}

fn run(interpreter: &mut Interpreter, text: &str) -> Result<Value, EvalError> {
    let tokens: Vec<Token> = tokenize(text)
        .into_iter()
        .filter(|token| !matches!(token, Token::Whitespace))
        .collect();
    let (_, term) = parse(&tokens).unwrap();
    evaluate(interpreter, &term)
}

fn float_term(value: f64) -> Term {
    Term::Float(format!("{}", value))
}

fn boxed(n: i64) -> Box<Term> {
    Box::new(Term::Integer(n))
}

fn binary(op: BinaryOperator, left: i64, right: i64) -> Term {
    Term::BinaryOp { op, left: boxed(left), right: boxed(right) }
}

fn integer_result(result: Result<Value, EvalError>) -> i64 {
    match result {
        Ok(Value::Integer(n)) => n,
        other => panic!("expected an integer, got {:?}", other),
    }
}

fn float_result(result: Result<Value, EvalError>) -> f64 {
    match result {
        Ok(Value::Float(bits)) => f64::from_bits(bits),
        other => panic!("expected a float, got {:?}", other),
    }
}

#[test]
fn test_interpret_integer() {
    let mut interpreter = Interpreter::new();
    let result = interpreter.interpret(Term::Integer(5));
    assert!(result.is_ok());
    match result.unwrap() {
        Value::Integer(5) => {}
        _ => panic!("Expected integer 5"),
    }
}

#[test]
fn test_interpret_float() {
    let mut interpreter = Interpreter::new();
    let result = evaluate(&mut interpreter, &float_term(PI));
    assert!(result.is_ok());
    match result.unwrap() {
        Value::Float(bits) if (f64::from_bits(bits) - PI).abs() < 0.001 => {}
        _ => panic!("Expected float PI"),
    }
}

#[test]
fn test_interpret_binary_op_addition() {
    let mut interpreter = Interpreter::new();
    let ast = Term::BinaryOp {
        op: BinaryOperator::Plus,
        left: Box::new(Term::Integer(2)),
        right: Box::new(Term::Integer(3)),
    };
    let result = interpreter.interpret(ast);
    assert!(result.is_ok());
    match result.unwrap() {
        Value::Integer(5) => {}
        _ => panic!("Expected integer 5"),
    }
}

#[test]
fn test_interpret_unary_op_negation() {
    let mut interpreter = Interpreter::new();
    let ast = Term::UnaryOp {
        op: UnaryOperator::Neg,
        operand: Box::new(Term::Integer(5)),
    };
    let result = interpreter.interpret(ast);
    assert!(result.is_ok());
    match result.unwrap() {
        Value::Integer(-5) => {}
        _ => panic!("Expected integer -5"),
    }
}

#[test]
fn test_interpret_pow() {
    let mut interpreter = Interpreter::new();
    let ast = Term::BinaryOp {
        op: BinaryOperator::Pow,
        left: Box::new(Term::Integer(2)),
        right: Box::new(Term::Integer(3)),
    };
    let result = interpreter.interpret(ast);
    assert!(result.is_ok());
    match result.unwrap() {
        Value::Integer(8) => {}
        _ => panic!("Expected integer 8"),
    }
}

#[test]
fn test_interpret_unary_minus_with_pow() {
    let mut interpreter = Interpreter::new();
    let ast = Term::UnaryOp {
        op: UnaryOperator::Neg,
        operand: Box::new(Term::BinaryOp {
            op: BinaryOperator::Pow,
            left: Box::new(Term::Integer(2)),
            right: Box::new(Term::Integer(2)),
        }),
    };
    let result = interpreter.interpret(ast);
    assert!(result.is_ok());
    match result.unwrap() {
        Value::Integer(-4) => {}
        _ => panic!("Expected integer -4"),
    }
}

#[test]
fn integer_division_rounds_toward_zero() {
    let mut interpreter = Interpreter::new();
    assert_eq!(integer_result(interpreter.interpret(binary(BinaryOperator::Div, 7, 2))), 3);
    assert_eq!(integer_result(interpreter.interpret(binary(BinaryOperator::Div, -7, 2))), -3);
    assert_eq!(integer_result(interpreter.interpret(binary(BinaryOperator::Div, 7, -2))), -3);
    assert_eq!(integer_result(interpreter.interpret(binary(BinaryOperator::Div, -7, -2))), 3);
    assert_eq!(integer_result(interpreter.interpret(binary(BinaryOperator::Div, 0, 5))), 0);
    assert_eq!(
        integer_result(interpreter.interpret(binary(BinaryOperator::Div, i64::MIN, -1))),
        i64::MIN
    );
}

#[test]
fn division_by_zero_is_an_error() {
    let mut interpreter = Interpreter::new();
    assert!(matches!(
        interpreter.interpret(binary(BinaryOperator::Div, 1, 0)),
        Err(EvalError::DivisionByZero)
    ));
    assert!(matches!(run(&mut interpreter, "1.5 / 0.0"), Err(EvalError::DivisionByZero)));
    assert!(matches!(run(&mut interpreter, "1.5 / 0"), Err(EvalError::DivisionByZero)));
    assert!(matches!(run(&mut interpreter, "1 / 0.0"), Err(EvalError::DivisionByZero)));
    assert!(matches!(run(&mut interpreter, "1 / (2.5 - 2.5)"), Err(EvalError::DivisionByZero)));
    assert!(matches!(run(&mut interpreter, "1 / -0.0"), Err(EvalError::DivisionByZero)));
}

#[test]
fn integer_arithmetic_wraps() {
    let mut interpreter = Interpreter::new();
    assert_eq!(
        integer_result(interpreter.interpret(binary(BinaryOperator::Plus, i64::MAX, 1))),
        i64::MIN
    );
    assert_eq!(
        integer_result(interpreter.interpret(binary(BinaryOperator::Minus, i64::MIN, 1))),
        i64::MAX
    );
    assert_eq!(
        integer_result(interpreter.interpret(binary(BinaryOperator::Times, i64::MAX, 2))),
        -2
    );
    assert_eq!(
        integer_result(interpreter.interpret(Term::UnaryOp {
            op: UnaryOperator::Neg,
            operand: boxed(i64::MIN),
        })),
        i64::MIN
    );
    assert_eq!(
        integer_result(interpreter.interpret(binary(BinaryOperator::Pow, 10, 20))),
        10i64.wrapping_pow(20)
    );
}

#[test]
fn integer_powers() {
    let mut interpreter = Interpreter::new();
    assert_eq!(integer_result(run(&mut interpreter, "2^3^2")), 512);
    assert_eq!(integer_result(run(&mut interpreter, "-2^2")), -4);
    assert_eq!(integer_result(run(&mut interpreter, "5^0")), 1);
    assert_eq!(integer_result(run(&mut interpreter, "2^20")), 1048576);
    assert_eq!(float_result(run(&mut interpreter, "2^21")), 2097152.0);
    assert_eq!(float_result(run(&mut interpreter, "2^(0-1)")), 0.5);
}

#[test]
fn mixed_operands_promote_to_float() {
    let mut interpreter = Interpreter::new();
    assert_eq!(float_result(run(&mut interpreter, "1 + 2.5")), 3.5);
    assert_eq!(float_result(run(&mut interpreter, "2.5 + 1")), 3.5);
    assert_eq!(float_result(run(&mut interpreter, "2.5 * 2.0")), 5.0);
    assert_eq!(float_result(run(&mut interpreter, "7 / 2.0")), 3.5);
    assert_eq!(float_result(run(&mut interpreter, "2.0 ^ 3")), 8.0);
    assert_eq!(float_result(run(&mut interpreter, "-2.5")), -2.5);
    assert_eq!(float_result(run(&mut interpreter, "1.5 - 2")), -0.5);
}

#[test]
fn float_work_is_requested_in_order() {
    let mut interpreter = Interpreter::new();
    let term = Term::BinaryOp {
        op: BinaryOperator::Plus,
        left: boxed(1),
        right: Box::new(Term::Float("2.5".to_string())),
    };
    match interpreter.interpret(term.clone()) {
        Err(EvalError::FloatPending(FloatRequest::Literal(text))) => assert_eq!(text, "2.5"),
        other => panic!("expected a pending literal, got {:?}", other),
    }
    interpreter.provide_float(FloatRequest::Literal("2.5".to_string()), 2.5f64.to_bits());
    match interpreter.interpret(term.clone()) {
        Err(EvalError::FloatPending(FloatRequest::FromInteger(1))) => {}
        other => panic!("expected a pending conversion, got {:?}", other),
    }
    interpreter.provide_float(FloatRequest::FromInteger(1), 1.0f64.to_bits());
    match interpreter.interpret(term.clone()) {
        Err(EvalError::FloatPending(FloatRequest::Binary { op, left, right })) => {
            assert_eq!(op, BinaryOperator::Plus);
            assert_eq!(left, 1.0f64.to_bits());
            assert_eq!(right, 2.5f64.to_bits());
        }
        other => panic!("expected a pending sum, got {:?}", other),
    }
    interpreter.provide_float(
        FloatRequest::Binary { op: BinaryOperator::Plus, left: 1.0f64.to_bits(), right: 2.5f64.to_bits() },
        3.5f64.to_bits(),
    );
    interpreter.provide_float(
        FloatRequest::Binary { op: BinaryOperator::Plus, left: 1.0f64.to_bits(), right: 2.5f64.to_bits() },
        9.0f64.to_bits(),
    );
    assert_eq!(float_result(interpreter.interpret(term)), 3.5);
}

#[test]
fn pending_float_work_leaves_the_environment_alone() {
    let mut interpreter = Interpreter::new();
    let term = Term::BinaryOp {
        op: BinaryOperator::Plus,
        left: Box::new(Term::Function {
            name: "f".to_string(),
            params: vec![],
            body: boxed(1),
        }),
        right: Box::new(Term::Float("1.5".to_string())),
    };
    assert!(matches!(interpreter.interpret(term), Err(EvalError::FloatPending(_))));
    assert!(matches!(
        interpreter.interpret(Term::Identifier("f".to_string())),
        Err(EvalError::UndefinedVariable(_))
    ));
}

#[test]
fn builtin_identity() {
    let mut interpreter = Interpreter::new();
    assert_eq!(integer_result(run(&mut interpreter, "ID(42)")), 42);
    assert_eq!(integer_result(run(&mut interpreter, "ID(ID(1+2))")), 3);
    match run(&mut interpreter, "ID()") {
        Err(EvalError::ArityMismatch { name, expected, actual }) => {
            assert_eq!(name, "ID");
            assert_eq!(expected, 1);
            assert_eq!(actual, 0);
        }
        other => panic!("expected an arity error, got {:?}", other),
    }
    match run(&mut interpreter, "ID(1,2)") {
        Err(EvalError::ArityMismatch { name, expected, actual }) => {
            assert_eq!(name, "ID");
            assert_eq!(expected, 1);
            assert_eq!(actual, 2);
        }
        other => panic!("expected an arity error, got {:?}", other),
    }
    match run(&mut interpreter, "ID") {
        Ok(Value::Builtin(name)) => assert_eq!(name, "ID"),
        other => panic!("expected the builtin, got {:?}", other),
    }
}

fn define(interpreter: &mut Interpreter, name: &str, params: &[&str], body: Term) {
    let term = Term::Function {
        name: name.to_string(),
        params: params.iter().map(|p| p.to_string()).collect(),
        body: Box::new(body),
    };
    match interpreter.interpret(term) {
        Ok(Value::Function { params: bound, .. }) => assert_eq!(bound.len(), params.len()),
        other => panic!("expected a function, got {:?}", other),
    }
}

#[test]
fn arity_is_checked() {
    let mut interpreter = Interpreter::new();
    define(&mut interpreter, "f", &["x"], Term::Identifier("x".to_string()));
    match run(&mut interpreter, "f(1,2)") {
        Err(EvalError::ArityMismatch { name, expected, actual }) => {
            assert_eq!(name, "f");
            assert_eq!(expected, 1);
            assert_eq!(actual, 2);
        }
        other => panic!("expected an arity error, got {:?}", other),
    }
    assert_eq!(integer_result(run(&mut interpreter, "f(7)")), 7);
}

#[test]
fn undefined_names() {
    let mut interpreter = Interpreter::new();
    match run(&mut interpreter, "y") {
        Err(EvalError::UndefinedVariable(name)) => assert_eq!(name, "y"),
        other => panic!("expected an undefined variable, got {:?}", other),
    }
    match run(&mut interpreter, "g(1)") {
        Err(EvalError::FunctionNotFound(name)) => assert_eq!(name, "g"),
        other => panic!("expected a missing function, got {:?}", other),
    }
}

#[test]
fn calls_bind_parameters_in_a_scope_of_their_own() {
    let mut interpreter = Interpreter::new();
    define(
        &mut interpreter,
        "add",
        &["a", "b"],
        Term::BinaryOp {
            op: BinaryOperator::Plus,
            left: Box::new(Term::Identifier("a".to_string())),
            right: Box::new(Term::Identifier("b".to_string())),
        },
    );
    assert_eq!(integer_result(run(&mut interpreter, "add(2, 3*4)")), 14);
    assert!(matches!(run(&mut interpreter, "a"), Err(EvalError::UndefinedVariable(_))));
    define(&mut interpreter, "twice", &["a"], Term::FunctionCall {
        name: "add".to_string(),
        args: vec![Term::Identifier("a".to_string()), Term::Identifier("a".to_string())],
    });
    assert_eq!(integer_result(run(&mut interpreter, "twice(21)")), 42);
}

#[test]
fn a_call_sees_the_names_of_its_caller() {
    let mut interpreter = Interpreter::new();
    define(&mut interpreter, "inner", &[], Term::Identifier("x".to_string()));
    define(&mut interpreter, "outer", &["x"], Term::FunctionCall {
        name: "inner".to_string(),
        args: vec![],
    });
    assert_eq!(integer_result(run(&mut interpreter, "outer(5)")), 5);
    assert!(matches!(run(&mut interpreter, "inner()"), Err(EvalError::UndefinedVariable(_))));
}

#[test]
fn a_failing_call_leaves_no_scope_behind() {
    let mut interpreter = Interpreter::new();
    define(&mut interpreter, "bad", &["x"], Term::Identifier("nowhere".to_string()));
    assert!(matches!(run(&mut interpreter, "bad(1)"), Err(EvalError::UndefinedVariable(_))));
    assert!(matches!(run(&mut interpreter, "x"), Err(EvalError::UndefinedVariable(_))));
    assert_eq!(integer_result(run(&mut interpreter, "ID(3)")), 3);
}

#[test]
fn redefinition_replaces_the_binding() {
    let mut interpreter = Interpreter::new();
    define(&mut interpreter, "f", &[], Term::Integer(1));
    define(&mut interpreter, "f", &[], Term::Integer(2));
    assert_eq!(integer_result(run(&mut interpreter, "f()")), 2);
}

#[test]
fn values_that_are_no_functions_cannot_be_called() {
    let mut interpreter = Interpreter::with_depth_limit(4);
    define(&mut interpreter, "f", &["x"], Term::FunctionCall {
        name: "x".to_string(),
        args: vec![],
    });
    match run(&mut interpreter, "f(1)") {
        Err(EvalError::NotCallable(name)) => assert_eq!(name, "x"),
        other => panic!("expected a value that cannot be called, got {:?}", other),
    }
}

#[test]
fn runaway_recursion_ends_at_the_depth_limit() {
    let mut interpreter = Interpreter::with_depth_limit(10);
    define(&mut interpreter, "loop_", &[], Term::FunctionCall {
        name: "loop_".to_string(),
        args: vec![],
    });
    assert!(matches!(run(&mut interpreter, "loop_()"), Err(EvalError::DepthExceeded)));
    let mut default = Interpreter::new();
    define(&mut default, "again", &[], Term::FunctionCall {
        name: "again".to_string(),
        args: vec![],
    });
    assert!(matches!(run(&mut default, "again()"), Err(EvalError::DepthExceeded)));
}

#[test]
fn operators_want_numbers() {
    let mut interpreter = Interpreter::new();
    assert!(matches!(run(&mut interpreter, "ID + 1"), Err(EvalError::InvalidOperandTypes)));
    assert!(matches!(run(&mut interpreter, "-ID"), Err(EvalError::InvalidUnaryOperand)));
    assert!(matches!(
        interpreter.apply_binary_op(BinaryOperator::Plus, Value::Unit, Value::Integer(1)),
        Err(EvalError::InvalidOperandTypes)
    ));
    assert!(matches!(
        interpreter.apply_unary_op(UnaryOperator::Neg, Value::Unit),
        Err(EvalError::InvalidUnaryOperand)
    ));
    assert_eq!(
        integer_result(interpreter.apply_binary_op(BinaryOperator::Minus, Value::Integer(5), Value::Integer(7))),
        -2
    );
}

#[test]
fn syntax_definitions_evaluate_to_unit() {
    let mut interpreter = Interpreter::new();
    let term = Term::SyntaxDefinition {
        name: "IF".to_string(),
        pattern: "if {c} then {a}".to_string(),
        precedence: 2,
        scope: Scope::Local,
    };
    assert!(matches!(interpreter.interpret(term), Ok(Value::Unit)));
    assert_eq!(integer_result(run(&mut interpreter, "1+1")), 2);
}
