use exprlang::ast::Term;
use exprlang::float::FloatRequest;
use exprlang::interpreter::{EvalError, Interpreter, Value};
use exprlang::parser::{ParseError, ParseErrorKind};
use exprlang::repl::{evaluate_line, show, Action, Key, LineEditor, LineError, Shown, HISTORY_SIZE};

fn type_text(editor: &mut LineEditor, text: &str) {
    for c in text.chars() {
        assert_eq!(editor.handle_key(Key::Char(c)), Action::Echo(c));
    }
}

fn enter(editor: &mut LineEditor, text: &str) {
    type_text(editor, text);
    assert_eq!(editor.handle_key(Key::Enter), Action::Submit);
    assert_eq!(editor.submit(), text);
    assert_eq!(editor.line(), "");
}

#[test]
fn typing_and_erasing() {
    let mut editor = LineEditor::new();
    assert_eq!(editor.line(), "");
    assert_eq!(editor.handle_key(Key::Backspace), Action::Nothing);
    type_text(&mut editor, "1+é");
    assert_eq!(editor.line(), "1+é");
    assert_eq!(editor.handle_key(Key::Backspace), Action::Redraw);
    assert_eq!(editor.line(), "1+");
    assert_eq!(editor.handle_key(Key::Other), Action::Nothing);
    assert_eq!(editor.line(), "1+");
    assert_eq!(editor.handle_key(Key::Interrupt), Action::Exit);
    assert_eq!(editor.line(), "1+");
}

#[test]
fn blank_lines_are_not_remembered() {
    let mut editor = LineEditor::new();
    enter(&mut editor, "");
    enter(&mut editor, "  \t");
    assert_eq!(editor.history_len(), 0);
    enter(&mut editor, " 1 ");
    assert_eq!(editor.history_len(), 1);
    assert_eq!(editor.handle_key(Key::Up), Action::Redraw);
    assert_eq!(editor.line(), " 1 ");
}

#[test]
fn history_is_walked_with_up_and_down() {
    let mut editor = LineEditor::new();
    assert_eq!(editor.handle_key(Key::Up), Action::Nothing);
    assert_eq!(editor.handle_key(Key::Down), Action::Nothing);
    enter(&mut editor, "a");
    enter(&mut editor, "b");
    enter(&mut editor, "c");
    type_text(&mut editor, "draft");
    assert_eq!(editor.handle_key(Key::Down), Action::Nothing);
    assert_eq!(editor.line(), "draft");
    assert_eq!(editor.handle_key(Key::Up), Action::Redraw);
    assert_eq!(editor.line(), "c");
    assert_eq!(editor.handle_key(Key::Up), Action::Redraw);
    assert_eq!(editor.line(), "b");
    assert_eq!(editor.handle_key(Key::Up), Action::Redraw);
    assert_eq!(editor.line(), "a");
    assert_eq!(editor.handle_key(Key::Up), Action::Redraw);
    assert_eq!(editor.line(), "a");
    assert_eq!(editor.handle_key(Key::Down), Action::Redraw);
    assert_eq!(editor.line(), "b");
    assert_eq!(editor.handle_key(Key::Down), Action::Redraw);
    assert_eq!(editor.line(), "c");
    assert_eq!(editor.handle_key(Key::Down), Action::Redraw);
    assert_eq!(editor.line(), "");
    assert_eq!(editor.handle_key(Key::Down), Action::Nothing);
    assert_eq!(editor.handle_key(Key::Up), Action::Redraw);
    assert_eq!(editor.line(), "c");
    assert_eq!(editor.handle_key(Key::Enter), Action::Submit);
    assert_eq!(editor.submit(), "c");
    assert_eq!(editor.history_len(), 4);
    assert_eq!(editor.handle_key(Key::Up), Action::Redraw);
    assert_eq!(editor.line(), "c");
}

#[test]
fn history_keeps_the_newest_hundred() {
    let mut editor = LineEditor::new();
    for i in 0..HISTORY_SIZE + 5 {
        enter(&mut editor, &format!("{}", i));
        assert_eq!(editor.history_len(), (i + 1).min(HISTORY_SIZE));
    }
    assert_eq!(HISTORY_SIZE, 100);
    assert_eq!(editor.handle_key(Key::Up), Action::Redraw);
    assert_eq!(editor.line(), "104");
    for _ in 0..HISTORY_SIZE + 5 {
        editor.handle_key(Key::Up);
    }
    assert_eq!(editor.line(), "5");
}

#[test]
fn lines_are_evaluated() {
    let mut interpreter = Interpreter::new();
    assert!(matches!(evaluate_line(&mut interpreter, " 1 + 2*3 "), Ok(Value::Integer(7))));
    assert!(matches!(evaluate_line(&mut interpreter, "2 ^ 3 ^ 2"), Ok(Value::Integer(512))));
    assert!(matches!(evaluate_line(&mut interpreter, "ID( 42 )"), Ok(Value::Integer(42))));
    assert!(matches!(evaluate_line(&mut interpreter, "1 2"), Ok(Value::Integer(1))));
    match evaluate_line(&mut interpreter, "") {
        Err(LineError::Parse(error)) => assert_eq!(
            error,
            ParseError { kind: ParseErrorKind::UnexpectedEndOfInput, position: 0 }
        ),
        other => panic!("expected a parse error, got {:?}", other),
    }
    match evaluate_line(&mut interpreter, "( 1") {
        Err(LineError::Parse(error)) => assert_eq!(
            error,
            ParseError { kind: ParseErrorKind::UnexpectedToken, position: 2 }
        ),
        other => panic!("expected a parse error, got {:?}", other),
    }
    match evaluate_line(&mut interpreter, "x") {
        Err(LineError::Eval(EvalError::UndefinedVariable(name))) => assert_eq!(name, "x"),
        other => panic!("expected an undefined variable, got {:?}", other),
    }
    match evaluate_line(&mut interpreter, "1.5") {
        Err(LineError::Eval(EvalError::FloatPending(FloatRequest::Literal(text)))) => {
            assert_eq!(text, "1.5")
        }
        other => panic!("expected pending float work, got {:?}", other),
    }
}

#[test]
fn values_are_shown() {
    assert_eq!(show(&Value::Integer(0)), Shown::Text("0".to_string()));
    assert_eq!(show(&Value::Integer(7)), Shown::Text("7".to_string()));
    assert_eq!(show(&Value::Integer(-42)), Shown::Text("-42".to_string()));
    assert_eq!(show(&Value::Integer(1205)), Shown::Text("1205".to_string()));
    assert_eq!(show(&Value::Integer(i64::MAX)), Shown::Text(i64::MAX.to_string()));
    assert_eq!(show(&Value::Integer(i64::MIN)), Shown::Text(i64::MIN.to_string()));
    assert_eq!(show(&Value::Float(2.5f64.to_bits())), Shown::Float(2.5f64.to_bits()));
    assert_eq!(
        show(&Value::Function { params: vec![], body: Term::Integer(1) }),
        Shown::Text("Function created".to_string())
    );
    assert_eq!(
        show(&Value::Builtin("ID".to_string())),
        Shown::Text("Builtin: ID".to_string())
    );
    assert_eq!(show(&Value::Unit), Shown::Nothing);
}

#[test]
fn errors_are_described() {
    assert_eq!(
        EvalError::UndefinedVariable("x".to_string()).message(),
        "Undefined variable: x"
    );
    assert_eq!(
        EvalError::ArityMismatch { name: "f".to_string(), expected: 1, actual: 12 }.message(),
        "Arity mismatch: f expected 1 arguments, got 12"
    );
    assert_eq!(EvalError::NotCallable("x".to_string()).message(), "x is not a function");
    assert_eq!(
        EvalError::FunctionNotFound("g".to_string()).message(),
        "Function not found: g"
    );
    assert_eq!(EvalError::UnknownBuiltin("B".to_string()).message(), "Unknown builtin: B");
    assert_eq!(EvalError::DivisionByZero.message(), "Division by zero");
    assert_eq!(
        EvalError::InvalidOperandTypes.message(),
        "Invalid types for binary operation"
    );
    assert_eq!(EvalError::InvalidUnaryOperand.message(), "Invalid type for negation");
    assert_eq!(EvalError::DepthExceeded.message(), "Call depth exceeded");
    assert_eq!(
        EvalError::FloatPending(FloatRequest::FromInteger(1)).message(),
        "Floating-point work pending"
    );
}
