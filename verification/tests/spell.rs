use exprlang::ast::{BinaryOperator, Term, UnaryOperator};
use exprlang::interpreter::{Interpreter, Value};
use exprlang::lexer::{tokenize, Token};
use exprlang::parser::parse;
use exprlang::repl::evaluate_line;
use exprlang::spell::{spell, to_text};

fn read(text: &str) -> Term {
    let tokens: Vec<Token> =
        tokenize(text).into_iter().filter(|t| !matches!(t, Token::Whitespace)).collect();
    let (rest, term) = parse(&tokens).unwrap();
    assert!(rest.is_empty());
    term
}

/// Reads a text, writes the tree as text and checks that reading what was
/// written gives the tree back; returns what was written.
fn rewritten(text: &str) -> String {
    let term = read(text);
    let written = to_text(&term).unwrap();
    assert_eq!(read(&written), term);
    written
}

#[test]
fn tokens_are_spelled_one_after_the_other() {
    assert_eq!(spell(&tokenize("f ( 5 , 3 )")), "f ( 5 , 3 )");
    assert_eq!(spell(&tokenize("1.5+x_1*[2]{3}/4^?")), "1.5+x_1*[2]{3}/4^?");
    assert_eq!(spell(&tokenize("a\tb")), "a b");
    assert_eq!(spell(&[]), "");
    assert_eq!(spell(&[Token::Integer(-12), Token::Integer(0)]), "-120");
    assert_eq!(spell(&tokenize("007")), "7");
}

#[test]
fn spelling_and_tokenizing_agree() {
    for text in ["2+3*4", "f(1,x)", ".5-1.2.3", "( a )", "9223372036854775808/2"] {
        let tokens = tokenize(text);
        assert_eq!(tokenize(&spell(&tokens)), tokens);
    }
}

#[test]
fn expressions_are_written_with_few_parentheses() {
    assert_eq!(rewritten("2 + 3 * 4"), "2+3*4");
    assert_eq!(rewritten("(1 + 2) * 3"), "(1+2)*3");
    assert_eq!(rewritten("2 ^ 3 ^ 2"), "2^3^2");
    assert_eq!(rewritten("(2 ^ 3) ^ 2"), "(2^3)^2");
    assert_eq!(rewritten("-2 ^ 2"), "-2^2");
    assert_eq!(rewritten("( - 2 ) ^ 2"), "(-2)^2");
    assert_eq!(rewritten("8 - (3 - 2) - 1"), "8-(3-2)-1");
    assert_eq!(rewritten("f( g ( 1.5 ) , x1 / 2 )"), "f(g(1.5),x1/2)");
}

#[test]
fn written_expressions_evaluate_alike() {
    for text in ["2 + 3 * 4", "(1 + 2) * 3", "2 ^ 3 ^ 2", "-2 ^ 2", "8 - (3 - 2)", "ID(7) * 6 / 4"] {
        let mut first = Interpreter::new();
        let mut second = Interpreter::new();
        let direct = evaluate_line(&mut first, text);
        let written = evaluate_line(&mut second, &rewritten(text));
        match (direct, written) {
            (Ok(Value::Integer(a)), Ok(Value::Integer(b))) => assert_eq!(a, b),
            other => panic!("expected two integers, got {:?}", other),
        }
    }
}

#[test]
fn terms_without_text() {
    let definition = Term::Function {
        name: "f".to_string(),
        params: vec!["x".to_string()],
        body: Box::new(Term::Identifier("x".to_string())),
    };
    assert_eq!(to_text(&definition), None);
    let negative = Term::BinaryOp {
        op: BinaryOperator::Minus,
        left: Box::new(Term::Integer(-5)),
        right: Box::new(Term::UnaryOp {
            op: UnaryOperator::Neg,
            operand: Box::new(Term::Integer(3)),
        }),
    };
    assert_eq!(to_text(&negative), Some("-5--3".to_string()));
}
