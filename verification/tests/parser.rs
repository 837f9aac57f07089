use exprlang::ast::{BinaryOperator, Term, UnaryOperator};
use exprlang::lexer::{tokenize, Token};
use exprlang::parser::{parse, skip_whitespace, ParseError, ParseErrorKind};
use std::f64::consts::PI;

#[test]
fn test_parse_integer() {
    let tokens = tokenize("42");
    let result = parse(&tokens);
    assert!(result.is_ok());
    if let Ok((_, term)) = result {
        assert_eq!(term, Term::Integer(42));
    }
}

#[test]
fn test_parse_float() {
    let tokens = tokenize(format!("{}", PI).as_str());
    let result = parse(&tokens);
    assert!(result.is_ok());
    if let Ok((_, term)) = result {
        assert_eq!(term, Term::Float(format!("{}", PI)));
        if let Term::Float(text) = term {
            assert_eq!(text.parse::<f64>().unwrap(), PI);
        }
    }
}

#[test]
fn test_parse_addition() {
    let tokens = tokenize("2 + 3");
    let result = parse(&tokens);
    assert!(result.is_ok());
    if let Ok((_, term)) = result {
        assert_eq!(
            term,
            Term::BinaryOp {
                op: BinaryOperator::Plus,
                left: Box::new(Term::Integer(2)),
                right: Box::new(Term::Integer(3)),
            }
        );
    }
}

#[test]
fn test_parse_precedence() {
    let tokens = tokenize("2 + 3 * 4");
    let result = parse(&tokens);
    assert!(result.is_ok());
    if let Ok((_, term)) = result {
        assert_eq!(
            term,
            Term::BinaryOp {
                op: BinaryOperator::Plus,
                left: Box::new(Term::Integer(2)),
                right: Box::new(Term::BinaryOp {
                    op: BinaryOperator::Times,
                    left: Box::new(Term::Integer(3)),
                    right: Box::new(Term::Integer(4)),
                }),
            }
        );
    }
}

#[test]
fn test_parse_unary_precedence() {
    let tokens = tokenize("-2^2");
    let result = parse(&tokens);
    assert!(result.is_ok());
    if let Ok((_, term)) = result {
        assert_eq!(
            term,
            Term::UnaryOp {
                op: UnaryOperator::Neg,
                operand: Box::new(Term::BinaryOp {
                    op: BinaryOperator::Pow,
                    left: Box::new(Term::Integer(2)),
                    right: Box::new(Term::Integer(2)),
                }),
            }
        );
    }
}

#[test]
fn test_parse_parentheses() {
    let tokens = tokenize("(1 + 2) * 3");
    let result = parse(&tokens);
    assert!(result.is_ok());
    if let Ok((_, term)) = result {
        assert_eq!(
            term,
            Term::BinaryOp {
                op: BinaryOperator::Times,
                left: Box::new(Term::BinaryOp {
                    op: BinaryOperator::Plus,
                    left: Box::new(Term::Integer(1)),
                    right: Box::new(Term::Integer(2)),
                }),
                right: Box::new(Term::Integer(3)),
            }
        );
    }
}

#[test]
fn test_parse_function_call() {
    let tokens = tokenize("ID(42)");
    let result = parse(&tokens);
    assert!(result.is_ok());
    if let Ok((_, term)) = result {
        assert_eq!(
            term,
            Term::FunctionCall {
                name: "ID".to_string(),
                args: vec![Term::Integer(42)],
            }
        );
    }
}

#[test]
fn test_parse_nested_function_calls() {
    let tokens = tokenize("ID(ID(42))");
    let result = parse(&tokens);
    assert!(result.is_ok());
    if let Ok((_, term)) = result {
        assert_eq!(
            term,
            Term::FunctionCall {
                name: "ID".to_string(),
                args: vec![Term::FunctionCall {
                    name: "ID".to_string(),
                    args: vec![Term::Integer(42)],
                }],
            }
        );
    }
}

fn boxed(n: i64) -> Box<Term> {
    Box::new(Term::Integer(n))
}

fn parsed(text: &str) -> (usize, Term) {
    let tokens = tokenize(text);
    let (rest, term) = parse(&tokens).unwrap();
    (tokens.len() - rest.len(), term)
}

fn failure(text: &str) -> ParseError {
    let tokens = tokenize(text);
    parse(&tokens).unwrap_err()
}

#[test]
fn power_associates_to_the_right() {
    assert_eq!(
        parsed("2^3^2"),
        (
            5,
            Term::BinaryOp {
                op: BinaryOperator::Pow,
                left: boxed(2),
                right: Box::new(Term::BinaryOp { op: BinaryOperator::Pow, left: boxed(3), right: boxed(2) }),
            }
        )
    );
}

#[test]
fn sums_and_products_associate_to_the_left() {
    assert_eq!(
        parsed("8-3-2").1,
        Term::BinaryOp {
            op: BinaryOperator::Minus,
            left: Box::new(Term::BinaryOp { op: BinaryOperator::Minus, left: boxed(8), right: boxed(3) }),
            right: boxed(2),
        }
    );
    assert_eq!(
        parsed("8/4*2").1,
        Term::BinaryOp {
            op: BinaryOperator::Times,
            left: Box::new(Term::BinaryOp { op: BinaryOperator::Div, left: boxed(8), right: boxed(4) }),
            right: boxed(2),
        }
    );
}

#[test]
fn consecutive_minus_signs_nest() {
    assert_eq!(
        parsed("--5").1,
        Term::UnaryOp {
            op: UnaryOperator::Neg,
            operand: Box::new(Term::UnaryOp { op: UnaryOperator::Neg, operand: boxed(5) }),
        }
    );
    assert_eq!(
        parsed("2*-3").1,
        Term::BinaryOp {
            op: BinaryOperator::Times,
            left: boxed(2),
            right: Box::new(Term::UnaryOp { op: UnaryOperator::Neg, operand: boxed(3) }),
        }
    );
}

#[test]
fn calls_take_any_number_of_arguments() {
    assert_eq!(
        parsed("f()"),
        (3, Term::FunctionCall { name: "f".to_string(), args: vec![] })
    );
    assert_eq!(
        parsed("f ( 1 , x )").1,
        Term::Identifier("f".to_string())
    );
    assert_eq!(
        parsed("f( 1 , x )"),
        (
            10,
            Term::FunctionCall {
                name: "f".to_string(),
                args: vec![Term::Integer(1), Term::Identifier("x".to_string())],
            }
        )
    );
}

#[test]
fn parse_leaves_the_rest() {
    let tokens = tokenize("1 2");
    let (rest, term) = parse(&tokens).unwrap();
    assert_eq!(term, Term::Integer(1));
    assert_eq!(rest, &[Token::Integer(2)][..]);
    assert_eq!(parsed("2 ^ 3"), (2, Term::Integer(2)));
}

#[test]
fn parse_errors_name_the_position() {
    assert_eq!(
        failure(""),
        ParseError { kind: ParseErrorKind::UnexpectedEndOfInput, position: 0 }
    );
    assert_eq!(
        failure("1+"),
        ParseError { kind: ParseErrorKind::UnexpectedEndOfInput, position: 2 }
    );
    assert_eq!(
        failure("1 + "),
        ParseError { kind: ParseErrorKind::UnexpectedEndOfInput, position: 4 }
    );
    assert_eq!(
        failure("(1+2"),
        ParseError { kind: ParseErrorKind::UnexpectedToken, position: 4 }
    );
    assert_eq!(
        failure("(1 2)"),
        ParseError { kind: ParseErrorKind::UnexpectedToken, position: 3 }
    );
    assert_eq!(
        failure("*3"),
        ParseError { kind: ParseErrorKind::UnexpectedToken, position: 0 }
    );
    assert_eq!(
        failure("f(1,)"),
        ParseError { kind: ParseErrorKind::UnexpectedToken, position: 4 }
    );
    assert_eq!(
        failure("f(1 2)"),
        ParseError { kind: ParseErrorKind::UnexpectedToken, position: 4 }
    );
    assert_eq!(
        failure("f(1"),
        ParseError { kind: ParseErrorKind::UnexpectedToken, position: 3 }
    );
    assert_eq!(
        failure("2 * ?"),
        ParseError { kind: ParseErrorKind::UnexpectedToken, position: 4 }
    );
}

#[test]
fn skip_whitespace_stops_at_the_first_other_token() {
    let tokens = tokenize("  1 ");
    assert_eq!(skip_whitespace(&tokens, 0), 2);
    assert_eq!(skip_whitespace(&tokens, 2), 2);
    assert_eq!(skip_whitespace(&tokens, 3), 4);
    assert_eq!(skip_whitespace(&tokens, 4), 4);
}
