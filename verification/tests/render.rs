use exprlang::ast::{BinaryOperator, Scope, Term, UnaryOperator};
use exprlang::lexer::{tokenize, Token};
use exprlang::parser::parse;
use exprlang::render::{place_of, render, token_of, Place};

fn tokens_of(text: &str) -> Vec<Token> {
    tokenize(text).into_iter().filter(|t| !matches!(t, Token::Whitespace)).collect()
}

fn parsed(text: &str) -> Term {
    let tokens = tokens_of(text);
    let (rest, term) = parse(&tokens).unwrap();
    assert!(rest.is_empty());
    term
}

/// Parses a text, writes the tree down and checks that parsing what was
/// written gives the tree back; returns what was written.
fn rewritten(text: &str) -> Vec<Token> {
    let term = parsed(text);
    let written = render(&term).unwrap();
    let (rest, again) = parse(&written).unwrap();
    assert!(rest.is_empty());
    assert_eq!(again, term);
    written
}

#[test]
fn rendering_leaves_out_redundant_parentheses() {
    assert_eq!(rewritten("2 + 3 * 4"), tokens_of("2+3*4"));
    assert_eq!(rewritten("2 + (3 * 4)"), tokens_of("2+3*4"));
    assert_eq!(rewritten("(2 + 3) + 4"), tokens_of("2+3+4"));
    assert_eq!(rewritten("((2)) ^ (3 ^ 2)"), tokens_of("2^3^2"));
    assert_eq!(rewritten("(8 / 4) * 2"), tokens_of("8/4*2"));
    assert_eq!(rewritten("-(2 ^ 2)"), tokens_of("-2^2"));
    assert_eq!(rewritten("f((1), (x + 2))"), tokens_of("f(1,x+2)"));
    assert_eq!(rewritten("f()"), tokens_of("f()"));
    assert_eq!(rewritten("(-2) * 3"), tokens_of("-2*3"));
    assert_eq!(rewritten("1.5 + x"), tokens_of("1.5+x"));
}

#[test]
fn rendering_keeps_needed_parentheses() {
    assert_eq!(rewritten("(1 + 2) * 3"), tokens_of("(1+2)*3"));
    assert_eq!(rewritten("2 + (3 + 4)"), tokens_of("2+(3+4)"));
    assert_eq!(rewritten("8 - (3 - 2)"), tokens_of("8-(3-2)"));
    assert_eq!(rewritten("8 / (4 * 2)"), tokens_of("8/(4*2)"));
    assert_eq!(rewritten("(2 ^ 3) ^ 2"), tokens_of("(2^3)^2"));
    assert_eq!(rewritten("(-2) ^ 2"), tokens_of("(-2)^2"));
    assert_eq!(rewritten("2 ^ -2"), tokens_of("2^(-2)"));
    assert_eq!(rewritten("2 * -3"), tokens_of("2*(-3)"));
    assert_eq!(rewritten("--5"), tokens_of("-(-5)"));
    assert_eq!(rewritten("2 * (3 + 4) ^ (1 + 1)"), tokens_of("2*(3+4)^(1+1)"));
    assert_eq!(rewritten("f(g(1 * (2 + 3)), -x)"), tokens_of("f(g(1*(2+3)),-x)"));
}

#[test]
fn definitions_cannot_be_rendered() {
    let definition = Term::Function {
        name: "f".to_string(),
        params: vec![],
        body: Box::new(Term::Integer(1)),
    };
    assert_eq!(render(&definition), None);
    let rule = Term::SyntaxDefinition {
        name: "R".to_string(),
        pattern: "p".to_string(),
        precedence: 1,
        scope: Scope::Global,
    };
    assert_eq!(render(&rule), None);
    let inside = Term::BinaryOp {
        op: BinaryOperator::Plus,
        left: Box::new(Term::Integer(1)),
        right: Box::new(Term::FunctionCall { name: "g".to_string(), args: vec![definition] }),
    };
    assert_eq!(render(&inside), None);
    let negative = Term::UnaryOp { op: UnaryOperator::Neg, operand: Box::new(rule) };
    assert_eq!(render(&negative), None);
}

#[test]
fn places_and_operator_tokens() {
    assert_eq!(place_of(&parsed("1+2")), Place::Sum);
    assert_eq!(place_of(&parsed("1/2")), Place::Product);
    assert_eq!(place_of(&parsed("-1")), Place::Signed);
    assert_eq!(place_of(&parsed("1^2")), Place::Power);
    assert_eq!(place_of(&parsed("f(1)")), Place::Primary);
    assert_eq!(place_of(&parsed("x")), Place::Primary);
    assert!(Place::Sum.rank() < Place::Product.rank());
    assert!(Place::Product.rank() < Place::Signed.rank());
    assert!(Place::Signed.rank() < Place::Power.rank());
    assert!(Place::Power.rank() < Place::Primary.rank());
    assert_eq!(token_of(BinaryOperator::Plus), Token::Plus);
    assert_eq!(token_of(BinaryOperator::Minus), Token::Minus);
    assert_eq!(token_of(BinaryOperator::Times), Token::Times);
    assert_eq!(token_of(BinaryOperator::Div), Token::Div);
    assert_eq!(token_of(BinaryOperator::Pow), Token::Pow);
}
