use exprlang::lexer::{tokenize, Token};

/// A float token with the given text, which has to denote `value`.
fn float_token(text: &str, value: f64) -> Token {
    assert_eq!(text.parse::<f64>().unwrap(), value);
    Token::Float(text.to_string())
}

#[test]
fn test_tokenize_empty() {
    let result = tokenize("");
    assert_eq!(result, vec![]);
}

#[test]
fn test_tokenize_identifier() {
    let result = tokenize("f");
    assert_eq!(result, vec![Token::Identifier("f".to_string())]);
}

#[test]
fn test_tokenize_integer() {
    let result1 = tokenize("123");
    let result2 = tokenize("-13");
    assert_eq!(result1, vec![Token::Integer(123)]);
    assert_eq!(result2, vec![Token::Minus, Token::Integer(13)]);
}

#[test]
fn test_tokenize_float() {
    let result1 = tokenize(".123");
    let result2 = tokenize("-1.3");
    assert_eq!(result1, vec![float_token(".123", 0.123)]);
    assert_eq!(result2, vec![Token::Minus, float_token("1.3", 1.3)]);
}

#[test]
fn test_tokenize_function_call() {
    let result = tokenize("f({5},[3])");
    assert_eq!(
        result,
        vec![
            Token::Identifier("f".to_string()),
            Token::LParen,
            Token::LCurly,
            Token::Integer(5),
            Token::RCurly,
            Token::Comma,
            Token::LBracket,
            Token::Integer(3),
            Token::RBracket,
            Token::RParen,
        ]
    );
}

#[test]
fn test_tokenize_with_whitespace() {
    let result = tokenize("f ( 5 , 3 )");
    assert_eq!(
        result,
        vec![
            Token::Identifier("f".to_string()),
            Token::Whitespace,
            Token::LParen,
            Token::Whitespace,
            Token::Integer(5),
            Token::Whitespace,
            Token::Comma,
            Token::Whitespace,
            Token::Integer(3),
            Token::Whitespace,
            Token::RParen,
        ]
    );
}

#[test]
fn tokenize_operators() {
    assert_eq!(
        tokenize("+-*/^"),
        vec![Token::Plus, Token::Minus, Token::Times, Token::Div, Token::Pow]
    );
}

#[test]
fn tokenize_keeps_each_whitespace_character() {
    assert_eq!(
        tokenize("a \t\n\rb"),
        vec![
            Token::Identifier("a".to_string()),
            Token::Whitespace,
            Token::Whitespace,
            Token::Whitespace,
            Token::Whitespace,
            Token::Identifier("b".to_string()),
        ]
    );
}

#[test]
fn tokenize_unknown_characters() {
    assert_eq!(
        tokenize("a?b"),
        vec![
            Token::Identifier("a".to_string()),
            Token::Unknown('?'),
            Token::Identifier("b".to_string()),
        ]
    );
    assert_eq!(tokenize("é"), vec![Token::Unknown('é')]);
}

#[test]
fn tokenize_identifier_takes_ascii_letters_digits_underscores() {
    assert_eq!(tokenize("_x9Z"), vec![Token::Identifier("_x9Z".to_string())]);
    assert_eq!(
        tokenize("xé"),
        vec![Token::Identifier("x".to_string()), Token::Unknown('é')]
    );
    assert_eq!(
        tokenize("9x"),
        vec![Token::Integer(9), Token::Identifier("x".to_string())]
    );
}

#[test]
fn tokenize_number_with_several_dots_is_one_float() {
    assert_eq!(tokenize("1.2.3"), vec![Token::Float("1.2.3".to_string())]);
    assert_eq!(tokenize("."), vec![Token::Float(".".to_string())]);
    assert_eq!(tokenize("5."), vec![float_token("5.", 5.0)]);
}

#[test]
fn tokenize_integer_limits() {
    assert_eq!(
        tokenize("9223372036854775807"),
        vec![Token::Integer(i64::MAX)]
    );
    assert_eq!(
        tokenize("9223372036854775808"),
        vec![float_token("9223372036854775808", 9223372036854775808.0)]
    );
    assert_eq!(tokenize("007"), vec![Token::Integer(7)]);
    assert_eq!(
        tokenize("00000000000000000000000012"),
        vec![Token::Integer(12)]
    );
}
