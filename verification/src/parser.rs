use vstd::prelude::*;
use vstd::slice::slice_subrange;
use crate::ast::{terms_view, BinaryOperator, Term, TermModel, UnaryOperator};
use crate::lexer::{lex, tokens_view, without_spaces, Token, TokenModel};

pub mod context;
pub mod program;

verus! {

/// What kind of violation a parse stopped on.
#[derive(Debug, Clone, Copy, PartialEq, Eq, Structural)]
pub enum ParseErrorKind {
    /// The tokens ended where an operand was due.
    UnexpectedEndOfInput,
    /// A token, or the end of the tokens, stood where another token was due.
    UnexpectedToken,
}

/// A violation of the grammar and the index of the token it was found at.
/// An index equal to the number of tokens means the end of the input.
#[derive(Debug, Clone, Copy, PartialEq, Eq, Structural)]
pub struct ParseError {
    pub kind: ParseErrorKind,
    pub position: usize,
}

/// The error for tokens that end too early.
pub open spec fn end_of_input(pos: int) -> ParseError {
    ParseError { kind: ParseErrorKind::UnexpectedEndOfInput, position: pos as usize }
}

/// The error for a token out of place.
pub open spec fn unexpected(pos: int) -> ParseError {
    ParseError { kind: ParseErrorKind::UnexpectedToken, position: pos as usize }
}

/// The first position from `pos` on that holds no whitespace token.
pub open spec fn skip_spaces(tokens: Seq<TokenModel>, pos: int) -> int
    decreases tokens.len() - pos,
{
    if 0 <= pos < tokens.len() && tokens[pos] is Whitespace {
        skip_spaces(tokens, pos + 1)
    } else {
        pos
    }
}

/// Skipping whitespace moves forward and stays within the tokens.
pub proof fn lemma_skip_spaces_bounds(tokens: Seq<TokenModel>, pos: int)
    requires
        0 <= pos <= tokens.len(),
    ensures
        pos <= skip_spaces(tokens, pos) <= tokens.len(),
        skip_spaces(tokens, pos) < tokens.len() ==> !(tokens[skip_spaces(tokens, pos)]
            is Whitespace),
    decreases tokens.len() - pos,
{
    if pos < tokens.len() && tokens[pos] is Whitespace {
        lemma_skip_spaces_bounds(tokens, pos + 1);
    }
}

/// The node for a binary operator.
pub open spec fn binary(op: BinaryOperator, left: TermModel, right: TermModel) -> TermModel {
    TermModel::BinaryOp { op, left: Box::new(left), right: Box::new(right) }
}

/// The node for a negation.
pub open spec fn negation(operand: TermModel) -> TermModel {
    TermModel::UnaryOp { op: UnaryOperator::Neg, operand: Box::new(operand) }
}

/// An expression from `pos` on: the position after it and its tree, or
/// the violation found.
///
/// The grammar, from the loosest binding to the tightest:
/// sums and differences, associating to the left; products and quotients,
/// associating to the left; a leading minus; powers, associating to the
/// right; primaries. Every successful parse ends after `pos`; the branches
/// that test for it are there for the definition's sake and are never
/// taken.
pub open spec fn grammar_expression(tokens: Seq<TokenModel>, pos: int) -> Result<
    (int, TermModel),
    ParseError,
>
    decreases tokens.len() - pos, 9nat,
{
    grammar_add_sub(tokens, pos)
}

/// A product, then any number of `+` or `-` with a product each.
pub open spec fn grammar_add_sub(tokens: Seq<TokenModel>, pos: int) -> Result<
    (int, TermModel),
    ParseError,
>
    decreases tokens.len() - pos, 8nat,
{
    match grammar_mul_div(tokens, pos) {
        Ok((next, left)) => if pos < next <= tokens.len() {
            grammar_add_sub_tail(tokens, next, left)
        } else {
            Err(unexpected(pos))
        },
        Err(error) => Err(error),
    }
}

/// The operators and products that follow the sum `left`, which ends at
/// `pos`.
pub open spec fn grammar_add_sub_tail(tokens: Seq<TokenModel>, pos: int, left: TermModel) -> Result<
    (int, TermModel),
    ParseError,
>
    decreases tokens.len() - pos, 7nat,
{
    if 0 <= pos < tokens.len() && (tokens[pos] is Plus || tokens[pos] is Minus) {
        let op = if tokens[pos] is Plus {
            BinaryOperator::Plus
        } else {
            BinaryOperator::Minus
        };
        match grammar_mul_div(tokens, pos + 1) {
            Ok((next, right)) => if pos < next <= tokens.len() {
                grammar_add_sub_tail(tokens, next, binary(op, left, right))
            } else {
                Err(unexpected(pos))
            },
            Err(error) => Err(error),
        }
    } else if 0 <= pos < tokens.len() && tokens[pos] is Whitespace {
        grammar_add_sub_tail(tokens, pos + 1, left)
    } else {
        Ok((pos, left))
    }
}

/// A unary expression, then any number of `*` or `/` with a power each.
pub open spec fn grammar_mul_div(tokens: Seq<TokenModel>, pos: int) -> Result<
    (int, TermModel),
    ParseError,
>
    decreases tokens.len() - pos, 6nat,
{
    match grammar_unary(tokens, pos) {
        Ok((next, left)) => if pos < next <= tokens.len() {
            grammar_mul_div_tail(tokens, next, left)
        } else {
            Err(unexpected(pos))
        },
        Err(error) => Err(error),
    }
}

/// The operators and powers that follow the product `left`, which ends at
/// `pos`.
pub open spec fn grammar_mul_div_tail(tokens: Seq<TokenModel>, pos: int, left: TermModel) -> Result<
    (int, TermModel),
    ParseError,
>
    decreases tokens.len() - pos, 5nat,
{
    if 0 <= pos < tokens.len() && (tokens[pos] is Times || tokens[pos] is Div) {
        let op = if tokens[pos] is Times {
            BinaryOperator::Times
        } else {
            BinaryOperator::Div
        };
        match grammar_pow(tokens, pos + 1) {
            Ok((next, right)) => if pos < next <= tokens.len() {
                grammar_mul_div_tail(tokens, next, binary(op, left, right))
            } else {
                Err(unexpected(pos))
            },
            Err(error) => Err(error),
        }
    } else if 0 <= pos < tokens.len() && tokens[pos] is Whitespace {
        grammar_mul_div_tail(tokens, pos + 1, left)
    } else {
        Ok((pos, left))
    }
}

/// A power, or a minus and the power it negates.
pub open spec fn grammar_unary(tokens: Seq<TokenModel>, pos: int) -> Result<
    (int, TermModel),
    ParseError,
>
    decreases tokens.len() - pos, 4nat,
{
    let start = skip_spaces(tokens, pos);
    if 0 <= pos <= start < tokens.len() {
        if tokens[start] is Minus {
            match grammar_pow(tokens, start + 1) {
                Ok((next, operand)) => Ok((next, negation(operand))),
                Err(error) => Err(error),
            }
        } else {
            grammar_pow(tokens, start)
        }
    } else {
        Err(end_of_input(start))
    }
}

/// A primary, or a primary, `^` and the power it is raised to.
pub open spec fn grammar_pow(tokens: Seq<TokenModel>, pos: int) -> Result<
    (int, TermModel),
    ParseError,
>
    decreases tokens.len() - pos, 3nat,
{
    match grammar_primary(tokens, pos) {
        Ok((next, left)) => if pos <= next < tokens.len() && tokens[next] is Pow {
            match grammar_pow(tokens, next + 1) {
                Ok((end, right)) => Ok((end, binary(BinaryOperator::Pow, left, right))),
                Err(error) => Err(error),
            }
        } else {
            Ok((next, left))
        },
        Err(error) => Err(error),
    }
}

/// A number, a name, a call, an expression in parentheses, or a minus and
/// the primary it negates.
pub open spec fn grammar_primary(tokens: Seq<TokenModel>, pos: int) -> Result<
    (int, TermModel),
    ParseError,
>
    decreases tokens.len() - pos, 2nat,
{
    let start = skip_spaces(tokens, pos);
    if 0 <= pos <= start < tokens.len() {
        match tokens[start] {
            TokenModel::Minus => match grammar_primary(tokens, start + 1) {
                Ok((next, operand)) => Ok((next, negation(operand))),
                Err(error) => Err(error),
            },
            TokenModel::Integer(n) => Ok((start + 1, TermModel::Integer(n))),
            TokenModel::Float(text) => Ok((start + 1, TermModel::Float(text))),
            TokenModel::Identifier(name) => if start + 1 < tokens.len() && tokens[start + 1]
                is LParen {
                grammar_function_call(tokens, start)
            } else {
                Ok((start + 1, TermModel::Identifier(name)))
            },
            TokenModel::LParen => match grammar_expression(tokens, start + 1) {
                Ok((next, inner)) => {
                    let close = skip_spaces(tokens, next);
                    if 0 <= close < tokens.len() && tokens[close] is RParen {
                        Ok((close + 1, inner))
                    } else {
                        Err(unexpected(close))
                    }
                },
                Err(error) => Err(error),
            },
            _ => Err(unexpected(start)),
        }
    } else {
        Err(end_of_input(start))
    }
}

/// A name, `(`, expressions separated by commas, and `)`. Whitespace may
/// stand after `(`, around a comma and before `)`.
pub open spec fn grammar_function_call(tokens: Seq<TokenModel>, pos: int) -> Result<
    (int, TermModel),
    ParseError,
>
    decreases tokens.len() - pos, 1nat,
{
    if !(0 <= pos < tokens.len()) {
        Err(end_of_input(pos))
    } else {
        match tokens[pos] {
            TokenModel::Identifier(name) => if pos + 1 < tokens.len() && tokens[pos + 1] is LParen {
                let first = skip_spaces(tokens, pos + 2);
                if 0 <= first < tokens.len() && tokens[first] is RParen {
                    Ok((first + 1, TermModel::FunctionCall { name, args: Seq::empty() }))
                } else if pos < first <= tokens.len() {
                    grammar_call_args(tokens, first, name, Seq::empty())
                } else {
                    Err(unexpected(pos))
                }
            } else {
                Err(unexpected(pos + 1))
            },
            _ => Err(unexpected(pos)),
        }
    }
}

/// The arguments of a call from `pos` on, after the arguments `done`.
pub open spec fn grammar_call_args(
    tokens: Seq<TokenModel>,
    pos: int,
    name: Seq<char>,
    done: Seq<TermModel>,
) -> Result<(int, TermModel), ParseError>
    decreases tokens.len() - pos, 10nat,
{
    match grammar_expression(tokens, pos) {
        Ok((next, arg)) => {
            let after = skip_spaces(tokens, next);
            if 0 <= after < tokens.len() && tokens[after] is Comma {
                let following = skip_spaces(tokens, after + 1);
                if pos < following <= tokens.len() {
                    grammar_call_args(tokens, following, name, done.push(arg))
                } else {
                    Err(unexpected(pos))
                }
            } else if 0 <= after < tokens.len() && tokens[after] is RParen {
                Ok((after + 1, TermModel::FunctionCall { name, args: done.push(arg) }))
            } else {
                Err(unexpected(after))
            }
        },
        Err(error) => Err(error),
    }
}

/// A successful parse ends after the position it started at, and within
/// the tokens; a failed one names a position from its start on, at most
/// the end of the tokens.
pub open spec fn advances(
    tokens: Seq<TokenModel>,
    pos: int,
    parsed: Result<(int, TermModel), ParseError>,
) -> bool {
    match parsed {
        Ok((next, _)) => pos < next <= tokens.len(),
        Err(error) => pos <= error.position <= tokens.len(),
    }
}

/// A successful tail ends no earlier than it started, and within the
/// tokens; a failed one names a position from its start on, at most the
/// end of the tokens.
pub open spec fn stays(
    tokens: Seq<TokenModel>,
    pos: int,
    parsed: Result<(int, TermModel), ParseError>,
) -> bool {
    match parsed {
        Ok((next, _)) => pos <= next <= tokens.len(),
        Err(error) => pos <= error.position <= tokens.len(),
    }
}

/// An expression takes at least one token; where there is none, the error
/// names a position within the tokens or their end.
pub proof fn lemma_expression_advances(tokens: Seq<TokenModel>, pos: int)
    requires
        0 <= pos <= tokens.len() <= usize::MAX,
    ensures
        advances(tokens, pos, grammar_expression(tokens, pos)),
    decreases tokens.len() - pos, 9nat,
{
    lemma_add_sub_advances(tokens, pos);
}

/// A sum takes at least one token.
pub proof fn lemma_add_sub_advances(tokens: Seq<TokenModel>, pos: int)
    requires
        0 <= pos <= tokens.len() <= usize::MAX,
    ensures
        advances(tokens, pos, grammar_add_sub(tokens, pos)),
        grammar_mul_div(tokens, pos) matches Ok((next, left)) ==> grammar_add_sub(tokens, pos)
            == grammar_add_sub_tail(tokens, next, left),
    decreases tokens.len() - pos, 8nat,
{
    lemma_mul_div_advances(tokens, pos);
    match grammar_mul_div(tokens, pos) {
        Ok((next, left)) => {
            lemma_add_sub_tail_stays(tokens, next, left);
        },
        Err(_) => {},
    }
}

/// The tail of a sum ends within the tokens, and each of its products
/// takes at least one token.
pub proof fn lemma_add_sub_tail_stays(tokens: Seq<TokenModel>, pos: int, left: TermModel)
    requires
        0 <= pos <= tokens.len() <= usize::MAX,
    ensures
        stays(tokens, pos, grammar_add_sub_tail(tokens, pos, left)),
    decreases tokens.len() - pos, 7nat,
{
    if pos < tokens.len() && (tokens[pos] is Plus || tokens[pos] is Minus) {
        let op = if tokens[pos] is Plus {
            BinaryOperator::Plus
        } else {
            BinaryOperator::Minus
        };
        lemma_mul_div_advances(tokens, pos + 1);
        match grammar_mul_div(tokens, pos + 1) {
            Ok((next, right)) => {
                lemma_add_sub_tail_stays(tokens, next, binary(op, left, right));
            },
            Err(_) => {},
        }
    } else if pos < tokens.len() && tokens[pos] is Whitespace {
        lemma_add_sub_tail_stays(tokens, pos + 1, left);
    }
}

/// A product takes at least one token.
pub proof fn lemma_mul_div_advances(tokens: Seq<TokenModel>, pos: int)
    requires
        0 <= pos <= tokens.len() <= usize::MAX,
    ensures
        advances(tokens, pos, grammar_mul_div(tokens, pos)),
        grammar_unary(tokens, pos) matches Ok((next, left)) ==> grammar_mul_div(tokens, pos)
            == grammar_mul_div_tail(tokens, next, left),
    decreases tokens.len() - pos, 6nat,
{
    lemma_unary_advances(tokens, pos);
    match grammar_unary(tokens, pos) {
        Ok((next, left)) => {
            lemma_mul_div_tail_stays(tokens, next, left);
        },
        Err(_) => {},
    }
}

/// The tail of a product ends within the tokens.
pub proof fn lemma_mul_div_tail_stays(tokens: Seq<TokenModel>, pos: int, left: TermModel)
    requires
        0 <= pos <= tokens.len() <= usize::MAX,
    ensures
        stays(tokens, pos, grammar_mul_div_tail(tokens, pos, left)),
    decreases tokens.len() - pos, 5nat,
{
    if pos < tokens.len() && (tokens[pos] is Times || tokens[pos] is Div) {
        let op = if tokens[pos] is Times {
            BinaryOperator::Times
        } else {
            BinaryOperator::Div
        };
        lemma_pow_advances(tokens, pos + 1);
        match grammar_pow(tokens, pos + 1) {
            Ok((next, right)) => {
                lemma_mul_div_tail_stays(tokens, next, binary(op, left, right));
            },
            Err(_) => {},
        }
    } else if pos < tokens.len() && tokens[pos] is Whitespace {
        lemma_mul_div_tail_stays(tokens, pos + 1, left);
    }
}

/// A unary expression takes at least one token.
pub proof fn lemma_unary_advances(tokens: Seq<TokenModel>, pos: int)
    requires
        0 <= pos <= tokens.len() <= usize::MAX,
    ensures
        advances(tokens, pos, grammar_unary(tokens, pos)),
    decreases tokens.len() - pos, 4nat,
{
    lemma_skip_spaces_bounds(tokens, pos);
    let start = skip_spaces(tokens, pos);
    if start < tokens.len() {
        if tokens[start] is Minus {
            lemma_pow_advances(tokens, start + 1);
        } else {
            lemma_pow_advances(tokens, start);
        }
    }
}

/// A power takes at least one token.
pub proof fn lemma_pow_advances(tokens: Seq<TokenModel>, pos: int)
    requires
        0 <= pos <= tokens.len() <= usize::MAX,
    ensures
        advances(tokens, pos, grammar_pow(tokens, pos)),
    decreases tokens.len() - pos, 3nat,
{
    lemma_primary_advances(tokens, pos);
    match grammar_primary(tokens, pos) {
        Ok((next, left)) => {
            if next < tokens.len() && tokens[next] is Pow {
                lemma_pow_advances(tokens, next + 1);
            }
        },
        Err(_) => {},
    }
}

/// A primary takes at least one token.
pub proof fn lemma_primary_advances(tokens: Seq<TokenModel>, pos: int)
    requires
        0 <= pos <= tokens.len() <= usize::MAX,
    ensures
        advances(tokens, pos, grammar_primary(tokens, pos)),
    decreases tokens.len() - pos, 2nat,
{
    lemma_skip_spaces_bounds(tokens, pos);
    let start = skip_spaces(tokens, pos);
    if start < tokens.len() {
        match tokens[start] {
            TokenModel::Minus => {
                lemma_primary_advances(tokens, start + 1);
            },
            TokenModel::Identifier(name) => {
                if start + 1 < tokens.len() && tokens[start + 1] is LParen {
                    lemma_function_call_advances(tokens, start);
                }
            },
            TokenModel::LParen => {
                lemma_expression_advances(tokens, start + 1);
                match grammar_expression(tokens, start + 1) {
                    Ok((next, inner)) => {
                        lemma_skip_spaces_bounds(tokens, next);
                    },
                    Err(_) => {},
                }
            },
            _ => {},
        }
    }
}

/// A call takes at least one token, and its argument list starts after
/// the name.
pub proof fn lemma_function_call_advances(tokens: Seq<TokenModel>, pos: int)
    requires
        0 <= pos <= tokens.len() <= usize::MAX,
    ensures
        advances(tokens, pos, grammar_function_call(tokens, pos)),
    decreases tokens.len() - pos, 1nat,
{
    if pos < tokens.len() {
        match tokens[pos] {
            TokenModel::Identifier(name) => {
                if pos + 1 < tokens.len() && tokens[pos + 1] is LParen {
                    lemma_skip_spaces_bounds(tokens, pos + 2);
                    let first = skip_spaces(tokens, pos + 2);
                    if !(first < tokens.len() && tokens[first] is RParen) {
                        lemma_call_args_advance(tokens, first, name, Seq::empty());
                    }
                }
            },
            _ => {},
        }
    }
}

/// An argument list takes at least one token.
pub proof fn lemma_call_args_advance(
    tokens: Seq<TokenModel>,
    pos: int,
    name: Seq<char>,
    done: Seq<TermModel>,
)
    requires
        0 <= pos <= tokens.len() <= usize::MAX,
    ensures
        advances(tokens, pos, grammar_call_args(tokens, pos, name, done)),
    decreases tokens.len() - pos, 10nat,
{
    lemma_expression_advances(tokens, pos);
    match grammar_expression(tokens, pos) {
        Ok((next, arg)) => {
            lemma_skip_spaces_bounds(tokens, next);
            let after = skip_spaces(tokens, next);
            if after < tokens.len() && tokens[after] is Comma {
                lemma_skip_spaces_bounds(tokens, after + 1);
                lemma_call_args_advance(
                    tokens,
                    skip_spaces(tokens, after + 1),
                    name,
                    done.push(arg),
                );
            }
        },
        Err(_) => {},
    }
}

/// The tail of a sum goes past a whitespace token.
proof fn lemma_sum_tail_skips(tokens: Seq<TokenModel>, at: int, left: TermModel)
    requires
        0 <= at < tokens.len(),
        tokens[at] is Whitespace,
    ensures
        grammar_add_sub_tail(tokens, at, left) == grammar_add_sub_tail(tokens, at + 1, left),
{
}

/// The tail of a sum ends at the end of the tokens and before a token
/// that is no `+`, no `-` and no whitespace.
proof fn lemma_sum_tail_stops(tokens: Seq<TokenModel>, at: int, left: TermModel)
    requires
        0 <= at <= tokens.len(),
        at < tokens.len() ==> !(tokens[at] is Plus || tokens[at] is Minus || tokens[at]
            is Whitespace),
    ensures
        grammar_add_sub_tail(tokens, at, left) == Ok::<(int, TermModel), ParseError>((at, left)),
{
}

/// The tail of a sum folds an operator and the product after it onto the
/// sum, or fails as the product does.
proof fn lemma_sum_tail_folds(tokens: Seq<TokenModel>, at: int, op: BinaryOperator, left: TermModel)
    requires
        0 <= at < tokens.len(),
        (op == BinaryOperator::Plus && tokens[at] is Plus) || (op == BinaryOperator::Minus
            && tokens[at] is Minus),
        grammar_mul_div(tokens, at + 1) matches Ok((next, _)) ==> at < next <= tokens.len(),
    ensures
        grammar_add_sub_tail(tokens, at, left) == (match grammar_mul_div(tokens, at + 1) {
            Ok((next, right)) => grammar_add_sub_tail(tokens, next, binary(op, left, right)),
            Err(error) => Err(error),
        }),
{
}

/// The tail of a product goes past a whitespace token.
proof fn lemma_product_tail_skips(tokens: Seq<TokenModel>, at: int, left: TermModel)
    requires
        0 <= at < tokens.len(),
        tokens[at] is Whitespace,
    ensures
        grammar_mul_div_tail(tokens, at, left) == grammar_mul_div_tail(tokens, at + 1, left),
{
}

/// The tail of a product ends at the end of the tokens and before a token
/// that is no `*`, no `/` and no whitespace.
proof fn lemma_product_tail_stops(tokens: Seq<TokenModel>, at: int, left: TermModel)
    requires
        0 <= at <= tokens.len(),
        at < tokens.len() ==> !(tokens[at] is Times || tokens[at] is Div || tokens[at]
            is Whitespace),
    ensures
        grammar_mul_div_tail(tokens, at, left) == Ok::<(int, TermModel), ParseError>((at, left)),
{
}

/// The tail of a product folds an operator and the power after it onto
/// the product, or fails as the power does.
proof fn lemma_product_tail_folds(
    tokens: Seq<TokenModel>,
    at: int,
    op: BinaryOperator,
    left: TermModel,
)
    requires
        0 <= at < tokens.len(),
        (op == BinaryOperator::Times && tokens[at] is Times) || (op == BinaryOperator::Div
            && tokens[at] is Div),
        grammar_pow(tokens, at + 1) matches Ok((next, _)) ==> at < next <= tokens.len(),
    ensures
        grammar_mul_div_tail(tokens, at, left) == (match grammar_pow(tokens, at + 1) {
            Ok((next, right)) => grammar_mul_div_tail(tokens, next, binary(op, left, right)),
            Err(error) => Err(error),
        }),
{
}

/// The model of a parse that reports positions.
pub open spec fn parsed_model(parsed: Result<(usize, Term), ParseError>) -> Result<
    (int, TermModel),
    ParseError,
> {
    match parsed {
        Ok((next, term)) => Ok((next as int, term@)),
        Err(error) => Err(error),
    }
}

/// What [`parse`] gives on a list of tokens: the tokens that the
/// expression at the front leaves over, and its tree.
pub open spec fn parse_tokens(tokens: Seq<TokenModel>) -> Result<
    (Seq<TokenModel>, TermModel),
    ParseError,
> {
    match grammar_expression(tokens, 0) {
        Ok((next, term)) => Ok((tokens.subrange(next, tokens.len() as int), term)),
        Err(error) => Err(error),
    }
}

/// The model of a parse that reports the tokens left over.
pub open spec fn parse_model(parsed: Result<(&[Token], Term), ParseError>) -> Result<
    (Seq<TokenModel>, TermModel),
    ParseError,
> {
    match parsed {
        Ok((rest, term)) => Ok((tokens_view(rest@), term@)),
        Err(error) => Err(error),
    }
}

/// Parses the expression at the front of the tokens. Whitespace tokens
/// may stand around operators, commas and parentheses.
pub fn parse(tokens: &[Token]) -> (result: Result<(&[Token], Term), ParseError>)
    ensures
        parse_model(result) == parse_tokens(tokens_view(tokens@)),
{
    match parse_expression(tokens, 0) {
        Ok((next, term)) => {
            let rest = slice_subrange(tokens, next, tokens.len());
            assert(tokens_view(rest@) =~= tokens_view(tokens@).subrange(
                next as int,
                tokens.len() as int,
            ));
            Ok((rest, term))
        },
        Err(error) => Err(error),
    }
}

/// Finds the first position from `pos` on that holds no whitespace.
pub fn skip_whitespace(tokens: &[Token], pos: usize) -> (next: usize)
    requires
        pos <= tokens.len(),
    ensures
        next == skip_spaces(tokens_view(tokens@), pos as int),
        pos <= next <= tokens.len(),
{
    let mut i: usize = pos;
    while i < tokens.len() && is_whitespace(&tokens[i])
        invariant
            pos <= i <= tokens.len(),
            skip_spaces(tokens_view(tokens@), pos as int) == skip_spaces(
                tokens_view(tokens@),
                i as int,
            ),
        decreases tokens.len() - i,
    {
        i += 1;
    }
    i
}

fn is_whitespace(token: &Token) -> (yes: bool)
    ensures
        yes == (token@ is Whitespace),
{
    match token {
        Token::Whitespace => true,
        _ => false,
    }
}

fn is_left_paren(token: &Token) -> (yes: bool)
    ensures
        yes == (token@ is LParen),
{
    match token {
        Token::LParen => true,
        _ => false,
    }
}

fn is_right_paren(token: &Token) -> (yes: bool)
    ensures
        yes == (token@ is RParen),
{
    match token {
        Token::RParen => true,
        _ => false,
    }
}

fn is_comma(token: &Token) -> (yes: bool)
    ensures
        yes == (token@ is Comma),
{
    match token {
        Token::Comma => true,
        _ => false,
    }
}

fn is_pow(token: &Token) -> (yes: bool)
    ensures
        yes == (token@ is Pow),
{
    match token {
        Token::Pow => true,
        _ => false,
    }
}

fn parse_expression(tokens: &[Token], pos: usize) -> (result: Result<(usize, Term), ParseError>)
    requires
        pos <= tokens.len(),
    ensures
        parsed_model(result) == grammar_expression(tokens_view(tokens@), pos as int),
        result matches Ok((next, _)) ==> pos < next <= tokens.len(),
    decreases tokens.len() - pos, 9nat,
{
    parse_add_sub(tokens, pos)
}

#[verifier::rlimit(50)]
fn parse_add_sub(tokens: &[Token], pos: usize) -> (result: Result<(usize, Term), ParseError>)
    requires
        pos <= tokens.len(),
    ensures
        parsed_model(result) == grammar_add_sub(tokens_view(tokens@), pos as int),
        result matches Ok((next, _)) ==> pos < next <= tokens.len(),
    decreases tokens.len() - pos, 8nat,
{
    let ghost model = tokens_view(tokens@);
    let (first, first_term) = match parse_mul_div(tokens, pos) {
        Ok(found) => found,
        Err(error) => {
            return Err(error);
        },
    };
    let mut rest: usize = first;
    let mut left: Term = first_term;
    while rest < tokens.len()
        invariant
            model == tokens_view(tokens@),
            pos < rest <= tokens.len(),
            grammar_add_sub(model, pos as int) == grammar_add_sub_tail(model, rest as int, left@),
        ensures
            pos < rest <= tokens.len(),
            grammar_add_sub(model, pos as int) == Ok::<(int, TermModel), ParseError>(
                (rest as int, left@),
            ),
        decreases tokens.len() - rest,
    {
        let ghost here = rest as int;
        let ghost before = left@;
        assert(model[here] == tokens@[here]@);
        let op = match &tokens[rest] {
            Token::Plus => BinaryOperator::Plus,
            Token::Minus => BinaryOperator::Minus,
            Token::Whitespace => {
                proof {
                    lemma_sum_tail_skips(model, here, before);
                }
                rest += 1;
                continue ;
            },
            _ => {
                proof {
                    lemma_sum_tail_stops(model, here, before);
                }
                break ;
            },
        };
        match parse_mul_div(tokens, rest + 1) {
            Ok((next, right)) => {
                proof {
                    lemma_sum_tail_folds(model, here, op, before);
                }
                left = Term::BinaryOp { op, left: Box::new(left), right: Box::new(right) };
                rest = next;
            },
            Err(error) => {
                proof {
                    lemma_sum_tail_folds(model, here, op, before);
                }
                return Err(error);
            },
        }
    }
    Ok((rest, left))
}

fn parse_mul_div(tokens: &[Token], pos: usize) -> (result: Result<(usize, Term), ParseError>)
    requires
        pos <= tokens.len(),
    ensures
        parsed_model(result) == grammar_mul_div(tokens_view(tokens@), pos as int),
        result matches Ok((next, _)) ==> pos < next <= tokens.len(),
    decreases tokens.len() - pos, 6nat,
{
    let ghost model = tokens_view(tokens@);
    let (first, first_term) = match parse_unary(tokens, pos) {
        Ok(found) => found,
        Err(error) => {
            return Err(error);
        },
    };
    let mut rest: usize = first;
    let mut left: Term = first_term;
    while rest < tokens.len()
        invariant
            model == tokens_view(tokens@),
            pos < rest <= tokens.len(),
            grammar_mul_div(model, pos as int) == grammar_mul_div_tail(model, rest as int, left@),
        ensures
            pos < rest <= tokens.len(),
            grammar_mul_div(model, pos as int) == Ok::<(int, TermModel), ParseError>(
                (rest as int, left@),
            ),
        decreases tokens.len() - rest,
    {
        let ghost here = rest as int;
        let ghost before = left@;
        assert(model[here] == tokens@[here]@);
        let op = match &tokens[rest] {
            Token::Times => BinaryOperator::Times,
            Token::Div => BinaryOperator::Div,
            Token::Whitespace => {
                proof {
                    lemma_product_tail_skips(model, here, before);
                }
                rest += 1;
                continue ;
            },
            _ => {
                proof {
                    lemma_product_tail_stops(model, here, before);
                }
                break ;
            },
        };
        match parse_pow(tokens, rest + 1) {
            Ok((next, right)) => {
                proof {
                    lemma_product_tail_folds(model, here, op, before);
                }
                left = Term::BinaryOp { op, left: Box::new(left), right: Box::new(right) };
                rest = next;
            },
            Err(error) => {
                proof {
                    lemma_product_tail_folds(model, here, op, before);
                }
                return Err(error);
            },
        }
    }
    Ok((rest, left))
}

fn parse_unary(tokens: &[Token], pos: usize) -> (result: Result<(usize, Term), ParseError>)
    requires
        pos <= tokens.len(),
    ensures
        parsed_model(result) == grammar_unary(tokens_view(tokens@), pos as int),
        result matches Ok((next, _)) ==> pos < next <= tokens.len(),
    decreases tokens.len() - pos, 4nat,
{
    let start = skip_whitespace(tokens, pos);
    if start >= tokens.len() {
        return Err(ParseError { kind: ParseErrorKind::UnexpectedEndOfInput, position: start });
    }
    match &tokens[start] {
        Token::Minus => match parse_pow(tokens, start + 1) {
            Ok((next, operand)) => Ok(
                (next, Term::UnaryOp { op: UnaryOperator::Neg, operand: Box::new(operand) }),
            ),
            Err(error) => Err(error),
        },
        _ => parse_pow(tokens, start),
    }
}

fn parse_pow(tokens: &[Token], pos: usize) -> (result: Result<(usize, Term), ParseError>)
    requires
        pos <= tokens.len(),
    ensures
        parsed_model(result) == grammar_pow(tokens_view(tokens@), pos as int),
        result matches Ok((next, _)) ==> pos < next <= tokens.len(),
    decreases tokens.len() - pos, 3nat,
{
    let (rest, left) = match parse_primary(tokens, pos) {
        Ok(found) => found,
        Err(error) => {
            return Err(error);
        },
    };
    if rest < tokens.len() && is_pow(&tokens[rest]) {
        match parse_pow(tokens, rest + 1) {
            Ok((end, right)) => Ok(
                (
                    end,
                    Term::BinaryOp {
                        op: BinaryOperator::Pow,
                        left: Box::new(left),
                        right: Box::new(right),
                    },
                ),
            ),
            Err(error) => Err(error),
        }
    } else {
        Ok((rest, left))
    }
}

fn parse_primary(tokens: &[Token], pos: usize) -> (result: Result<(usize, Term), ParseError>)
    requires
        pos <= tokens.len(),
    ensures
        parsed_model(result) == grammar_primary(tokens_view(tokens@), pos as int),
        result matches Ok((next, _)) ==> pos < next <= tokens.len(),
    decreases tokens.len() - pos, 2nat,
{
    let start = skip_whitespace(tokens, pos);
    if start >= tokens.len() {
        return Err(ParseError { kind: ParseErrorKind::UnexpectedEndOfInput, position: start });
    }
    match &tokens[start] {
        Token::Minus => match parse_primary(tokens, start + 1) {
            Ok((next, operand)) => Ok(
                (next, Term::UnaryOp { op: UnaryOperator::Neg, operand: Box::new(operand) }),
            ),
            Err(error) => Err(error),
        },
        Token::Integer(n) => Ok((start + 1, Term::Integer(*n))),
        Token::Float(text) => Ok((start + 1, Term::Float(text.clone()))),
        Token::Identifier(name) => {
            if start + 1 < tokens.len() && is_left_paren(&tokens[start + 1]) {
                parse_function_call(tokens, start)
            } else {
                Ok((start + 1, Term::Identifier(name.clone())))
            }
        },
        Token::LParen => match parse_expression(tokens, start + 1) {
            Ok((next, inner)) => {
                let close = skip_whitespace(tokens, next);
                if close < tokens.len() && is_right_paren(&tokens[close]) {
                    Ok((close + 1, inner))
                } else {
                    Err(ParseError { kind: ParseErrorKind::UnexpectedToken, position: close })
                }
            },
            Err(error) => Err(error),
        },
        _ => Err(ParseError { kind: ParseErrorKind::UnexpectedToken, position: start }),
    }
}

#[verifier::loop_isolation(false)]
fn parse_function_call(tokens: &[Token], pos: usize) -> (result: Result<(usize, Term), ParseError>)
    requires
        pos <= tokens.len(),
    ensures
        parsed_model(result) == grammar_function_call(tokens_view(tokens@), pos as int),
        result matches Ok((next, _)) ==> pos < next <= tokens.len(),
    decreases tokens.len() - pos, 1nat,
{
    let ghost model = tokens_view(tokens@);
    if pos >= tokens.len() {
        return Err(ParseError { kind: ParseErrorKind::UnexpectedEndOfInput, position: pos });
    }
    let name = match &tokens[pos] {
        Token::Identifier(name) => name,
        _ => {
            return Err(ParseError { kind: ParseErrorKind::UnexpectedToken, position: pos });
        },
    };
    if !(pos + 1 < tokens.len() && is_left_paren(&tokens[pos + 1])) {
        return Err(ParseError { kind: ParseErrorKind::UnexpectedToken, position: pos + 1 });
    }
    let mut args: Vec<Term> = Vec::new();
    let mut current: usize = skip_whitespace(tokens, pos + 2);
    if current < tokens.len() && is_right_paren(&tokens[current]) {
        let call = Term::FunctionCall { name: name.clone(), args };
        assert(call@->FunctionCall_args =~= Seq::<TermModel>::empty());
        return Ok((current + 1, call));
    }
    assert(terms_view(args@) =~= Seq::<TermModel>::empty());
    loop
        invariant
            pos < current <= tokens.len(),
            grammar_function_call(model, pos as int) == grammar_call_args(
                model,
                current as int,
                name@,
                terms_view(args@),
            ),
        decreases tokens.len() - current,
    {
        let ghost done = terms_view(args@);
        let (next, arg) = match parse_expression(tokens, current) {
            Ok(found) => found,
            Err(error) => {
                return Err(error);
            },
        };
        proof {
            assert(terms_view(args@.push(arg)) =~= done.push(arg@));
        }
        args.push(arg);
        let after = skip_whitespace(tokens, next);
        if after < tokens.len() && is_comma(&tokens[after]) {
            current = skip_whitespace(tokens, after + 1);
        } else if after < tokens.len() && is_right_paren(&tokens[after]) {
            let call = Term::FunctionCall { name: name.clone(), args };
            assert(call@->FunctionCall_args =~= done.push(arg@));
            return Ok((after + 1, call));
        } else {
            return Err(ParseError { kind: ParseErrorKind::UnexpectedToken, position: after });
        }
    }
}

/// The literal for an integer.
pub open spec fn int_term(n: i64) -> TermModel {
    TermModel::Integer(n)
}

/// A product binds tighter than a sum: `a + b * c` is the sum of `a` and
/// the product of `b` and `c`.
pub proof fn product_binds_tighter_than_sum(a: i64, b: i64, c: i64)
    ensures
        parse_tokens(
            seq![
                TokenModel::Integer(a),
                TokenModel::Plus,
                TokenModel::Integer(b),
                TokenModel::Times,
                TokenModel::Integer(c),
            ],
        ) == Ok::<(Seq<TokenModel>, TermModel), ParseError>(
            (
                Seq::empty(),
                binary(
                    BinaryOperator::Plus,
                    int_term(a),
                    binary(BinaryOperator::Times, int_term(b), int_term(c)),
                ),
            ),
        ),
{
    let tokens = seq![
        TokenModel::Integer(a),
        TokenModel::Plus,
        TokenModel::Integer(b),
        TokenModel::Times,
        TokenModel::Integer(c),
    ];
    reveal_with_fuel(skip_spaces, 2);
    reveal_with_fuel(grammar_add_sub_tail, 3);
    reveal_with_fuel(grammar_mul_div_tail, 3);
    assert(grammar_pow(tokens, 4) == Ok::<(int, TermModel), ParseError>((5, int_term(c))));
    assert(grammar_pow(tokens, 2) == Ok::<(int, TermModel), ParseError>((3, int_term(b))));
    assert(grammar_mul_div(tokens, 2) == Ok::<(int, TermModel), ParseError>(
        (5, binary(BinaryOperator::Times, int_term(b), int_term(c))),
    ));
    assert(grammar_mul_div(tokens, 0) == Ok::<(int, TermModel), ParseError>((1, int_term(a))));
    assert(tokens.subrange(5, 5) =~= Seq::empty());
}

/// Parentheses override the binding: `(a + b) * c` is the product of the
/// sum and `c`.
pub proof fn parentheses_group(a: i64, b: i64, c: i64)
    ensures
        parse_tokens(
            seq![
                TokenModel::LParen,
                TokenModel::Integer(a),
                TokenModel::Plus,
                TokenModel::Integer(b),
                TokenModel::RParen,
                TokenModel::Times,
                TokenModel::Integer(c),
            ],
        ) == Ok::<(Seq<TokenModel>, TermModel), ParseError>(
            (
                Seq::empty(),
                binary(
                    BinaryOperator::Times,
                    binary(BinaryOperator::Plus, int_term(a), int_term(b)),
                    int_term(c),
                ),
            ),
        ),
{
    let tokens = seq![
        TokenModel::LParen,
        TokenModel::Integer(a),
        TokenModel::Plus,
        TokenModel::Integer(b),
        TokenModel::RParen,
        TokenModel::Times,
        TokenModel::Integer(c),
    ];
    reveal_with_fuel(skip_spaces, 2);
    reveal_with_fuel(grammar_add_sub_tail, 3);
    reveal_with_fuel(grammar_mul_div_tail, 3);
    assert(grammar_mul_div(tokens, 3) == Ok::<(int, TermModel), ParseError>((4, int_term(b))));
    assert(grammar_mul_div(tokens, 1) == Ok::<(int, TermModel), ParseError>((2, int_term(a))));
    assert(grammar_expression(tokens, 1) == Ok::<(int, TermModel), ParseError>(
        (4, binary(BinaryOperator::Plus, int_term(a), int_term(b))),
    ));
    assert(grammar_primary(tokens, 0) == Ok::<(int, TermModel), ParseError>(
        (5, binary(BinaryOperator::Plus, int_term(a), int_term(b))),
    ));
    assert(grammar_pow(tokens, 6) == Ok::<(int, TermModel), ParseError>((7, int_term(c))));
    assert(grammar_mul_div(tokens, 0) == Ok::<(int, TermModel), ParseError>(
        (
            7,
            binary(
                BinaryOperator::Times,
                binary(BinaryOperator::Plus, int_term(a), int_term(b)),
                int_term(c),
            ),
        ),
    ));
    assert(tokens.subrange(7, 7) =~= Seq::empty());
}

/// Powers associate to the right: `a ^ b ^ c` is `a` raised to the power
/// of `b ^ c`.
pub proof fn power_associates_to_the_right(a: i64, b: i64, c: i64)
    ensures
        parse_tokens(
            seq![
                TokenModel::Integer(a),
                TokenModel::Pow,
                TokenModel::Integer(b),
                TokenModel::Pow,
                TokenModel::Integer(c),
            ],
        ) == Ok::<(Seq<TokenModel>, TermModel), ParseError>(
            (
                Seq::empty(),
                binary(
                    BinaryOperator::Pow,
                    int_term(a),
                    binary(BinaryOperator::Pow, int_term(b), int_term(c)),
                ),
            ),
        ),
{
    let tokens = seq![
        TokenModel::Integer(a),
        TokenModel::Pow,
        TokenModel::Integer(b),
        TokenModel::Pow,
        TokenModel::Integer(c),
    ];
    reveal_with_fuel(skip_spaces, 2);
    assert(grammar_pow(tokens, 4) == Ok::<(int, TermModel), ParseError>((5, int_term(c))));
    assert(grammar_pow(tokens, 2) == Ok::<(int, TermModel), ParseError>(
        (5, binary(BinaryOperator::Pow, int_term(b), int_term(c))),
    ));
    assert(grammar_pow(tokens, 0) == Ok::<(int, TermModel), ParseError>(
        (
            5,
            binary(
                BinaryOperator::Pow,
                int_term(a),
                binary(BinaryOperator::Pow, int_term(b), int_term(c)),
            ),
        ),
    ));
    assert(grammar_mul_div(tokens, 0) == grammar_pow(tokens, 0));
    assert(tokens.subrange(5, 5) =~= Seq::empty());
}

/// A leading minus binds looser than a power: `-a ^ b` negates the power.
pub proof fn minus_binds_looser_than_power(a: i64, b: i64)
    ensures
        parse_tokens(
            seq![
                TokenModel::Minus,
                TokenModel::Integer(a),
                TokenModel::Pow,
                TokenModel::Integer(b),
            ],
        ) == Ok::<(Seq<TokenModel>, TermModel), ParseError>(
            (Seq::empty(), negation(binary(BinaryOperator::Pow, int_term(a), int_term(b)))),
        ),
{
    let tokens = seq![
        TokenModel::Minus,
        TokenModel::Integer(a),
        TokenModel::Pow,
        TokenModel::Integer(b),
    ];
    reveal_with_fuel(skip_spaces, 2);
    assert(grammar_pow(tokens, 3) == Ok::<(int, TermModel), ParseError>((4, int_term(b))));
    assert(grammar_pow(tokens, 1) == Ok::<(int, TermModel), ParseError>(
        (4, binary(BinaryOperator::Pow, int_term(a), int_term(b))),
    ));
    assert(grammar_unary(tokens, 0) == Ok::<(int, TermModel), ParseError>(
        (4, negation(binary(BinaryOperator::Pow, int_term(a), int_term(b)))),
    ));
    assert(grammar_mul_div(tokens, 0) == grammar_unary(tokens, 0));
    assert(tokens.subrange(4, 4) =~= Seq::empty());
}

/// A parse either takes at least one token and leaves the rest, or names
/// a position that exists: a token's index, or the number of tokens for
/// the end of the input.
pub proof fn parse_takes_tokens_or_names_a_position(tokens: Seq<TokenModel>)
    requires
        tokens.len() <= usize::MAX,
    ensures
        match parse_tokens(tokens) {
            Ok((rest, _)) => rest.len() < tokens.len() && exists|next: int|
                0 < next <= tokens.len() && rest == #[trigger] tokens.subrange(
                    next,
                    tokens.len() as int,
                ),
            Err(error) => error.position <= tokens.len(),
        },
{
    lemma_expression_advances(tokens, 0);
    match grammar_expression(tokens, 0) {
        Ok((next, _)) => {
            assert(parse_tokens(tokens)->Ok_0.0 == tokens.subrange(next, tokens.len() as int));
        },
        Err(_) => {},
    }
}

/// The expression that a line holds: the expression at the front of its
/// tokens, whitespace left out. What follows the expression is ignored.
pub open spec fn line_term(line: Seq<char>) -> Result<TermModel, ParseError> {
    match parse_tokens(without_spaces(lex(line))) {
        Ok((_, term)) => Ok(term),
        Err(error) => Err(error),
    }
}

} // verus!
