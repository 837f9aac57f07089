use vstd::prelude::*;
use crate::ast::{BinaryOperator, Term, TermModel};
use crate::lexer::{tokens_view, Token, TokenModel};
use crate::parser::{
    binary, grammar_add_sub, grammar_add_sub_tail, grammar_call_args, grammar_expression,
    grammar_function_call, grammar_mul_div, grammar_mul_div_tail, grammar_pow, grammar_primary,
    grammar_unary, negation, parse_tokens, skip_spaces, ParseError,
};

verus! {

/// The places of the grammar at which a term can stand, from the loosest
/// binding to the tightest.
#[derive(Debug, Clone, Copy, PartialEq, Eq, Structural)]
pub enum Place {
    /// A sum or a difference: any expression.
    Sum,
    /// A product or a quotient.
    Product,
    /// The first operand of a product, where a minus may lead.
    Signed,
    /// A power.
    Power,
    /// A primary.
    Primary,
}

/// How tight a place binds.
pub open spec fn tightness(place: Place) -> nat {
    match place {
        Place::Sum => 0,
        Place::Product => 1,
        Place::Signed => 2,
        Place::Power => 3,
        Place::Primary => 4,
    }
}

/// The loosest place at which a term stands without parentheses.
pub open spec fn natural_place(term: TermModel) -> Place {
    match term {
        TermModel::BinaryOp { op, .. } => match op {
            BinaryOperator::Plus | BinaryOperator::Minus => Place::Sum,
            BinaryOperator::Times | BinaryOperator::Div => Place::Product,
            BinaryOperator::Pow => Place::Power,
        },
        TermModel::UnaryOp { .. } => Place::Signed,
        _ => Place::Primary,
    }
}

/// Whether a term can be written down: definitions have no syntax.
pub open spec fn renderable(term: TermModel) -> bool
    decreases term,
{
    match term {
        TermModel::Function { .. } => false,
        TermModel::SyntaxDefinition { .. } => false,
        TermModel::FunctionCall { name, args } => forall|i: int|
            0 <= i < args.len() ==> renderable(#[trigger] args[i]),
        TermModel::BinaryOp { op, left, right } => renderable(*left) && renderable(*right),
        TermModel::UnaryOp { op, operand } => renderable(*operand),
        _ => true,
    }
}

/// The token of an operator.
pub open spec fn operator_token(op: BinaryOperator) -> TokenModel {
    match op {
        BinaryOperator::Plus => TokenModel::Plus,
        BinaryOperator::Minus => TokenModel::Minus,
        BinaryOperator::Times => TokenModel::Times,
        BinaryOperator::Div => TokenModel::Div,
        BinaryOperator::Pow => TokenModel::Pow,
    }
}

/// Whether a term binds looser than a place takes.
pub open spec fn needs_parentheses(term: TermModel, place: Place) -> bool {
    tightness(natural_place(term)) < tightness(place)
}

/// What orders the definition of [`render_at`]: a term in parentheses is
/// written at the loosest place.
pub open spec fn render_rank(term: TermModel, place: Place) -> nat {
    if needs_parentheses(term, place) {
        1
    } else {
        0
    }
}

/// The tokens that write a term at a place of the grammar, with
/// parentheses only where the term binds looser than the place takes.
pub open spec fn render_at(term: TermModel, place: Place) -> Seq<TokenModel>
    decreases term, render_rank(term, place),
{
    if needs_parentheses(term, place) {
        seq![TokenModel::LParen] + render_at(term, Place::Sum) + seq![TokenModel::RParen]
    } else {
        match term {
            TermModel::Identifier(name) => seq![TokenModel::Identifier(name)],
            TermModel::Integer(n) => seq![TokenModel::Integer(n)],
            TermModel::Float(text) => seq![TokenModel::Float(text)],
            TermModel::FunctionCall { name, args } => seq![
                TokenModel::Identifier(name),
                TokenModel::LParen,
            ] + render_args(args, 0) + seq![TokenModel::RParen],
            TermModel::BinaryOp { op, left, right } => match op {
                BinaryOperator::Plus | BinaryOperator::Minus => render_at(*left, Place::Sum) + seq![
                    operator_token(op),
                ] + render_at(*right, Place::Product),
                BinaryOperator::Times | BinaryOperator::Div => render_at(
                    *left,
                    Place::Product,
                ) + seq![operator_token(op)] + render_at(*right, Place::Power),
                BinaryOperator::Pow => render_at(*left, Place::Primary) + seq![TokenModel::Pow]
                    + render_at(*right, Place::Power),
            },
            TermModel::UnaryOp { op, operand } => seq![TokenModel::Minus] + render_at(
                *operand,
                Place::Power,
            ),
            _ => Seq::empty(),
        }
    }
}

/// The tokens that write the arguments from the `i`-th on, with a comma
/// between each two.
pub open spec fn render_args(args: Seq<TermModel>, i: int) -> Seq<TokenModel>
    decreases args, args.len() - i,
{
    if 0 <= i < args.len() {
        if i == args.len() - 1 {
            render_at(args[i], Place::Sum)
        } else {
            render_at(args[i], Place::Sum) + seq![TokenModel::Comma] + render_args(args, i + 1)
        }
    } else {
        Seq::empty()
    }
}

/// The tokens that write a term.
pub open spec fn render_model(term: TermModel) -> Seq<TokenModel> {
    render_at(term, Place::Sum)
}

/// Whether a piece of tokens stands in the tokens at a position.
#[verifier::opaque]
pub open spec fn stands_at(tokens: Seq<TokenModel>, pos: int, piece: Seq<TokenModel>) -> bool {
    &&& 0 <= pos
    &&& pos + piece.len() <= tokens.len()
    &&& forall|i: int| 0 <= i < piece.len() ==> tokens[pos + i] == #[trigger] piece[i]
}

/// Where two pieces stand one after the other, each of them stands.
proof fn lemma_stands_concat(
    tokens: Seq<TokenModel>,
    pos: int,
    first: Seq<TokenModel>,
    second: Seq<TokenModel>,
)
    requires
        stands_at(tokens, pos, first + second),
    ensures
        stands_at(tokens, pos, first),
        stands_at(tokens, pos + first.len(), second),
{
    reveal(stands_at);
    let both = first + second;
    assert forall|i: int| 0 <= i < first.len() implies tokens[pos + i] == #[trigger] first[i] by {
        assert(both[i] == first[i]);
    }
    assert forall|i: int| 0 <= i < second.len() implies tokens[pos + first.len() + i]
        == #[trigger] second[i] by {
        assert(both[first.len() + i] == second[i]);
    }
}

/// Where three pieces stand one after the other, each of them stands.
proof fn lemma_stands_three(
    tokens: Seq<TokenModel>,
    pos: int,
    first: Seq<TokenModel>,
    second: Seq<TokenModel>,
    third: Seq<TokenModel>,
)
    requires
        stands_at(tokens, pos, first + second + third),
    ensures
        stands_at(tokens, pos, first),
        stands_at(tokens, pos + first.len(), second),
        stands_at(tokens, pos + first.len() + second.len(), third),
{
    lemma_stands_concat(tokens, pos, first + second, third);
    lemma_stands_concat(tokens, pos, first, second);
}

/// A piece that stands at a position lies within the tokens, and its
/// first token is the token at the position.
proof fn lemma_stands_first(tokens: Seq<TokenModel>, pos: int, piece: Seq<TokenModel>)
    requires
        stands_at(tokens, pos, piece),
    ensures
        0 <= pos,
        pos + piece.len() <= tokens.len(),
        piece.len() >= 1 ==> tokens[pos] == piece[0],
        piece.len() >= 2 ==> tokens[pos + 1] == piece[1],
{
    reveal(stands_at);
    if piece.len() >= 1 {
        assert(tokens[pos + 0] == piece[0]);
    }
    if piece.len() >= 2 {
        assert(tokens[pos + 1] == piece[1]);
    }
}

/// A piece stands at the start of itself.
proof fn lemma_stands_whole(piece: Seq<TokenModel>)
    ensures
        stands_at(piece, 0, piece),
{
    reveal(stands_at);
}

/// Whether the parser of a place goes on with a token that follows what
/// it has read.
pub open spec fn continues(token: TokenModel, place: Place) -> bool {
    match place {
        Place::Primary => token is LParen,
        Place::Power | Place::Signed => token is Pow || token is LParen,
        Place::Product => token is Times || token is Div || token is Whitespace || token is Pow
            || token is LParen,
        Place::Sum => token is Plus || token is Minus || token is Times || token is Div || token
            is Whitespace || token is Pow || token is LParen,
    }
}

/// Whether what stands at a place ends at a position: the tokens end
/// there, or the token there is none that the place's parser goes on with.
pub open spec fn ends_at(tokens: Seq<TokenModel>, pos: int, place: Place) -> bool {
    0 <= pos < tokens.len() ==> !continues(tokens[pos], place)
}

/// A token that an operand can start with.
pub open spec fn starts_operand(token: TokenModel) -> bool {
    token is Integer || token is Float || token is Identifier || token is LParen || token is Minus
}

/// What orders the proofs about rendered terms.
pub open spec fn proof_rank(term: TermModel, place: Place) -> nat {
    if needs_parentheses(term, place) {
        (80 + 4 * (4 - tightness(place))) as nat
    } else {
        (4 * (10 - tightness(place))) as nat
    }
}

/// A rendered term is not empty and starts like an operand; at a power's
/// or a primary's place it does not start with a minus.
proof fn lemma_render_first(term: TermModel, place: Place)
    requires
        renderable(term),
    ensures
        render_at(term, place).len() >= 1,
        starts_operand(render_at(term, place)[0]),
        tightness(place) >= 3 ==> !(render_at(term, place)[0] is Minus),
    decreases term, render_rank(term, place),
{
    if needs_parentheses(term, place) {
    } else {
        match term {
            TermModel::BinaryOp { op, left, right } => match op {
                BinaryOperator::Plus | BinaryOperator::Minus => {
                    lemma_render_first(*left, Place::Sum);
                },
                BinaryOperator::Times | BinaryOperator::Div => {
                    lemma_render_first(*left, Place::Product);
                },
                BinaryOperator::Pow => {
                    lemma_render_first(*left, Place::Primary);
                },
            },
            _ => {},
        }
    }
}

/// The rendered arguments from the `i`-th on start like an operand.
proof fn lemma_render_args_first(args: Seq<TermModel>, i: int)
    requires
        0 <= i < args.len(),
        forall|k: int| 0 <= k < args.len() ==> renderable(#[trigger] args[k]),
    ensures
        render_args(args, i).len() >= 1,
        starts_operand(render_args(args, i)[0]),
{
    lemma_render_first(args[i], Place::Sum);
}

/// A rendered term that stands at a position starts there like an
/// operand: no whitespace is skipped before it.
proof fn lemma_rendered_start(tokens: Seq<TokenModel>, pos: int, term: TermModel, place: Place)
    requires
        renderable(term),
        stands_at(tokens, pos, render_at(term, place)),
    ensures
        0 <= pos < tokens.len(),
        pos + render_at(term, place).len() <= tokens.len(),
        starts_operand(tokens[pos]),
        tightness(place) >= 3 ==> !(tokens[pos] is Minus),
        skip_spaces(tokens, pos) == pos,
{
    lemma_render_first(term, place);
    lemma_stands_first(tokens, pos, render_at(term, place));
}

/// Whether a term is a sum or a difference.
pub open spec fn is_additive(term: TermModel) -> bool {
    term is BinaryOp && (term->BinaryOp_op == BinaryOperator::Plus || term->BinaryOp_op
        == BinaryOperator::Minus)
}

/// Whether a term is a product or a quotient.
pub open spec fn is_multiplicative(term: TermModel) -> bool {
    term is BinaryOp && (term->BinaryOp_op == BinaryOperator::Times || term->BinaryOp_op
        == BinaryOperator::Div)
}

/// How a term is written at the place of a sum.
proof fn lemma_sum_shape(term: TermModel)
    ensures
        is_additive(term) ==> render_at(term, Place::Sum) == render_at(
            *term->BinaryOp_left,
            Place::Sum,
        ) + seq![operator_token(term->BinaryOp_op)] + render_at(
            *term->BinaryOp_right,
            Place::Product,
        ),
        !is_additive(term) ==> render_at(term, Place::Sum) == render_at(term, Place::Product),
{
}

/// How a term is written at the place of a product.
proof fn lemma_product_shape(term: TermModel)
    ensures
        is_multiplicative(term) ==> render_at(term, Place::Product) == render_at(
            *term->BinaryOp_left,
            Place::Product,
        ) + seq![operator_token(term->BinaryOp_op)] + render_at(
            *term->BinaryOp_right,
            Place::Power,
        ),
        !is_multiplicative(term) ==> render_at(term, Place::Product) == render_at(
            term,
            Place::Signed,
        ),
{
}

/// One more operator and operand folded onto a sum.
proof fn lemma_sum_step(
    tokens: Seq<TokenModel>,
    at: int,
    op: BinaryOperator,
    left: TermModel,
    next: int,
    right: TermModel,
)
    requires
        0 <= at < tokens.len(),
        op == BinaryOperator::Plus || op == BinaryOperator::Minus,
        tokens[at] == operator_token(op),
        at < next <= tokens.len(),
        grammar_mul_div(tokens, at + 1) == Ok::<(int, TermModel), ParseError>((next, right)),
    ensures
        grammar_add_sub_tail(tokens, at, left) == grammar_add_sub_tail(
            tokens,
            next,
            binary(op, left, right),
        ),
{
}

/// One more operator and operand folded onto a product.
proof fn lemma_product_step(
    tokens: Seq<TokenModel>,
    at: int,
    op: BinaryOperator,
    left: TermModel,
    next: int,
    right: TermModel,
)
    requires
        0 <= at < tokens.len(),
        op == BinaryOperator::Times || op == BinaryOperator::Div,
        tokens[at] == operator_token(op),
        at < next <= tokens.len(),
        grammar_pow(tokens, at + 1) == Ok::<(int, TermModel), ParseError>((next, right)),
    ensures
        grammar_mul_div_tail(tokens, at, left) == grammar_mul_div_tail(
            tokens,
            next,
            binary(op, left, right),
        ),
{
}

/// A rendered sum parses as a sum.
proof fn lemma_parse_sum(tokens: Seq<TokenModel>, pos: int, term: TermModel)
    requires
        renderable(term),
        stands_at(tokens, pos, render_at(term, Place::Sum)),
        ends_at(tokens, pos + render_at(term, Place::Sum).len(), Place::Sum),
    ensures
        grammar_add_sub(tokens, pos) == Ok::<(int, TermModel), ParseError>(
            (pos + render_at(term, Place::Sum).len(), term),
        ),
    decreases term, proof_rank(term, Place::Sum),
{
    lemma_rendered_start(tokens, pos, term, Place::Sum);
    lemma_sum_chain(tokens, pos, term);
}

/// Parsing a rendered sum as a sum gives what folding the tokens after
/// it onto the term gives.
proof fn lemma_sum_chain(tokens: Seq<TokenModel>, pos: int, term: TermModel)
    requires
        renderable(term),
        stands_at(tokens, pos, render_at(term, Place::Sum)),
        ends_at(tokens, pos + render_at(term, Place::Sum).len(), Place::Product),
    ensures
        grammar_add_sub(tokens, pos) == grammar_add_sub_tail(
            tokens,
            pos + render_at(term, Place::Sum).len(),
            term,
        ),
    decreases term, (proof_rank(term, Place::Sum) - 1) as nat,
{
    if is_additive(term) {
        lemma_sum_chain_longer(tokens, pos, term);
    } else {
        lemma_sum_chain_single(tokens, pos, term);
    }
}

/// The chain of a sum or a difference: the chain of its left operand,
/// the operator and the right operand.
proof fn lemma_sum_chain_longer(tokens: Seq<TokenModel>, pos: int, term: TermModel)
    requires
        renderable(term),
        is_additive(term),
        stands_at(tokens, pos, render_at(term, Place::Sum)),
        ends_at(tokens, pos + render_at(term, Place::Sum).len(), Place::Product),
    ensures
        grammar_add_sub(tokens, pos) == grammar_add_sub_tail(
            tokens,
            pos + render_at(term, Place::Sum).len(),
            term,
        ),
    decreases term, (proof_rank(term, Place::Sum) - 2) as nat,
{
    let op = term->BinaryOp_op;
    let left = *term->BinaryOp_left;
    let right = *term->BinaryOp_right;
    let head = render_at(left, Place::Sum);
    let tail = render_at(right, Place::Product);
    let middle = pos + head.len();
    let end = middle + 1 + tail.len();
    lemma_sum_shape(term);
    lemma_stands_three(tokens, pos, head, seq![operator_token(op)], tail);
    lemma_stands_first(tokens, middle, seq![operator_token(op)]);
    lemma_stands_first(tokens, middle + 1, tail);
    lemma_render_first(right, Place::Product);
    assert(renderable(left) && renderable(right));
    assert(ends_at(tokens, middle, Place::Product));
    lemma_sum_chain(tokens, pos, left);
    lemma_parse_product(tokens, middle + 1, right);
    assert(term == binary(op, left, right));
    lemma_sum_step(tokens, middle, op, left, end, right);
}

/// The chain of a term that is no sum: the term itself.
proof fn lemma_sum_chain_single(tokens: Seq<TokenModel>, pos: int, term: TermModel)
    requires
        renderable(term),
        !is_additive(term),
        stands_at(tokens, pos, render_at(term, Place::Sum)),
        ends_at(tokens, pos + render_at(term, Place::Sum).len(), Place::Product),
    ensures
        grammar_add_sub(tokens, pos) == grammar_add_sub_tail(
            tokens,
            pos + render_at(term, Place::Sum).len(),
            term,
        ),
    decreases term, (proof_rank(term, Place::Sum) - 2) as nat,
{
    lemma_sum_shape(term);
    lemma_render_first(term, Place::Product);
    lemma_stands_first(tokens, pos, render_at(term, Place::Product));
    lemma_parse_product(tokens, pos, term);
}

/// A rendered product parses as a product.
proof fn lemma_parse_product(tokens: Seq<TokenModel>, pos: int, term: TermModel)
    requires
        renderable(term),
        stands_at(tokens, pos, render_at(term, Place::Product)),
        ends_at(tokens, pos + render_at(term, Place::Product).len(), Place::Product),
    ensures
        grammar_mul_div(tokens, pos) == Ok::<(int, TermModel), ParseError>(
            (pos + render_at(term, Place::Product).len(), term),
        ),
    decreases term, proof_rank(term, Place::Product),
{
    lemma_rendered_start(tokens, pos, term, Place::Product);
    lemma_product_chain(tokens, pos, term);
}

/// Parsing a rendered product as a product gives what folding the tokens
/// after it onto the term gives.
proof fn lemma_product_chain(tokens: Seq<TokenModel>, pos: int, term: TermModel)
    requires
        renderable(term),
        stands_at(tokens, pos, render_at(term, Place::Product)),
        ends_at(tokens, pos + render_at(term, Place::Product).len(), Place::Power),
    ensures
        grammar_mul_div(tokens, pos) == grammar_mul_div_tail(
            tokens,
            pos + render_at(term, Place::Product).len(),
            term,
        ),
    decreases term, (proof_rank(term, Place::Product) - 1) as nat,
{
    if is_multiplicative(term) {
        lemma_product_chain_longer(tokens, pos, term);
    } else {
        lemma_product_chain_single(tokens, pos, term);
    }
}

/// The chain of a product or a quotient: the chain of its left operand,
/// the operator and the right operand.
proof fn lemma_product_chain_longer(tokens: Seq<TokenModel>, pos: int, term: TermModel)
    requires
        renderable(term),
        is_multiplicative(term),
        stands_at(tokens, pos, render_at(term, Place::Product)),
        ends_at(tokens, pos + render_at(term, Place::Product).len(), Place::Power),
    ensures
        grammar_mul_div(tokens, pos) == grammar_mul_div_tail(
            tokens,
            pos + render_at(term, Place::Product).len(),
            term,
        ),
    decreases term, (proof_rank(term, Place::Product) - 2) as nat,
{
    let op = term->BinaryOp_op;
    let left = *term->BinaryOp_left;
    let right = *term->BinaryOp_right;
    let head = render_at(left, Place::Product);
    let tail = render_at(right, Place::Power);
    let middle = pos + head.len();
    let end = middle + 1 + tail.len();
    lemma_product_shape(term);
    lemma_stands_three(tokens, pos, head, seq![operator_token(op)], tail);
    lemma_stands_first(tokens, middle, seq![operator_token(op)]);
    lemma_stands_first(tokens, middle + 1, tail);
    lemma_render_first(right, Place::Power);
    assert(renderable(left) && renderable(right));
    assert(ends_at(tokens, middle, Place::Power));
    lemma_product_chain(tokens, pos, left);
    lemma_parse_power(tokens, middle + 1, right);
    assert(term == binary(op, left, right));
    lemma_product_step(tokens, middle, op, left, end, right);
}

/// The chain of a term that is no product: the term itself.
proof fn lemma_product_chain_single(tokens: Seq<TokenModel>, pos: int, term: TermModel)
    requires
        renderable(term),
        !is_multiplicative(term),
        stands_at(tokens, pos, render_at(term, Place::Product)),
        ends_at(tokens, pos + render_at(term, Place::Product).len(), Place::Power),
    ensures
        grammar_mul_div(tokens, pos) == grammar_mul_div_tail(
            tokens,
            pos + render_at(term, Place::Product).len(),
            term,
        ),
    decreases term, (proof_rank(term, Place::Product) - 2) as nat,
{
    lemma_product_shape(term);
    lemma_render_first(term, Place::Signed);
    lemma_stands_first(tokens, pos, render_at(term, Place::Signed));
    lemma_parse_signed(tokens, pos, term);
}

/// A term rendered for the first operand of a product parses as one.
proof fn lemma_parse_signed(tokens: Seq<TokenModel>, pos: int, term: TermModel)
    requires
        renderable(term),
        stands_at(tokens, pos, render_at(term, Place::Signed)),
        ends_at(tokens, pos + render_at(term, Place::Signed).len(), Place::Signed),
    ensures
        grammar_unary(tokens, pos) == Ok::<(int, TermModel), ParseError>(
            (pos + render_at(term, Place::Signed).len(), term),
        ),
    decreases term, proof_rank(term, Place::Signed),
{
    let piece = render_at(term, Place::Signed);
    lemma_rendered_start(tokens, pos, term, Place::Signed);
    if term is UnaryOp {
        let operand = *term->UnaryOp_operand;
        assert(piece == seq![TokenModel::Minus] + render_at(operand, Place::Power));
        lemma_stands_concat(tokens, pos, seq![TokenModel::Minus], render_at(operand, Place::Power));
        lemma_stands_first(tokens, pos, seq![TokenModel::Minus]);
        assert(tokens[pos] == TokenModel::Minus);
        lemma_parse_power(tokens, pos + 1, operand);
        assert(term == negation(operand));
    } else {
        assert(piece == render_at(term, Place::Power));
        lemma_rendered_start(tokens, pos, term, Place::Power);
        lemma_parse_power(tokens, pos, term);
    }
}

/// A rendered power parses as a power.
proof fn lemma_parse_power(tokens: Seq<TokenModel>, pos: int, term: TermModel)
    requires
        renderable(term),
        stands_at(tokens, pos, render_at(term, Place::Power)),
        ends_at(tokens, pos + render_at(term, Place::Power).len(), Place::Power),
    ensures
        grammar_pow(tokens, pos) == Ok::<(int, TermModel), ParseError>(
            (pos + render_at(term, Place::Power).len(), term),
        ),
    decreases term, proof_rank(term, Place::Power),
{
    let piece = render_at(term, Place::Power);
    lemma_rendered_start(tokens, pos, term, Place::Power);
    if !needs_parentheses(term, Place::Power) && term is BinaryOp {
        let left = *term->BinaryOp_left;
        let right = *term->BinaryOp_right;
        let head = render_at(left, Place::Primary);
        let tail = render_at(right, Place::Power);
        let middle = pos + head.len();
        assert(piece == head + seq![TokenModel::Pow] + tail);
        lemma_stands_three(tokens, pos, head, seq![TokenModel::Pow], tail);
        lemma_stands_first(tokens, middle, seq![TokenModel::Pow]);
        assert(tokens[middle] == TokenModel::Pow);
        lemma_rendered_start(tokens, middle + 1, right, Place::Power);
        lemma_parse_primary(tokens, pos, left);
        lemma_parse_power(tokens, middle + 1, right);
        assert(term == binary(BinaryOperator::Pow, left, right));
    } else {
        assert(piece == render_at(term, Place::Primary));
        lemma_parse_primary(tokens, pos, term);
    }
}

/// A rendered primary parses as a primary.
#[verifier::rlimit(50)]
proof fn lemma_parse_primary(tokens: Seq<TokenModel>, pos: int, term: TermModel)
    requires
        renderable(term),
        stands_at(tokens, pos, render_at(term, Place::Primary)),
        ends_at(tokens, pos + render_at(term, Place::Primary).len(), Place::Primary),
    ensures
        grammar_primary(tokens, pos) == Ok::<(int, TermModel), ParseError>(
            (pos + render_at(term, Place::Primary).len(), term),
        ),
    decreases term, proof_rank(term, Place::Primary),
{
    let piece = render_at(term, Place::Primary);
    lemma_rendered_start(tokens, pos, term, Place::Primary);
    lemma_stands_first(tokens, pos, piece);
    if needs_parentheses(term, Place::Primary) {
        let inner = render_at(term, Place::Sum);
        let close = pos + 1 + inner.len();
        assert(piece == seq![TokenModel::LParen] + inner + seq![TokenModel::RParen]);
        lemma_stands_three(tokens, pos, seq![TokenModel::LParen], inner, seq![TokenModel::RParen]);
        lemma_stands_first(tokens, close, seq![TokenModel::RParen]);
        assert(tokens[close] == TokenModel::RParen);
        assert(tokens[pos] == TokenModel::LParen);
        lemma_parse_sum(tokens, pos + 1, term);
        assert(grammar_expression(tokens, pos + 1) == Ok::<(int, TermModel), ParseError>(
            (close, term),
        ));
        assert(skip_spaces(tokens, close) == close);
    } else {
        match term {
            TermModel::FunctionCall { name, args } => {
                lemma_parse_call(tokens, pos, name, args);
            },
            _ => {},
        }
    }
}

/// A rendered call parses as a primary.
proof fn lemma_parse_call(
    tokens: Seq<TokenModel>,
    pos: int,
    name: Seq<char>,
    args: Seq<TermModel>,
)
    requires
        forall|k: int| 0 <= k < args.len() ==> renderable(#[trigger] args[k]),
        stands_at(
            tokens,
            pos,
            seq![TokenModel::Identifier(name), TokenModel::LParen] + render_args(args, 0) + seq![
                TokenModel::RParen,
            ],
        ),
    ensures
        grammar_primary(tokens, pos) == Ok::<(int, TermModel), ParseError>(
            (pos + render_args(args, 0).len() + 3, TermModel::FunctionCall { name, args }),
        ),
    decreases args, args.len() + 1,
{
    let listed = render_args(args, 0);
    let opening = seq![TokenModel::Identifier(name), TokenModel::LParen];
    lemma_stands_three(tokens, pos, opening, listed, seq![TokenModel::RParen]);
    lemma_stands_first(tokens, pos, opening);
    assert(tokens[pos] == TokenModel::Identifier(name));
    assert(tokens[pos + 1] == TokenModel::LParen);
    assert(skip_spaces(tokens, pos) == pos);
    assert(opening + listed + seq![TokenModel::RParen] =~= opening + (listed + seq![
        TokenModel::RParen,
    ]));
    lemma_stands_concat(tokens, pos, opening, listed + seq![TokenModel::RParen]);
    lemma_stands_first(tokens, pos + 2, listed + seq![TokenModel::RParen]);
    if args.len() == 0 {
        assert(tokens[pos + 2] == TokenModel::RParen);
        assert(skip_spaces(tokens, pos + 2) == pos + 2);
        assert(args =~= Seq::<TermModel>::empty());
        assert(grammar_function_call(tokens, pos) == Ok::<(int, TermModel), ParseError>(
            (pos + 3, TermModel::FunctionCall { name, args }),
        ));
    } else {
        lemma_render_args_first(args, 0);
        assert(tokens[pos + 2] == listed[0]);
        assert(skip_spaces(tokens, pos + 2) == pos + 2);
        assert(args.subrange(0, 0) =~= Seq::<TermModel>::empty());
        lemma_parse_rendered_args(tokens, pos + 2, name, args, 0);
        assert(grammar_function_call(tokens, pos) == grammar_call_args(
            tokens,
            pos + 2,
            name,
            Seq::empty(),
        ));
    }
}

/// Parsing rendered arguments, from the `i`-th on and up to the closing
/// parenthesis, completes the call.
proof fn lemma_parse_rendered_args(
    tokens: Seq<TokenModel>,
    pos: int,
    name: Seq<char>,
    args: Seq<TermModel>,
    i: int,
)
    requires
        0 <= i < args.len(),
        forall|k: int| 0 <= k < args.len() ==> renderable(#[trigger] args[k]),
        stands_at(tokens, pos, render_args(args, i) + seq![TokenModel::RParen]),
    ensures
        grammar_call_args(tokens, pos, name, args.subrange(0, i)) == Ok::<
            (int, TermModel),
            ParseError,
        >((pos + render_args(args, i).len() + 1, TermModel::FunctionCall { name, args })),
    decreases args, args.len() - i,
{
    let arg = args[i];
    let piece = render_at(arg, Place::Sum);
    let done = args.subrange(0, i);
    let after = pos + piece.len();
    lemma_render_first(arg, Place::Sum);
    if i == args.len() - 1 {
        lemma_stands_concat(tokens, pos, piece, seq![TokenModel::RParen]);
        lemma_stands_first(tokens, after, seq![TokenModel::RParen]);
        assert(tokens[after] == TokenModel::RParen);
        lemma_parse_sum(tokens, pos, arg);
        assert(grammar_expression(tokens, pos) == Ok::<(int, TermModel), ParseError>((after, arg)));
        assert(skip_spaces(tokens, after) == after);
        assert(done.push(arg) =~= args);
    } else {
        let rest = render_args(args, i + 1);
        assert(render_args(args, i) + seq![TokenModel::RParen] =~= piece + seq![TokenModel::Comma]
            + (rest + seq![TokenModel::RParen]));
        lemma_stands_three(
            tokens,
            pos,
            piece,
            seq![TokenModel::Comma],
            rest + seq![TokenModel::RParen],
        );
        lemma_stands_first(tokens, after, seq![TokenModel::Comma]);
        assert(tokens[after] == TokenModel::Comma);
        lemma_parse_sum(tokens, pos, arg);
        assert(grammar_expression(tokens, pos) == Ok::<(int, TermModel), ParseError>((after, arg)));
        assert(skip_spaces(tokens, after) == after);
        lemma_render_args_first(args, i + 1);
        lemma_stands_first(tokens, after + 1, rest + seq![TokenModel::RParen]);
        assert(tokens[after + 1] == rest[0]);
        assert(skip_spaces(tokens, after + 1) == after + 1);
        assert(done.push(arg) =~= args.subrange(0, i + 1));
        lemma_parse_rendered_args(tokens, after + 1, name, args, i + 1);
        assert(render_args(args, i).len() == piece.len() + 1 + rest.len());
    }
}

/// Writing a term down and parsing what was written gives the term back,
/// with nothing left over: the parentheses that the renderer leaves out
/// are those that the grammar's precedence and associativity make
/// redundant.
pub proof fn render_then_parse(term: TermModel)
    requires
        renderable(term),
    ensures
        parse_tokens(render_model(term)) == Ok::<(Seq<TokenModel>, TermModel), ParseError>(
            (Seq::empty(), term),
        ),
{
    let tokens = render_model(term);
    lemma_stands_whole(tokens);
    lemma_parse_sum(tokens, 0, term);
    let end = tokens.len() as int;
    assert(tokens.subrange(end, end) =~= Seq::<TokenModel>::empty());
}

impl Place {
    /// How tight the place binds, as a number.
    pub fn rank(&self) -> (n: u8)
        ensures
            n == tightness(*self),
    {
        match self {
            Place::Sum => 0,
            Place::Product => 1,
            Place::Signed => 2,
            Place::Power => 3,
            Place::Primary => 4,
        }
    }
}

/// The loosest place at which a term stands without parentheses.
pub fn place_of(term: &Term) -> (place: Place)
    ensures
        place == natural_place(term@),
{
    match term {
        Term::BinaryOp { op, .. } => match op {
            BinaryOperator::Plus | BinaryOperator::Minus => Place::Sum,
            BinaryOperator::Times | BinaryOperator::Div => Place::Product,
            BinaryOperator::Pow => Place::Power,
        },
        Term::UnaryOp { .. } => Place::Signed,
        _ => Place::Primary,
    }
}

/// The token of an operator.
pub fn token_of(op: BinaryOperator) -> (token: Token)
    ensures
        token@ == operator_token(op),
{
    match op {
        BinaryOperator::Plus => Token::Plus,
        BinaryOperator::Minus => Token::Minus,
        BinaryOperator::Times => Token::Times,
        BinaryOperator::Div => Token::Div,
        BinaryOperator::Pow => Token::Pow,
    }
}

/// Appends a token.
fn put(out: &mut Vec<Token>, token: Token)
    ensures
        tokens_view(final(out)@) == tokens_view(old(out)@) + seq![token@],
{
    out.push(token);
    assert(tokens_view(out@) =~= tokens_view(old(out)@) + seq![token@]);
}

/// Appends the tokens that write a term at a place. Returns whether the
/// term can be written; where it cannot, what was appended means nothing.
#[verifier::rlimit(50)]
fn render_into(term: &Term, place: Place, out: &mut Vec<Token>) -> (written: bool)
    ensures
        written == renderable(term@),
        written ==> tokens_view(final(out)@) == tokens_view(old(out)@) + render_at(term@, place),
    decreases term, render_rank(term@, place),
{
    if place_of(term).rank() < place.rank() {
        put(out, Token::LParen);
        if !render_into(term, Place::Sum, out) {
            return false;
        }
        put(out, Token::RParen);
        assert(tokens_view(out@) =~= tokens_view(old(out)@) + render_at(term@, place));
        return true;
    }
    match term {
        Term::Identifier(name) => {
            put(out, Token::Identifier(name.clone()));
            true
        },
        Term::Integer(n) => {
            put(out, Token::Integer(*n));
            true
        },
        Term::Float(text) => {
            put(out, Token::Float(text.clone()));
            true
        },
        Term::Function { .. } => false,
        Term::SyntaxDefinition { .. } => false,
        Term::FunctionCall { name, args } => {
            assert(term@->FunctionCall_args.len() == args.len());
            assert(forall|k: int| 0 <= k < args.len() ==> term@->FunctionCall_args[k] == args[k]@);
            put(out, Token::Identifier(name.clone()));
            put(out, Token::LParen);
            let ghost opened = tokens_view(out@);
            let ghost model = term@->FunctionCall_args;
            let mut i: usize = 0;
            while i < args.len()
                invariant
                    i <= args.len(),
                    term is FunctionCall,
                    term->FunctionCall_args == args,
                    model == term@->FunctionCall_args,
                    model.len() == args.len(),
                    forall|k: int| 0 <= k < args.len() ==> model[k] == args[k]@,
                    forall|k: int| 0 <= k < i ==> renderable(#[trigger] model[k]),
                    tokens_view(out@) + render_args(model, i as int) == opened + render_args(
                        model,
                        0,
                    ),
                decreases args.len() - i,
            {
                let ghost before = tokens_view(out@);
                if !render_into(&args[i], Place::Sum, out) {
                    assert(!renderable(model[i as int]));
                    return false;
                }
                if i + 1 < args.len() {
                    put(out, Token::Comma);
                    assert(tokens_view(out@) + render_args(model, i + 1) =~= before + render_args(
                        model,
                        i as int,
                    ));
                } else {
                    assert(render_args(model, i + 1) =~= Seq::<TokenModel>::empty());
                    assert(tokens_view(out@) + render_args(model, i + 1) =~= before + render_args(
                        model,
                        i as int,
                    ));
                }
                i += 1;
            }
            assert(render_args(model, i as int) =~= Seq::<TokenModel>::empty());
            assert(tokens_view(out@) =~= opened + render_args(model, 0));
            put(out, Token::RParen);
            assert(tokens_view(out@) =~= tokens_view(old(out)@) + render_at(term@, place));
            true
        },
        Term::BinaryOp { op, left, right } => {
            let (first, second) = match op {
                BinaryOperator::Plus | BinaryOperator::Minus => (Place::Sum, Place::Product),
                BinaryOperator::Times | BinaryOperator::Div => (Place::Product, Place::Power),
                BinaryOperator::Pow => (Place::Primary, Place::Power),
            };
            if !render_into(left, first, out) {
                return false;
            }
            put(out, token_of(*op));
            if !render_into(right, second, out) {
                return false;
            }
            assert(tokens_view(out@) =~= tokens_view(old(out)@) + render_at(term@, place));
            true
        },
        Term::UnaryOp { op, operand } => {
            put(out, Token::Minus);
            if !render_into(operand, Place::Power, out) {
                return false;
            }
            assert(tokens_view(out@) =~= tokens_view(old(out)@) + render_at(term@, place));
            true
        },
    }
}

/// Writes a term down as tokens, with parentheses only where the grammar
/// needs them. A term that holds a definition has no tokens.
pub fn render(term: &Term) -> (tokens: Option<Vec<Token>>)
    ensures
        match tokens {
            Some(written) => renderable(term@) && tokens_view(written@) == render_model(term@),
            None => !renderable(term@),
        },
{
    let mut out: Vec<Token> = Vec::new();
    assert(tokens_view(out@) =~= Seq::<TokenModel>::empty());
    if render_into(term, Place::Sum, &mut out) {
        assert(tokens_view(out@) =~= render_model(term@));
        Some(out)
    } else {
        None
    }
}

} // verus!
