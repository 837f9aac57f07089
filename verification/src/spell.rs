use vstd::prelude::*;
use crate::lexer::{
    decimal_digits_denote, decimal_value, identifier_end, is_digit, is_identifier_part,
    is_identifier_start, is_name, is_number_part, lemma_lex_suffix, lex, lex_from, number_end,
    token_at, tokens_view, without_spaces, Token, TokenModel,
};
use crate::ast::{BinaryOperator, Term, TermModel};
use crate::parser::{line_term, ParseError};
use crate::render::{
    needs_parentheses, operator_token, render, render_args, render_at, render_model,
    render_rank, render_then_parse, renderable, Place,
};
use crate::text::{decimal_text, is_blank, push_integer, push_text};

verus! {

/// The characters that a token is written with. An integer is written in
/// base ten, with a minus sign where it is negative; a whitespace token is
/// written as one space.
pub open spec fn token_text(token: TokenModel) -> Seq<char> {
    match token {
        TokenModel::Identifier(name) => name,
        TokenModel::Integer(n) => decimal_text(n as int),
        TokenModel::Float(text) => text,
        TokenModel::Plus => seq!['+'],
        TokenModel::Minus => seq!['-'],
        TokenModel::Times => seq!['*'],
        TokenModel::Div => seq!['/'],
        TokenModel::Pow => seq!['^'],
        TokenModel::LParen => seq!['('],
        TokenModel::RParen => seq![')'],
        TokenModel::LBracket => seq!['['],
        TokenModel::RBracket => seq![']'],
        TokenModel::LCurly => seq!['{'],
        TokenModel::RCurly => seq!['}'],
        TokenModel::Comma => seq![','],
        TokenModel::Whitespace => seq![' '],
        TokenModel::Unknown(c) => seq![c],
    }
}

/// The text of the tokens from the `i`-th on, one after the other.
pub open spec fn spell_from(tokens: Seq<TokenModel>, i: int) -> Seq<char>
    decreases tokens.len() - i,
{
    if 0 <= i < tokens.len() {
        token_text(tokens[i]) + spell_from(tokens, i + 1)
    } else {
        Seq::empty()
    }
}

/// The text of a list of tokens.
pub open spec fn spell_model(tokens: Seq<TokenModel>) -> Seq<char> {
    spell_from(tokens, 0)
}

/// A character that is a token by itself.
pub open spec fn is_symbol(c: char) -> bool {
    c == '(' || c == ')' || c == '[' || c == ']' || c == '{' || c == '}' || c == ',' || c == '+'
        || c == '-' || c == '*' || c == '/' || c == '^'
}

/// Whether a text is what the tokenizer reads as a float: digits and
/// dots, with a dot among them or a value too large for an integer.
pub open spec fn is_float_text(text: Seq<char>) -> bool {
    &&& text.len() > 0
    &&& forall|i: int| 0 <= i < text.len() ==> is_number_part(#[trigger] text[i])
    &&& text.contains('.') || decimal_value(text) > i64::MAX
}

/// Whether a token is one that the tokenizer gives: a name, an integer
/// that is not negative, the text of a float, or an unknown character
/// that starts no other token.
pub open spec fn well_spelled(token: TokenModel) -> bool {
    match token {
        TokenModel::Identifier(name) => is_name(name),
        TokenModel::Integer(n) => n >= 0,
        TokenModel::Float(text) => is_float_text(text),
        TokenModel::Unknown(c) => !is_symbol(c) && !is_number_part(c) && !is_identifier_start(c)
            && !is_blank(c),
        _ => true,
    }
}

/// Whether a character written right after a token would be read as part
/// of the token.
pub open spec fn glues(token: TokenModel, next: char) -> bool {
    ||| token is Identifier && is_identifier_part(next)
    ||| (token is Integer || token is Float) && is_number_part(next)
}

/// Whether a list of tokens can be read back from its text: each token
/// is well spelled, and none runs into the next.
pub open spec fn readable(tokens: Seq<TokenModel>) -> bool {
    &&& forall|i: int| 0 <= i < tokens.len() ==> well_spelled(#[trigger] tokens[i])
    &&& forall|i: int|
        0 <= i < tokens.len() - 1 ==> !glues(#[trigger] tokens[i], token_text(tokens[i + 1])[0])
}

/// A well-spelled token has text.
proof fn lemma_token_text_not_empty(token: TokenModel)
    requires
        well_spelled(token),
    ensures
        token_text(token).len() >= 1,
{
}

/// A run of identifier characters that ends at `n` ends there from every
/// position in it.
proof fn lemma_identifier_run(text: Seq<char>, j: int, n: int)
    requires
        0 <= j <= n <= text.len(),
        forall|k: int| j <= k < n ==> is_identifier_part(#[trigger] text[k]),
        n < text.len() ==> !is_identifier_part(text[n]),
    ensures
        identifier_end(text, j) == n,
    decreases n - j,
{
    if j < n {
        lemma_identifier_run(text, j + 1, n);
    }
}

/// A run of number characters that ends at `n` ends there from every
/// position in it.
proof fn lemma_number_run(text: Seq<char>, j: int, n: int)
    requires
        0 <= j <= n <= text.len(),
        forall|k: int| j <= k < n ==> is_number_part(#[trigger] text[k]),
        n < text.len() ==> !is_number_part(text[n]),
    ensures
        number_end(text, j) == n,
    decreases n - j,
{
    if j < n {
        lemma_number_run(text, j + 1, n);
    }
}

/// A text that starts with the text of a well-spelled token, and goes on
/// with nothing that the token would run into, starts with the token.
proof fn lemma_first_token(token: TokenModel, rest: Seq<char>)
    requires
        well_spelled(token),
        rest.len() > 0 ==> !glues(token, rest[0]),
    ensures
        token_at(token_text(token) + rest, 0) == (token, token_text(token).len() as int),
{
    let word = token_text(token);
    let text = word + rest;
    let n = word.len() as int;
    assert(forall|k: int| 0 <= k < n ==> text[k] == word[k]);
    if rest.len() > 0 {
        assert(text[n] == rest[0]);
    }
    assert(text.subrange(0, n) =~= word);
    match token {
        TokenModel::Identifier(name) => {
            assert(is_identifier_start(text[0]));
            lemma_identifier_run(text, 1, n);
        },
        TokenModel::Integer(value) => {
            decimal_digits_denote(value as nat);
            assert(is_digit(word[0]));
            assert(forall|k: int| 0 <= k < n ==> is_number_part(#[trigger] text[k])) by {
                assert(forall|k: int| 0 <= k < n ==> is_digit(#[trigger] word[k]));
            }
            lemma_number_run(text, 1, n);
            assert(!word.contains('.')) by {
                if word.contains('.') {
                    let k = choose|k: int| 0 <= k < word.len() && word[k] == '.';
                    assert(is_digit(word[k]));
                }
            }
        },
        TokenModel::Float(digits) => {
            assert(is_number_part(word[0]));
            lemma_number_run(text, 1, n);
        },
        _ => {},
    }
}

/// The text of readable tokens from the `i`-th on reads as those tokens.
proof fn lemma_lex_spelled(tokens: Seq<TokenModel>, i: int)
    requires
        readable(tokens),
        0 <= i <= tokens.len(),
    ensures
        lex(spell_from(tokens, i)) == tokens.skip(i),
    decreases tokens.len() - i,
{
    if i < tokens.len() {
        let token = tokens[i];
        let word = token_text(token);
        let rest = spell_from(tokens, i + 1);
        let text = word + rest;
        lemma_token_text_not_empty(token);
        if i + 1 < tokens.len() {
            lemma_token_text_not_empty(tokens[i + 1]);
            assert(rest[0] == token_text(tokens[i + 1])[0]);
        } else {
            assert(rest.len() == 0);
        }
        lemma_first_token(token, rest);
        lemma_lex_spelled(tokens, i + 1);
        lemma_lex_suffix(text, word.len() as int, 0);
        assert(text.skip(word.len() as int) =~= rest);
        assert(lex_from(text, 0) == seq![token] + lex_from(text, word.len() as int));
        assert(seq![token] + tokens.skip(i + 1) =~= tokens.skip(i));
    } else {
        assert(tokens.skip(i) =~= Seq::<TokenModel>::empty());
    }
}

/// Readable tokens are read back from their text.
pub proof fn spell_then_lex(tokens: Seq<TokenModel>)
    requires
        readable(tokens),
    ensures
        lex(spell_model(tokens)) == tokens,
{
    lemma_lex_spelled(tokens, 0);
    assert(tokens.skip(0) =~= tokens);
}

/// A token that is a name or a number.
pub open spec fn is_word(token: TokenModel) -> bool {
    token is Identifier || token is Integer || token is Float
}

/// A token that is written with one character that is a token by itself.
pub open spec fn is_symbol_token(token: TokenModel) -> bool {
    !is_word(token) && !(token is Whitespace) && !(token is Unknown)
}

/// Whether tokens are written as an expression is: every token is well
/// spelled, none is whitespace, and a name or a number is followed by a
/// symbol.
pub open spec fn tidy(tokens: Seq<TokenModel>) -> bool {
    &&& forall|i: int|
        0 <= i < tokens.len() ==> well_spelled(#[trigger] tokens[i]) && !(tokens[i] is Whitespace)
    &&& forall|i: int|
        0 <= i < tokens.len() - 1 && is_word(#[trigger] tokens[i]) ==> is_symbol_token(
            tokens[i + 1],
        )
}

/// Tidy tokens can be read back from their text.
proof fn lemma_tidy_readable(tokens: Seq<TokenModel>)
    requires
        tidy(tokens),
    ensures
        readable(tokens),
{
    assert forall|i: int| 0 <= i < tokens.len() - 1 implies !glues(
        #[trigger] tokens[i],
        token_text(tokens[i + 1])[0],
    ) by {
        if is_word(tokens[i]) {
            assert(is_symbol_token(tokens[i + 1]));
        }
    }
}

/// Tidy tokens hold no whitespace to leave out.
proof fn lemma_tidy_without_spaces(tokens: Seq<TokenModel>)
    requires
        tidy(tokens),
    ensures
        without_spaces(tokens) == tokens,
    decreases tokens.len(),
{
    if tokens.len() > 0 {
        let front = tokens.drop_last();
        assert(tidy(front)) by {
            assert forall|i: int| 0 <= i < front.len() implies well_spelled(#[trigger] front[i])
                && !(front[i] is Whitespace) by {
                assert(front[i] == tokens[i]);
            }
            assert forall|i: int| 0 <= i < front.len() - 1 && is_word(
                #[trigger] front[i],
            ) implies is_symbol_token(front[i + 1]) by {
                assert(front[i] == tokens[i]);
                assert(front[i + 1] == tokens[i + 1]);
            }
        }
        lemma_tidy_without_spaces(front);
        assert(front.push(tokens.last()) =~= tokens);
    } else {
        assert(tokens =~= Seq::<TokenModel>::empty());
    }
}

/// Two tidy pieces make a tidy whole where the first does not end in a
/// word or the second starts with a symbol.
proof fn lemma_tidy_concat(first: Seq<TokenModel>, second: Seq<TokenModel>)
    requires
        tidy(first),
        tidy(second),
        first.len() == 0 || second.len() == 0 || !is_word(first.last()) || is_symbol_token(
            second[0],
        ),
    ensures
        tidy(first + second),
{
    let both = first + second;
    assert forall|i: int| 0 <= i < both.len() implies well_spelled(#[trigger] both[i]) && !(both[i]
        is Whitespace) by {
        if i < first.len() {
            assert(both[i] == first[i]);
        } else {
            assert(both[i] == second[i - first.len()]);
        }
    }
    assert forall|i: int| 0 <= i < both.len() - 1 && is_word(
        #[trigger] both[i],
    ) implies is_symbol_token(both[i + 1]) by {
        if i + 1 < first.len() {
            assert(both[i] == first[i]);
            assert(both[i + 1] == first[i + 1]);
        } else if i < first.len() {
            assert(both[i] == first.last());
            assert(both[i + 1] == second[0]);
        } else {
            assert(both[i] == second[i - first.len()]);
            assert(both[i + 1] == second[i - first.len() + 1]);
        }
    }
}

/// A symbol by itself is tidy.
proof fn lemma_tidy_symbol(token: TokenModel)
    requires
        is_symbol_token(token),
    ensures
        tidy(seq![token]),
        seq![token].last() == token,
        seq![token][0] == token,
{
}

/// Whether a term is made of what the tokenizer gives: names, integers
/// that are not negative, and texts of floats.
pub open spec fn well_written(term: TermModel) -> bool
    decreases term,
{
    match term {
        TermModel::Identifier(name) => is_name(name),
        TermModel::Integer(n) => n >= 0,
        TermModel::Float(text) => is_float_text(text),
        TermModel::Function { .. } => false,
        TermModel::SyntaxDefinition { .. } => false,
        TermModel::FunctionCall { name, args } => is_name(name) && forall|i: int|
            0 <= i < args.len() ==> well_written(#[trigger] args[i]),
        TermModel::BinaryOp { op, left, right } => well_written(*left) && well_written(*right),
        TermModel::UnaryOp { op, operand } => well_written(*operand),
    }
}

/// A well-written term can be rendered.
proof fn lemma_well_written_renderable(term: TermModel)
    requires
        well_written(term),
    ensures
        renderable(term),
    decreases term,
{
    match term {
        TermModel::FunctionCall { name, args } => {
            assert forall|i: int| 0 <= i < args.len() implies renderable(#[trigger] args[i]) by {
                lemma_well_written_renderable(args[i]);
            }
        },
        TermModel::BinaryOp { op, left, right } => {
            lemma_well_written_renderable(*left);
            lemma_well_written_renderable(*right);
        },
        TermModel::UnaryOp { op, operand } => {
            lemma_well_written_renderable(*operand);
        },
        _ => {},
    }
}

/// Three tidy pieces with a symbol in the middle make a tidy whole.
proof fn lemma_tidy_around(first: Seq<TokenModel>, symbol: TokenModel, second: Seq<TokenModel>)
    requires
        tidy(first),
        tidy(second),
        is_symbol_token(symbol),
    ensures
        tidy(first + seq![symbol] + second),
{
    lemma_tidy_symbol(symbol);
    lemma_tidy_concat(first, seq![symbol]);
    assert((first + seq![symbol]).last() == symbol);
    lemma_tidy_concat(first + seq![symbol], second);
}

/// A well-written term is rendered as tidy tokens.
proof fn lemma_render_tidy(term: TermModel, place: Place)
    requires
        well_written(term),
    ensures
        tidy(render_at(term, place)),
    decreases term, render_rank(term, place),
{
    if needs_parentheses(term, place) {
        let inner = render_at(term, Place::Sum);
        lemma_render_tidy(term, Place::Sum);
        lemma_tidy_symbol(TokenModel::LParen);
        lemma_tidy_symbol(TokenModel::RParen);
        lemma_tidy_concat(seq![TokenModel::LParen], inner);
        lemma_tidy_concat(seq![TokenModel::LParen] + inner, seq![TokenModel::RParen]);
    } else {
        match term {
            TermModel::FunctionCall { name, args } => {
                let opening = seq![TokenModel::Identifier(name), TokenModel::LParen];
                let listed = render_args(args, 0);
                assert(tidy(opening));
                lemma_render_args_tidy(args, 0);
                assert(opening.last() == TokenModel::LParen);
                lemma_tidy_concat(opening, listed);
                lemma_tidy_symbol(TokenModel::RParen);
                lemma_tidy_concat(opening + listed, seq![TokenModel::RParen]);
            },
            TermModel::BinaryOp { op, left, right } => {
                match op {
                    BinaryOperator::Plus | BinaryOperator::Minus => {
                        lemma_render_tidy(*left, Place::Sum);
                        lemma_render_tidy(*right, Place::Product);
                        lemma_tidy_around(
                            render_at(*left, Place::Sum),
                            operator_token(op),
                            render_at(*right, Place::Product),
                        );
                    },
                    BinaryOperator::Times | BinaryOperator::Div => {
                        lemma_render_tidy(*left, Place::Product);
                        lemma_render_tidy(*right, Place::Power);
                        lemma_tidy_around(
                            render_at(*left, Place::Product),
                            operator_token(op),
                            render_at(*right, Place::Power),
                        );
                    },
                    BinaryOperator::Pow => {
                        lemma_render_tidy(*left, Place::Primary);
                        lemma_render_tidy(*right, Place::Power);
                        lemma_tidy_around(
                            render_at(*left, Place::Primary),
                            TokenModel::Pow,
                            render_at(*right, Place::Power),
                        );
                    },
                }
            },
            TermModel::UnaryOp { op, operand } => {
                lemma_render_tidy(*operand, Place::Power);
                lemma_tidy_symbol(TokenModel::Minus);
                lemma_tidy_concat(seq![TokenModel::Minus], render_at(*operand, Place::Power));
            },
            _ => {},
        }
    }
}

/// Well-written arguments are rendered as tidy tokens.
proof fn lemma_render_args_tidy(args: Seq<TermModel>, i: int)
    requires
        0 <= i,
        forall|k: int| 0 <= k < args.len() ==> well_written(#[trigger] args[k]),
    ensures
        tidy(render_args(args, i)),
    decreases args, args.len() - i,
{
    if i < args.len() {
        lemma_render_tidy(args[i], Place::Sum);
        if i < args.len() - 1 {
            lemma_render_args_tidy(args, i + 1);
            lemma_tidy_around(
                render_at(args[i], Place::Sum),
                TokenModel::Comma,
                render_args(args, i + 1),
            );
        }
    }
}

/// The text that writes a term: its tokens, written one after the other.
pub open spec fn text_of(term: TermModel) -> Seq<char> {
    spell_model(render_model(term))
}

/// Writing a well-written expression as text and reading the text gives
/// the expression back: the tokenizer finds the tokens that were written,
/// and the parser the tree that they were written for.
pub proof fn write_then_read(term: TermModel)
    requires
        well_written(term),
    ensures
        line_term(text_of(term)) == Ok::<TermModel, ParseError>(term),
{
    let tokens = render_model(term);
    lemma_well_written_renderable(term);
    lemma_render_tidy(term, Place::Sum);
    lemma_tidy_readable(tokens);
    lemma_tidy_without_spaces(tokens);
    spell_then_lex(tokens);
    render_then_parse(term);
}

/// Appends the text of a token.
fn push_token(text: &mut String, token: &Token)
    ensures
        final(text)@ == old(text)@ + token_text(token@),
{
    match token {
        Token::Identifier(name) => push_text(text, name.as_str()),
        Token::Integer(n) => push_integer(text, *n),
        Token::Float(digits) => push_text(text, digits.as_str()),
        Token::Plus => text.push('+'),
        Token::Minus => text.push('-'),
        Token::Times => text.push('*'),
        Token::Div => text.push('/'),
        Token::Pow => text.push('^'),
        Token::LParen => text.push('('),
        Token::RParen => text.push(')'),
        Token::LBracket => text.push('['),
        Token::RBracket => text.push(']'),
        Token::LCurly => text.push('{'),
        Token::RCurly => text.push('}'),
        Token::Comma => text.push(','),
        Token::Whitespace => text.push(' '),
        Token::Unknown(c) => text.push(*c),
    }
    assert(text@ =~= old(text)@ + token_text(token@));
}

/// Writes tokens as text, one after the other.
pub fn spell(tokens: &[Token]) -> (text: String)
    ensures
        text@ == spell_model(tokens_view(tokens@)),
{
    let ghost model = tokens_view(tokens@);
    let mut text = String::new();
    let mut i: usize = 0;
    while i < tokens.len()
        invariant
            i <= tokens.len(),
            model == tokens_view(tokens@),
            text@ + spell_from(model, i as int) == spell_model(model),
        decreases tokens.len() - i,
    {
        let ghost before = text@;
        push_token(&mut text, &tokens[i]);
        assert(text@ + spell_from(model, i + 1) =~= before + spell_from(model, i as int));
        i += 1;
    }
    assert(text@ + spell_from(model, i as int) =~= text@);
    text
}

/// Writes a term as text, with parentheses only where the grammar needs
/// them. A term that holds a definition has no text.
pub fn to_text(term: &Term) -> (text: Option<String>)
    ensures
        match text {
            Some(written) => renderable(term@) && written@ == text_of(term@),
            None => !renderable(term@),
        },
{
    match render(term) {
        Some(tokens) => Some(spell(tokens.as_slice())),
        None => None,
    }
}

/// A run of identifier characters holds nothing else, and ends at the end
/// of the text or before a character of another kind.
proof fn lemma_identifier_end_is_maximal(text: Seq<char>, j: int)
    requires
        0 <= j <= text.len(),
    ensures
        j <= identifier_end(text, j) <= text.len(),
        forall|k: int| j <= k < identifier_end(text, j) ==> is_identifier_part(#[trigger] text[k]),
        identifier_end(text, j) < text.len() ==> !is_identifier_part(
            text[identifier_end(text, j)],
        ),
    decreases text.len() - j,
{
    if j < text.len() && is_identifier_part(text[j]) {
        lemma_identifier_end_is_maximal(text, j + 1);
    }
}

/// A run of number characters holds nothing else, and ends at the end of
/// the text or before a character of another kind.
proof fn lemma_number_end_is_maximal(text: Seq<char>, j: int)
    requires
        0 <= j <= text.len(),
    ensures
        j <= number_end(text, j) <= text.len(),
        forall|k: int| j <= k < number_end(text, j) ==> is_number_part(#[trigger] text[k]),
        number_end(text, j) < text.len() ==> !is_number_part(text[number_end(text, j)]),
    decreases text.len() - j,
{
    if j < text.len() && is_number_part(text[j]) {
        lemma_number_end_is_maximal(text, j + 1);
    }
}

/// The token that the tokenizer finds at a position is well spelled, ends
/// where no character follows that it would run into, and is written with
/// a first character of the kind of the character it was found at.
proof fn lemma_token_found(text: Seq<char>, i: int)
    requires
        0 <= i < text.len(),
    ensures
        well_spelled(token_at(text, i).0),
        i < token_at(text, i).1 <= text.len(),
        token_at(text, i).1 < text.len() ==> !glues(
            token_at(text, i).0,
            text[token_at(text, i).1],
        ),
        token_text(token_at(text, i).0).len() >= 1,
        is_identifier_part(token_text(token_at(text, i).0)[0]) ==> is_identifier_part(text[i]),
        is_number_part(token_text(token_at(text, i).0)[0]) ==> is_number_part(text[i]),
{
    let token = token_at(text, i).0;
    let end = token_at(text, i).1;
    lemma_identifier_end_is_maximal(text, i + 1);
    lemma_number_end_is_maximal(text, i + 1);
    let c = text[i];
    if is_symbol(c) {
    } else if is_number_part(c) {
        let word = text.subrange(i, end);
        assert(word[0] == c);
        assert forall|k: int| 0 <= k < word.len() implies is_number_part(#[trigger] word[k]) by {
            assert(word[k] == text[i + k]);
        }
        if token is Integer {
            let value = token->Integer_0;
            decimal_digits_denote(value as nat);
            assert(is_digit(token_text(token)[0]));
            assert(is_digit(c)) by {
                if c == '.' {
                    assert(word.contains('.'));
                }
            }
        }
    } else if is_identifier_start(c) {
        let word = text.subrange(i, end);
        assert(word[0] == c);
        assert forall|k: int| 0 <= k < word.len() implies is_identifier_part(
            #[trigger] word[k],
        ) by {
            assert(word[k] == text[i + k]);
        }
    } else {
    }
}

/// The tokens that the tokenizer finds from a position on can be read
/// back from their text.
proof fn lemma_lex_readable(text: Seq<char>, i: int)
    requires
        0 <= i <= text.len(),
    ensures
        readable(lex_from(text, i)),
        i < text.len() ==> lex_from(text, i).len() >= 1 && lex_from(text, i)[0] == token_at(
            text,
            i,
        ).0,
    decreases text.len() - i,
{
    if i < text.len() {
        let token = token_at(text, i).0;
        let next = token_at(text, i).1;
        lemma_token_found(text, i);
        lemma_lex_readable(text, next);
        let rest = lex_from(text, next);
        let tokens = seq![token] + rest;
        assert(lex_from(text, i) == tokens);
        if next < text.len() {
            lemma_token_found(text, next);
        }
        assert forall|k: int| 0 <= k < tokens.len() implies well_spelled(#[trigger] tokens[k]) by {
            if k > 0 {
                assert(tokens[k] == rest[k - 1]);
            }
        }
        assert forall|k: int| 0 <= k < tokens.len() - 1 implies !glues(
            #[trigger] tokens[k],
            token_text(tokens[k + 1])[0],
        ) by {
            if k > 0 {
                assert(tokens[k] == rest[k - 1]);
                assert(tokens[k + 1] == rest[k]);
            } else {
                assert(tokens[1] == rest[0]);
            }
        }
    }
}

/// What the tokenizer gives can be read back from its text: the tokens of
/// the text of the tokens of a text are the tokens of the text.
pub proof fn lex_is_stable(text: Seq<char>)
    ensures
        readable(lex(text)),
        lex(spell_model(lex(text))) == lex(text),
{
    lemma_lex_readable(text, 0);
    spell_then_lex(lex(text));
}

} // verus!
