use vstd::prelude::*;
use crate::text::{blank, chars_of, decimal_digits, digit_char, is_blank, string_of};

verus! {

/// A lexical unit. A float keeps the text it was written with.
#[derive(Debug, PartialEq)]
pub enum Token {
    Identifier(String),
    Integer(i64),
    Float(String),
    Plus,
    Minus,
    Times,
    Div,
    Pow,
    LParen,
    RParen,
    LBracket,
    RBracket,
    LCurly,
    RCurly,
    Comma,
    Whitespace,
    Unknown(char),
}

/// The mathematical value of a [`Token`].
pub enum TokenModel {
    Identifier(Seq<char>),
    Integer(i64),
    Float(Seq<char>),
    Plus,
    Minus,
    Times,
    Div,
    Pow,
    LParen,
    RParen,
    LBracket,
    RBracket,
    LCurly,
    RCurly,
    Comma,
    Whitespace,
    Unknown(char),
}

impl View for Token {
    type V = TokenModel;

    open spec fn view(&self) -> TokenModel {
        match self {
            Token::Identifier(name) => TokenModel::Identifier(name@),
            Token::Integer(n) => TokenModel::Integer(*n),
            Token::Float(text) => TokenModel::Float(text@),
            Token::Plus => TokenModel::Plus,
            Token::Minus => TokenModel::Minus,
            Token::Times => TokenModel::Times,
            Token::Div => TokenModel::Div,
            Token::Pow => TokenModel::Pow,
            Token::LParen => TokenModel::LParen,
            Token::RParen => TokenModel::RParen,
            Token::LBracket => TokenModel::LBracket,
            Token::RBracket => TokenModel::RBracket,
            Token::LCurly => TokenModel::LCurly,
            Token::RCurly => TokenModel::RCurly,
            Token::Comma => TokenModel::Comma,
            Token::Whitespace => TokenModel::Whitespace,
            Token::Unknown(c) => TokenModel::Unknown(*c),
        }
    }
}

impl Clone for Token {
    fn clone(&self) -> (copy: Token)
        ensures
            copy@ == self@,
    {
        match self {
            Token::Identifier(name) => Token::Identifier(name.clone()),
            Token::Integer(n) => Token::Integer(*n),
            Token::Float(text) => Token::Float(text.clone()),
            Token::Plus => Token::Plus,
            Token::Minus => Token::Minus,
            Token::Times => Token::Times,
            Token::Div => Token::Div,
            Token::Pow => Token::Pow,
            Token::LParen => Token::LParen,
            Token::RParen => Token::RParen,
            Token::LBracket => Token::LBracket,
            Token::RBracket => Token::RBracket,
            Token::LCurly => Token::LCurly,
            Token::RCurly => Token::RCurly,
            Token::Comma => Token::Comma,
            Token::Whitespace => Token::Whitespace,
            Token::Unknown(c) => Token::Unknown(*c),
        }
    }
}

/// The models of a list of tokens.
pub open spec fn tokens_view(tokens: Seq<Token>) -> Seq<TokenModel> {
    Seq::new(tokens.len(), |i: int| tokens[i]@)
}

/// A decimal digit.
pub open spec fn is_digit(c: char) -> bool {
    '0' <= c <= '9'
}

/// A character that a number is made of: a digit or a dot.
pub open spec fn is_number_part(c: char) -> bool {
    is_digit(c) || c == '.'
}

/// A character that an identifier starts with.
pub open spec fn is_identifier_start(c: char) -> bool {
    ('a' <= c <= 'z') || ('A' <= c <= 'Z') || c == '_'
}

/// A character that an identifier goes on with.
pub open spec fn is_identifier_part(c: char) -> bool {
    is_identifier_start(c) || is_digit(c)
}

/// Whether a text is a name: a letter or an underscore, then letters,
/// digits and underscores.
pub open spec fn is_name(text: Seq<char>) -> bool {
    &&& text.len() > 0
    &&& is_identifier_start(text[0])
    &&& forall|i: int| 0 <= i < text.len() ==> is_identifier_part(#[trigger] text[i])
}

/// Whether a text is made of digits, and of one at least.
pub open spec fn is_number(text: Seq<char>) -> bool {
    &&& text.len() > 0
    &&& forall|i: int| 0 <= i < text.len() ==> is_digit(#[trigger] text[i])
}

/// Where the run of number characters that holds position `i` ends.
pub open spec fn number_end(text: Seq<char>, i: int) -> int
    decreases text.len() - i,
{
    if 0 <= i < text.len() && is_number_part(text[i]) {
        number_end(text, i + 1)
    } else {
        i
    }
}

/// Where the run of identifier characters that holds position `i` ends.
pub open spec fn identifier_end(text: Seq<char>, i: int) -> int
    decreases text.len() - i,
{
    if 0 <= i < text.len() && is_identifier_part(text[i]) {
        identifier_end(text, i + 1)
    } else {
        i
    }
}

/// The number that a digit stands for.
pub open spec fn digit_value(c: char) -> nat {
    (c as nat - '0' as nat) as nat
}

/// The number that a string of digits denotes in base ten.
pub open spec fn decimal_value(digits: Seq<char>) -> nat
    decreases digits.len(),
{
    if digits.len() == 0 {
        0
    } else {
        decimal_value(digits.drop_last()) * 10 + digit_value(digits.last())
    }
}

/// The token that a run of digits and dots makes: a float where it holds
/// a dot, an integer where it holds none and its value fits in 64 bits,
/// and a float again where the value is too large for an integer.
pub open spec fn number_token(text: Seq<char>) -> TokenModel {
    if text.contains('.') || decimal_value(text) > i64::MAX {
        TokenModel::Float(text)
    } else {
        TokenModel::Integer(decimal_value(text) as i64)
    }
}

/// The token that starts at position `i`, and the position after it.
pub open spec fn token_at(text: Seq<char>, i: int) -> (TokenModel, int)
    recommends
        0 <= i < text.len(),
{
    let c = text[i];
    if c == '(' {
        (TokenModel::LParen, i + 1)
    } else if c == ')' {
        (TokenModel::RParen, i + 1)
    } else if c == '[' {
        (TokenModel::LBracket, i + 1)
    } else if c == ']' {
        (TokenModel::RBracket, i + 1)
    } else if c == '{' {
        (TokenModel::LCurly, i + 1)
    } else if c == '}' {
        (TokenModel::RCurly, i + 1)
    } else if c == ',' {
        (TokenModel::Comma, i + 1)
    } else if c == '+' {
        (TokenModel::Plus, i + 1)
    } else if c == '-' {
        (TokenModel::Minus, i + 1)
    } else if c == '*' {
        (TokenModel::Times, i + 1)
    } else if c == '/' {
        (TokenModel::Div, i + 1)
    } else if c == '^' {
        (TokenModel::Pow, i + 1)
    } else if is_number_part(c) {
        let end = number_end(text, i + 1);
        (number_token(text.subrange(i, end)), end)
    } else if is_identifier_start(c) {
        let end = identifier_end(text, i + 1);
        (TokenModel::Identifier(text.subrange(i, end)), end)
    } else if is_blank(c) {
        (TokenModel::Whitespace, i + 1)
    } else {
        (TokenModel::Unknown(c), i + 1)
    }
}

/// The run that holds `i` ends no earlier than `i` and no later than the
/// text.
proof fn lemma_number_end_bounds(text: Seq<char>, i: int)
    requires
        0 <= i <= text.len(),
    ensures
        i <= number_end(text, i) <= text.len(),
    decreases text.len() - i,
{
    if i < text.len() && is_number_part(text[i]) {
        lemma_number_end_bounds(text, i + 1);
    }
}

/// The run that holds `i` ends no earlier than `i` and no later than the
/// text.
proof fn lemma_identifier_end_bounds(text: Seq<char>, i: int)
    requires
        0 <= i <= text.len(),
    ensures
        i <= identifier_end(text, i) <= text.len(),
    decreases text.len() - i,
{
    if i < text.len() && is_identifier_part(text[i]) {
        lemma_identifier_end_bounds(text, i + 1);
    }
}

/// Every token takes at least one character and ends within the text.
proof fn lemma_token_advances(text: Seq<char>, i: int)
    requires
        0 <= i < text.len(),
    ensures
        i < token_at(text, i).1 <= text.len(),
{
    lemma_number_end_bounds(text, i + 1);
    lemma_identifier_end_bounds(text, i + 1);
}

/// The tokens of the text from position `i` on.
pub open spec fn lex_from(text: Seq<char>, i: int) -> Seq<TokenModel>
    decreases text.len() - i,
    when 0 <= i
    via lex_from_decreases
{
    if i >= text.len() {
        Seq::empty()
    } else {
        seq![token_at(text, i).0] + lex_from(text, token_at(text, i).1)
    }
}

#[via_fn]
proof fn lex_from_decreases(text: Seq<char>, i: int) {
    if i < text.len() {
        lemma_token_advances(text, i);
    }
}

/// The tokens of a text: every character belongs to exactly one token,
/// identifiers and numbers take as many characters as they can, and each
/// whitespace character is a token of its own.
pub open spec fn lex(text: Seq<char>) -> Seq<TokenModel> {
    lex_from(text, 0)
}

/// A longer string of digits denotes no smaller a number.
proof fn lemma_decimal_value_grows(text: Seq<char>, from: int, mid: int, to: int)
    requires
        0 <= from <= mid <= to <= text.len(),
    ensures
        decimal_value(text.subrange(from, mid)) <= decimal_value(text.subrange(from, to)),
    decreases to - mid,
{
    if mid < to {
        lemma_decimal_value_grows(text, from, mid, to - 1);
        assert(text.subrange(from, to).drop_last() =~= text.subrange(from, to - 1));
    }
}

/// Tests for a decimal digit.
pub fn digit(c: char) -> (yes: bool)
    ensures
        yes == is_digit(c),
{
    '0' <= c && c <= '9'
}

/// Tests for a character that an identifier starts with.
pub fn identifier_start(c: char) -> (yes: bool)
    ensures
        yes == is_identifier_start(c),
{
    ('a' <= c && c <= 'z') || ('A' <= c && c <= 'Z') || c == '_'
}

/// Finds the end of a run of digits and dots, and whether it holds a dot.
fn scan_number(chars: &Vec<char>, start: usize) -> (found: (usize, bool))
    requires
        start <= chars.len(),
    ensures
        found.0 == number_end(chars@, start as int),
        start <= found.0 <= chars.len(),
        found.1 == chars@.subrange(start as int, found.0 as int).contains('.'),
        forall|k: int| start <= k < found.0 ==> is_number_part(#[trigger] chars@[k]),
{
    let mut i: usize = start;
    let mut dot = false;
    while i < chars.len() && (digit(chars[i]) || chars[i] == '.')
        invariant
            start <= i <= chars.len(),
            number_end(chars@, start as int) == number_end(chars@, i as int),
            dot == chars@.subrange(start as int, i as int).contains('.'),
            forall|k: int| start <= k < i ==> is_number_part(#[trigger] chars@[k]),
        decreases chars.len() - i,
    {
        let ghost before = chars@.subrange(start as int, i as int);
        let ghost after = chars@.subrange(start as int, i + 1);
        proof {
            assert(after =~= before.push(chars@[i as int]));
            if before.contains('.') {
                let k = choose|k: int| 0 <= k < before.len() && before[k] == '.';
                assert(after[k] == '.');
            }
            if chars@[i as int] == '.' {
                assert(after[i - start] == '.');
            }
        }
        if chars[i] == '.' {
            dot = true;
        }
        i += 1;
    }
    (i, dot)
}

/// Finds the end of a run of identifier characters.
fn scan_identifier(chars: &Vec<char>, start: usize) -> (end: usize)
    requires
        start <= chars.len(),
    ensures
        end == identifier_end(chars@, start as int),
        start <= end <= chars.len(),
{
    let mut i: usize = start;
    while i < chars.len() && (identifier_start(chars[i]) || digit(chars[i]))
        invariant
            start <= i <= chars.len(),
            identifier_end(chars@, start as int) == identifier_end(chars@, i as int),
        decreases chars.len() - i,
    {
        i += 1;
    }
    i
}

/// Whether the characters at `from..to` are digits.
pub open spec fn all_digits(text: Seq<char>, from: int, to: int) -> bool {
    forall|k: int| from <= k < to ==> is_digit(#[trigger] text[k])
}

/// The value of the digits at `from..to`; `None` where a character there
/// is no digit or the value is too large for a 64-bit integer.
pub fn integer_of(chars: &[char], from: usize, to: usize) -> (value: Option<i64>)
    requires
        from <= to <= chars.len(),
    ensures
        match value {
            Some(v) => all_digits(chars@, from as int, to as int) && v == decimal_value(
                chars@.subrange(from as int, to as int),
            ),
            None => !all_digits(chars@, from as int, to as int) || decimal_value(
                chars@.subrange(from as int, to as int),
            ) > i64::MAX,
        },
{
    let mut value: i64 = 0;
    let mut i: usize = from;
    while i < to
        invariant
            from <= i <= to <= chars.len(),
            all_digits(chars@, from as int, i as int),
            0 <= value,
            value == decimal_value(chars@.subrange(from as int, i as int)),
        decreases to - i,
    {
        let c = chars[i];
        if !digit(c) {
            return None;
        }
        let d: i64 = (c as u32 - '0' as u32) as i64;
        proof {
            assert(chars@.subrange(from as int, i + 1).drop_last() =~= chars@.subrange(
                from as int,
                i as int,
            ));
            assert(d == digit_value(c));
            lemma_decimal_value_grows(chars@, from as int, i + 1, to as int);
        }
        if value > (i64::MAX - d) / 10 {
            return None;
        }
        value = value * 10 + d;
        i += 1;
    }
    Some(value)
}

/// Reads the token that starts at position `i`.
fn scan_token(chars: &Vec<char>, i: usize) -> (found: (Token, usize))
    requires
        i < chars.len(),
    ensures
        (found.0@, found.1 as int) == token_at(chars@, i as int),
        i < found.1 <= chars.len(),
{
    proof {
        lemma_token_advances(chars@, i as int);
    }
    let c = chars[i];
    if c == '(' {
        (Token::LParen, i + 1)
    } else if c == ')' {
        (Token::RParen, i + 1)
    } else if c == '[' {
        (Token::LBracket, i + 1)
    } else if c == ']' {
        (Token::RBracket, i + 1)
    } else if c == '{' {
        (Token::LCurly, i + 1)
    } else if c == '}' {
        (Token::RCurly, i + 1)
    } else if c == ',' {
        (Token::Comma, i + 1)
    } else if c == '+' {
        (Token::Plus, i + 1)
    } else if c == '-' {
        (Token::Minus, i + 1)
    } else if c == '*' {
        (Token::Times, i + 1)
    } else if c == '/' {
        (Token::Div, i + 1)
    } else if c == '^' {
        (Token::Pow, i + 1)
    } else if digit(c) || c == '.' {
        let (end, rest_dot) = scan_number(chars, i + 1);
        let ghost text = chars@.subrange(i as int, end as int);
        proof {
            let rest = chars@.subrange(i + 1, end as int);
            if rest.contains('.') {
                let k = choose|k: int| 0 <= k < rest.len() && rest[k] == '.';
                assert(text[k + 1] == '.');
            }
            if c == '.' {
                assert(text[0] == '.');
            }
            if text.contains('.') && c != '.' {
                let k = choose|k: int| 0 <= k < text.len() && text[k] == '.';
                assert(rest[k - 1] == '.');
            }
            assert forall|k: int| i <= k < end && !text.contains('.') implies is_digit(
                #[trigger] chars@[k],
            ) by {
                assert(text[k - i] == chars@[k]);
            }
        }
        if c == '.' || rest_dot {
            (Token::Float(string_of(chars.as_slice(), i, end)), end)
        } else {
            match integer_of(chars.as_slice(), i, end) {
                Some(value) => (Token::Integer(value), end),
                None => (Token::Float(string_of(chars.as_slice(), i, end)), end),
            }
        }
    } else if identifier_start(c) {
        let end = scan_identifier(chars, i + 1);
        (Token::Identifier(string_of(chars.as_slice(), i, end)), end)
    } else if blank(c) {
        (Token::Whitespace, i + 1)
    } else {
        (Token::Unknown(c), i + 1)
    }
}

/// Splits a text into tokens. Every text has tokens: a character that
/// starts nothing else is an `Unknown` token.
pub fn tokenize(input: &str) -> (tokens: Vec<Token>)
    ensures
        tokens_view(tokens@) == lex(input@),
{
    let chars = chars_of(input);
    let mut tokens: Vec<Token> = Vec::new();
    let mut i: usize = 0;
    assert(tokens_view(tokens@) + lex_from(chars@, 0) =~= lex(chars@));
    while i < chars.len()
        invariant
            i <= chars.len(),
            chars@ == input@,
            tokens_view(tokens@) + lex_from(chars@, i as int) == lex(chars@),
        decreases chars.len() - i,
    {
        let (token, next) = scan_token(&chars, i);
        proof {
            assert(tokens_view(tokens@.push(token)) =~= tokens_view(tokens@).push(token@));
            assert(tokens_view(tokens@).push(token@) + lex_from(chars@, next as int)
                =~= tokens_view(tokens@) + lex_from(chars@, i as int));
        }
        tokens.push(token);
        i = next;
    }
    assert(tokens_view(tokens@) + lex_from(chars@, i as int) =~= tokens_view(tokens@));
    tokens
}

/// A run of number characters in a text ends where it ends in a prefix of
/// the text that is followed by a character of another kind.
proof fn lemma_number_end_in_prefix(text: Seq<char>, cut: int, i: int)
    requires
        0 <= i <= cut < text.len(),
        !is_number_part(text[cut]),
    ensures
        number_end(text, i) == number_end(text.take(cut), i),
        i <= number_end(text, i) <= cut,
    decreases cut - i,
{
    if i < cut && is_number_part(text[i]) {
        lemma_number_end_in_prefix(text, cut, i + 1);
    }
}

/// A run of identifier characters in a text ends where it ends in a
/// prefix of the text that is followed by a character of another kind.
proof fn lemma_identifier_end_in_prefix(text: Seq<char>, cut: int, i: int)
    requires
        0 <= i <= cut < text.len(),
        !is_identifier_part(text[cut]),
    ensures
        identifier_end(text, i) == identifier_end(text.take(cut), i),
        i <= identifier_end(text, i) <= cut,
    decreases cut - i,
{
    if i < cut && is_identifier_part(text[i]) {
        lemma_identifier_end_in_prefix(text, cut, i + 1);
    }
}

/// Before a whitespace character, a text has the tokens of its prefix.
proof fn lemma_lex_prefix(text: Seq<char>, cut: int, i: int)
    requires
        0 <= i <= cut < text.len(),
        is_blank(text[cut]),
    ensures
        lex_from(text, i) == lex_from(text.take(cut), i) + lex_from(text, cut),
    decreases cut - i,
{
    let prefix = text.take(cut);
    if i < cut {
        lemma_number_end_in_prefix(text, cut, i + 1);
        lemma_identifier_end_in_prefix(text, cut, i + 1);
        lemma_token_advances(text, i);
        let next = token_at(text, i).1;
        assert(text.subrange(i, number_end(text, i + 1)) =~= prefix.subrange(
            i,
            number_end(prefix, i + 1),
        ));
        assert(text.subrange(i, identifier_end(text, i + 1)) =~= prefix.subrange(
            i,
            identifier_end(prefix, i + 1),
        ));
        assert(token_at(text, i) == token_at(prefix, i));
        lemma_lex_prefix(text, cut, next);
        assert(lex_from(text, i) =~= lex_from(prefix, i) + lex_from(text, cut));
    } else {
        assert(lex_from(prefix, i) =~= Seq::<TokenModel>::empty());
        assert(lex_from(text, i) =~= lex_from(prefix, i) + lex_from(text, cut));
    }
}

/// A run of number characters ends at the same place, counted from the
/// cut, in the text after a cut.
proof fn lemma_number_end_in_suffix(text: Seq<char>, cut: int, j: int)
    requires
        0 <= cut <= text.len(),
        0 <= j <= text.len() - cut,
    ensures
        number_end(text, cut + j) == cut + number_end(text.skip(cut), j),
    decreases text.len() - cut - j,
{
    if j < text.len() - cut && is_number_part(text[cut + j]) {
        lemma_number_end_in_suffix(text, cut, j + 1);
    }
}

/// A run of identifier characters ends at the same place, counted from
/// the cut, in the text after a cut.
proof fn lemma_identifier_end_in_suffix(text: Seq<char>, cut: int, j: int)
    requires
        0 <= cut <= text.len(),
        0 <= j <= text.len() - cut,
    ensures
        identifier_end(text, cut + j) == cut + identifier_end(text.skip(cut), j),
    decreases text.len() - cut - j,
{
    if j < text.len() - cut && is_identifier_part(text[cut + j]) {
        lemma_identifier_end_in_suffix(text, cut, j + 1);
    }
}

/// From a cut on, a text has the tokens of what follows the cut.
pub proof fn lemma_lex_suffix(text: Seq<char>, cut: int, j: int)
    requires
        0 <= cut <= text.len(),
        0 <= j <= text.len() - cut,
    ensures
        lex_from(text, cut + j) == lex_from(text.skip(cut), j),
    decreases text.len() - cut - j,
{
    let suffix = text.skip(cut);
    if j < text.len() - cut {
        lemma_number_end_in_suffix(text, cut, j + 1);
        lemma_identifier_end_in_suffix(text, cut, j + 1);
        lemma_number_end_bounds(suffix, j + 1);
        lemma_identifier_end_bounds(suffix, j + 1);
        lemma_token_advances(suffix, j);
        assert(text.subrange(cut + j, cut + number_end(suffix, j + 1)) =~= suffix.subrange(
            j,
            number_end(suffix, j + 1),
        ));
        assert(text.subrange(cut + j, cut + identifier_end(suffix, j + 1)) =~= suffix.subrange(
            j,
            identifier_end(suffix, j + 1),
        ));
        assert(token_at(text, cut + j).0 == token_at(suffix, j).0);
        assert(token_at(text, cut + j).1 == cut + token_at(suffix, j).1);
        lemma_lex_suffix(text, cut, token_at(suffix, j).1);
    }
}

/// A whitespace character between two texts is a token of its own
/// between the tokens of the one and the tokens of the other: it is never
/// merged with a neighbour and never dropped.
pub proof fn whitespace_separates_tokens(before: Seq<char>, space: char, after: Seq<char>)
    requires
        is_blank(space),
    ensures
        lex(before + seq![space] + after) == lex(before) + seq![TokenModel::Whitespace] + lex(
            after,
        ),
{
    let text = before + seq![space] + after;
    let cut = before.len() as int;
    assert(text[cut] == space);
    assert(text.take(cut) =~= before);
    assert(text.skip(cut + 1) =~= after);
    lemma_lex_prefix(text, cut, 0);
    lemma_lex_suffix(text, cut + 1, 0);
    assert(lex_from(text, cut) =~= seq![TokenModel::Whitespace] + lex_from(text, cut + 1));
    assert(lex(text) =~= lex(before) + seq![TokenModel::Whitespace] + lex(after));
}

/// The digits that a number is written with denote the number.
pub proof fn decimal_digits_denote(n: nat)
    ensures
        decimal_value(decimal_digits(n)) == n,
        forall|i: int|
            0 <= i < decimal_digits(n).len() ==> is_digit(#[trigger] decimal_digits(n)[i]),
    decreases n,
{
    let digits = decimal_digits(n);
    assert(digit_value(digit_char((n % 10) as int)) == n % 10);
    if n >= 10 {
        decimal_digits_denote(n / 10);
        assert(digits.drop_last() =~= decimal_digits(n / 10));
        assert(digits.last() == digit_char((n % 10) as int));
        assert(decimal_value(digits) == decimal_value(digits.drop_last()) * 10 + digit_value(
            digits.last(),
        ));
    } else {
        assert(digits.drop_last() =~= Seq::<char>::empty());
        assert(digits.last() == digit_char(n as int));
        assert(decimal_value(digits.drop_last()) == 0);
        assert(decimal_value(digits) == decimal_value(digits.drop_last()) * 10 + digit_value(
            digits.last(),
        ));
    }
}

/// The tokens that are not whitespace, in order.
pub open spec fn without_spaces(tokens: Seq<TokenModel>) -> Seq<TokenModel>
    decreases tokens.len(),
{
    if tokens.len() == 0 {
        Seq::empty()
    } else if tokens.last() is Whitespace {
        without_spaces(tokens.drop_last())
    } else {
        without_spaces(tokens.drop_last()).push(tokens.last())
    }
}

/// Drops the whitespace tokens.
pub fn significant(tokens: &Vec<Token>) -> (kept: Vec<Token>)
    ensures
        tokens_view(kept@) == without_spaces(tokens_view(tokens@)),
{
    let ghost all = tokens_view(tokens@);
    let mut kept: Vec<Token> = Vec::new();
    let mut i: usize = 0;
    assert(all.subrange(0, 0) =~= Seq::<TokenModel>::empty());
    assert(tokens_view(kept@) =~= Seq::<TokenModel>::empty());
    while i < tokens.len()
        invariant
            i <= tokens.len(),
            all == tokens_view(tokens@),
            tokens_view(kept@) == without_spaces(all.subrange(0, i as int)),
        decreases tokens.len() - i,
    {
        assert(all.subrange(0, i + 1).drop_last() =~= all.subrange(0, i as int));
        assert(all.subrange(0, i + 1).last() == tokens@[i as int]@);
        match &tokens[i] {
            Token::Whitespace => {},
            token => {
                let ghost before = tokens_view(kept@);
                let copy = token.clone();
                assert(tokens_view(kept@.push(copy)) =~= before.push(copy@));
                kept.push(copy);
            },
        }
        i += 1;
    }
    assert(all.subrange(0, tokens.len() as int) =~= all);
    kept
}

} // verus!
