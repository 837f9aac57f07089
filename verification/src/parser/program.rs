use vstd::prelude::*;
use vstd::string::StrSliceExecFns;
use crate::ast::{
    exprs_view, lemma_call_expr_model, Expr, ExprModel, FunctionCall, FunctionCallModel, Literal,
    LiteralModel,
};
use crate::lexer::{
    decimal_value, digit, identifier_start, integer_of, is_digit, is_identifier_part, is_name,
    is_number,
};
use crate::parser::context::{
    call_regex_source, captured_pair, default_context, pattern_error,
    pattern_message, Context, ContextModel, FunctionCallFormat, FunctionCallFormatModel,
    PatternError,
};
use crate::text::{
    chars_of, find, find_line_end, lemma_line_end_bounds, lemma_skip_blanks_bounds, line_end,
    pieces_view, same_chars, search, skip_blank, skip_blanks, split, split_at_separator, string_of,
    trim, trimmed,
};

verus! {

/// Why a text is no program of the call language.
#[derive(Debug, Clone, Copy, PartialEq, Eq, Structural)]
pub enum ProgramError {
    /// The call format in force gives no regex.
    Pattern(PatternError),
    /// A line that is no call in the format in force.
    NoMatch,
    /// Arguments to split, and nothing to split them at.
    EmptySeparator,
    /// An argument that is no literal and no name.
    InvalidArgument,
    /// A first line that starts like a header and is none.
    InvalidHeader,
    /// A `SPEC` call with arguments that set no format.
    InvalidDirective,
}

/// Whether a text is a string in double quotes with no quote inside.
pub open spec fn is_quoted(text: Seq<char>) -> bool {
    &&& text.len() >= 2
    &&& text[0] == '"'
    &&& text.last() == '"'
    &&& forall|i: int| 1 <= i < text.len() - 1 ==> #[trigger] text[i] != '"'
}

/// The literal that a text is: a string in quotes, `true` or `false`, an
/// integer that fits in 64 bits, or a bare name, which counts as a string.
pub open spec fn literal_of(text: Seq<char>) -> Option<LiteralModel> {
    if is_quoted(text) {
        Some(LiteralModel::String(text.subrange(1, text.len() - 1)))
    } else if text == "true"@ {
        Some(LiteralModel::Boolean(true))
    } else if text == "false"@ {
        Some(LiteralModel::Boolean(false))
    } else if is_number(text) {
        if decimal_value(text) <= i64::MAX {
            Some(LiteralModel::Integer(decimal_value(text) as i64))
        } else {
            None
        }
    } else if is_name(text) {
        Some(LiteralModel::String(text))
    } else {
        None
    }
}

/// The model of an optional literal.
pub open spec fn literal_model(literal: Option<Literal>) -> Option<LiteralModel> {
    match literal {
        Some(l) => Some(l@),
        None => None,
    }
}

/// Reads a whole text as a literal.
pub fn parse_literal(text: &[char]) -> (literal: Option<Literal>)
    ensures
        literal_model(literal) == literal_of(text@),
{
    let n = text.len();
    if n >= 2 && text[0] == '"' && text[n - 1] == '"' {
        let mut clean = true;
        let mut i: usize = 1;
        while i < n - 1
            invariant
                1 <= i <= n - 1,
                n == text.len(),
                clean ==> forall|k: int| 1 <= k < i ==> #[trigger] text@[k] != '"',
                !clean ==> exists|k: int| 1 <= k < n - 1 && #[trigger] text@[k] == '"',
            decreases n - i,
        {
            if text[i] == '"' {
                clean = false;
            }
            i += 1;
        }
        if clean {
            return Some(Literal::String(string_of(text, 1, n - 1)));
        }
    }
    if same_chars(text, chars_of("true").as_slice()) {
        return Some(Literal::Boolean(true));
    }
    if same_chars(text, chars_of("false").as_slice()) {
        return Some(Literal::Boolean(false));
    }
    if n == 0 {
        return None;
    }
    let mut digits: usize = 0;
    while digits < n && digit(text[digits])
        invariant
            digits <= n,
            n == text.len(),
            forall|k: int| 0 <= k < digits ==> is_digit(#[trigger] text@[k]),
        decreases n - digits,
    {
        digits += 1;
    }
    if digits == n {
        assert(text@.subrange(0, n as int) =~= text@);
        return match integer_of(text, 0, n) {
            Some(value) => Some(Literal::Integer(value)),
            None => None,
        };
    }
    assert(!is_number(text@));
    if !identifier_start(text[0]) {
        return None;
    }
    let mut k: usize = 0;
    while k < n && (identifier_start(text[k]) || digit(text[k]))
        invariant
            k <= n,
            n == text.len(),
            forall|j: int| 0 <= j < k ==> is_identifier_part(#[trigger] text@[j]),
        decreases n - k,
    {
        k += 1;
    }
    if k == n {
        assert(text@.subrange(0, n as int) =~= text@);
        Some(Literal::String(string_of(text, 0, n)))
    } else {
        assert(!is_name(text@));
        None
    }
}

/// The literals that the pieces are, each without the blanks around it;
/// `None` where a piece is no literal.
pub open spec fn literals_of(pieces: Seq<Seq<char>>) -> Option<Seq<ExprModel>>
    decreases pieces.len(),
{
    if pieces.len() == 0 {
        Some(Seq::empty())
    } else {
        match (literals_of(pieces.drop_last()), literal_of(trim(pieces.last()))) {
            (Some(done), Some(literal)) => Some(done.push(ExprModel::Literal(literal))),
            _ => None,
        }
    }
}

/// The arguments that a text between the brackets of a call holds. A
/// blank text holds none; any other is split at the separator, and each
/// piece is a literal.
pub open spec fn arguments_of(text: Seq<char>, separator: Seq<char>) -> Result<
    Seq<ExprModel>,
    ProgramError,
> {
    if trim(text).len() == 0 {
        Ok(Seq::empty())
    } else if separator.len() == 0 {
        Err(ProgramError::EmptySeparator)
    } else {
        match literals_of(split(text, separator)) {
            Some(args) => Ok(args),
            None => Err(ProgramError::InvalidArgument),
        }
    }
}

/// The model of a parsed argument list.
pub open spec fn arguments_model(args: Result<Vec<Expr>, ProgramError>) -> Result<
    Seq<ExprModel>,
    ProgramError,
> {
    match args {
        Ok(list) => Ok(exprs_view(list@)),
        Err(error) => Err(error),
    }
}

/// Reads the arguments of a call from the text that the call's pattern
/// captured for them.
pub fn parse_arguments(text: &[char], separator: &[char]) -> (args: Result<Vec<Expr>, ProgramError>)
    ensures
        arguments_model(args) == arguments_of(text@, separator@),
{
    let mut args: Vec<Expr> = Vec::new();
    assert(text@.subrange(0, text.len() as int) =~= text@);
    if trimmed(text, 0, text.len()).len() == 0 {
        assert(exprs_view(args@) =~= Seq::<ExprModel>::empty());
        return Ok(args);
    }
    if separator.len() == 0 {
        return Err(ProgramError::EmptySeparator);
    }
    let pieces = split_at_separator(text, separator);
    let ghost all = pieces_view(pieces@);
    let mut i: usize = 0;
    assert(all.subrange(0, 0) =~= Seq::<Seq<char>>::empty());
    assert(exprs_view(args@) =~= Seq::<ExprModel>::empty());
    while i < pieces.len()
        invariant
            i <= pieces.len(),
            all == pieces_view(pieces@),
            all == split(text@, separator@),
            trim(text@).len() != 0,
            separator.len() > 0,
            literals_of(all.subrange(0, i as int)) == Some(exprs_view(args@)),
        decreases pieces.len() - i,
    {
        let piece = &pieces[i];
        assert(piece@.subrange(0, piece.len() as int) =~= piece@);
        let clean = trimmed(piece.as_slice(), 0, piece.len());
        assert(all.subrange(0, i + 1).drop_last() =~= all.subrange(0, i as int));
        assert(all.subrange(0, i + 1).last() == piece@);
        match parse_literal(clean.as_slice()) {
            Some(literal) => {
                let ghost before = exprs_view(args@);
                let arg = Expr::Literal(literal);
                assert(exprs_view(args@.push(arg)) =~= before.push(arg@));
                args.push(arg);
            },
            None => {
                proof {
                    lemma_literals_fail(all, i + 1);
                }
                return Err(ProgramError::InvalidArgument);
            },
        }
        i += 1;
    }
    assert(all.subrange(0, pieces.len() as int) =~= all);
    Ok(args)
}

/// Pieces that start with pieces that are no literals are no literals.
proof fn lemma_literals_fail(pieces: Seq<Seq<char>>, n: int)
    requires
        0 <= n <= pieces.len(),
        literals_of(pieces.subrange(0, n)) is None,
    ensures
        literals_of(pieces) is None,
    decreases pieces.len() - n,
{
    if n < pieces.len() {
        assert(pieces.subrange(0, n + 1).drop_last() =~= pieces.subrange(0, n));
        lemma_literals_fail(pieces, n + 1);
    } else {
        assert(pieces.subrange(0, n) =~= pieces);
    }
}

/// The call that a captured name and a captured argument text make.
pub open spec fn call_of_groups(name: Seq<char>, args: Seq<char>, separator: Seq<char>) -> Result<
    FunctionCallModel,
    ProgramError,
> {
    match arguments_of(args, separator) {
        Ok(list) => Ok(FunctionCallModel { name, args: list }),
        Err(error) => Err(error),
    }
}

/// The model of a parsed call.
pub open spec fn call_model(call: Result<FunctionCall, ProgramError>) -> Result<
    FunctionCallModel,
    ProgramError,
> {
    match call {
        Ok(c) => Ok(c@),
        Err(error) => Err(error),
    }
}

/// Builds a call from the two texts that the call's pattern captured.
pub fn call_from_groups(name: String, args: &str, separator: &str) -> (call: Result<
    FunctionCall,
    ProgramError,
>)
    ensures
        call_model(call) == call_of_groups(name@, args@, separator@),
{
    let args_chars = chars_of(args);
    let separator_chars = chars_of(separator);
    match parse_arguments(args_chars.as_slice(), separator_chars.as_slice()) {
        Ok(list) => Ok(FunctionCall { name, args: list }),
        Err(error) => Err(error),
    }
}

/// The call that a line is in a context: the line, without the blanks
/// around it, has to match the regex of the context's pattern as a whole.
pub open spec fn line_call(context: ContextModel, line: Seq<char>) -> Result<
    FunctionCallModel,
    ProgramError,
> {
    match pattern_error(context.function_call_format.pattern) {
        Some(error) => Err(ProgramError::Pattern(error)),
        None => match captured_pair(
            call_regex_source(context.function_call_format.pattern),
            trim(line),
        ) {
            Some((name, args)) => call_of_groups(
                name,
                args,
                context.function_call_format.arg_separator,
            ),
            None => Err(ProgramError::NoMatch),
        },
    }
}

/// Reads the call that stands in the characters at `from..to`.
pub fn parse_function_call(context: &Context, chars: &[char], from: usize, to: usize) -> (call:
    Result<FunctionCall, ProgramError>)
    requires
        from <= to <= chars.len(),
    ensures
        call_model(call) == line_call(context@, chars@.subrange(from as int, to as int)),
{
    let regex = match context.generate_function_call_regex() {
        Ok(regex) => regex,
        Err(error) => {
            return Err(ProgramError::Pattern(error));
        },
    };
    let line = trimmed(chars, from, to);
    let haystack = string_of(line.as_slice(), 0, line.len());
    assert(haystack@ =~= line@);
    match regex.captures(haystack.as_str()) {
        Some((name, args)) => call_from_groups(
            name,
            args.as_str(),
            context.function_call_format.arg_separator().as_str(),
        ),
        None => Err(ProgramError::NoMatch),
    }
}

/// The literal for a string.
pub open spec fn string_arg(text: Seq<char>) -> ExprModel {
    ExprModel::Literal(LiteralModel::String(text))
}

/// The context after a call: a call of `SPEC` with the arguments
/// `function_call_format`, a pattern and a separator sets the call format;
/// any other call of `SPEC` is an error; any other call changes nothing.
pub open spec fn context_after(context: ContextModel, call: FunctionCallModel) -> Result<
    ContextModel,
    ProgramError,
> {
    if call.name != "SPEC"@ {
        Ok(context)
    } else if call.args.len() == 3 && call.args[0] == string_arg("function_call_format"@)
        && call.args[1] is Literal && call.args[1]->Literal_0 is String && call.args[2] is Literal
        && call.args[2]->Literal_0 is String {
        Ok(
            ContextModel {
                function_call_format: FunctionCallFormatModel {
                    pattern: call.args[1]->Literal_0->String_0,
                    arg_separator: call.args[2]->Literal_0->String_0,
                },
            },
        )
    } else {
        Err(ProgramError::InvalidDirective)
    }
}

/// The model of an optional context.
pub open spec fn context_model(context: Result<Context, ProgramError>) -> Result<
    ContextModel,
    ProgramError,
> {
    match context {
        Ok(c) => Ok(c@),
        Err(error) => Err(error),
    }
}

/// The text of a string literal.
fn string_argument(expr: &Expr) -> (text: Option<&String>)
    ensures
        match text {
            Some(t) => expr@ == string_arg(t@),
            None => !(expr@ is Literal && expr@->Literal_0 is String),
        },
{
    match expr {
        Expr::Literal(Literal::String(text)) => Some(text),
        _ => None,
    }
}

/// Applies a call to the context it was read in.
pub fn apply_call(context: &Context, call: &FunctionCall) -> (next: Result<Context, ProgramError>)
    ensures
        context_model(next) == context_after(context@, call@),
{
    if call.name != "SPEC".to_owned() {
        return Ok(context.clone());
    }
    if call.args.len() != 3 {
        return Err(ProgramError::InvalidDirective);
    }
    let key = match string_argument(&call.args[0]) {
        Some(key) => key,
        None => {
            return Err(ProgramError::InvalidDirective);
        },
    };
    if *key != "function_call_format".to_owned() {
        return Err(ProgramError::InvalidDirective);
    }
    match (string_argument(&call.args[1]), string_argument(&call.args[2])) {
        (Some(pattern), Some(separator)) => Ok(
            Context::new(FunctionCallFormat::new(pattern.clone(), separator.clone())),
        ),
        _ => Err(ProgramError::InvalidDirective),
    }
}

/// One expression at the front of a text: where its line ends, the
/// expression, and the context after it.
pub open spec fn expression_of(context: ContextModel, text: Seq<char>, from: int) -> Result<
    (int, ExprModel, ContextModel),
    ProgramError,
> {
    let start = skip_blanks(text, from);
    let end = line_end(text, start);
    match line_call(context, text.subrange(start, end)) {
        Ok(call) => match context_after(context, call) {
            Ok(next) => Ok((end, ExprModel::FunctionCall(call), next)),
            Err(error) => Err(error),
        },
        Err(error) => Err(error),
    }
}

/// The model of a parsed expression with the position after it.
pub open spec fn step_model(step: Result<(usize, Expr, Context), ProgramError>) -> Result<
    (int, ExprModel, ContextModel),
    ProgramError,
> {
    match step {
        Ok((end, expr, context)) => Ok((end as int, expr@, context@)),
        Err(error) => Err(error),
    }
}

/// Reads the expression on the first line from `from` on that is not
/// blank.
pub fn parse_expression_at(context: &Context, chars: &[char], from: usize) -> (step: Result<
    (usize, Expr, Context),
    ProgramError,
>)
    requires
        from <= chars.len(),
    ensures
        step_model(step) == expression_of(context@, chars@, from as int),
        step matches Ok((end, _, _)) ==> from <= end <= chars.len(),
{
    let start = skip_blank(chars, from);
    let end = find_line_end(chars, start);
    let call = match parse_function_call(context, chars, start, end) {
        Ok(call) => call,
        Err(error) => {
            return Err(error);
        },
    };
    let next = match apply_call(context, &call) {
        Ok(next) => next,
        Err(error) => {
            return Err(error);
        },
    };
    proof {
        lemma_call_expr_model(call);
    }
    Ok((end, Expr::FunctionCall(call), next))
}

/// The model of a parsed expression with the text after it.
pub open spec fn expression_model(parsed: Result<(&str, (Expr, Context)), ProgramError>) -> Result<
    (Seq<char>, ExprModel, ContextModel),
    ProgramError,
> {
    match parsed {
        Ok((rest, (expr, context))) => Ok((rest@, expr@, context@)),
        Err(error) => Err(error),
    }
}

/// What [`parse_expression`] gives: the text from the end of the
/// expression's line on, the expression, and the context after it.
pub open spec fn first_expression(context: ContextModel, text: Seq<char>) -> Result<
    (Seq<char>, ExprModel, ContextModel),
    ProgramError,
> {
    match expression_of(context, text, 0) {
        Ok((end, expr, next)) => Ok((text.skip(end), expr, next)),
        Err(error) => Err(error),
    }
}

/// Reads one expression from the front of a text.
pub fn parse_expression<'a>(context: &'a Context, input: &'a str) -> (parsed: Result<
    (&'a str, (Expr, Context)),
    ProgramError,
>)
    ensures
        expression_model(parsed) == first_expression(context@, input@),
{
    let chars = chars_of(input);
    match parse_expression_at(context, chars.as_slice(), 0) {
        Ok((end, expr, next)) => {
            let rest = input.substring_char(end, chars.len());
            assert(rest@ =~= input@.skip(end as int));
            Ok((rest, (expr, next)))
        },
        Err(error) => Err(error),
    }
}

/// The format that a header line sets: `{`, a pattern in double quotes,
/// a separator in double quotes, `}`. The pattern ends at the first quote
/// after its start, the separator at the last quote of the line.
pub open spec fn header_of(line: Seq<char>) -> Option<FunctionCallFormatModel> {
    if line.len() >= 2 && line[0] == '{' && line.last() == '}' {
        let inner = trim(line.subrange(1, line.len() - 1));
        let close = find(inner, seq!['"'], 1);
        let open = skip_blanks(inner, close + 1);
        if inner.len() >= 2 && inner[0] == '"' && 1 <= close < open < inner.len() - 1 && inner[open]
            == '"' && inner.last() == '"' {
            Some(
                FunctionCallFormatModel {
                    pattern: inner.subrange(1, close),
                    arg_separator: inner.subrange(open + 1, inner.len() - 1),
                },
            )
        } else {
            None
        }
    } else {
        None
    }
}

/// The model of an optional format.
pub open spec fn format_model(format: Option<FunctionCallFormat>) -> Option<
    FunctionCallFormatModel,
> {
    match format {
        Some(f) => Some(f@),
        None => None,
    }
}

/// Reads a header line.
pub fn parse_header(line: &[char]) -> (format: Option<FunctionCallFormat>)
    ensures
        format_model(format) == header_of(line@),
{
    let n = line.len();
    if !(n >= 2 && line[0] == '{' && line[n - 1] == '}') {
        return None;
    }
    let inner = trimmed(line, 1, n - 1);
    let m = inner.len();
    if !(m >= 2 && inner[0] == '"' && inner[m - 1] == '"') {
        return None;
    }
    let mut quote: Vec<char> = Vec::new();
    quote.push('"');
    assert(quote@ =~= seq!['"']);
    let close = search(inner.as_slice(), quote.as_slice(), 1);
    if close >= m - 1 {
        return None;
    }
    let open = skip_blank(inner.as_slice(), close + 1);
    if !(open < m - 1 && inner[open] == '"') {
        return None;
    }
    Some(
        FunctionCallFormat::new(
            string_of(inner.as_slice(), 1, close),
            string_of(inner.as_slice(), open + 1, m - 1),
        ),
    )
}

/// The expressions of a text from position `pos` on, after the
/// expressions `done`: one call on each line that is not blank, each read
/// in the context that the calls before it left.
pub open spec fn statements_of(
    context: ContextModel,
    text: Seq<char>,
    pos: int,
    done: Seq<ExprModel>,
) -> Result<Seq<ExprModel>, ProgramError>
    decreases text.len() - pos,
{
    let start = skip_blanks(text, pos);
    if 0 <= pos <= start < text.len() {
        match expression_of(context, text, start) {
            Ok((end, expr, next)) => {
                if start < end <= text.len() {
                    statements_of(next, text, end, done.push(expr))
                } else {
                    Err(ProgramError::NoMatch)
                }
            },
            Err(error) => Err(error),
        }
    } else {
        Ok(done)
    }
}

/// The expressions of a program. A first line that starts with `{` is a
/// header and sets the call format; without one the default format holds.
pub open spec fn program_of(text: Seq<char>) -> Result<Seq<ExprModel>, ProgramError> {
    let start = skip_blanks(text, 0);
    if 0 <= start < text.len() && text[start] == '{' {
        let end = line_end(text, start);
        match header_of(trim(text.subrange(start, end))) {
            Some(format) => statements_of(
                ContextModel { function_call_format: format },
                text,
                end,
                Seq::empty(),
            ),
            None => Err(ProgramError::InvalidHeader),
        }
    } else {
        statements_of(default_context(), text, 0, Seq::empty())
    }
}

/// Reads a program: an optional header, then one call on each line that
/// is not blank.
pub fn parse_program(input: &str) -> (program: Result<Vec<Expr>, ProgramError>)
    ensures
        arguments_model(program) == program_of(input@),
{
    let chars = chars_of(input);
    let first = skip_blank(chars.as_slice(), 0);
    let mut context = Context::default();
    let mut pos: usize = 0;
    if first < chars.len() && chars[first] == '{' {
        let end = find_line_end(chars.as_slice(), first);
        let line = trimmed(chars.as_slice(), first, end);
        match parse_header(line.as_slice()) {
            Some(format) => {
                context = Context::new(format);
                pos = end;
            },
            None => {
                return Err(ProgramError::InvalidHeader);
            },
        }
    }
    let mut program: Vec<Expr> = Vec::new();
    assert(exprs_view(program@) =~= Seq::<ExprModel>::empty());
    loop
        invariant_except_break
            pos <= chars.len(),
            chars@ == input@,
            program_of(chars@) == statements_of(context@, chars@, pos as int, exprs_view(program@)),
        ensures
            program_of(chars@) == Ok::<Seq<ExprModel>, ProgramError>(exprs_view(program@)),
            chars@ == input@,
        decreases chars.len() - pos,
    {
        let start = skip_blank(chars.as_slice(), pos);
        if start >= chars.len() {
            break ;
        }
        proof {
            lemma_skip_blanks_bounds(chars@, pos as int);
            lemma_skip_blanks_bounds(chars@, start as int);
            lemma_line_end_bounds(chars@, start as int);
        }
        match parse_expression_at(&context, chars.as_slice(), start) {
            Ok((end, expr, next)) => {
                let ghost before = exprs_view(program@);
                assert(exprs_view(program@.push(expr)) =~= before.push(expr@));
                program.push(expr);
                context = next;
                pos = end;
            },
            Err(error) => {
                return Err(error);
            },
        }
    }
    Ok(program)
}

/// The text that describes a program error.
pub open spec fn program_message(error: ProgramError) -> Seq<char> {
    match error {
        ProgramError::Pattern(inner) => pattern_message(inner),
        ProgramError::NoMatch => "Line does not match the call format"@,
        ProgramError::EmptySeparator => "Arguments cannot be split at an empty separator"@,
        ProgramError::InvalidArgument => "Argument is neither a literal nor a name"@,
        ProgramError::InvalidHeader => "Header must hold a pattern and a separator"@,
        ProgramError::InvalidDirective =>
            "SPEC takes function_call_format, a pattern and a separator"@,
    }
}

impl ProgramError {
    /// A description of the error for a reader.
    pub fn message(&self) -> (text: String)
        ensures
            text@ == program_message(*self),
    {
        match self {
            ProgramError::Pattern(inner) => inner.message(),
            ProgramError::NoMatch => "Line does not match the call format".to_owned(),
            ProgramError::EmptySeparator => {
                "Arguments cannot be split at an empty separator".to_owned()
            },
            ProgramError::InvalidArgument => "Argument is neither a literal nor a name".to_owned(),
            ProgramError::InvalidHeader => "Header must hold a pattern and a separator".to_owned(),
            ProgramError::InvalidDirective => {
                "SPEC takes function_call_format, a pattern and a separator".to_owned()
            },
        }
    }
}

} // verus!
