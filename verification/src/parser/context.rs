use vstd::prelude::*;
use regex::Regex;
use crate::text::{
    chars_of, count, count_from, decimal_text, push_decimal, push_text, replace_all, replaced,
    string_of,
};

verus! {

/// Whether `regex::Regex::new` accepts a pattern.
pub uninterp spec fn regex_accepts(source: Seq<char>) -> bool;

/// The texts of the first and the second capture group in the first match
/// that `regex::Regex::captures` finds for a pattern in a haystack; `None`
/// where the pattern is not accepted, matches nowhere, or one of the two
/// groups took no part in the match.
pub uninterp spec fn captured_pair(source: Seq<char>, haystack: Seq<char>) -> Option<
    (Seq<char>, Seq<char>),
>;

/// A character with a meaning of its own in a regular expression.
pub open spec fn is_meta(c: char) -> bool {
    c == '\\' || c == '.' || c == '+' || c == '*' || c == '?' || c == '(' || c == ')' || c == '|'
        || c == '[' || c == ']' || c == '{' || c == '}' || c == '^' || c == '$' || c == '#' || c
        == '&' || c == '-' || c == '~'
}

/// The text with a backslash before each character that has a meaning of
/// its own in a regular expression.
pub open spec fn escaped(text: Seq<char>) -> Seq<char>
    decreases text.len(),
{
    if text.len() == 0 {
        Seq::empty()
    } else if is_meta(text.last()) {
        escaped(text.drop_last()).push('\\').push(text.last())
    } else {
        escaped(text.drop_last()).push(text.last())
    }
}

/// Calls `regex::escape`, which writes the text's characters in order and
/// puts a backslash before each of `\ . + * ? ( ) | [ ] { } ^ $ # & - ~`.
#[verifier::external_body]
fn escape_text(text: &str) -> (result: String)
    ensures
        result@ == escaped(text@),
{
    regex::escape(text)
}

/// Calls `regex::Regex::new` and reports whether it gave a regex. The
/// contract names the answer by the pattern.
#[verifier::external_body]
fn regex_compiles(source: &str) -> (accepted: bool)
    ensures
        accepted == regex_accepts(source@),
{
    Regex::new(source).is_ok()
}

/// The model of a pair of captured texts.
pub open spec fn pair_model(pair: Option<(String, String)>) -> Option<(Seq<char>, Seq<char>)> {
    match pair {
        Some((first, second)) => Some((first@, second@)),
        None => None,
    }
}

/// Compiles the pattern with `regex::Regex::new`, calls
/// `regex::Regex::captures` on the haystack and copies the texts of groups
/// 1 and 2 out of the match. The contract names the result by the pattern
/// and the haystack.
#[verifier::external_body]
fn regex_groups(source: &str, haystack: &str) -> (result: Option<(String, String)>)
    ensures
        pair_model(result) == captured_pair(source@, haystack@),
{
    let regex = Regex::new(source).ok()?;
    let captures = regex.captures(haystack)?;
    Some((captures.get(1)?.as_str().to_owned(), captures.get(2)?.as_str().to_owned()))
}

/// A regex for calls: the text of a pattern that the regex engine accepts.
#[derive(Debug, PartialEq, Eq)]
pub struct CallRegex {
    source: String,
}

impl CallRegex {
    /// The pattern compiles.
    #[verifier::type_invariant]
    closed spec fn well_formed(&self) -> bool {
        regex_accepts(self.source@)
    }
}

impl View for CallRegex {
    type V = Seq<char>;

    closed spec fn view(&self) -> Seq<char> {
        self.source@
    }
}

impl CallRegex {
    /// The pattern, if the regex engine accepts it.
    pub fn new(source: String) -> (regex: Option<CallRegex>)
        ensures
            match regex {
                Some(r) => regex_accepts(source@) && r@ == source@,
                None => !regex_accepts(source@),
            },
    {
        if regex_compiles(source.as_str()) {
            Some(CallRegex { source })
        } else {
            None
        }
    }

    /// The pattern's text.
    pub fn as_str(&self) -> (source: &str)
        ensures
            source@ == self@,
            regex_accepts(self@),
    {
        proof {
            use_type_invariant(self);
        }
        self.source.as_str()
    }

    /// The texts that the pattern's first two groups capture in the first
    /// match in a haystack.
    pub fn captures(&self, haystack: &str) -> (pair: Option<(String, String)>)
        ensures
            pair_model(pair) == captured_pair(self@, haystack@),
    {
        regex_groups(self.source.as_str(), haystack)
    }
}

/// The shape of a call: a pattern that holds the words `NAME` and `ARGS`
/// once each, and the text that separates arguments.
#[derive(Debug, PartialEq)]
pub struct FunctionCallFormat {
    pattern: String,
    arg_separator: String,
}

/// The mathematical value of a [`FunctionCallFormat`].
pub struct FunctionCallFormatModel {
    pub pattern: Seq<char>,
    pub arg_separator: Seq<char>,
}

impl View for FunctionCallFormat {
    type V = FunctionCallFormatModel;

    closed spec fn view(&self) -> FunctionCallFormatModel {
        FunctionCallFormatModel { pattern: self.pattern@, arg_separator: self.arg_separator@ }
    }
}

impl Clone for FunctionCallFormat {
    fn clone(&self) -> (copy: FunctionCallFormat)
        ensures
            copy@ == self@,
    {
        FunctionCallFormat {
            pattern: self.pattern.clone(),
            arg_separator: self.arg_separator.clone(),
        }
    }
}

impl FunctionCallFormat {
    /// A format with the given pattern and separator.
    pub fn new(pattern: String, arg_separator: String) -> (format: FunctionCallFormat)
        ensures
            format@ == (FunctionCallFormatModel {
                pattern: pattern@,
                arg_separator: arg_separator@,
            }),
    {
        Self { pattern, arg_separator }
    }

    /// The pattern.
    pub fn pattern(&self) -> (pattern: &String)
        ensures
            pattern@ == self@.pattern,
    {
        &self.pattern
    }

    /// The text that separates arguments.
    pub fn arg_separator(&self) -> (separator: &String)
        ensures
            separator@ == self@.arg_separator,
    {
        &self.arg_separator
    }
}

/// What a parse of the call language goes by.
#[derive(Debug, PartialEq)]
pub struct Context {
    pub function_call_format: FunctionCallFormat,
}

/// The mathematical value of a [`Context`].
pub struct ContextModel {
    pub function_call_format: FunctionCallFormatModel,
}

impl View for Context {
    type V = ContextModel;

    open spec fn view(&self) -> ContextModel {
        ContextModel { function_call_format: self.function_call_format@ }
    }
}

impl Clone for Context {
    fn clone(&self) -> (copy: Context)
        ensures
            copy@ == self@,
    {
        Context { function_call_format: self.function_call_format.clone() }
    }
}

/// The context that a program without a header starts with: calls look
/// like `(NAME ARGS)`, and a space separates arguments.
pub open spec fn default_context() -> ContextModel {
    ContextModel {
        function_call_format: FunctionCallFormatModel {
            pattern: "(NAME ARGS)"@,
            arg_separator: " "@,
        },
    }
}

impl Default for Context {
    fn default() -> (context: Context)
        ensures
            context@ == default_context(),
    {
        Context::new(FunctionCallFormat::new("(NAME ARGS)".to_owned(), " ".to_owned()))
    }
}

/// Why a pattern gives no regex.
#[derive(Debug, Clone, Copy, PartialEq, Eq, Structural)]
pub enum PatternError {
    /// The pattern holds `NAME` this many times, not once.
    NameCount(usize),
    /// The pattern holds `ARGS` this many times, not once.
    ArgsCount(usize),
    /// The regex made from the pattern was not accepted.
    InvalidRegex,
}

/// The regex group that stands for `NAME`.
pub open spec fn name_group() -> Seq<char> {
    "([a-zA-Z_][a-zA-Z0-9_]*)"@
}

/// The regex group that stands for `ARGS`.
pub open spec fn args_group() -> Seq<char> {
    "(.*?)"@
}

/// The regex for a pattern: it matches a whole line, takes the pattern's
/// own characters literally, an identifier for `NAME` and as little as
/// possible for `ARGS`.
pub open spec fn call_regex_source(pattern: Seq<char>) -> Seq<char> {
    seq!['^'] + replace_all(
        replace_all(escaped(pattern), "NAME"@, name_group()),
        "ARGS"@,
        args_group(),
    ) + seq!['$']
}

/// What stands in the way of a regex for a pattern, if anything: the
/// count of `NAME` is tested first, then that of `ARGS`, then the regex.
pub open spec fn pattern_error(pattern: Seq<char>) -> Option<PatternError> {
    if count_from(pattern, "NAME"@, 0) != 1 {
        Some(PatternError::NameCount(count_from(pattern, "NAME"@, 0) as usize))
    } else if count_from(pattern, "ARGS"@, 0) != 1 {
        Some(PatternError::ArgsCount(count_from(pattern, "ARGS"@, 0) as usize))
    } else if !regex_accepts(call_regex_source(pattern)) {
        Some(PatternError::InvalidRegex)
    } else {
        None
    }
}

impl Context {
    /// A context with the given call format.
    pub fn new(function_call_format: FunctionCallFormat) -> (context: Context)
        ensures
            context@ == (ContextModel { function_call_format: function_call_format@ }),
    {
        Context { function_call_format }
    }

    /// The regex that recognises a call in the context's format.
    pub fn generate_function_call_regex(&self) -> (result: Result<CallRegex, PatternError>)
        ensures
            match result {
                Ok(regex) => pattern_error(self@.function_call_format.pattern) is None && regex@
                    == call_regex_source(self@.function_call_format.pattern),
                Err(error) => pattern_error(self@.function_call_format.pattern) == Some(error),
            },
    {
        let pattern = chars_of(self.function_call_format.pattern.as_str());
        let name_word = chars_of("NAME");
        let args_word = chars_of("ARGS");
        let name_count = count(pattern.as_slice(), name_word.as_slice());
        if name_count != 1 {
            return Err(PatternError::NameCount(name_count));
        }
        let args_count = count(pattern.as_slice(), args_word.as_slice());
        if args_count != 1 {
            return Err(PatternError::ArgsCount(args_count));
        }
        let quoted = chars_of(escape_text(self.function_call_format.pattern.as_str()).as_str());
        let with_name = replaced(
            quoted.as_slice(),
            name_word.as_slice(),
            chars_of("([a-zA-Z_][a-zA-Z0-9_]*)").as_slice(),
        );
        let with_args = replaced(
            with_name.as_slice(),
            args_word.as_slice(),
            chars_of("(.*?)").as_slice(),
        );
        let mut source: Vec<char> = Vec::new();
        source.push('^');
        let mut i: usize = 0;
        while i < with_args.len()
            invariant
                i <= with_args.len(),
                source@ == seq!['^'] + with_args@.subrange(0, i as int),
            decreases with_args.len() - i,
        {
            source.push(with_args[i]);
            assert(source@ =~= seq!['^'] + with_args@.subrange(0, i + 1));
            i += 1;
        }
        source.push('$');
        assert(source@ =~= call_regex_source(self@.function_call_format.pattern)) by {
            assert(with_args@.subrange(0, with_args.len() as int) =~= with_args@);
        }
        let text = string_of(source.as_slice(), 0, source.len());
        assert(text@ =~= source@);
        match CallRegex::new(text) {
            Some(regex) => Ok(regex),
            None => Err(PatternError::InvalidRegex),
        }
    }

    /// Replaces the call format. It always succeeds.
    pub fn update_function_call_format(
        &mut self,
        pattern: String,
        arg_separator: String,
    ) -> (result: Result<(), String>)
        ensures
            result is Ok,
            final(self)@ == (ContextModel {
                function_call_format: FunctionCallFormatModel {
                    pattern: pattern@,
                    arg_separator: arg_separator@,
                },
            }),
    {
        self.function_call_format = FunctionCallFormat::new(pattern, arg_separator);
        Ok(())
    }
}

/// The text that describes a pattern error.
pub open spec fn pattern_message(error: PatternError) -> Seq<char> {
    match error {
        PatternError::NameCount(n) => "Pattern must contain exactly one 'NAME', found "@
            + decimal_text(n as int),
        PatternError::ArgsCount(n) => "Pattern must contain exactly one 'ARGS', found "@
            + decimal_text(n as int),
        PatternError::InvalidRegex => "Invalid regex"@,
    }
}

impl PatternError {
    /// A description of the error for a reader.
    pub fn message(&self) -> (text: String)
        ensures
            text@ == pattern_message(*self),
    {
        let mut text = String::new();
        match self {
            PatternError::NameCount(n) => {
                push_text(&mut text, "Pattern must contain exactly one 'NAME', found ");
                push_decimal(&mut text, *n as u64);
            },
            PatternError::ArgsCount(n) => {
                push_text(&mut text, "Pattern must contain exactly one 'ARGS', found ");
                push_decimal(&mut text, *n as u64);
            },
            PatternError::InvalidRegex => {
                push_text(&mut text, "Invalid regex");
            },
        }
        assert(text@ =~= pattern_message(*self));
        text
    }
}

} // verus!
