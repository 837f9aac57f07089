use vstd::prelude::*;
use crate::interpreter::{
    interpret_outcome, EvalError, EvalErrorModel, Interpreter, InterpreterModel, Value, ValueModel,
};
use crate::lexer::{significant, tokenize};
use crate::parser::{line_term, parse, ParseError};
use crate::text::{
    copy_range, decimal_text, pieces_view, push_integer, push_text, string_of, trim, trimmed,
};

verus! {

/// How many submitted lines the editor remembers.
pub const HISTORY_SIZE: usize = 100;

/// A key press, as far as the line editor tells keys apart.
#[derive(Debug, Clone, Copy, PartialEq, Eq, Structural)]
pub enum Key {
    /// Control with `c` or `d`.
    Interrupt,
    Enter,
    Backspace,
    Up,
    Down,
    Char(char),
    /// Any other key.
    Other,
}

/// What the front end has to do after a key press.
#[derive(Debug, Clone, Copy, PartialEq, Eq, Structural)]
pub enum Action {
    /// Leave the loop.
    Exit,
    /// Hand the line in for evaluation.
    Submit,
    /// Clear the line on the screen and print the prompt and the line anew.
    Redraw,
    /// Print one character.
    Echo(char),
    /// Nothing.
    Nothing,
}

/// The state of the line editor: the line being typed, the lines
/// submitted before, oldest first, and which of them the line shows, if
/// any.
#[derive(Debug)]
pub struct LineEditor {
    line: Vec<char>,
    history: Vec<Vec<char>>,
    history_index: Option<usize>,
}

/// The mathematical value of a [`LineEditor`].
pub struct EditorModel {
    pub line: Seq<char>,
    pub history: Seq<Seq<char>>,
    pub history_index: Option<usize>,
}

impl LineEditor {
    /// The history is bounded, and an entry that the line shows exists.
    #[verifier::type_invariant]
    closed spec fn well_formed(&self) -> bool {
        &&& self.history.len() <= HISTORY_SIZE
        &&& self.history_index matches Some(i) ==> i < self.history.len()
    }
}

impl View for LineEditor {
    type V = EditorModel;

    closed spec fn view(&self) -> EditorModel {
        EditorModel {
            line: self.line@,
            history: pieces_view(self.history@),
            history_index: self.history_index,
        }
    }
}

/// The entry that `Up` moves to: the newest from the line being typed, the
/// next older one from an entry, and the oldest from itself.
pub open spec fn older_index(state: EditorModel) -> int {
    match state.history_index {
        None => state.history.len() - 1,
        Some(i) => if i > 0 {
            i - 1
        } else {
            0
        },
    }
}

/// The editor after a key press, and what the front end has to do.
pub open spec fn editor_step(state: EditorModel, key: Key) -> (EditorModel, Action) {
    match key {
        Key::Interrupt => (state, Action::Exit),
        Key::Enter => (state, Action::Submit),
        Key::Backspace => if state.line.len() > 0 {
            (EditorModel { line: state.line.drop_last(), ..state }, Action::Redraw)
        } else {
            (state, Action::Nothing)
        },
        Key::Up => if 0 <= older_index(state) < state.history.len() {
            (
                EditorModel {
                    line: state.history[older_index(state)],
                    history_index: Some(older_index(state) as usize),
                    ..state
                },
                Action::Redraw,
            )
        } else {
            (state, Action::Nothing)
        },
        Key::Down => match state.history_index {
            Some(i) => if i + 1 < state.history.len() {
                (
                    EditorModel {
                        line: state.history[i + 1],
                        history_index: Some((i + 1) as usize),
                        ..state
                    },
                    Action::Redraw,
                )
            } else {
                (
                    EditorModel { line: Seq::empty(), history_index: None, ..state },
                    Action::Redraw,
                )
            },
            None => (state, Action::Nothing),
        },
        Key::Char(c) => (EditorModel { line: state.line.push(c), ..state }, Action::Echo(c)),
        Key::Other => (state, Action::Nothing),
    }
}

/// The history after a line was submitted: a line that is not blank is
/// appended, and the oldest entry leaves a history that is full.
pub open spec fn history_with(history: Seq<Seq<char>>, line: Seq<char>) -> Seq<Seq<char>> {
    if trim(line).len() == 0 {
        history
    } else if history.len() >= HISTORY_SIZE {
        history.drop_first().push(line)
    } else {
        history.push(line)
    }
}

/// The editor after its line was submitted.
pub open spec fn editor_submitted(state: EditorModel) -> EditorModel {
    EditorModel {
        line: Seq::empty(),
        history: history_with(state.history, state.line),
        history_index: None,
    }
}

impl LineEditor {
    /// An editor with an empty line and no history.
    pub fn new() -> (editor: LineEditor)
        ensures
            editor@ == (EditorModel {
                line: Seq::empty(),
                history: Seq::empty(),
                history_index: None,
            }),
    {
        let editor = LineEditor { line: Vec::new(), history: Vec::new(), history_index: None };
        assert(pieces_view(editor.history@) =~= Seq::<Seq<char>>::empty());
        editor
    }

    /// The line being typed.
    pub fn line(&self) -> (text: String)
        ensures
            text@ == self@.line,
    {
        let text = string_of(self.line.as_slice(), 0, self.line.len());
        assert(self.line@.subrange(0, self.line.len() as int) =~= self.line@);
        text
    }

    /// How many lines the editor remembers: never more than
    /// [`HISTORY_SIZE`].
    pub fn history_len(&self) -> (n: usize)
        ensures
            n == self@.history.len(),
            n <= HISTORY_SIZE,
    {
        proof {
            use_type_invariant(self);
        }
        self.history.len()
    }

    /// Takes a key press.
    pub fn handle_key(&mut self, key: Key) -> (action: Action)
        ensures
            (final(self)@, action) == editor_step(old(self)@, key),
    {
        proof {
            use_type_invariant(&*self);
        }
        match key {
            Key::Interrupt => Action::Exit,
            Key::Enter => Action::Submit,
            Key::Backspace => {
                if self.line.len() > 0 {
                    let mut line: Vec<char> = Vec::new();
                    std::mem::swap(&mut self.line, &mut line);
                    line.pop();
                    self.line = line;
                    Action::Redraw
                } else {
                    Action::Nothing
                }
            },
            Key::Up => {
                let n = self.history.len();
                if n == 0 {
                    return Action::Nothing;
                }
                let target: usize = match self.history_index {
                    None => n - 1,
                    Some(i) => if i > 0 {
                        i - 1
                    } else {
                        0
                    },
                };
                let entry = &self.history[target];
                let copy = copy_range(entry.as_slice(), 0, entry.len());
                assert(copy@ =~= entry@);
                self.line = copy;
                self.history_index = Some(target);
                Action::Redraw
            },
            Key::Down => {
                match self.history_index {
                    Some(i) => {
                        let n = self.history.len();
                        if i < n - 1 {
                            let entry = &self.history[i + 1];
                            let copy = copy_range(entry.as_slice(), 0, entry.len());
                            assert(copy@ =~= entry@);
                            self.line = copy;
                            self.history_index = Some(i + 1);
                        } else {
                            self.line = Vec::new();
                            self.history_index = None;
                        }
                        Action::Redraw
                    },
                    None => Action::Nothing,
                }
            },
            Key::Char(c) => {
                let mut line: Vec<char> = Vec::new();
                std::mem::swap(&mut self.line, &mut line);
                line.push(c);
                self.line = line;
                Action::Echo(c)
            },
            Key::Other => Action::Nothing,
        }
    }

    /// Hands the line in: the line is remembered unless it is blank, the
    /// editor starts an empty line, and the line's text is returned.
    pub fn submit(&mut self) -> (text: String)
        ensures
            text@ == old(self)@.line,
            final(self)@ == editor_submitted(old(self)@),
    {
        proof {
            use_type_invariant(&*self);
        }
        let text = self.line();
        self.history_index = None;
        let mut line: Vec<char> = Vec::new();
        std::mem::swap(&mut self.line, &mut line);
        let n = line.len();
        assert(line@.subrange(0, n as int) =~= line@);
        if trimmed(line.as_slice(), 0, n).len() != 0 {
            let mut history: Vec<Vec<char>> = Vec::new();
            std::mem::swap(&mut self.history, &mut history);
            let ghost before = pieces_view(history@);
            if history.len() >= HISTORY_SIZE {
                history.remove(0);
                assert(pieces_view(history@) =~= before.drop_first());
            }
            let ghost kept = pieces_view(history@);
            assert(pieces_view(history@.push(line)) =~= kept.push(line@));
            history.push(line);
            self.history = history;
        }
        text
    }
}

/// A history within its bound stays within it, and the line handed in is
/// its newest entry unless it is blank.
pub proof fn history_stays_bounded(history: Seq<Seq<char>>, line: Seq<char>)
    requires
        history.len() <= HISTORY_SIZE,
    ensures
        history_with(history, line).len() <= HISTORY_SIZE,
        trim(line).len() > 0 ==> history_with(history, line).last() == line,
        trim(line).len() > 0 && history.len() < HISTORY_SIZE ==> history_with(history, line)
            == history.push(line),
        trim(line).len() == 0 ==> history_with(history, line) == history,
{
}

/// Why a line gave no value.
#[derive(Debug)]
pub enum LineError {
    /// The line is no expression.
    Parse(ParseError),
    /// The expression has no value.
    Eval(EvalError),
}

/// The mathematical value of a [`LineError`].
pub enum LineErrorModel {
    Parse(ParseError),
    Eval(EvalErrorModel),
}

impl View for LineError {
    type V = LineErrorModel;

    open spec fn view(&self) -> LineErrorModel {
        match self {
            LineError::Parse(error) => LineErrorModel::Parse(*error),
            LineError::Eval(error) => LineErrorModel::Eval(error@),
        }
    }
}

/// The model of a line's result.
pub open spec fn line_result_model(result: Result<Value, LineError>) -> Result<
    ValueModel,
    LineErrorModel,
> {
    match result {
        Ok(value) => Ok(value@),
        Err(error) => Err(error@),
    }
}

/// What evaluating a line gives.
pub open spec fn line_result(state: InterpreterModel, line: Seq<char>) -> Result<
    ValueModel,
    LineErrorModel,
> {
    match line_term(line) {
        Ok(term) => match interpret_outcome(state, term).result {
            Ok(value) => Ok(value),
            Err(error) => Err(LineErrorModel::Eval(error)),
        },
        Err(error) => Err(LineErrorModel::Parse(error)),
    }
}

/// The interpreter after a line was evaluated: a line that is no
/// expression changes nothing.
pub open spec fn line_state(state: InterpreterModel, line: Seq<char>) -> InterpreterModel {
    match line_term(line) {
        Ok(term) => InterpreterModel { env: interpret_outcome(state, term).env, ..state },
        Err(_) => state,
    }
}

/// Reads a line as an expression and evaluates it.
pub fn evaluate_line(interpreter: &mut Interpreter, line: &str) -> (result: Result<
    Value,
    LineError,
>)
    ensures
        line_result_model(result) == line_result(old(interpreter)@, line@),
        final(interpreter)@ == line_state(old(interpreter)@, line@),
{
    let tokens = significant(&tokenize(line));
    match parse(tokens.as_slice()) {
        Ok((_, term)) => match interpreter.interpret(term) {
            Ok(value) => Ok(value),
            Err(error) => Err(LineError::Eval(error)),
        },
        Err(error) => Err(LineError::Parse(error)),
    }
}

/// What the front end prints for a value. A float is for the front end
/// to print: it comes as its binary64 bit pattern.
#[derive(Debug, PartialEq, Eq)]
pub enum Shown {
    Text(String),
    Float(u64),
    Nothing,
}

/// The mathematical value of a [`Shown`].
pub enum ShownModel {
    Text(Seq<char>),
    Float(u64),
    Nothing,
}

impl View for Shown {
    type V = ShownModel;

    open spec fn view(&self) -> ShownModel {
        match self {
            Shown::Text(text) => ShownModel::Text(text@),
            Shown::Float(bits) => ShownModel::Float(*bits),
            Shown::Nothing => ShownModel::Nothing,
        }
    }
}

/// How a value is shown: an integer in base ten, a float by the front
/// end, a function and a builtin by a notice, the unit value not at all.
pub open spec fn shown_of(value: ValueModel) -> ShownModel {
    match value {
        ValueModel::Integer(n) => ShownModel::Text(decimal_text(n as int)),
        ValueModel::Float(bits) => ShownModel::Float(bits),
        ValueModel::Function { .. } => ShownModel::Text("Function created"@),
        ValueModel::Builtin(name) => ShownModel::Text("Builtin: "@ + name),
        ValueModel::Unit => ShownModel::Nothing,
    }
}

/// Says how to show a value.
pub fn show(value: &Value) -> (shown: Shown)
    ensures
        shown@ == shown_of(value@),
{
    match value {
        Value::Integer(n) => {
            let mut text = String::new();
            push_integer(&mut text, *n);
            assert(text@ =~= decimal_text(*n as int));
            Shown::Text(text)
        },
        Value::Float(bits) => Shown::Float(*bits),
        Value::Function { .. } => Shown::Text("Function created".to_owned()),
        Value::Builtin(name) => {
            let mut text = String::new();
            push_text(&mut text, "Builtin: ");
            push_text(&mut text, name.as_str());
            assert(text@ =~= "Builtin: "@ + name@);
            Shown::Text(text)
        },
        Value::Unit => Shown::Nothing,
    }
}

} // verus!
