use vstd::prelude::*;
use crate::ast::{clone_names, names_view, Term, TermModel};
use crate::float::{FloatRequest, FloatRequestModel};
use crate::text::{decimal_text, push_decimal, push_text};

verus! {

/// What an expression evaluates to. A float is held as its binary64 bit
/// pattern. A function keeps a copy of its body and nothing of the
/// environment it was defined in.
#[derive(Debug)]
pub enum Value {
    Integer(i64),
    Float(u64),
    Function { params: Vec<String>, body: Term },
    Builtin(String),
    Unit,
}

/// The mathematical value of a [`Value`].
pub enum ValueModel {
    Integer(i64),
    Float(u64),
    Function { params: Seq<Seq<char>>, body: TermModel },
    Builtin(Seq<char>),
    Unit,
}

impl View for Value {
    type V = ValueModel;

    open spec fn view(&self) -> ValueModel {
        match self {
            Value::Integer(n) => ValueModel::Integer(*n),
            Value::Float(bits) => ValueModel::Float(*bits),
            Value::Function { params, body } => ValueModel::Function {
                params: names_view(params@),
                body: body@,
            },
            Value::Builtin(name) => ValueModel::Builtin(name@),
            Value::Unit => ValueModel::Unit,
        }
    }
}

impl Clone for Value {
    fn clone(&self) -> (copy: Value)
        ensures
            copy@ == self@,
    {
        match self {
            Value::Integer(n) => Value::Integer(*n),
            Value::Float(bits) => Value::Float(*bits),
            Value::Function { params, body } => Value::Function {
                params: clone_names(params),
                body: body.duplicate(),
            },
            Value::Builtin(name) => Value::Builtin(name.clone()),
            Value::Unit => Value::Unit,
        }
    }
}

/// Why an evaluation did not produce a value.
#[derive(Debug)]
pub enum EvalError {
    /// An identifier that no scope binds.
    UndefinedVariable(String),
    /// A call whose argument count differs from the callee's parameter count.
    ArityMismatch { name: String, expected: usize, actual: usize },
    /// A call of a name that is bound to something other than a function.
    NotCallable(String),
    /// A call of a name that no scope binds.
    FunctionNotFound(String),
    /// A builtin that the interpreter does not implement.
    UnknownBuiltin(String),
    /// A zero divisor.
    DivisionByZero,
    /// A binary operator applied to something that is not a number.
    InvalidOperandTypes,
    /// Negation of something that is not a number.
    InvalidUnaryOperand,
    /// Calls nested deeper than the interpreter's limit.
    DepthExceeded,
    /// The evaluation needs floating-point work that the host has not
    /// answered yet.
    FloatPending(FloatRequest),
}

/// The mathematical value of an [`EvalError`].
pub enum EvalErrorModel {
    UndefinedVariable(Seq<char>),
    ArityMismatch { name: Seq<char>, expected: usize, actual: usize },
    NotCallable(Seq<char>),
    FunctionNotFound(Seq<char>),
    UnknownBuiltin(Seq<char>),
    DivisionByZero,
    InvalidOperandTypes,
    InvalidUnaryOperand,
    DepthExceeded,
    FloatPending(FloatRequestModel),
}

impl View for EvalError {
    type V = EvalErrorModel;

    open spec fn view(&self) -> EvalErrorModel {
        match self {
            EvalError::UndefinedVariable(name) => EvalErrorModel::UndefinedVariable(name@),
            EvalError::ArityMismatch { name, expected, actual } => EvalErrorModel::ArityMismatch {
                name: name@,
                expected: *expected,
                actual: *actual,
            },
            EvalError::NotCallable(name) => EvalErrorModel::NotCallable(name@),
            EvalError::FunctionNotFound(name) => EvalErrorModel::FunctionNotFound(name@),
            EvalError::UnknownBuiltin(name) => EvalErrorModel::UnknownBuiltin(name@),
            EvalError::DivisionByZero => EvalErrorModel::DivisionByZero,
            EvalError::InvalidOperandTypes => EvalErrorModel::InvalidOperandTypes,
            EvalError::InvalidUnaryOperand => EvalErrorModel::InvalidUnaryOperand,
            EvalError::DepthExceeded => EvalErrorModel::DepthExceeded,
            EvalError::FloatPending(request) => EvalErrorModel::FloatPending(request@),
        }
    }
}

/// The model of an evaluation's result.
pub open spec fn result_model(result: Result<Value, EvalError>) -> Result<
    ValueModel,
    EvalErrorModel,
> {
    match result {
        Ok(value) => Ok(value@),
        Err(error) => Err(error@),
    }
}

/// The text that describes an error.
pub open spec fn message_of(error: EvalErrorModel) -> Seq<char> {
    match error {
        EvalErrorModel::UndefinedVariable(name) => "Undefined variable: "@ + name,
        EvalErrorModel::ArityMismatch { name, expected, actual } => "Arity mismatch: "@ + name
            + " expected "@ + decimal_text(expected as int) + " arguments, got "@ + decimal_text(
            actual as int,
        ),
        EvalErrorModel::NotCallable(name) => name + " is not a function"@,
        EvalErrorModel::FunctionNotFound(name) => "Function not found: "@ + name,
        EvalErrorModel::UnknownBuiltin(name) => "Unknown builtin: "@ + name,
        EvalErrorModel::DivisionByZero => "Division by zero"@,
        EvalErrorModel::InvalidOperandTypes => "Invalid types for binary operation"@,
        EvalErrorModel::InvalidUnaryOperand => "Invalid type for negation"@,
        EvalErrorModel::DepthExceeded => "Call depth exceeded"@,
        EvalErrorModel::FloatPending(_) => "Floating-point work pending"@,
    }
}

/// Appends a count in base ten to a text.
fn push_count(text: &mut String, n: usize)
    ensures
        final(text)@ == old(text)@ + decimal_text(n as int),
{
    push_decimal(text, n as u64);
}

impl EvalError {
    /// A description of the error for a reader.
    pub fn message(&self) -> (text: String)
        ensures
            text@ == message_of(self@),
    {
        let mut text = String::new();
        match self {
            EvalError::UndefinedVariable(name) => {
                push_text(&mut text, "Undefined variable: ");
                push_text(&mut text, name.as_str());
            },
            EvalError::ArityMismatch { name, expected, actual } => {
                push_text(&mut text, "Arity mismatch: ");
                push_text(&mut text, name.as_str());
                push_text(&mut text, " expected ");
                push_count(&mut text, *expected);
                push_text(&mut text, " arguments, got ");
                push_count(&mut text, *actual);
            },
            EvalError::NotCallable(name) => {
                push_text(&mut text, name.as_str());
                push_text(&mut text, " is not a function");
            },
            EvalError::FunctionNotFound(name) => {
                push_text(&mut text, "Function not found: ");
                push_text(&mut text, name.as_str());
            },
            EvalError::UnknownBuiltin(name) => {
                push_text(&mut text, "Unknown builtin: ");
                push_text(&mut text, name.as_str());
            },
            EvalError::DivisionByZero => {
                push_text(&mut text, "Division by zero");
            },
            EvalError::InvalidOperandTypes => {
                push_text(&mut text, "Invalid types for binary operation");
            },
            EvalError::InvalidUnaryOperand => {
                push_text(&mut text, "Invalid type for negation");
            },
            EvalError::DepthExceeded => {
                push_text(&mut text, "Call depth exceeded");
            },
            EvalError::FloatPending(_) => {
                push_text(&mut text, "Floating-point work pending");
            },
        }
        assert(text@ =~= message_of(self@));
        text
    }
}

} // verus!
