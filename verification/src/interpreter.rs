use vstd::prelude::*;
use crate::arith::{
    binary_op, binary_result, float_answer, float_binary, trunc_div, unary_op, unary_result,
};
use crate::ast::{clone_names, names_view, BinaryOperator, Term, TermModel, UnaryOperator};
use crate::environment::{
    child_env, env_add_rule, env_bind, env_lookup, root_env, Environment, EnvironmentModel,
    SyntaxRule, SyntaxRuleModel,
};
use crate::float::{FloatRequest, FloatRequestModel, FloatTable};
pub use crate::value::{result_model, EvalError, EvalErrorModel, Value, ValueModel};

verus! {

/// How deep calls may nest in an interpreter made by [`Interpreter::new`].
pub const DEFAULT_DEPTH_LIMIT: usize = 256;

/// The environment and the result that an evaluation leaves.
pub struct Outcome {
    pub env: EnvironmentModel,
    pub result: Result<ValueModel, EvalErrorModel>,
}

/// The arguments of a call, evaluated from the `i`-th on in the caller's
/// environment, each bound to its parameter in the callee's scope. The
/// first error ends it.
pub open spec fn eval_args(
    caller: EnvironmentModel,
    callee: EnvironmentModel,
    params: Seq<Seq<char>>,
    args: Seq<TermModel>,
    i: int,
    floats: Map<FloatRequestModel, u64>,
    depth: nat,
) -> (EnvironmentModel, Result<EnvironmentModel, EvalErrorModel>)
    decreases depth, args, args.len() - i,
{
    if 0 <= i < args.len() {
        let out = eval(caller, args[i], floats, depth);
        match out.result {
            Ok(value) => eval_args(
                out.env,
                env_bind(callee, params[i], value),
                params,
                args,
                i + 1,
                floats,
                depth,
            ),
            Err(error) => (out.env, Err(error)),
        }
    } else {
        (caller, Ok(callee))
    }
}

/// What evaluating a term in an environment gives, with the host's float
/// answers `floats` and calls nested at most `depth` deep.
///
/// A call's scope has the caller's environment, as it was before the
/// arguments were evaluated, for its parent. The scope is dropped when the
/// call ends, whatever its result: the caller goes on with its own
/// environment.
pub open spec fn eval(
    env: EnvironmentModel,
    term: TermModel,
    floats: Map<FloatRequestModel, u64>,
    depth: nat,
) -> Outcome
    decreases depth, term, 0nat,
{
    match term {
        TermModel::Identifier(name) => Outcome {
            env,
            result: match env_lookup(env, name) {
                Some(value) => Ok(value),
                None => Err(EvalErrorModel::UndefinedVariable(name)),
            },
        },
        TermModel::Integer(n) => Outcome { env, result: Ok(ValueModel::Integer(n)) },
        TermModel::Float(text) => Outcome {
            env,
            result: match float_answer(floats, FloatRequestModel::Literal(text)) {
                Ok(bits) => Ok(ValueModel::Float(bits)),
                Err(error) => Err(error),
            },
        },
        TermModel::Function { name, params, body } => {
            let function = ValueModel::Function { params, body: *body };
            Outcome { env: env_bind(env, name, function), result: Ok(function) }
        },
        TermModel::FunctionCall { name, args } => match env_lookup(env, name) {
            Some(ValueModel::Builtin(builtin)) => {
                if builtin != "ID"@ {
                    Outcome { env, result: Err(EvalErrorModel::UnknownBuiltin(builtin)) }
                } else if args.len() != 1 {
                    Outcome {
                        env,
                        result: Err(
                            EvalErrorModel::ArityMismatch {
                                name: builtin,
                                expected: 1,
                                actual: args.len() as usize,
                            },
                        ),
                    }
                } else {
                    eval(env, args[0], floats, depth)
                }
            },
            Some(ValueModel::Function { params, body }) => {
                if params.len() != args.len() {
                    Outcome {
                        env,
                        result: Err(
                            EvalErrorModel::ArityMismatch {
                                name,
                                expected: params.len() as usize,
                                actual: args.len() as usize,
                            },
                        ),
                    }
                } else {
                    let (caller, bound) = eval_args(
                        env,
                        child_env(env),
                        params,
                        args,
                        0,
                        floats,
                        depth,
                    );
                    match bound {
                        Err(error) => Outcome { env: caller, result: Err(error) },
                        Ok(callee) => if depth == 0 {
                            Outcome { env: caller, result: Err(EvalErrorModel::DepthExceeded) }
                        } else {
                            Outcome {
                                env: caller,
                                result: eval(callee, body, floats, (depth - 1) as nat).result,
                            }
                        },
                    }
                }
            },
            Some(_) => Outcome { env, result: Err(EvalErrorModel::NotCallable(name)) },
            None => Outcome { env, result: Err(EvalErrorModel::FunctionNotFound(name)) },
        },
        TermModel::BinaryOp { op, left, right } => {
            let first = eval(env, *left, floats, depth);
            match first.result {
                Err(error) => first,
                Ok(left_value) => {
                    let second = eval(first.env, *right, floats, depth);
                    match second.result {
                        Err(error) => second,
                        Ok(right_value) => Outcome {
                            env: second.env,
                            result: binary_result(op, left_value, right_value, floats),
                        },
                    }
                },
            }
        },
        TermModel::UnaryOp { op, operand } => {
            let inner = eval(env, *operand, floats, depth);
            match inner.result {
                Err(error) => inner,
                Ok(value) => Outcome { env: inner.env, result: unary_result(op, value) },
            }
        },
        TermModel::SyntaxDefinition { name, pattern, precedence, scope } => Outcome {
            env: env_add_rule(env, SyntaxRuleModel { name, pattern, precedence, scope }),
            result: Ok(ValueModel::Unit),
        },
    }
}

/// A tree-walking evaluator with its environment, the float answers that
/// its host has given, and a limit on how deep calls may nest.
#[derive(Debug)]
pub struct Interpreter {
    env: Environment,
    floats: FloatTable,
    depth_limit: usize,
}

/// The mathematical value of an [`Interpreter`].
pub struct InterpreterModel {
    pub env: EnvironmentModel,
    pub floats: Map<FloatRequestModel, u64>,
    pub depth_limit: nat,
}

impl View for Interpreter {
    type V = InterpreterModel;

    closed spec fn view(&self) -> InterpreterModel {
        InterpreterModel {
            env: self.env@,
            floats: self.floats@,
            depth_limit: self.depth_limit as nat,
        }
    }
}

/// What [`Interpreter::interpret`] does to an interpreter and returns. An
/// evaluation that stops for want of a float answer leaves the environment
/// as it found it, so that it can be run again once the answer is there.
pub open spec fn interpret_outcome(state: InterpreterModel, term: TermModel) -> Outcome {
    let out = eval(state.env, term, state.floats, state.depth_limit);
    match out.result {
        Err(EvalErrorModel::FloatPending(_)) => Outcome { env: state.env, result: out.result },
        _ => out,
    }
}

impl Interpreter {
    /// An interpreter with the root environment, no float answers and the
    /// default depth limit.
    pub fn new() -> (interpreter: Interpreter)
        ensures
            interpreter@ == (InterpreterModel {
                env: root_env(),
                floats: Map::empty(),
                depth_limit: DEFAULT_DEPTH_LIMIT as nat,
            }),
    {
        Interpreter {
            env: Environment::new(),
            floats: FloatTable::new(),
            depth_limit: DEFAULT_DEPTH_LIMIT,
        }
    }

    /// An interpreter like a new one, with a depth limit of its own.
    pub fn with_depth_limit(depth_limit: usize) -> (interpreter: Interpreter)
        ensures
            interpreter@ == (InterpreterModel {
                env: root_env(),
                floats: Map::empty(),
                depth_limit: depth_limit as nat,
            }),
    {
        Interpreter { env: Environment::new(), floats: FloatTable::new(), depth_limit }
    }

    /// Records the host's answer to a float request. The first answer to a
    /// request stands.
    pub fn provide_float(&mut self, request: FloatRequest, bits: u64)
        ensures
            final(self)@ == (InterpreterModel {
                floats: if old(self)@.floats.contains_key(request@) {
                    old(self)@.floats
                } else {
                    old(self)@.floats.insert(request@, bits)
                },
                ..old(self)@
            }),
    {
        self.floats.record(request, bits);
    }

    /// Forgets the host's float answers. The environment stays.
    pub fn forget_floats(&mut self)
        ensures
            final(self)@ == (InterpreterModel { floats: Map::empty(), ..old(self)@ }),
    {
        self.floats.clear();
    }

    /// Evaluates a term against the interpreter's environment.
    pub fn interpret(&mut self, term: Term) -> (result: Result<Value, EvalError>)
        ensures
            result_model(result) == interpret_outcome(old(self)@, term@).result,
            final(self)@ == (InterpreterModel {
                env: interpret_outcome(old(self)@, term@).env,
                ..old(self)@
            }),
    {
        let saved = self.env.duplicate();
        let depth = self.depth_limit;
        let result = self.eval(&term, depth);
        match result {
            Err(EvalError::FloatPending(request)) => {
                self.env = saved;
                Err(EvalError::FloatPending(request))
            },
            other => other,
        }
    }

    /// Applies a binary operator to two values.
    pub fn apply_binary_op(&self, op: BinaryOperator, left: Value, right: Value) -> (result: Result<
        Value,
        EvalError,
    >)
        ensures
            result_model(result) == binary_result(op, left@, right@, self@.floats),
    {
        binary_op(op, &left, &right, &self.floats)
    }

    /// Applies a unary operator to a value.
    pub fn apply_unary_op(&self, op: UnaryOperator, val: Value) -> (result: Result<
        Value,
        EvalError,
    >)
        ensures
            result_model(result) == unary_result(op, val@),
    {
        unary_op(op, &val)
    }

    #[verifier::loop_isolation(false)]
    fn eval(&mut self, term: &Term, depth: usize) -> (result: Result<Value, EvalError>)
        ensures
            result_model(result) == eval(
                old(self).env@,
                term@,
                old(self).floats@,
                depth as nat,
            ).result,
            final(self).env@ == eval(old(self).env@, term@, old(self).floats@, depth as nat).env,
            final(self).floats@ == old(self).floats@,
            final(self).depth_limit == old(self).depth_limit,
        decreases depth, term, 1nat,
    {
        match term {
            Term::Identifier(name) => match self.env.lookup(name) {
                Some(value) => Ok(value),
                None => Err(EvalError::UndefinedVariable(name.clone())),
            },
            Term::Integer(n) => Ok(Value::Integer(*n)),
            Term::Float(text) => {
                match self.floats.lookup(&FloatRequest::Literal(text.clone())) {
                    Some(bits) => Ok(Value::Float(bits)),
                    None => Err(EvalError::FloatPending(FloatRequest::Literal(text.clone()))),
                }
            },
            Term::Function { name, params, body } => {
                let function = Value::Function {
                    params: clone_names(params),
                    body: body.duplicate(),
                };
                self.env.bind(name.clone(), function.clone());
                Ok(function)
            },
            Term::FunctionCall { name, args } => {
                assert(forall|k: int|
                    0 <= k < args.len() ==> term@->FunctionCall_args[k] == args[k]@);
                assert(term@->FunctionCall_args.len() == args.len());
                match self.env.lookup(name) {
                    Some(Value::Builtin(builtin)) => self.call_builtin(
                        &builtin,
                        args,
                        depth,
                        Ghost(*term),
                    ),
                    Some(Value::Function { params, body }) => {
                        if params.len() != args.len() {
                            return Err(
                                EvalError::ArityMismatch {
                                    name: name.clone(),
                                    expected: params.len(),
                                    actual: args.len(),
                                },
                            );
                        }
                        let mut new_env = Environment::child_of(&self.env);
                        let ghost start = self.env@;
                        let ghost params_model = names_view(params@);
                        let ghost args_model = term@->FunctionCall_args;
                        let ghost floats = self.floats@;
                        let mut i: usize = 0;
                        while i < args.len()
                            invariant
                                i <= args.len(),
                                params.len() == args.len(),
                                term is FunctionCall,
                                term->FunctionCall_args == args,
                                args_model == term@->FunctionCall_args,
                                args_model.len() == args.len(),
                                forall|k: int| 0 <= k < args.len() ==> args_model[k] == args[k]@,
                                params_model == names_view(params@),
                                self.floats@ == floats,
                                self.depth_limit == old(self).depth_limit,
                                eval_args(
                                    start,
                                    child_env(start),
                                    params_model,
                                    args_model,
                                    0,
                                    floats,
                                    depth as nat,
                                ) == eval_args(
                                    self.env@,
                                    new_env@,
                                    params_model,
                                    args_model,
                                    i as int,
                                    floats,
                                    depth as nat,
                                ),
                            decreases args.len() - i,
                        {
                            match self.eval(&args[i], depth) {
                                Ok(value) => {
                                    new_env.bind(params[i].clone(), value);
                                },
                                Err(error) => {
                                    return Err(error);
                                },
                            }
                            i += 1;
                        }
                        if depth == 0 {
                            return Err(EvalError::DepthExceeded);
                        }
                        std::mem::swap(&mut self.env, &mut new_env);
                        let result = self.eval(&body, depth - 1);
                        self.env = new_env;
                        result
                    },
                    Some(_) => Err(EvalError::NotCallable(name.clone())),
                    None => Err(EvalError::FunctionNotFound(name.clone())),
                }
            },
            Term::BinaryOp { op, left, right } => {
                let left_value = match self.eval(left, depth) {
                    Ok(value) => value,
                    Err(error) => { return Err(error); },
                };
                let right_value = match self.eval(right, depth) {
                    Ok(value) => value,
                    Err(error) => { return Err(error); },
                };
                binary_op(*op, &left_value, &right_value, &self.floats)
            },
            Term::UnaryOp { op, operand } => {
                let value = match self.eval(operand, depth) {
                    Ok(value) => value,
                    Err(error) => { return Err(error); },
                };
                unary_op(*op, &value)
            },
            Term::SyntaxDefinition { name, pattern, precedence, scope } => {
                self.env.add_syntax_rule(
                    SyntaxRule {
                        name: name.clone(),
                        pattern: pattern.clone(),
                        precedence: *precedence,
                        scope: *scope,
                    },
                );
                Ok(Value::Unit)
            },
        }
    }

    fn call_builtin(
        &mut self,
        name: &String,
        args: &Vec<Term>,
        depth: usize,
        Ghost(call): Ghost<Term>,
    ) -> (result: Result<Value, EvalError>)
        requires
            call is FunctionCall,
            call->FunctionCall_args == args,
            env_lookup(old(self).env@, call@->FunctionCall_name) == Some(
                ValueModel::Builtin(name@),
            ),
        ensures
            result_model(result) == eval(
                old(self).env@,
                call@,
                old(self).floats@,
                depth as nat,
            ).result,
            final(self).env@ == eval(old(self).env@, call@, old(self).floats@, depth as nat).env,
            final(self).floats@ == old(self).floats@,
            final(self).depth_limit == old(self).depth_limit,
        decreases depth, call, 0nat,
    {
        assert(forall|k: int| 0 <= k < args.len() ==> call@->FunctionCall_args[k] == args[k]@);
        assert(call@->FunctionCall_args.len() == args.len());
        if *name != "ID".to_owned() {
            return Err(EvalError::UnknownBuiltin(name.clone()));
        }
        if args.len() != 1 {
            return Err(
                EvalError::ArityMismatch { name: name.clone(), expected: 1, actual: args.len() },
            );
        }
        self.eval(&args[0], depth)
    }
}

/// The term `left / right` on two integer literals.
pub open spec fn integer_division(left: i64, right: i64) -> TermModel {
    TermModel::BinaryOp {
        op: BinaryOperator::Div,
        left: Box::new(TermModel::Integer(left)),
        right: Box::new(TermModel::Integer(right)),
    }
}

/// Dividing an integer by a nonzero integer gives the quotient rounded
/// toward zero, and leaves the environment alone. The one pair left out is
/// the least integer divided by -1, whose quotient does not fit in 64 bits.
pub proof fn division_rounds_toward_zero(state: InterpreterModel, a: i64, b: i64)
    requires
        b != 0,
        !(a == i64::MIN && b == -1),
    ensures
        interpret_outcome(state, integer_division(a, b)).result == Ok::<ValueModel, EvalErrorModel>(
            ValueModel::Integer(trunc_div(a as int, b as int) as i64),
        ),
        interpret_outcome(state, integer_division(a, b)).env == state.env,
{
    reveal_with_fuel(eval, 3);
}

/// Dividing an integer by zero is an error, never a value.
pub proof fn division_by_zero_is_an_error(state: InterpreterModel, a: i64)
    ensures
        interpret_outcome(state, integer_division(a, 0)).result == Err::<
            ValueModel,
            EvalErrorModel,
        >(EvalErrorModel::DivisionByZero),
{
    reveal_with_fuel(eval, 3);
}

/// Calling a function with another number of arguments than it has
/// parameters is an arity error that names the function and both counts.
pub proof fn wrong_argument_count_is_an_error(
    state: InterpreterModel,
    name: Seq<char>,
    params: Seq<Seq<char>>,
    body: TermModel,
    args: Seq<TermModel>,
)
    requires
        env_lookup(state.env, name) == Some(ValueModel::Function { params, body }),
        params.len() != args.len(),
    ensures
        interpret_outcome(state, TermModel::FunctionCall { name, args }).result == Err::<
            ValueModel,
            EvalErrorModel,
        >(
            EvalErrorModel::ArityMismatch {
                name,
                expected: params.len() as usize,
                actual: args.len() as usize,
            },
        ),
        interpret_outcome(state, TermModel::FunctionCall { name, args }).env == state.env,
{
}

/// A definition binds its name to the function in the current scope and
/// evaluates to that function.
pub proof fn definition_binds_its_name(
    state: InterpreterModel,
    name: Seq<char>,
    params: Seq<Seq<char>>,
    body: TermModel,
)
    ensures
        ({
            let function = ValueModel::Function { params, body };
            let out = interpret_outcome(
                state,
                TermModel::Function { name, params, body: Box::new(body) },
            );
            &&& out.result == Ok::<ValueModel, EvalErrorModel>(function)
            &&& out.env == env_bind(state.env, name, function)
            &&& env_lookup(out.env, name) == Some(function)
        }),
{
}

/// The builtin `ID` applied to one argument evaluates as the argument
/// does; applied to none or to several, it is an arity error.
pub proof fn identity_builtin(state: InterpreterModel, args: Seq<TermModel>)
    requires
        env_lookup(state.env, "ID"@) == Some(ValueModel::Builtin("ID"@)),
    ensures
        args.len() == 1 ==> interpret_outcome(
            state,
            TermModel::FunctionCall { name: "ID"@, args },
        ) == interpret_outcome(state, args[0]),
        args.len() != 1 ==> interpret_outcome(
            state,
            TermModel::FunctionCall { name: "ID"@, args },
        ).result == Err::<ValueModel, EvalErrorModel>(
            EvalErrorModel::ArityMismatch {
                name: "ID"@,
                expected: 1,
                actual: args.len() as usize,
            },
        ),
{
}

/// The root environment binds `ID` to the builtin of that name.
pub proof fn root_binds_identity()
    ensures
        env_lookup(root_env(), "ID"@) == Some(ValueModel::Builtin("ID"@)),
{
}

/// An identifier that no scope binds is an error that names it.
pub proof fn unbound_identifier_is_an_error(state: InterpreterModel, name: Seq<char>)
    requires
        env_lookup(state.env, name) is None,
    ensures
        interpret_outcome(state, TermModel::Identifier(name)).result == Err::<
            ValueModel,
            EvalErrorModel,
        >(EvalErrorModel::UndefinedVariable(name)),
        interpret_outcome(state, TermModel::Identifier(name)).env == state.env,
{
}

/// An operator between an integer and a float never gives an integer: the
/// integer is converted, and the result is what the operator gives on the
/// two floats.
pub proof fn mixed_operands_give_a_float(
    op: BinaryOperator,
    n: i64,
    bits: u64,
    floats: Map<FloatRequestModel, u64>,
)
    requires
        floats.contains_key(FloatRequestModel::FromInteger(n)),
    ensures
        binary_result(op, ValueModel::Integer(n), ValueModel::Float(bits), floats) == float_binary(
            op,
            floats[FloatRequestModel::FromInteger(n)],
            bits,
            floats,
        ),
        binary_result(op, ValueModel::Float(bits), ValueModel::Integer(n), floats) == float_binary(
            op,
            bits,
            floats[FloatRequestModel::FromInteger(n)],
            floats,
        ),
        binary_result(op, ValueModel::Integer(n), ValueModel::Float(bits), floats) matches Ok(v)
            ==> v is Float,
        binary_result(op, ValueModel::Float(bits), ValueModel::Integer(n), floats) matches Ok(v)
            ==> v is Float,
{
}

/// A call leaves the caller's scope as the arguments left it: whatever the
/// body binds is gone when the call ends, whether it ends in a value or in
/// an error.
pub proof fn call_leaves_no_scope_behind(
    env: EnvironmentModel,
    name: Seq<char>,
    params: Seq<Seq<char>>,
    body: TermModel,
    args: Seq<TermModel>,
    floats: Map<FloatRequestModel, u64>,
    depth: nat,
)
    requires
        env_lookup(env, name) == Some(ValueModel::Function { params, body }),
        params.len() == args.len(),
    ensures
        eval(env, TermModel::FunctionCall { name, args }, floats, depth).env == eval_args(
            env,
            child_env(env),
            params,
            args,
            0,
            floats,
            depth,
        ).0,
{
}

/// A function that was defined with some parameters and is then called
/// with another number of arguments gives an arity error that names it,
/// the number of its parameters and the number of the arguments.
pub proof fn defined_function_checks_arity(
    state: InterpreterModel,
    name: Seq<char>,
    params: Seq<Seq<char>>,
    body: TermModel,
    args: Seq<TermModel>,
)
    requires
        params.len() != args.len(),
    ensures
        ({
            let defined = InterpreterModel {
                env: interpret_outcome(
                    state,
                    TermModel::Function { name, params, body: Box::new(body) },
                ).env,
                ..state
            };
            interpret_outcome(defined, TermModel::FunctionCall { name, args }).result == Err::<
                ValueModel,
                EvalErrorModel,
            >(
                EvalErrorModel::ArityMismatch {
                    name,
                    expected: params.len() as usize,
                    actual: args.len() as usize,
                },
            )
        }),
{
}

/// Whether a result is the error for float work that the host has not
/// answered, and the table holds an answer to that very request.
pub open spec fn pending_answered(
    result: Result<ValueModel, EvalErrorModel>,
    floats: Map<FloatRequestModel, u64>,
) -> bool {
    result matches Err(EvalErrorModel::FloatPending(request)) && floats.contains_key(request)
}

/// An operator never asks for float work that the table answers.
pub proof fn operator_asks_what_is_unanswered(
    op: BinaryOperator,
    left: ValueModel,
    right: ValueModel,
    floats: Map<FloatRequestModel, u64>,
)
    ensures
        !pending_answered(binary_result(op, left, right, floats), floats),
{
}

/// An evaluation never asks for float work that the table answers: once
/// the host has answered a request, no evaluation stops for it again.
pub proof fn evaluation_asks_what_is_unanswered(
    env: EnvironmentModel,
    term: TermModel,
    floats: Map<FloatRequestModel, u64>,
    depth: nat,
)
    ensures
        !pending_answered(eval(env, term, floats, depth).result, floats),
    decreases depth, term, 0nat,
{
    match term {
        TermModel::FunctionCall { name, args } => match env_lookup(env, name) {
            Some(ValueModel::Builtin(builtin)) => {
                if builtin == "ID"@ && args.len() == 1 {
                    evaluation_asks_what_is_unanswered(env, args[0], floats, depth);
                }
            },
            Some(ValueModel::Function { params, body }) => {
                if params.len() == args.len() {
                    arguments_ask_what_is_unanswered(
                        env,
                        child_env(env),
                        params,
                        args,
                        0,
                        floats,
                        depth,
                    );
                    let (caller, bound) = eval_args(
                        env,
                        child_env(env),
                        params,
                        args,
                        0,
                        floats,
                        depth,
                    );
                    match bound {
                        Ok(callee) => {
                            if depth > 0 {
                                evaluation_asks_what_is_unanswered(
                                    callee,
                                    body,
                                    floats,
                                    (depth - 1) as nat,
                                );
                            }
                        },
                        Err(_) => {},
                    }
                }
            },
            _ => {},
        },
        TermModel::BinaryOp { op, left, right } => {
            evaluation_asks_what_is_unanswered(env, *left, floats, depth);
            let first = eval(env, *left, floats, depth);
            match first.result {
                Ok(left_value) => {
                    evaluation_asks_what_is_unanswered(first.env, *right, floats, depth);
                    let second = eval(first.env, *right, floats, depth);
                    match second.result {
                        Ok(right_value) => {
                            operator_asks_what_is_unanswered(op, left_value, right_value, floats);
                        },
                        Err(_) => {},
                    }
                },
                Err(_) => {},
            }
        },
        TermModel::UnaryOp { op, operand } => {
            evaluation_asks_what_is_unanswered(env, *operand, floats, depth);
        },
        _ => {},
    }
}

/// The arguments of a call never ask for float work that the table
/// answers.
pub proof fn arguments_ask_what_is_unanswered(
    caller: EnvironmentModel,
    callee: EnvironmentModel,
    params: Seq<Seq<char>>,
    args: Seq<TermModel>,
    i: int,
    floats: Map<FloatRequestModel, u64>,
    depth: nat,
)
    ensures
        eval_args(caller, callee, params, args, i, floats, depth).1 matches Err(
            EvalErrorModel::FloatPending(request),
        ) ==> !floats.contains_key(request),
    decreases depth, args, args.len() - i,
{
    if 0 <= i < args.len() {
        evaluation_asks_what_is_unanswered(caller, args[i], floats, depth);
        let out = eval(caller, args[i], floats, depth);
        match out.result {
            Ok(value) => {
                arguments_ask_what_is_unanswered(
                    out.env,
                    env_bind(callee, params[i], value),
                    params,
                    args,
                    i + 1,
                    floats,
                    depth,
                );
            },
            Err(_) => {},
        }
    }
}

/// The depth limit only cuts evaluations off: an evaluation that does not
/// end in `DepthExceeded` ends the same way under every greater limit.
pub proof fn greater_depth_changes_nothing(
    env: EnvironmentModel,
    term: TermModel,
    floats: Map<FloatRequestModel, u64>,
    depth: nat,
    greater: nat,
)
    requires
        depth <= greater,
        eval(env, term, floats, depth).result != Err::<ValueModel, EvalErrorModel>(
            EvalErrorModel::DepthExceeded,
        ),
    ensures
        eval(env, term, floats, greater) == eval(env, term, floats, depth),
    decreases depth, term, 0nat,
{
    match term {
        TermModel::FunctionCall { name, args } => match env_lookup(env, name) {
            Some(ValueModel::Builtin(builtin)) => {
                if builtin == "ID"@ && args.len() == 1 {
                    greater_depth_changes_nothing(env, args[0], floats, depth, greater);
                }
            },
            Some(ValueModel::Function { params, body }) => {
                if params.len() == args.len() {
                    let (caller, bound) = eval_args(
                        env,
                        child_env(env),
                        params,
                        args,
                        0,
                        floats,
                        depth,
                    );
                    greater_depth_binds_the_same(
                        env,
                        child_env(env),
                        params,
                        args,
                        0,
                        floats,
                        depth,
                        greater,
                    );
                    match bound {
                        Ok(callee) => {
                            greater_depth_changes_nothing(
                                callee,
                                body,
                                floats,
                                (depth - 1) as nat,
                                (greater - 1) as nat,
                            );
                        },
                        Err(_) => {},
                    }
                }
            },
            _ => {},
        },
        TermModel::BinaryOp { op, left, right } => {
            let first = eval(env, *left, floats, depth);
            greater_depth_changes_nothing(env, *left, floats, depth, greater);
            match first.result {
                Ok(_) => {
                    greater_depth_changes_nothing(first.env, *right, floats, depth, greater);
                },
                Err(_) => {},
            }
        },
        TermModel::UnaryOp { op, operand } => {
            greater_depth_changes_nothing(env, *operand, floats, depth, greater);
        },
        _ => {},
    }
}

/// Arguments that are evaluated without `DepthExceeded` are evaluated the
/// same way under every greater limit.
pub proof fn greater_depth_binds_the_same(
    caller: EnvironmentModel,
    callee: EnvironmentModel,
    params: Seq<Seq<char>>,
    args: Seq<TermModel>,
    i: int,
    floats: Map<FloatRequestModel, u64>,
    depth: nat,
    greater: nat,
)
    requires
        depth <= greater,
        eval_args(caller, callee, params, args, i, floats, depth).1 != Err::<
            EnvironmentModel,
            EvalErrorModel,
        >(EvalErrorModel::DepthExceeded),
    ensures
        eval_args(caller, callee, params, args, i, floats, greater) == eval_args(
            caller,
            callee,
            params,
            args,
            i,
            floats,
            depth,
        ),
    decreases depth, args, args.len() - i,
{
    if 0 <= i < args.len() {
        let out = eval(caller, args[i], floats, depth);
        greater_depth_changes_nothing(caller, args[i], floats, depth, greater);
        match out.result {
            Ok(value) => {
                greater_depth_binds_the_same(
                    out.env,
                    env_bind(callee, params[i], value),
                    params,
                    args,
                    i + 1,
                    floats,
                    depth,
                    greater,
                );
            },
            Err(_) => {},
        }
    }
}

/// Float work that [`Interpreter::interpret`] asks for is work that the
/// interpreter holds no answer to: a host that answers each request it is
/// handed is never handed the same request twice.
pub proof fn pending_request_is_new(state: InterpreterModel, term: TermModel)
    ensures
        interpret_outcome(state, term).result matches Err(EvalErrorModel::FloatPending(request))
            ==> !state.floats.contains_key(request),
{
    evaluation_asks_what_is_unanswered(state.env, term, state.floats, state.depth_limit);
}

/// Whether a table holds every answer of another table.
pub open spec fn extends(
    more: Map<FloatRequestModel, u64>,
    floats: Map<FloatRequestModel, u64>,
) -> bool {
    forall|request: FloatRequestModel| #[trigger]
        floats.contains_key(request) ==> more.contains_key(request) && more[request]
            == floats[request]
}

/// Whether a result is the error for float work that is pending.
pub open spec fn is_pending<T>(result: Result<T, EvalErrorModel>) -> bool {
    result is Err && result->Err_0 is FloatPending
}

/// An operator that did not stop for float work gives the same with more
/// answers.
pub proof fn operator_ignores_more_answers(
    op: BinaryOperator,
    left: ValueModel,
    right: ValueModel,
    floats: Map<FloatRequestModel, u64>,
    more: Map<FloatRequestModel, u64>,
)
    requires
        extends(more, floats),
        !is_pending(binary_result(op, left, right, floats)),
    ensures
        binary_result(op, left, right, more) == binary_result(op, left, right, floats),
{
}

/// Answers only resolve what was pending: an evaluation that did not stop
/// for float work ends the same way when the host has answered more.
pub proof fn more_answers_change_nothing(
    env: EnvironmentModel,
    term: TermModel,
    floats: Map<FloatRequestModel, u64>,
    more: Map<FloatRequestModel, u64>,
    depth: nat,
)
    requires
        extends(more, floats),
        !is_pending(eval(env, term, floats, depth).result),
    ensures
        eval(env, term, more, depth) == eval(env, term, floats, depth),
    decreases depth, term, 0nat,
{
    match term {
        TermModel::FunctionCall { name, args } => match env_lookup(env, name) {
            Some(ValueModel::Builtin(builtin)) => {
                if builtin == "ID"@ && args.len() == 1 {
                    more_answers_change_nothing(env, args[0], floats, more, depth);
                }
            },
            Some(ValueModel::Function { params, body }) => {
                if params.len() == args.len() {
                    let (caller, bound) = eval_args(
                        env,
                        child_env(env),
                        params,
                        args,
                        0,
                        floats,
                        depth,
                    );
                    more_answers_bind_the_same(
                        env,
                        child_env(env),
                        params,
                        args,
                        0,
                        floats,
                        more,
                        depth,
                    );
                    match bound {
                        Ok(callee) => {
                            if depth > 0 {
                                more_answers_change_nothing(
                                    callee,
                                    body,
                                    floats,
                                    more,
                                    (depth - 1) as nat,
                                );
                            }
                        },
                        Err(_) => {},
                    }
                }
            },
            _ => {},
        },
        TermModel::BinaryOp { op, left, right } => {
            let first = eval(env, *left, floats, depth);
            more_answers_change_nothing(env, *left, floats, more, depth);
            match first.result {
                Ok(left_value) => {
                    let second = eval(first.env, *right, floats, depth);
                    more_answers_change_nothing(first.env, *right, floats, more, depth);
                    match second.result {
                        Ok(right_value) => {
                            operator_ignores_more_answers(
                                op,
                                left_value,
                                right_value,
                                floats,
                                more,
                            );
                        },
                        Err(_) => {},
                    }
                },
                Err(_) => {},
            }
        },
        TermModel::UnaryOp { op, operand } => {
            more_answers_change_nothing(env, *operand, floats, more, depth);
        },
        _ => {},
    }
}

/// Arguments that were evaluated without stopping for float work are
/// evaluated the same way when the host has answered more.
pub proof fn more_answers_bind_the_same(
    caller: EnvironmentModel,
    callee: EnvironmentModel,
    params: Seq<Seq<char>>,
    args: Seq<TermModel>,
    i: int,
    floats: Map<FloatRequestModel, u64>,
    more: Map<FloatRequestModel, u64>,
    depth: nat,
)
    requires
        extends(more, floats),
        !is_pending(eval_args(caller, callee, params, args, i, floats, depth).1),
    ensures
        eval_args(caller, callee, params, args, i, more, depth) == eval_args(
            caller,
            callee,
            params,
            args,
            i,
            floats,
            depth,
        ),
    decreases depth, args, args.len() - i,
{
    if 0 <= i < args.len() {
        let out = eval(caller, args[i], floats, depth);
        more_answers_change_nothing(caller, args[i], floats, more, depth);
        match out.result {
            Ok(value) => {
                more_answers_bind_the_same(
                    out.env,
                    env_bind(callee, params[i], value),
                    params,
                    args,
                    i + 1,
                    floats,
                    more,
                    depth,
                );
            },
            Err(_) => {},
        }
    }
}

} // verus!
