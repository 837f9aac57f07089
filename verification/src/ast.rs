use vstd::prelude::*;

verus! {

/// Binary operators of the expression language.
#[derive(Debug, Clone, Copy, PartialEq, Eq, Structural)]
pub enum BinaryOperator {
    Plus,
    Minus,
    Times,
    Div,
    Pow,
}

/// Unary operators of the expression language.
#[derive(Debug, Clone, Copy, PartialEq, Eq, Structural)]
pub enum UnaryOperator {
    Neg,
}

/// Where a syntax rule applies.
#[derive(Debug, Clone, Copy, PartialEq, Eq, Structural)]
pub enum Scope {
    Global,
    Local,
}

/// A node of the syntax tree. Children are owned by their parent.
///
/// A float literal keeps the text it was written with; turning that text
/// into a number is left to the host of the interpreter.
#[derive(Debug, PartialEq)]
#[allow(inconsistent_fields)]
pub enum Term {
    Identifier(String),
    Integer(i64),
    Float(String),
    Function { name: String, params: Vec<String>, body: Box<Term> },
    FunctionCall { name: String, args: Vec<Term> },
    BinaryOp { op: BinaryOperator, left: Box<Term>, right: Box<Term> },
    UnaryOp { op: UnaryOperator, operand: Box<Term> },
    SyntaxDefinition { name: String, pattern: String, precedence: usize, scope: Scope },
}

/// The mathematical value of a [`Term`]: names are sequences of characters
/// and argument lists are sequences of terms.
#[allow(inconsistent_fields)]
pub enum TermModel {
    Identifier(Seq<char>),
    Integer(i64),
    Float(Seq<char>),
    Function { name: Seq<char>, params: Seq<Seq<char>>, body: Box<TermModel> },
    FunctionCall { name: Seq<char>, args: Seq<TermModel> },
    BinaryOp { op: BinaryOperator, left: Box<TermModel>, right: Box<TermModel> },
    UnaryOp { op: UnaryOperator, operand: Box<TermModel> },
    SyntaxDefinition { name: Seq<char>, pattern: Seq<char>, precedence: usize, scope: Scope },
}

/// The character sequences of a list of strings.
pub open spec fn names_view(names: Seq<String>) -> Seq<Seq<char>> {
    Seq::new(names.len(), |i: int| names[i]@)
}

/// The model of a term, by recursion over the tree.
pub open spec fn term_model(term: Term) -> TermModel
    decreases term,
{
    match term {
        Term::Identifier(name) => TermModel::Identifier(name@),
        Term::Integer(n) => TermModel::Integer(n),
        Term::Float(text) => TermModel::Float(text@),
        Term::Function { name, params, body } => TermModel::Function {
            name: name@,
            params: names_view(params@),
            body: Box::new(term_model(*body)),
        },
        Term::FunctionCall { name, args } => TermModel::FunctionCall {
            name: name@,
            args: Seq::new(
                args.len() as nat,
                |i: int|
                    if 0 <= i < args.len() {
                        term_model(args[i])
                    } else {
                        TermModel::Integer(0)
                    },
            ),
        },
        Term::BinaryOp { op, left, right } => TermModel::BinaryOp {
            op,
            left: Box::new(term_model(*left)),
            right: Box::new(term_model(*right)),
        },
        Term::UnaryOp { op, operand } => TermModel::UnaryOp {
            op,
            operand: Box::new(term_model(*operand)),
        },
        Term::SyntaxDefinition { name, pattern, precedence, scope } => {
            TermModel::SyntaxDefinition { name: name@, pattern: pattern@, precedence, scope }
        },
    }
}

impl View for Term {
    type V = TermModel;

    open spec fn view(&self) -> TermModel {
        term_model(*self)
    }
}

/// The models of a list of terms.
pub open spec fn terms_view(terms: Seq<Term>) -> Seq<TermModel> {
    Seq::new(terms.len(), |i: int| terms[i]@)
}

/// Copies a list of names.
pub fn clone_names(names: &Vec<String>) -> (copy: Vec<String>)
    ensures
        names_view(copy@) == names_view(names@),
{
    let mut copy: Vec<String> = Vec::new();
    let mut i: usize = 0;
    while i < names.len()
        invariant
            i <= names.len(),
            copy.len() == i,
            forall|j: int| 0 <= j < i ==> copy[j]@ == names[j]@,
        decreases names.len() - i,
    {
        copy.push(names[i].clone());
        i += 1;
    }
    assert(names_view(copy@) =~= names_view(names@));
    copy
}

impl Term {
    /// Copies the whole tree.
    pub fn duplicate(&self) -> (copy: Term)
        ensures
            copy@ == self@,
        decreases self,
    {
        match self {
            Term::Identifier(name) => Term::Identifier(name.clone()),
            Term::Integer(n) => Term::Integer(*n),
            Term::Float(text) => Term::Float(text.clone()),
            Term::Function { name, params, body } => Term::Function {
                name: name.clone(),
                params: clone_names(params),
                body: Box::new(body.duplicate()),
            },
            Term::FunctionCall { name, args } => {
                let mut copy: Vec<Term> = Vec::new();
                let mut i: usize = 0;
                while i < args.len()
                    invariant
                        i <= args.len(),
                        copy.len() == i,
                        self is FunctionCall,
                        self->FunctionCall_args == args,
                        forall|j: int| 0 <= j < i ==> copy[j]@ == args[j]@,
                    decreases args.len() - i,
                {
                    copy.push(args[i].duplicate());
                    i += 1;
                }
                let r = Term::FunctionCall { name: name.clone(), args: copy };
                assert(r@->FunctionCall_args =~= self@->FunctionCall_args);
                r
            },
            Term::BinaryOp { op, left, right } => Term::BinaryOp {
                op: *op,
                left: Box::new(left.duplicate()),
                right: Box::new(right.duplicate()),
            },
            Term::UnaryOp { op, operand } => Term::UnaryOp {
                op: *op,
                operand: Box::new(operand.duplicate()),
            },
            Term::SyntaxDefinition { name, pattern, precedence, scope } => Term::SyntaxDefinition {
                name: name.clone(),
                pattern: pattern.clone(),
                precedence: *precedence,
                scope: *scope,
            },
        }
    }
}

impl Clone for Term {
    fn clone(&self) -> (copy: Term)
        ensures
            copy@ == self@,
    {
        self.duplicate()
    }
}

/// A literal of the call language. A float keeps the text it was written
/// with.
#[derive(Debug, PartialEq)]
pub enum Literal {
    String(String),
    Integer(i64),
    Float(String),
    Boolean(bool),
}

/// The mathematical value of a [`Literal`].
pub enum LiteralModel {
    String(Seq<char>),
    Integer(i64),
    Float(Seq<char>),
    Boolean(bool),
}

impl View for Literal {
    type V = LiteralModel;

    open spec fn view(&self) -> LiteralModel {
        match self {
            Literal::String(text) => LiteralModel::String(text@),
            Literal::Integer(n) => LiteralModel::Integer(*n),
            Literal::Float(text) => LiteralModel::Float(text@),
            Literal::Boolean(b) => LiteralModel::Boolean(*b),
        }
    }
}

impl Clone for Literal {
    fn clone(&self) -> (copy: Literal)
        ensures
            copy@ == self@,
    {
        match self {
            Literal::String(text) => Literal::String(text.clone()),
            Literal::Integer(n) => Literal::Integer(*n),
            Literal::Float(text) => Literal::Float(text.clone()),
            Literal::Boolean(b) => Literal::Boolean(*b),
        }
    }
}

impl From<String> for Literal {
    fn from(value: String) -> (literal: Literal) {
        Literal::String(value)
    }
}

impl vstd::std_specs::convert::FromSpecImpl<String> for Literal {
    open spec fn obeys_from_spec() -> bool {
        true
    }

    open spec fn from_spec(value: String) -> Literal {
        Literal::String(value)
    }
}

impl From<bool> for Literal {
    fn from(value: bool) -> (literal: Literal) {
        Literal::Boolean(value)
    }
}

impl vstd::std_specs::convert::FromSpecImpl<bool> for Literal {
    open spec fn obeys_from_spec() -> bool {
        true
    }

    open spec fn from_spec(value: bool) -> Literal {
        Literal::Boolean(value)
    }
}

impl From<i64> for Literal {
    fn from(value: i64) -> (literal: Literal) {
        Literal::Integer(value)
    }
}

impl vstd::std_specs::convert::FromSpecImpl<i64> for Literal {
    open spec fn obeys_from_spec() -> bool {
        true
    }

    open spec fn from_spec(value: i64) -> Literal {
        Literal::Integer(value)
    }
}

/// An expression of the call language.
#[derive(Debug, PartialEq)]
pub enum Expr {
    FunctionCall(FunctionCall),
    Literal(Literal),
}

/// A call: the callee's name and the arguments in order.
#[derive(Debug, PartialEq)]
pub struct FunctionCall {
    pub name: String,
    pub args: Vec<Expr>,
}

/// The mathematical value of an [`Expr`].
pub enum ExprModel {
    FunctionCall(FunctionCallModel),
    Literal(LiteralModel),
}

/// The mathematical value of a [`FunctionCall`].
pub struct FunctionCallModel {
    pub name: Seq<char>,
    pub args: Seq<ExprModel>,
}

/// The model of an expression, by recursion over the tree.
pub open spec fn expr_model(expr: Expr) -> ExprModel
    decreases expr,
{
    match expr {
        Expr::FunctionCall(call) => ExprModel::FunctionCall(
            FunctionCallModel {
                name: call.name@,
                args: Seq::new(
                    call.args.len() as nat,
                    |i: int|
                        if 0 <= i < call.args.len() {
                            expr_model(call.args[i])
                        } else {
                            ExprModel::Literal(LiteralModel::Boolean(false))
                        },
                ),
            },
        ),
        Expr::Literal(literal) => ExprModel::Literal(literal@),
    }
}

impl View for Expr {
    type V = ExprModel;

    open spec fn view(&self) -> ExprModel {
        expr_model(*self)
    }
}

impl View for FunctionCall {
    type V = FunctionCallModel;

    open spec fn view(&self) -> FunctionCallModel {
        FunctionCallModel { name: self.name@, args: exprs_view(self.args@) }
    }
}

/// The models of a list of expressions.
pub open spec fn exprs_view(exprs: Seq<Expr>) -> Seq<ExprModel> {
    Seq::new(exprs.len(), |i: int| exprs[i]@)
}

/// A call as an expression has the call's model.
pub proof fn lemma_call_expr_model(call: FunctionCall)
    ensures
        Expr::FunctionCall(call)@ == ExprModel::FunctionCall(call@),
{
    assert(Expr::FunctionCall(call)@->FunctionCall_0.args =~= call@.args);
}

impl Expr {
    /// Copies the whole tree.
    pub fn duplicate(&self) -> (copy: Expr)
        ensures
            copy@ == self@,
        decreases self,
    {
        match self {
            Expr::FunctionCall(call) => {
                let mut args: Vec<Expr> = Vec::new();
                let mut i: usize = 0;
                while i < call.args.len()
                    invariant
                        i <= call.args.len(),
                        args.len() == i,
                        self is FunctionCall,
                        self->FunctionCall_0 == call,
                        forall|j: int| 0 <= j < i ==> args[j]@ == call.args[j]@,
                    decreases call.args.len() - i,
                {
                    args.push(call.args[i].duplicate());
                    i += 1;
                }
                let copy = Expr::FunctionCall(FunctionCall { name: call.name.clone(), args });
                assert(copy@->FunctionCall_0.args =~= self@->FunctionCall_0.args);
                copy
            },
            Expr::Literal(literal) => Expr::Literal(literal.clone()),
        }
    }
}

impl Clone for Expr {
    fn clone(&self) -> (copy: Expr)
        ensures
            copy@ == self@,
    {
        self.duplicate()
    }
}

impl Clone for FunctionCall {
    fn clone(&self) -> (copy: FunctionCall)
        ensures
            copy@ == self@,
    {
        let mut args: Vec<Expr> = Vec::new();
        let mut i: usize = 0;
        while i < self.args.len()
            invariant
                i <= self.args.len(),
                args.len() == i,
                forall|j: int| 0 <= j < i ==> args[j]@ == self.args[j]@,
            decreases self.args.len() - i,
        {
            args.push(self.args[i].duplicate());
            i += 1;
        }
        let copy = FunctionCall { name: self.name.clone(), args };
        assert(copy@.args =~= self@.args);
        copy
    }
}

} // verus!
