use vstd::prelude::*;
use crate::assoc::{
    assoc_map, lemma_assoc_absent, lemma_assoc_last_match, lemma_assoc_push, lemma_assoc_update,
};
use crate::ast::Scope;
use crate::value::{Value, ValueModel};

verus! {

/// A named syntax rule. The rules are kept and handed on to child scopes;
/// nothing consults them.
#[derive(Debug)]
pub struct SyntaxRule {
    pub name: String,
    pub pattern: String,
    pub precedence: usize,
    pub scope: Scope,
}

/// The mathematical value of a [`SyntaxRule`].
pub struct SyntaxRuleModel {
    pub name: Seq<char>,
    pub pattern: Seq<char>,
    pub precedence: usize,
    pub scope: Scope,
}

impl View for SyntaxRule {
    type V = SyntaxRuleModel;

    open spec fn view(&self) -> SyntaxRuleModel {
        SyntaxRuleModel {
            name: self.name@,
            pattern: self.pattern@,
            precedence: self.precedence,
            scope: self.scope,
        }
    }
}

impl Clone for SyntaxRule {
    fn clone(&self) -> (copy: SyntaxRule)
        ensures
            copy@ == self@,
    {
        SyntaxRule {
            name: self.name.clone(),
            pattern: self.pattern.clone(),
            precedence: self.precedence,
            scope: self.scope,
        }
    }
}

/// The models of a list of rules.
pub open spec fn rules_view(rules: Seq<SyntaxRule>) -> Seq<SyntaxRuleModel> {
    Seq::new(rules.len(), |i: int| rules[i]@)
}

/// One name with its value.
#[derive(Debug)]
pub struct Binding {
    pub name: String,
    pub value: Value,
}

/// The pairs that a list of bindings stands for.
pub open spec fn bindings_pairs(bindings: Seq<Binding>) -> Seq<(Seq<char>, ValueModel)> {
    Seq::new(bindings.len(), |i: int| (bindings[i].name@, bindings[i].value@))
}

/// A chain of scopes: the bindings of the current scope, the enclosing
/// environment, and the syntax rules known here.
#[derive(Debug)]
pub struct Environment {
    current: Vec<Binding>,
    parent: Option<Box<Environment>>,
    syntax_rules: Vec<SyntaxRule>,
}

/// Whether no two bindings carry the same name.
pub open spec fn names_distinct(bindings: Seq<Binding>) -> bool {
    forall|i: int, j: int|
        0 <= i < j < bindings.len() ==> (#[trigger] bindings[i]).name@ != (
        #[trigger] bindings[j]).name@
}

impl Environment {
    /// A scope binds a name at most once.
    #[verifier::type_invariant]
    closed spec fn well_formed(&self) -> bool {
        names_distinct(self.current@)
    }
}

/// The mathematical value of an [`Environment`].
pub struct EnvironmentModel {
    pub current: Map<Seq<char>, ValueModel>,
    pub parent: Option<Box<EnvironmentModel>>,
    pub syntax_rules: Seq<SyntaxRuleModel>,
}

/// The model of an environment, by recursion over the chain.
pub closed spec fn environment_model(env: Environment) -> EnvironmentModel
    decreases env,
{
    EnvironmentModel {
        current: assoc_map(bindings_pairs(env.current@)),
        parent: match env.parent {
            Some(parent) => Some(Box::new(environment_model(*parent))),
            None => None,
        },
        syntax_rules: rules_view(env.syntax_rules@),
    }
}

impl View for Environment {
    type V = EnvironmentModel;

    closed spec fn view(&self) -> EnvironmentModel {
        environment_model(*self)
    }
}

/// The value that a name has in an environment: that of the innermost
/// scope that binds it.
pub open spec fn env_lookup(env: EnvironmentModel, name: Seq<char>) -> Option<ValueModel>
    decreases env,
{
    if env.current.contains_key(name) {
        Some(env.current[name])
    } else {
        match env.parent {
            Some(parent) => env_lookup(*parent, name),
            None => None,
        }
    }
}

/// The environment with a name bound in its current scope.
pub open spec fn env_bind(
    env: EnvironmentModel,
    name: Seq<char>,
    value: ValueModel,
) -> EnvironmentModel {
    EnvironmentModel { current: env.current.insert(name, value), ..env }
}

/// The environment with one more syntax rule.
pub open spec fn env_add_rule(env: EnvironmentModel, rule: SyntaxRuleModel) -> EnvironmentModel {
    EnvironmentModel { syntax_rules: env.syntax_rules.push(rule), ..env }
}

/// A fresh scope inside an environment: no bindings of its own, and a copy
/// of the rules known outside.
pub open spec fn child_env(parent: EnvironmentModel) -> EnvironmentModel {
    EnvironmentModel {
        current: Map::empty(),
        parent: Some(Box::new(parent)),
        syntax_rules: parent.syntax_rules,
    }
}

/// The rule that every root environment starts with.
pub open spec fn default_rule() -> SyntaxRuleModel {
    SyntaxRuleModel {
        name: "FUNCTION"@,
        pattern: "{name}({args})"@,
        precedence: 1,
        scope: Scope::Global,
    }
}

/// The environment that an interpreter starts with: the builtin `ID` and
/// the default rule.
pub open spec fn root_env() -> EnvironmentModel {
    EnvironmentModel {
        current: Map::<Seq<char>, ValueModel>::empty().insert("ID"@, ValueModel::Builtin("ID"@)),
        parent: None,
        syntax_rules: seq![default_rule()],
    }
}

impl Environment {
    /// An environment without bindings, parent or rules.
    pub fn empty() -> (env: Environment)
        ensures
            env@ == (EnvironmentModel {
                current: Map::empty(),
                parent: None,
                syntax_rules: Seq::empty(),
            }),
    {
        let env = Environment { current: Vec::new(), parent: None, syntax_rules: Vec::new() };
        assert(bindings_pairs(env.current@) =~= Seq::empty());
        assert(rules_view(env.syntax_rules@) =~= Seq::empty());
        env
    }

    /// The root environment.
    pub fn new() -> (env: Environment)
        ensures
            env@ == root_env(),
    {
        let mut env = Environment::empty();
        env.add_builtin("ID");
        env.add_syntax_rule(
            SyntaxRule {
                name: "FUNCTION".to_owned(),
                pattern: "{name}({args})".to_owned(),
                precedence: 1,
                scope: Scope::Global,
            },
        );
        assert(env@.syntax_rules =~= seq![default_rule()]);
        env
    }

    /// A fresh scope whose parent is a copy of `parent`.
    pub fn child_of(parent: &Environment) -> (env: Environment)
        ensures
            env@ == child_env(parent@),
    {
        let copy = parent.duplicate();
        let mut rules: Vec<SyntaxRule> = Vec::new();
        let mut i: usize = 0;
        while i < parent.syntax_rules.len()
            invariant
                i <= parent.syntax_rules.len(),
                rules.len() == i,
                forall|j: int| 0 <= j < i ==> rules[j]@ == parent.syntax_rules[j]@,
            decreases parent.syntax_rules.len() - i,
        {
            rules.push(parent.syntax_rules[i].clone());
            i += 1;
        }
        let env = Environment {
            current: Vec::new(),
            parent: Some(Box::new(copy)),
            syntax_rules: rules,
        };
        assert(bindings_pairs(env.current@) =~= Seq::empty());
        assert(rules_view(env.syntax_rules@) =~= rules_view(parent.syntax_rules@));
        env
    }

    /// Copies the whole chain.
    pub fn duplicate(&self) -> (copy: Environment)
        ensures
            copy@ == self@,
        decreases self,
    {
        let mut current: Vec<Binding> = Vec::new();
        let mut i: usize = 0;
        while i < self.current.len()
            invariant
                i <= self.current.len(),
                current.len() == i,
                forall|j: int|
                    0 <= j < i ==> current[j].name@ == self.current[j].name@ && current[j].value@
                        == self.current[j].value@,
            decreases self.current.len() - i,
        {
            current.push(
                Binding {
                    name: self.current[i].name.clone(),
                    value: self.current[i].value.clone(),
                },
            );
            i += 1;
        }
        let mut rules: Vec<SyntaxRule> = Vec::new();
        let mut k: usize = 0;
        while k < self.syntax_rules.len()
            invariant
                k <= self.syntax_rules.len(),
                rules.len() == k,
                forall|j: int| 0 <= j < k ==> rules[j]@ == self.syntax_rules[j]@,
            decreases self.syntax_rules.len() - k,
        {
            rules.push(self.syntax_rules[k].clone());
            k += 1;
        }
        let parent = match &self.parent {
            Some(parent) => Some(Box::new(parent.duplicate())),
            None => None,
        };
        proof {
            use_type_invariant(self);
            assert forall|a: int, b: int| 0 <= a < b < current.len() implies (
            #[trigger] current@[a]).name@ != (#[trigger] current@[b]).name@ by {
                assert(self.current@[a].name@ != self.current@[b].name@);
            }
        }
        let copy = Environment { current, parent, syntax_rules: rules };
        assert(bindings_pairs(copy.current@) =~= bindings_pairs(self.current@));
        assert(rules_view(copy.syntax_rules@) =~= rules_view(self.syntax_rules@));
        copy
    }

    /// Binds a builtin's name to the builtin in the current scope.
    pub fn add_builtin(&mut self, name: &str)
        ensures
            final(self)@ == env_bind(old(self)@, name@, ValueModel::Builtin(name@)),
    {
        self.bind(name.to_owned(), Value::Builtin(name.to_owned()));
    }

    /// Appends a syntax rule.
    pub fn add_syntax_rule(&mut self, rule: SyntaxRule)
        ensures
            final(self)@ == env_add_rule(old(self)@, rule@),
    {
        proof {
            use_type_invariant(&*self);
        }
        let mut rules: Vec<SyntaxRule> = Vec::new();
        std::mem::swap(&mut self.syntax_rules, &mut rules);
        proof {
            assert(rules_view(rules@.push(rule)) =~= rules_view(rules@).push(rule@));
        }
        rules.push(rule);
        self.syntax_rules = rules;
    }

    /// The value of a name: the current scope first, then the parents
    /// outward, stopping at the first scope that binds it.
    pub fn lookup(&self, name: &String) -> (value: Option<Value>)
        ensures
            match value {
                Some(v) => env_lookup(self@, name@) == Some(v@),
                None => env_lookup(self@, name@) is None,
            },
        decreases self,
    {
        let mut i: usize = self.current.len();
        while i > 0
            invariant
                i <= self.current.len(),
                forall|j: int| i <= j < self.current.len() ==> self.current[j].name@ != name@,
            decreases i,
        {
            i -= 1;
            if self.current[i].name == *name {
                proof {
                    lemma_assoc_last_match(bindings_pairs(self.current@), name@, i as int);
                }
                return Some(self.current[i].value.clone());
            }
        }
        proof {
            lemma_assoc_absent(bindings_pairs(self.current@), name@);
        }
        match &self.parent {
            Some(parent) => parent.lookup(name),
            None => None,
        }
    }

    /// Binds a name in the current scope, replacing what it was bound to
    /// there. Parent scopes are left alone.
    #[verifier::loop_isolation(false)]
    pub fn bind(&mut self, name: String, value: Value)
        ensures
            final(self)@ == env_bind(old(self)@, name@, value@),
    {
        proof {
            use_type_invariant(&*self);
        }
        let mut current: Vec<Binding> = Vec::new();
        std::mem::swap(&mut self.current, &mut current);
        let ghost before = current@;
        let mut i: usize = current.len();
        while i > 0
            invariant
                i <= current.len(),
                current@ == before,
                self.parent == old(self).parent,
                self.syntax_rules == old(self).syntax_rules,
                forall|j: int| i <= j < current.len() ==> current[j].name@ != name@,
            decreases i,
        {
            i -= 1;
            if current[i].name == name {
                proof {
                    lemma_assoc_update(bindings_pairs(before), name@, value@, i as int);
                    assert(bindings_pairs(before.update(i as int, Binding { name, value }))
                        =~= bindings_pairs(before).update(i as int, (name@, value@)));
                }
                current.set(i, Binding { name, value });
                assert(names_distinct(current@)) by {
                    assert forall|a: int, b: int| 0 <= a < b < current.len() implies (
                    #[trigger] current@[a]).name@ != (#[trigger] current@[b]).name@ by {
                        assert(before[a].name@ != before[b].name@);
                    }
                }
                self.current = current;
                return ;
            }
        }
        proof {
            lemma_assoc_push(bindings_pairs(before), name@, value@);
            assert(bindings_pairs(before.push(Binding { name, value })) =~= bindings_pairs(
                before,
            ).push((name@, value@)));
        }
        current.push(Binding { name, value });
        assert(names_distinct(current@)) by {
            assert forall|a: int, b: int| 0 <= a < b < current.len() implies (
            #[trigger] current@[a]).name@ != (#[trigger] current@[b]).name@ by {
                if b < before.len() {
                    assert(before[a].name@ != before[b].name@);
                }
            }
        }
        self.current = current;
    }
}

/// A binding is found again under its name, and hides nothing but what
/// that name was bound to before.
pub proof fn bind_then_lookup(
    env: EnvironmentModel,
    name: Seq<char>,
    value: ValueModel,
    other: Seq<char>,
)
    ensures
        env_lookup(env_bind(env, name, value), name) == Some(value),
        other != name ==> env_lookup(env_bind(env, name, value), other) == env_lookup(env, other),
        env_bind(env, name, value).parent == env.parent,
        env_bind(env, name, value).syntax_rules == env.syntax_rules,
{
}

/// A fresh scope sees every name of its parent; a binding in the scope
/// hides the parent's binding of that name and leaves the parent as it
/// was.
pub proof fn child_scope_shadows(
    parent: EnvironmentModel,
    name: Seq<char>,
    value: ValueModel,
    other: Seq<char>,
)
    ensures
        env_lookup(child_env(parent), other) == env_lookup(parent, other),
        env_lookup(env_bind(child_env(parent), name, value), name) == Some(value),
        env_bind(child_env(parent), name, value).parent == Some(Box::new(parent)),
{
}

/// A scope gets a copy of its parent's rules: a rule added inside is
/// unknown outside.
pub proof fn child_rules_are_a_copy(parent: EnvironmentModel, rule: SyntaxRuleModel)
    ensures
        child_env(parent).syntax_rules == parent.syntax_rules,
        env_add_rule(child_env(parent), rule).parent == Some(Box::new(parent)),
        env_add_rule(child_env(parent), rule).syntax_rules == parent.syntax_rules.push(rule),
{
}

impl Clone for Environment {
    fn clone(&self) -> (copy: Environment)
        ensures
            copy@ == self@,
    {
        self.duplicate()
    }
}

} // verus!
