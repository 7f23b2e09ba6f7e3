//! The lexical environment: a chain of scopes that bind names to
//! function values.

use vstd::prelude::*;
use crate::parser::{clone_trees, forest, texts, ParserResult, Sexp};
use crate::text::same_text;

verus! {

/// One name of a scope and the function it stands for.
#[derive(Debug)]
pub struct Binding {
    pub name: String,
    pub function: Function,
}

/// A chain of lexical scopes, the innermost last.
#[derive(Debug)]
pub struct Environment {
    pub scopes: Vec<Vec<Binding>>,
}

/// A function value: its parameter names, its body, and the environment
/// as it stood when the function was defined.
#[derive(Debug)]
pub struct Function {
    pub params: Vec<String>,
    pub body: Vec<ParserResult>,
    pub closure: Environment,
}

/// The mathematical content of a `Function`.
pub struct FunctionModel {
    pub params: Seq<Seq<char>>,
    pub body: Seq<Sexp>,
    pub closure: Seq<Seq<BindingModel>>,
}

/// The mathematical content of a `Binding`.
pub struct BindingModel {
    pub name: Seq<char>,
    pub function: FunctionModel,
}

/// The contents of a function value.
pub open spec fn function_model(f: Function) -> FunctionModel
    decreases f,
{
    FunctionModel {
        params: texts(f.params@),
        body: forest(f.body@),
        closure: environment_model(f.closure),
    }
}

/// The contents of an environment.
pub open spec fn environment_model(e: Environment) -> Seq<Seq<BindingModel>>
    decreases e,
{
    Seq::new(
        e.scopes@.len(),
        |i: int|
            if 0 <= i < e.scopes@.len() {
                scope_model(e.scopes@[i])
            } else {
                Seq::empty()
            },
    )
}

/// The contents of a scope.
pub open spec fn scope_model(s: Vec<Binding>) -> Seq<BindingModel>
    decreases s,
{
    Seq::new(
        s@.len(),
        |i: int|
            if 0 <= i < s@.len() {
                binding_model(s@[i])
            } else {
                arbitrary()
            },
    )
}

/// The contents of a binding.
pub open spec fn binding_model(b: Binding) -> BindingModel
    decreases b,
{
    BindingModel { name: b.name@, function: function_model(b.function) }
}

impl View for Function {
    type V = FunctionModel;

    open spec fn view(&self) -> FunctionModel {
        function_model(*self)
    }
}

impl View for Environment {
    type V = Seq<Seq<BindingModel>>;

    open spec fn view(&self) -> Seq<Seq<BindingModel>> {
        environment_model(*self)
    }
}

/// The function that the latest binding of `name` in a scope gives.
pub open spec fn scope_lookup(scope: Seq<BindingModel>, name: Seq<char>) -> Option<FunctionModel>
    decreases scope.len(),
{
    if scope.len() == 0 {
        None
    } else if scope.last().name == name {
        Some(scope.last().function)
    } else {
        scope_lookup(scope.drop_last(), name)
    }
}

/// The function that `name` stands for: the binding of the innermost
/// scope that has one; none where no scope has.
pub open spec fn lookup_function(env: Seq<Seq<BindingModel>>, name: Seq<char>) -> Option<
    FunctionModel,
>
    decreases env.len(),
{
    if env.len() == 0 {
        None
    } else {
        match scope_lookup(env.last(), name) {
            Some(f) => Some(f),
            None => lookup_function(env.drop_last(), name),
        }
    }
}

/// The environment after `name` is bound in its innermost scope, a first
/// scope being made where there is none.
pub open spec fn define_in(env: Seq<Seq<BindingModel>>, name: Seq<char>, f: FunctionModel) -> Seq<
    Seq<BindingModel>,
> {
    let b = BindingModel { name, function: f };
    if env.len() == 0 {
        seq![seq![b]]
    } else {
        env.drop_last().push(env.last().push(b))
    }
}

/// The environment without its innermost scope.
pub open spec fn without_innermost(env: Seq<Seq<BindingModel>>) -> Seq<Seq<BindingModel>> {
    if env.len() == 0 {
        env
    } else {
        env.drop_last()
    }
}

impl Function {
    /// A function value of the given parts.
    pub fn new(params: Vec<String>, body: Vec<ParserResult>, closure: Environment) -> (r: Self)
        ensures
            r@ == (FunctionModel {
                params: texts(params@),
                body: forest(body@),
                closure: closure@,
            }),
    {
        Function { params, body, closure }
    }
}

impl Environment {
    /// An environment of one empty scope.
    pub fn new() -> (r: Self)
        ensures
            r@ == seq![Seq::<BindingModel>::empty()],
    {
        let mut scopes: Vec<Vec<Binding>> = Vec::new();
        let first: Vec<Binding> = Vec::new();
        assert(scope_model(first) =~= Seq::<BindingModel>::empty());
        scopes.push(first);
        let r = Environment { scopes };
        assert(r@ =~= seq![Seq::<BindingModel>::empty()]);
        r
    }

    /// An environment of no scope at all.
    pub fn empty() -> (r: Self)
        ensures
            r@ == Seq::<Seq<BindingModel>>::empty(),
    {
        let r = Environment { scopes: Vec::new() };
        assert(r@ =~= Seq::<Seq<BindingModel>>::empty());
        r
    }

    /// Binds `name` to `function` in the innermost scope.
    pub fn define(&mut self, name: String, function: Function)
        ensures
            final(self)@ == define_in(old(self)@, name@, function@),
    {
        let ghost before = self@;
        let ghost b = BindingModel { name: name@, function: function@ };
        if self.scopes.len() == 0 {
            let mut first: Vec<Binding> = Vec::new();
            first.push(Binding { name, function });
            assert(scope_model(first) =~= seq![b]);
            self.scopes.push(first);
            assert(self@ =~= seq![seq![b]]);
        } else {
            let mut top: Vec<Binding> = self.scopes.pop().unwrap();
            let ghost top_before = scope_model(top);
            assert(top_before == before.last());
            top.push(Binding { name, function });
            assert(scope_model(top) =~= top_before.push(b));
            self.scopes.push(top);
            assert(self@ =~= before.drop_last().push(before.last().push(b)));
        }
    }

    /// Opens a new innermost scope.
    pub fn push_scope(&mut self)
        ensures
            final(self)@ == old(self)@.push(Seq::empty()),
    {
        let fresh: Vec<Binding> = Vec::new();
        assert(scope_model(fresh) =~= Seq::<BindingModel>::empty());
        self.scopes.push(fresh);
        assert(self@ =~= old(self)@.push(Seq::empty()));
    }

    /// Closes the innermost scope, if there is one.
    pub fn pop_scope(&mut self)
        ensures
            final(self)@ == without_innermost(old(self)@),
    {
        if self.scopes.len() > 0 {
            self.scopes.pop();
            assert(self@ =~= old(self)@.drop_last());
        }
    }

    /// The function that `name` stands for, looked for from the innermost
    /// scope outward.
    pub fn lookup(&self, name: &str) -> (r: Option<&Function>)
        ensures
            match r {
                Some(f) => lookup_function(self@, name@) == Some(f@),
                None => lookup_function(self@, name@) is None,
            },
    {
        let ghost env = self@;
        let mut i: usize = self.scopes.len();
        assert(env.take(i as int) =~= env);
        while i > 0
            invariant
                i <= self.scopes@.len(),
                env == self@,
                lookup_function(env, name@) == lookup_function(env.take(i as int), name@),
            decreases i,
        {
            i -= 1;
            let scope: &Vec<Binding> = &self.scopes[i];
            let ghost sm = scope_model(*scope);
            assert(env.take(i + 1).last() == sm);
            assert(env.take(i + 1).drop_last() =~= env.take(i as int));
            let mut j: usize = scope.len();
            assert(sm.take(j as int) =~= sm);
            while j > 0
                invariant
                    j <= scope@.len(),
                    i < self.scopes@.len(),
                    env == self@,
                    sm == scope_model(*scope),
                    env.take(i + 1).len() == i + 1,
                    env.take(i + 1).last() == sm,
                    lookup_function(env, name@) == lookup_function(env.take(i + 1), name@),
                    scope_lookup(sm, name@) == scope_lookup(sm.take(j as int), name@),
                decreases j,
            {
                j -= 1;
                assert(sm.take(j + 1).last() == binding_model(scope@[j as int]));
                assert(sm.take(j + 1).drop_last() =~= sm.take(j as int));
                if same_text(scope[j].name.as_str(), name) {
                    proof {
                        let found = binding_model(scope@[j as int]);
                        assert(scope_lookup(sm.take(j + 1), name@) == Some(found.function));
                        assert(lookup_function(env.take(i + 1), name@) == Some(found.function));
                    }
                    return Some(&scope[j].function);
                }
            }
        }
        None
    }
}

/// Copies a run of strings.
pub fn clone_strings(v: &Vec<String>) -> (r: Vec<String>)
    ensures
        texts(r@) == texts(v@),
{
    let mut out: Vec<String> = Vec::new();
    let mut i: usize = 0;
    while i < v.len()
        invariant
            i <= v.len(),
            out@.len() == i,
            forall|j: int| 0 <= j < i ==> out@[j]@ == v@[j]@,
        decreases v.len() - i,
    {
        out.push(v[i].clone());
        i += 1;
    }
    assert(texts(out@) =~= texts(v@));
    out
}

/// Copies a function value, its captured environment included.
pub fn clone_function(f: &Function) -> (r: Function)
    ensures
        r@ == f@,
    decreases *f,
{
    Function {
        params: clone_strings(&f.params),
        body: clone_trees(&f.body),
        closure: clone_environment(&f.closure),
    }
}

/// Copies a scope.
fn clone_scope(s: &Vec<Binding>) -> (r: Vec<Binding>)
    ensures
        scope_model(r) == scope_model(*s),
    decreases *s,
{
    let mut out: Vec<Binding> = Vec::new();
    let mut j: usize = 0;
    while j < s.len()
        invariant
            j <= s.len(),
            out@.len() == j,
            forall|k: int| 0 <= k < j ==> binding_model(out@[k]) == binding_model(s@[k]),
        decreases s.len() - j,
    {
        proof {
            vstd::std_specs::vec::axiom_vec_index_decreases(*s, j as int);
            assert(decreases_to!(s[j as int] => s[j as int].function));
        }
        let b: &Binding = &s[j];
        out.push(Binding { name: b.name.clone(), function: clone_function(&b.function) });
        j += 1;
    }
    assert(scope_model(out) =~= scope_model(*s));
    out
}

/// Copies an environment: a snapshot that later changes do not reach.
pub fn clone_environment(e: &Environment) -> (r: Environment)
    ensures
        r@ == e@,
    decreases *e,
{
    let mut out: Vec<Vec<Binding>> = Vec::new();
    let mut i: usize = 0;
    while i < e.scopes.len()
        invariant
            i <= e.scopes.len(),
            out@.len() == i,
            forall|k: int| 0 <= k < i ==> scope_model(out@[k]) == scope_model(e.scopes@[k]),
        decreases e.scopes.len() - i,
    {
        proof {
            vstd::std_specs::vec::axiom_vec_index_decreases(e.scopes, i as int);
            assert(decreases_to!(*e => e.scopes));
        }
        out.push(clone_scope(&e.scopes[i]));
        i += 1;
    }
    let r = Environment { scopes: out };
    assert(r@ =~= e@);
    r
}

impl Clone for Function {
    fn clone(&self) -> (r: Self)
        ensures
            r@ == self@,
    {
        clone_function(self)
    }
}

impl Clone for Environment {
    fn clone(&self) -> (r: Self)
        ensures
            r@ == self@,
    {
        clone_environment(self)
    }
}

} // verus!
