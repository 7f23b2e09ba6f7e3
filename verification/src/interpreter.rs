//! The evaluator: walks the expressions of a program and produces their
//! textual results, as the semantics define them.

use vstd::prelude::*;
use vstd::string::*;
pub use crate::environment::{Binding, Environment, Function};
pub use crate::error::{DelimiterFault, InterpretError};
pub use crate::operations::{
    binary, create_binary_map, create_logic_map, create_unary_map, find_operation, logical_bool,
    logical_int, operation_symbol, parse_bool, unary, Operation,
};
use crate::environment::{clone_environment, clone_strings, BindingModel};
use crate::error::Fault;
use crate::operations::{
    binary_entries, logic_entries, same_number, same_truth, table_view, unary_entries,
};
use crate::parser::{
    clone_trees, digits_only, forest, lemma_parse_unique, my_parser, quoted, source_tokens,
    texts, tree_text, Element, Kind, ParserResult, Sexp,
};
use crate::semantics::{
    apply_binary, apply_logical_bool, apply_logical_int, apply_unary, bind_all, body_of, eval,
    eval_arguments, eval_binary, eval_body, eval_call, eval_condition, eval_define,
    eval_logical, eval_unary, evaluation, join_results, literal_value, number_text,
    parameter_names, parsed, run, truth_text, value_function, ArgumentsOutcome, Outcome,
};
use crate::text::{bool_to_string, i32_to_string, parse_i32};

verus! {

/// Whether an executable result holds what its model says.
pub open spec fn same_result(
    r: Result<String, InterpretError>,
    m: Result<Seq<char>, Fault>,
) -> bool {
    match r {
        Ok(s) => m == Ok::<Seq<char>, Fault>(s@),
        Err(e) => m == Err::<Seq<char>, Fault>(e@),
    }
}

/// The value of a literal atom.
pub fn literal_text(value: &str) -> (r: Result<String, InterpretError>)
    ensures
        same_result(r, literal_value(value@)),
{
    let n: usize = value.unicode_len();
    if n > 0 && digits_only(value) {
        match parse_i32(value) {
            Some(v) => Ok(i32_to_string(v)),
            None => Err(InterpretError::ParseFailure),
        }
    } else if n >= 2 && quoted(value) {
        Ok(value.substring_char(1, n - 1).to_owned())
    } else {
        Ok(value.to_owned())
    }
}

fn number_result(r: Result<i32, InterpretError>) -> (out: Result<String, InterpretError>)
    ensures
        forall|m: Result<int, Fault>| same_number(r, m) ==> same_result(out, number_text(m)),
{
    match r {
        Ok(v) => Ok(i32_to_string(v)),
        Err(e) => Err(e),
    }
}

fn truth_result(r: Result<bool, InterpretError>) -> (out: Result<String, InterpretError>)
    ensures
        forall|m: Result<bool, Fault>| same_truth(r, m) ==> same_result(out, truth_text(m)),
{
    match r {
        Ok(v) => Ok(bool_to_string(v)),
        Err(e) => Err(e),
    }
}

/// Applies a binary arithmetic operation to two texts.
pub fn binary_on_texts(op: Operation, left: &str, right: &str) -> (r: Result<
    String,
    InterpretError,
>)
    ensures
        same_result(r, apply_binary(op, left@, right@)),
{
    match (parse_i32(left), parse_i32(right)) {
        (Some(a), Some(b)) => number_result(binary(op, a, b)),
        _ => Err(InterpretError::ParseFailure),
    }
}

/// Applies a unary operation to a text.
pub fn unary_on_text(op: Operation, operand: &str) -> (r: Result<String, InterpretError>)
    ensures
        same_result(r, apply_unary(op, operand@)),
{
    if op == Operation::Not {
        match parse_bool(operand) {
            Ok(b) => Ok(bool_to_string(!b)),
            Err(_) => Err(InterpretError::ParseFailure),
        }
    } else {
        match parse_i32(operand) {
            Some(a) => number_result(unary(op, a)),
            None => Err(InterpretError::ParseFailure),
        }
    }
}

/// Applies a comparison to two texts.
pub fn logical_int_on_texts(op: Operation, left: &str, right: &str) -> (r: Result<
    String,
    InterpretError,
>)
    ensures
        same_result(r, apply_logical_int(op, left@, right@)),
{
    match (parse_i32(left), parse_i32(right)) {
        (Some(a), Some(b)) => truth_result(logical_int(op, a, b)),
        _ => Err(InterpretError::ParseFailure),
    }
}

/// Applies a boolean connective to two texts.
pub fn logical_bool_on_texts(op: Operation, left: &str, right: &str) -> (r: Result<
    String,
    InterpretError,
>)
    ensures
        same_result(r, apply_logical_bool(op, left@, right@)),
{
    match (parse_bool(left), parse_bool(right)) {
        (Ok(a), Ok(b)) => truth_result(logical_bool(op, a, b)),
        _ => Err(InterpretError::ParseFailure),
    }
}

/// The three operator tables, built once.
pub struct Operators {
    pub binary: Vec<(&'static str, Operation)>,
    pub logic: Vec<(&'static str, Operation)>,
    pub unary: Vec<(&'static str, Operation)>,
}

impl Operators {
    /// The tables hold the entries the language defines.
    pub open spec fn wf(&self) -> bool {
        &&& table_view(self.binary@) == binary_entries()
        &&& table_view(self.logic@) == logic_entries()
        &&& table_view(self.unary@) == unary_entries()
    }

    /// The operator tables of the language.
    pub fn new() -> (r: Self)
        ensures
            r.wf(),
    {
        Operators {
            binary: create_binary_map(),
            logic: create_logic_map(),
            unary: create_unary_map(),
        }
    }
}

/// An executable result, cursor and environment hold what the model of an
/// evaluation says.
pub open spec fn agrees(
    r: (Result<String, InterpretError>, usize),
    env: Seq<Seq<BindingModel>>,
    o: Outcome,
) -> bool {
    same_result(r.0, o.result) && r.1 as int == o.position && env == o.env
}

/// Evaluates the expression at `pos`.
fn step(
    tokens: &Vec<ParserResult>,
    pos: usize,
    env: &mut Environment,
    ops: &Operators,
    fuel: usize,
) -> (r: (Result<String, InterpretError>, usize))
    requires
        ops.wf(),
        pos <= tokens.len(),
    ensures
        agrees(r, final(env)@, eval(forest(tokens@), pos as int, old(env)@, fuel as nat)),
        pos <= r.1 <= tokens.len(),
        r.0 is Ok ==> pos < r.1,
    decreases fuel, 0nat, 0nat,
{
    if fuel == 0 {
        return (Err(InterpretError::RecursionLimit), pos);
    }
    if pos >= tokens.len() {
        return (Err(InterpretError::UnexpectedEnd), pos);
    }
    let f: usize = fuel - 1;
    let p: usize = pos + 1;
    match &tokens[pos] {
        ParserResult::Expression(items) => {
            assert(tokens@[pos as int]@->List_0 =~= forest(items@));
            let inner = step(items, 0, env, ops, f);
            (inner.0, p)
        },
        ParserResult::Atom(e) => {
            let value: &str = e.value.as_str();
            match e.kind {
                Kind::Literal => (literal_text(value), p),
                Kind::Binary => step_binary(tokens, p, env, ops, f, value),
                Kind::Unary => step_unary(tokens, p, env, ops, f, value),
                Kind::LogicalInt => step_logical(tokens, p, env, ops, f, value, true),
                Kind::LogicalBool => step_logical(tokens, p, env, ops, f, value, false),
                Kind::Condition => step_condition(tokens, p, env, ops, f),
                Kind::Function => step_define(tokens, p, env),
                Kind::Identifier => {
                    let found: Option<(Vec<String>, Vec<ParserResult>)> = match env.lookup(value) {
                        Some(fun) => Some((clone_strings(&fun.params), clone_trees(&fun.body))),
                        None => None,
                    };
                    match found {
                        Some((params, body)) => step_call(tokens, p, env, ops, f, &params, &body),
                        None => (Ok(value.to_owned()), p),
                    }
                },
                Kind::Format => (Err(InterpretError::UnknownOperator(value.to_owned())), p),
                Kind::Separator => (Err(InterpretError::UnknownOperator(value.to_owned())), p),
            }
        },
    }
}

/// Evaluates a binary operator whose operands start at `p`.
fn step_binary(
    tokens: &Vec<ParserResult>,
    p: usize,
    env: &mut Environment,
    ops: &Operators,
    f: usize,
    value: &str,
) -> (r: (Result<String, InterpretError>, usize))
    requires
        ops.wf(),
        p <= tokens.len(),
    ensures
        agrees(r, final(env)@, eval_binary(forest(tokens@), p as int, old(env)@, f as nat, value@)),
        p <= r.1 <= tokens.len(),
    decreases f, 2nat, 0nat,
{
    let op: Operation = match find_operation(&ops.binary, value) {
        None => {
            return (Err(InterpretError::UnknownOperator(value.to_owned())), p);
        },
        Some(op) => op,
    };
    let (left_result, after_left) = step(tokens, p, env, ops, f);
    let left: String = match left_result {
        Err(e) => {
            return (Err(e), after_left);
        },
        Ok(left) => left,
    };
    if after_left >= tokens.len() {
        return match find_operation(&ops.unary, value) {
            None => (Err(InterpretError::UnknownOperator(value.to_owned())), after_left),
            Some(u) => (unary_on_text(u, left.as_str()), after_left),
        };
    }
    let (right_result, after_right) = step(tokens, after_left, env, ops, f);
    match right_result {
        Err(e) => (Err(e), after_right),
        Ok(right) => (binary_on_texts(op, left.as_str(), right.as_str()), after_right),
    }
}

/// Evaluates a unary operator whose operand starts at `p`.
fn step_unary(
    tokens: &Vec<ParserResult>,
    p: usize,
    env: &mut Environment,
    ops: &Operators,
    f: usize,
    value: &str,
) -> (r: (Result<String, InterpretError>, usize))
    requires
        ops.wf(),
        p <= tokens.len(),
    ensures
        agrees(r, final(env)@, eval_unary(forest(tokens@), p as int, old(env)@, f as nat, value@)),
        p <= r.1 <= tokens.len(),
    decreases f, 2nat, 0nat,
{
    let (result, after) = step(tokens, p, env, ops, f);
    match result {
        Err(e) => (Err(e), after),
        Ok(operand) => match find_operation(&ops.unary, value) {
            None => (Err(InterpretError::UnknownOperator(value.to_owned())), after),
            Some(u) => (unary_on_text(u, operand.as_str()), after),
        },
    }
}

/// Evaluates a comparison or a connective whose operands start at `p`.
fn step_logical(
    tokens: &Vec<ParserResult>,
    p: usize,
    env: &mut Environment,
    ops: &Operators,
    f: usize,
    value: &str,
    on_integers: bool,
) -> (r: (Result<String, InterpretError>, usize))
    requires
        ops.wf(),
        p <= tokens.len(),
    ensures
        agrees(
            r,
            final(env)@,
            eval_logical(forest(tokens@), p as int, old(env)@, f as nat, value@, on_integers),
        ),
        p <= r.1 <= tokens.len(),
    decreases f, 2nat, 0nat,
{
    let op: Operation = match find_operation(&ops.logic, value) {
        None => {
            return (Err(InterpretError::UnknownOperator(value.to_owned())), p);
        },
        Some(op) => op,
    };
    let (left_result, after_left) = step(tokens, p, env, ops, f);
    let left: String = match left_result {
        Err(e) => {
            return (Err(e), after_left);
        },
        Ok(left) => left,
    };
    let (right_result, after_right) = step(tokens, after_left, env, ops, f);
    match right_result {
        Err(e) => (Err(e), after_right),
        Ok(right) => if on_integers {
            (logical_int_on_texts(op, left.as_str(), right.as_str()), after_right)
        } else {
            (logical_bool_on_texts(op, left.as_str(), right.as_str()), after_right)
        },
    }
}

/// Evaluates a conditional whose condition starts at `p`.
fn step_condition(
    tokens: &Vec<ParserResult>,
    p: usize,
    env: &mut Environment,
    ops: &Operators,
    f: usize,
) -> (r: (Result<String, InterpretError>, usize))
    requires
        ops.wf(),
        p <= tokens.len(),
    ensures
        agrees(r, final(env)@, eval_condition(forest(tokens@), p as int, old(env)@, f as nat)),
        p <= r.1 <= tokens.len(),
    decreases f, 2nat, 0nat,
{
    let (condition_result, after_condition) = step(tokens, p, env, ops, f);
    let condition: String = match condition_result {
        Err(e) => {
            return (Err(e), after_condition);
        },
        Ok(condition) => condition,
    };
    match parse_bool(condition.as_str()) {
        Err(_) => (Err(InterpretError::ParseFailure), after_condition),
        Ok(true) => {
            let (result, after_then) = step(tokens, after_condition, env, ops, f);
            match result {
                Err(e) => (Err(e), after_then),
                Ok(v) => if after_then >= tokens.len() {
                    (Err(InterpretError::UnexpectedEnd), after_then)
                } else {
                    (Ok(v), after_then + 1)
                },
            }
        },
        Ok(false) => if after_condition >= tokens.len() {
            (Err(InterpretError::UnexpectedEnd), after_condition)
        } else {
            step(tokens, after_condition + 1, env, ops, f)
        },
    }
}

/// The parameter names that an expression gives.
fn names_of(t: &ParserResult) -> (r: Vec<String>)
    ensures
        texts(r@) == parameter_names(t@),
{
    let mut out: Vec<String> = Vec::new();
    match t {
        ParserResult::Atom(e) => {
            out.push(e.value.clone());
            assert(texts(out@) =~= parameter_names(t@));
        },
        ParserResult::Expression(items) => {
            let mut i: usize = 0;
            while i < items.len()
                invariant
                    i <= items.len(),
                    out@.len() == i,
                    forall|j: int| 0 <= j < i ==> out@[j]@ == tree_text(items@[j]@),
                decreases items.len() - i,
            {
                out.push(items[i].to_string());
                i += 1;
            }
            assert(texts(out@) =~= parameter_names(t@));
        },
    }
    out
}

/// The body that an expression gives.
fn body_from(t: &ParserResult) -> (r: Vec<ParserResult>)
    ensures
        forest(r@) == body_of(t@),
{
    match t {
        ParserResult::Atom(_) => {
            let mut out: Vec<ParserResult> = Vec::new();
            out.push(t.clone());
            assert(forest(out@) =~= body_of(t@));
            out
        },
        ParserResult::Expression(items) => {
            let out = clone_trees(items);
            assert(forest(items@) =~= body_of(t@));
            out
        },
    }
}

/// Evaluates a definition whose name stands at `p`.
fn step_define(tokens: &Vec<ParserResult>, p: usize, env: &mut Environment) -> (r: (
    Result<String, InterpretError>,
    usize,
))
    requires
        p <= tokens.len(),
    ensures
        agrees(r, final(env)@, eval_define(forest(tokens@), p as int, old(env)@)),
        p <= r.1 <= tokens.len(),
{
    let n: usize = tokens.len();
    if p >= n {
        return (Err(InterpretError::UnexpectedEnd), p);
    }
    let name: String = tokens[p].to_string();
    let params: Vec<String> = if n - p > 1 {
        names_of(&tokens[p + 1])
    } else {
        Vec::new()
    };
    let body: Vec<ParserResult> = if n - p > 2 {
        body_from(&tokens[p + 2])
    } else {
        Vec::new()
    };
    let position: usize = if n - p >= 3 {
        p + 3
    } else {
        n
    };
    proof {
        if n - p <= 1 {
            assert(texts(params@) =~= Seq::<Seq<char>>::empty());
        }
        if n - p <= 2 {
            assert(forest(body@) =~= Seq::<Sexp>::empty());
        }
    }
    let closure: Environment = clone_environment(env);
    env.define(name, Function::new(params, body, closure));
    (Ok(String::new()), position)
}

/// An arguments outcome with `collected` in front of its values.
pub open spec fn after_values(collected: Seq<Seq<char>>, a: ArgumentsOutcome) -> ArgumentsOutcome {
    ArgumentsOutcome {
        values: match a.values {
            Ok(more) => Ok(collected + more),
            Err(e) => Err(e),
        },
        position: a.position,
        env: a.env,
    }
}

/// Evaluates `count` expressions in a row, from `pos` on.
fn step_arguments(
    tokens: &Vec<ParserResult>,
    pos: usize,
    env: &mut Environment,
    ops: &Operators,
    count: usize,
    f: usize,
) -> (r: (Result<Vec<String>, InterpretError>, usize))
    requires
        ops.wf(),
        pos <= tokens.len(),
    ensures
        ({
            let a = eval_arguments(
                forest(tokens@),
                pos as int,
                old(env)@,
                count as nat,
                f as nat,
            );
            &&& r.1 as int == a.position
            &&& final(env)@ == a.env
            &&& match r.0 {
                Ok(values) => a.values == Ok::<Seq<Seq<char>>, Fault>(
                    texts(values@),
                ) && values@.len() == count,
                Err(e) => a.values == Err::<Seq<Seq<char>>, Fault>(e@),
            }
        }),
        pos <= r.1 <= tokens.len(),
    decreases f, 1nat, count,
{
    let ghost ts = forest(tokens@);
    let ghost target = eval_arguments(ts, pos as int, env@, count as nat, f as nat);
    let mut values: Vec<String> = Vec::new();
    let mut cur: usize = pos;
    let mut i: usize = 0;
    proof {
        let a = eval_arguments(ts, pos as int, env@, count as nat, f as nat);
        assert(texts(values@) =~= Seq::<Seq<char>>::empty());
        match a.values {
            Ok(more) => {
                assert(Seq::<Seq<char>>::empty() + more =~= more);
            },
            Err(_) => {},
        }
        assert(after_values(texts(values@), a) == a);
    }
    while i < count
        invariant
            ops.wf(),
            ts == forest(tokens@),
            i <= count,
            values@.len() == i,
            pos <= cur <= tokens.len(),
            target == eval_arguments(ts, pos as int, old(env)@, count as nat, f as nat),
            target == after_values(
                texts(values@),
                eval_arguments(ts, cur as int, env@, (count - i) as nat, f as nat),
            ),
        decreases count - i,
    {
        let ghost collected = texts(values@);
        let ghost here = eval_arguments(ts, cur as int, env@, (count - i) as nat, f as nat);
        let ghost first = eval(ts, cur as int, env@, f as nat);
        let (result, next) = step(tokens, cur, env, ops, f);
        match result {
            Err(e) => {
                return (Err(e), next);
            },
            Ok(v) => {
                proof {
                    let rest = eval_arguments(
                        ts,
                        first.position,
                        first.env,
                        (count - i - 1) as nat,
                        f as nat,
                    );
                    let longer = collected.push(v@);
                    match rest.values {
                        Ok(more) => {
                            assert(collected + (seq![v@] + more) =~= longer + more);
                        },
                        Err(_) => {},
                    }
                    assert(after_values(collected, here) == after_values(longer, rest));
                }
                values.push(v);
                assert(texts(values@) =~= collected.push(v@));
                cur = next;
                i += 1;
            },
        }
    }
    proof {
        let done = texts(values@);
        assert(done + Seq::<Seq<char>>::empty() =~= done);
    }
    (Ok(values), cur)
}

/// Evaluates the expressions of a body one after the other.
fn step_body(body: &Vec<ParserResult>, env: &mut Environment, ops: &Operators, f: usize) -> (r: (
    Result<String, InterpretError>,
    usize,
))
    requires
        ops.wf(),
    ensures
        agrees(
            r,
            final(env)@,
            eval_body(forest(body@), 0, old(env)@, f as nat, Seq::empty()),
        ),
    decreases f, 1nat, body.len() + 1,
{
    let ghost b = forest(body@);
    let ghost target = eval_body(b, 0, env@, f as nat, Seq::empty());
    let mut last: String = String::new();
    let mut cur: usize = 0;
    while cur < body.len()
        invariant
            ops.wf(),
            b == forest(body@),
            cur <= body.len(),
            target == eval_body(b, 0, old(env)@, f as nat, Seq::empty()),
            target == eval_body(b, cur as int, env@, f as nat, last@),
        decreases body.len() - cur,
    {
        let (result, next) = step(body, cur, env, ops, f);
        match result {
            Err(e) => {
                return (Err(e), next);
            },
            Ok(v) => {
                last = v;
                cur = next;
            },
        }
    }
    (Ok(last), cur)
}

/// The function that an argument value is bound as.
fn value_as_function(v: &String) -> (r: Function)
    ensures
        r@ == value_function(v@),
{
    let mut body: Vec<ParserResult> = Vec::new();
    body.push(ParserResult::Atom(Element { kind: Kind::Literal, value: v.clone() }));
    let params: Vec<String> = Vec::new();
    assert(forest(body@) =~= seq![Sexp::Atom(Kind::Literal, v@)]);
    assert(texts(params@) =~= Seq::<Seq<char>>::empty());
    Function::new(params, body, Environment::empty())
}

/// Evaluates a call whose arguments start at `p`.
fn step_call(
    tokens: &Vec<ParserResult>,
    p: usize,
    env: &mut Environment,
    ops: &Operators,
    f: usize,
    params: &Vec<String>,
    body: &Vec<ParserResult>,
) -> (r: (Result<String, InterpretError>, usize))
    requires
        ops.wf(),
        p <= tokens.len(),
    ensures
        agrees(
            r,
            final(env)@,
            eval_call(
                forest(tokens@),
                p as int,
                old(env)@,
                f as nat,
                texts(params@),
                forest(body@),
            ),
        ),
        p <= r.1 <= tokens.len(),
    decreases f, 2nat, 0nat,
{
    let ghost ps = texts(params@);
    let (arguments, after) = step_arguments(tokens, p, env, ops, params.len(), f);
    let values: Vec<String> = match arguments {
        Err(e) => {
            return (Err(e), after);
        },
        Ok(values) => values,
    };
    let ghost vs = texts(values@);
    env.push_scope();
    let ghost opened = env@;
    let mut i: usize = 0;
    assert(ps.skip(0) =~= ps);
    assert(vs.skip(0) =~= vs);
    while i < params.len()
        invariant
            i <= params.len(),
            values@.len() == params@.len(),
            ps == texts(params@),
            vs == texts(values@),
            bind_all(opened, ps, vs) == bind_all(env@, ps.skip(i as int), vs.skip(i as int)),
        decreases params.len() - i,
    {
        proof {
            assert(ps.skip(i as int)[0] == params@[i as int]@);
            assert(vs.skip(i as int)[0] == values@[i as int]@);
            assert(ps.skip(i as int).skip(1) =~= ps.skip(i + 1));
            assert(vs.skip(i as int).skip(1) =~= vs.skip(i + 1));
        }
        env.define(params[i].clone(), value_as_function(&values[i]));
        i += 1;
    }
    let (result, _) = step_body(body, env, ops, f);
    env.pop_scope();
    (result, after)
}

/// The text of a program's output.
pub fn join_texts(results: &Vec<String>) -> (r: String)
    ensures
        r@ == join_results(texts(results@)),
{
    let ghost all = texts(results@);
    let mut out: String = String::new();
    let mut i: usize = 0;
    assert(all.take(0) =~= Seq::<Seq<char>>::empty());
    while i < results.len()
        invariant
            i <= results.len(),
            all == texts(results@),
            out@ == join_results(all.take(i as int)),
        decreases results.len() - i,
    {
        proof {
            reveal_strlit(" ");
            assert(all.take(i + 1).drop_last() =~= all.take(i as int));
            assert(all.take(i + 1).last() == results@[i as int]@);
        }
        let part: &str = results[i].as_str();
        let ghost before = out@;
        if part.unicode_len() > 0 {
            if out.as_str().unicode_len() > 0 {
                out.append(" ");
                assert(out@ =~= before + seq![' ']);
            }
            out.append(part);
        }
        assert(out@ =~= join_results(all.take(i + 1)));
        i += 1;
    }
    assert(all.take(i as int) =~= all);
    out
}

/// How deep an evaluation may nest unless told otherwise.
pub const MAX_DEPTH: usize = 1024;

/// A cursor over a program, with the environment it evaluates in.
pub struct Interpreter<'a> {
    /// The program: its top-level expressions.
    pub tokens: Vec<ParserResult>,
    /// The place of the next expression.
    pub position: usize,
    /// The output so far.
    pub result: String,
    /// The environment, shared with whoever lent it.
    pub environment: &'a mut Environment,
    /// How deep an evaluation may nest.
    pub budget: usize,
}

impl<'a> Interpreter<'a> {
    /// An interpreter at the start of `tokens`, evaluating in `environment`.
    pub fn new(tokens: Vec<ParserResult>, environment: &'a mut Environment) -> (r: Self)
        ensures
            r.tokens == tokens,
            r.position == 0,
            r.result@ == Seq::<char>::empty(),
            *r.environment == *old(environment),
            *final(r.environment) == *final(environment),
            r.budget == MAX_DEPTH,
    {
        Interpreter { tokens, position: 0, result: String::new(), environment, budget: MAX_DEPTH }
    }
}

/// Evaluation of a program, expression by expression or as a whole.
pub trait Interpret {
    /// Evaluates what is left of the program and adds its output to the
    /// result.
    fn interpret(&mut self) -> Result<(), InterpretError>;

    /// Evaluates the next expression.
    fn interpret_expression(&mut self) -> Result<String, InterpretError>;
}

impl<'a> Interpret for Interpreter<'a> {
    /// Evaluates the top-level expressions from the cursor on, in order,
    /// and appends to the result those of their values that are not
    /// empty, with one space between them. The first failure ends the
    /// run and leaves the result as it was.
    fn interpret(&mut self) -> (r: Result<(), InterpretError>)
        ensures
            ({
                let o = run(
                    forest(old(self).tokens@),
                    old(self).position as int,
                    old(self).environment@,
                    old(self).budget as nat,
                    Seq::empty(),
                );
                &&& final(self).tokens == old(self).tokens
                &&& final(self).budget == old(self).budget
                &&& *final(final(self).environment) == *final(old(self).environment)
                &&& final(self).position as int == o.position
                &&& final(self).environment@ == o.env
                &&& match r {
                    Ok(_) => o.results is Ok && final(self).result@ == old(self).result@
                        + join_results(o.results->Ok_0),
                    Err(e) => o.results == Err::<Seq<Seq<char>>, Fault>(e@)
                        && final(self).result == old(self).result,
                }
            }),
    {
        let ops: Operators = Operators::new();
        let ghost ts = forest(self.tokens@);
        let mut results: Vec<String> = Vec::new();
        assert(texts(results@) =~= Seq::<Seq<char>>::empty());
        while self.position < self.tokens.len()
            invariant
                ops.wf(),
                self.tokens == old(self).tokens,
                self.budget == old(self).budget,
                self.result == old(self).result,
                *final(self.environment) == *final(old(self).environment),
                ts == forest(self.tokens@),
                run(
                    ts,
                    old(self).position as int,
                    old(self).environment@,
                    old(self).budget as nat,
                    Seq::empty(),
                ) == run(
                    ts,
                    self.position as int,
                    self.environment@,
                    self.budget as nat,
                    texts(results@),
                ),
            decreases self.tokens@.len() - self.position,
        {
            let ghost before = texts(results@);
            let (result, next) = step(
                &self.tokens,
                self.position,
                self.environment,
                &ops,
                self.budget,
            );
            self.position = next;
            match result {
                Err(e) => {
                    return Err(e);
                },
                Ok(v) => {
                    results.push(v);
                    assert(texts(results@) =~= before.push(v@));
                },
            }
        }
        let text: String = join_texts(&results);
        self.result.append(text.as_str());
        Ok(())
    }

    /// Evaluates the expression at the cursor and moves the cursor behind
    /// what it consumed.
    fn interpret_expression(&mut self) -> (r: Result<String, InterpretError>)
        ensures
            ({
                let o = eval(
                    forest(old(self).tokens@),
                    old(self).position as int,
                    old(self).environment@,
                    old(self).budget as nat,
                );
                &&& final(self).tokens == old(self).tokens
                &&& final(self).budget == old(self).budget
                &&& final(self).result == old(self).result
                &&& *final(final(self).environment) == *final(old(self).environment)
                &&& final(self).position as int == o.position
                &&& final(self).environment@ == o.env
                &&& same_result(r, o.result)
            }),
    {
        if self.position > self.tokens.len() {
            return if self.budget == 0 {
                Err(InterpretError::RecursionLimit)
            } else {
                Err(InterpretError::UnexpectedEnd)
            };
        }
        let ops: Operators = Operators::new();
        let (result, next) = step(&self.tokens, self.position, self.environment, &ops, self.budget);
        self.position = next;
        result
    }
}

impl<'a> Interpreter<'a> {
    /// Runs what is left of the program and gives the output so far; a
    /// failure adds nothing to it.
    pub fn get_result(&mut self) -> (r: String)
        ensures
            ({
                let o = run(
                    forest(old(self).tokens@),
                    old(self).position as int,
                    old(self).environment@,
                    old(self).budget as nat,
                    Seq::empty(),
                );
                &&& final(self).tokens == old(self).tokens
                &&& final(self).budget == old(self).budget
                &&& *final(final(self).environment) == *final(old(self).environment)
                &&& final(self).position as int == o.position
                &&& final(self).environment@ == o.env
                &&& r@ == final(self).result@
                &&& r@ == match o.results {
                    Ok(results) => old(self).result@ + join_results(results),
                    Err(_) => old(self).result@,
                }
            }),
    {
        let _ = self.interpret();
        self.result.clone()
    }
}

/// Evaluates a source text: every top-level expression in turn, in one
/// fresh environment. The output is the values that are not empty, with
/// one space between them; the first failure is the result instead.
pub fn evaluate(input: &str) -> (r: Result<String, InterpretError>)
    ensures
        same_result(r, evaluation(input@)),
{
    let trees: Vec<ParserResult> = match my_parser(input) {
        Err(e) => {
            return Err(e);
        },
        Ok(trees) => trees,
    };
    proof {
        let tokens = source_tokens(input@)->Ok_0;
        lemma_parse_unique(tokens, forest(trees@), parsed(tokens));
    }
    let mut environment: Environment = Environment::new();
    let mut interpreter = Interpreter::new(trees, &mut environment);
    match interpreter.interpret() {
        Err(e) => Err(e),
        Ok(_) => Ok(interpreter.result),
    }
}

} // verus!
