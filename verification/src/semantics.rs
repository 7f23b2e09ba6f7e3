//! What evaluation means: the value of every expression, as a function of
//! the expressions, the cursor, the environment and a bound on nesting.

use vstd::prelude::*;
use vstd::string::*;
use crate::environment::{
    define_in, lookup_function, scope_lookup, without_innermost, BindingModel, FunctionModel,
};
use crate::error::{DelimiterFault, Fault};
use crate::interpreter::MAX_DEPTH;
use crate::operations::{
    binary_entries, binary_value, find_entry, logic_entries, logical_bool_value,
    logical_int_value, symbol, unary_entries, unary_value, Operation,
};
use crate::parser::{
    balanced, classify, closes_early, is_parse_of, is_quoted, source_tokens, tree_text, Kind, Sexp,
};
use crate::text::{
    all_digits, bool_of_text, int_of_text, is_digit, lemma_int_text_round_trip,
    lemma_text_of_nat, text_of_bool, text_of_int,
};

verus! {

/// What an evaluation leaves behind: its result, the cursor, and the
/// environment.
pub struct Outcome {
    pub result: Result<Seq<char>, Fault>,
    pub position: int,
    pub env: Seq<Seq<BindingModel>>,
}

/// What the evaluation of a run of arguments leaves behind.
pub struct ArgumentsOutcome {
    pub values: Result<Seq<Seq<char>>, Fault>,
    pub position: int,
    pub env: Seq<Seq<BindingModel>>,
}

/// A failed evaluation.
pub open spec fn failure(fault: Fault, position: int, env: Seq<Seq<BindingModel>>) -> Outcome {
    Outcome { result: Err(fault), position, env }
}

/// The value of a literal: a run of digits is read as a 32-bit integer
/// and written back; a quoted text loses its quotes; any other text
/// stands for itself.
pub open spec fn literal_value(v: Seq<char>) -> Result<Seq<char>, Fault> {
    if v.len() > 0 && all_digits(v) {
        match int_of_text(v) {
            Some(n) => Ok(text_of_int(n)),
            None => Err(Fault::ParseFailure),
        }
    } else if is_quoted(v) && v.len() >= 2 {
        Ok(v.subrange(1, v.len() - 1))
    } else {
        Ok(v)
    }
}

/// A number as the text of a result.
pub open spec fn number_text(r: Result<int, Fault>) -> Result<Seq<char>, Fault> {
    match r {
        Ok(v) => Ok(text_of_int(v)),
        Err(e) => Err(e),
    }
}

/// A boolean as the text of a result.
pub open spec fn truth_text(r: Result<bool, Fault>) -> Result<Seq<char>, Fault> {
    match r {
        Ok(v) => Ok(text_of_bool(v)),
        Err(e) => Err(e),
    }
}

/// A binary arithmetic operation on two texts, both of which must be
/// integers.
pub open spec fn apply_binary(op: Operation, left: Seq<char>, right: Seq<char>) -> Result<
    Seq<char>,
    Fault,
> {
    match (int_of_text(left), int_of_text(right)) {
        (Some(a), Some(b)) => number_text(binary_value(op, a, b)),
        _ => Err(Fault::ParseFailure),
    }
}

/// A unary operation on a text: logical not of a boolean, or the
/// negation of an integer.
pub open spec fn apply_unary(op: Operation, operand: Seq<char>) -> Result<Seq<char>, Fault> {
    if op == Operation::Not {
        match bool_of_text(operand) {
            Some(b) => Ok(text_of_bool(!b)),
            None => Err(Fault::ParseFailure),
        }
    } else {
        match int_of_text(operand) {
            Some(a) => number_text(unary_value(op, a)),
            None => Err(Fault::ParseFailure),
        }
    }
}

/// A comparison of two texts, both of which must be integers.
pub open spec fn apply_logical_int(op: Operation, left: Seq<char>, right: Seq<char>) -> Result<
    Seq<char>,
    Fault,
> {
    match (int_of_text(left), int_of_text(right)) {
        (Some(a), Some(b)) => truth_text(logical_int_value(op, a, b)),
        _ => Err(Fault::ParseFailure),
    }
}

/// A connective on two texts, both of which must be booleans.
pub open spec fn apply_logical_bool(op: Operation, left: Seq<char>, right: Seq<char>) -> Result<
    Seq<char>,
    Fault,
> {
    match (bool_of_text(left), bool_of_text(right)) {
        (Some(a), Some(b)) => truth_text(logical_bool_value(op, a, b)),
        _ => Err(Fault::ParseFailure),
    }
}

/// The function that an argument value is bound as: no parameters, and a
/// body that is the value itself.
pub open spec fn value_function(v: Seq<char>) -> FunctionModel {
    FunctionModel {
        params: Seq::empty(),
        body: seq![Sexp::Atom(Kind::Literal, v)],
        closure: Seq::empty(),
    }
}

/// The environment after each parameter is bound, in order, to the value
/// at its place.
pub open spec fn bind_all(
    env: Seq<Seq<BindingModel>>,
    params: Seq<Seq<char>>,
    values: Seq<Seq<char>>,
) -> Seq<Seq<BindingModel>>
    decreases params.len(),
{
    if params.len() == 0 || values.len() == 0 {
        env
    } else {
        bind_all(
            define_in(env, params[0], value_function(values[0])),
            params.skip(1),
            values.skip(1),
        )
    }
}

/// The parameter names that an expression gives: its own text for an
/// atom, the text of each item for a list.
pub open spec fn parameter_names(t: Sexp) -> Seq<Seq<char>> {
    match t {
        Sexp::Atom(_, v) => seq![v],
        Sexp::List(items) => Seq::new(items.len(), |i: int| tree_text(items[i])),
    }
}

/// The body that an expression gives: itself for an atom, its items for a
/// list.
pub open spec fn body_of(t: Sexp) -> Seq<Sexp> {
    match t {
        Sexp::Atom(_, _) => seq![t],
        Sexp::List(items) => items,
    }
}

/// A definition, with the cursor `p` behind `define`: the next expression
/// names the function, the one after gives its parameters, the third its
/// body. The function captures the environment as it stands and is bound
/// in the innermost scope; the result is the empty text.
pub open spec fn eval_define(tokens: Seq<Sexp>, p: int, env: Seq<Seq<BindingModel>>) -> Outcome {
    if p < 0 || p >= tokens.len() {
        failure(Fault::UnexpectedEnd, p, env)
    } else {
        let name = tree_text(tokens[p]);
        let params = if p + 1 < tokens.len() {
            parameter_names(tokens[p + 1])
        } else {
            Seq::empty()
        };
        let body = if p + 2 < tokens.len() {
            body_of(tokens[p + 2])
        } else {
            Seq::empty()
        };
        let position = if p + 3 <= tokens.len() {
            p + 3
        } else {
            tokens.len() as int
        };
        Outcome {
            result: Ok(Seq::empty()),
            position,
            env: define_in(env, name, FunctionModel { params, body, closure: env }),
        }
    }
}

/// The evaluation of the expression at `pos` of `tokens`, nesting at most
/// `fuel` deep.
pub open spec fn eval(
    tokens: Seq<Sexp>,
    pos: int,
    env: Seq<Seq<BindingModel>>,
    fuel: nat,
) -> Outcome
    decreases fuel, 0nat, 0nat,
{
    if fuel == 0 {
        failure(Fault::RecursionLimit, pos, env)
    } else if pos < 0 || pos >= tokens.len() {
        failure(Fault::UnexpectedEnd, pos, env)
    } else {
        let f = (fuel - 1) as nat;
        let p = pos + 1;
        match tokens[pos] {
            Sexp::List(items) => {
                let inner = eval(items, 0, env, f);
                Outcome { result: inner.result, position: p, env: inner.env }
            },
            Sexp::Atom(kind, value) => match kind {
                Kind::Literal => Outcome { result: literal_value(value), position: p, env },
                Kind::Binary => eval_binary(tokens, p, env, f, value),
                Kind::Unary => eval_unary(tokens, p, env, f, value),
                Kind::LogicalInt => eval_logical(tokens, p, env, f, value, true),
                Kind::LogicalBool => eval_logical(tokens, p, env, f, value, false),
                Kind::Condition => eval_condition(tokens, p, env, f),
                Kind::Function => eval_define(tokens, p, env),
                Kind::Identifier => match lookup_function(env, value) {
                    Some(fun) => eval_call(tokens, p, env, f, fun.params, fun.body),
                    None => Outcome { result: Ok(value), position: p, env },
                },
                Kind::Format => failure(Fault::UnknownOperator(value), p, env),
                Kind::Separator => failure(Fault::UnknownOperator(value), p, env),
            },
        }
    }
}

/// A binary operator, with the cursor `p` behind it: the left operand is
/// evaluated, then the right one. Where the expressions end after the
/// left operand, the operator is taken as a unary one.
pub open spec fn eval_binary(
    tokens: Seq<Sexp>,
    p: int,
    env: Seq<Seq<BindingModel>>,
    f: nat,
    value: Seq<char>,
) -> Outcome
    decreases f, 2nat, 0nat,
{
    match find_entry(binary_entries(), value) {
        None => failure(Fault::UnknownOperator(value), p, env),
        Some(op) => {
            let l = eval(tokens, p, env, f);
            match l.result {
                Err(_) => l,
                Ok(left) => if l.position >= tokens.len() {
                    match find_entry(unary_entries(), value) {
                        None => failure(Fault::UnknownOperator(value), l.position, l.env),
                        Some(u) => Outcome {
                            result: apply_unary(u, left),
                            position: l.position,
                            env: l.env,
                        },
                    }
                } else {
                    let r = eval(tokens, l.position, l.env, f);
                    match r.result {
                        Err(_) => r,
                        Ok(right) => Outcome {
                            result: apply_binary(op, left, right),
                            position: r.position,
                            env: r.env,
                        },
                    }
                },
            }
        },
    }
}

/// A unary operator, with the cursor `p` behind it.
pub open spec fn eval_unary(
    tokens: Seq<Sexp>,
    p: int,
    env: Seq<Seq<BindingModel>>,
    f: nat,
    value: Seq<char>,
) -> Outcome
    decreases f, 2nat, 0nat,
{
    let o = eval(tokens, p, env, f);
    match o.result {
        Err(_) => o,
        Ok(operand) => match find_entry(unary_entries(), value) {
            None => failure(Fault::UnknownOperator(value), o.position, o.env),
            Some(u) => Outcome {
                result: apply_unary(u, operand),
                position: o.position,
                env: o.env,
            },
        },
    }
}

/// A comparison (`on_integers`) or a boolean connective, with the cursor
/// `p` behind it: both operands are evaluated, left first.
pub open spec fn eval_logical(
    tokens: Seq<Sexp>,
    p: int,
    env: Seq<Seq<BindingModel>>,
    f: nat,
    value: Seq<char>,
    on_integers: bool,
) -> Outcome
    decreases f, 2nat, 0nat,
{
    match find_entry(logic_entries(), value) {
        None => failure(Fault::UnknownOperator(value), p, env),
        Some(op) => {
            let l = eval(tokens, p, env, f);
            match l.result {
                Err(_) => l,
                Ok(left) => {
                    let r = eval(tokens, l.position, l.env, f);
                    match r.result {
                        Err(_) => r,
                        Ok(right) => Outcome {
                            result: if on_integers {
                                apply_logical_int(op, left, right)
                            } else {
                                apply_logical_bool(op, left, right)
                            },
                            position: r.position,
                            env: r.env,
                        },
                    }
                },
            }
        },
    }
}

/// A conditional, with the cursor `p` behind `if`: the condition is
/// evaluated and must be a boolean; the branch it selects is evaluated,
/// the other is passed over as one expression without being evaluated.
pub open spec fn eval_condition(
    tokens: Seq<Sexp>,
    p: int,
    env: Seq<Seq<BindingModel>>,
    f: nat,
) -> Outcome
    decreases f, 2nat, 0nat,
{
    let c = eval(tokens, p, env, f);
    match c.result {
        Err(_) => c,
        Ok(condition) => match bool_of_text(condition) {
            None => failure(Fault::ParseFailure, c.position, c.env),
            Some(true) => {
                let t = eval(tokens, c.position, c.env, f);
                match t.result {
                    Err(_) => t,
                    Ok(_) => if t.position >= tokens.len() {
                        failure(Fault::UnexpectedEnd, t.position, t.env)
                    } else {
                        Outcome { result: t.result, position: t.position + 1, env: t.env }
                    },
                }
            },
            Some(false) => if c.position >= tokens.len() {
                failure(Fault::UnexpectedEnd, c.position, c.env)
            } else {
                eval(tokens, c.position + 1, c.env, f)
            },
        },
    }
}

/// A call of a function of the given parameters and body, with the
/// cursor `p` behind its name: as many arguments as it has parameters are
/// evaluated, left to right; a new scope binds each parameter to its
/// argument; the body is evaluated in it; the scope is closed again
/// whatever the body came to.
pub open spec fn eval_call(
    tokens: Seq<Sexp>,
    p: int,
    env: Seq<Seq<BindingModel>>,
    f: nat,
    params: Seq<Seq<char>>,
    body: Seq<Sexp>,
) -> Outcome
    decreases f, 2nat, 0nat,
{
    let a = eval_arguments(tokens, p, env, params.len(), f);
    match a.values {
        Err(e) => failure(e, a.position, a.env),
        Ok(values) => {
            let scoped = bind_all(a.env.push(Seq::empty()), params, values);
            let b = eval_body(body, 0, scoped, f, Seq::empty());
            Outcome { result: b.result, position: a.position, env: without_innermost(b.env) }
        },
    }
}

/// The evaluation of `count` expressions in a row, from `pos` on.
pub open spec fn eval_arguments(
    tokens: Seq<Sexp>,
    pos: int,
    env: Seq<Seq<BindingModel>>,
    count: nat,
    f: nat,
) -> ArgumentsOutcome
    decreases f, 1nat, count,
{
    if count == 0 {
        ArgumentsOutcome { values: Ok(Seq::empty()), position: pos, env }
    } else {
        let first = eval(tokens, pos, env, f);
        match first.result {
            Err(e) => ArgumentsOutcome { values: Err(e), position: first.position, env: first.env },
            Ok(v) => {
                let rest = eval_arguments(
                    tokens,
                    first.position,
                    first.env,
                    (count - 1) as nat,
                    f,
                );
                match rest.values {
                    Err(e) => rest,
                    Ok(more) => ArgumentsOutcome {
                        values: Ok(seq![v] + more),
                        position: rest.position,
                        env: rest.env,
                    },
                }
            },
        }
    }
}

/// The evaluation of the expressions of a body, one after the other from
/// `pos` on; the result is that of the last one, or `last` where none is
/// left.
pub open spec fn eval_body(
    body: Seq<Sexp>,
    pos: int,
    env: Seq<Seq<BindingModel>>,
    f: nat,
    last: Seq<char>,
) -> Outcome
    decreases f, 1nat, body.len() - pos,
{
    if pos < 0 || pos >= body.len() {
        Outcome { result: Ok(last), position: pos, env }
    } else {
        let r = eval(body, pos, env, f);
        match r.result {
            Err(_) => r,
            Ok(v) => if pos < r.position <= body.len() {
                eval_body(body, r.position, r.env, f, v)
            } else {
                r
            },
        }
    }
}

/// What running a program leaves behind: the results of its top-level
/// expressions, the cursor, and the environment.
pub struct ProgramOutcome {
    pub results: Result<Seq<Seq<char>>, Fault>,
    pub position: int,
    pub env: Seq<Seq<BindingModel>>,
}

/// The evaluation of the top-level expressions from `pos` on, one after
/// the other in one environment; `results` holds what came before. The
/// first failure ends the run.
pub open spec fn run(
    tokens: Seq<Sexp>,
    pos: int,
    env: Seq<Seq<BindingModel>>,
    fuel: nat,
    results: Seq<Seq<char>>,
) -> ProgramOutcome
    decreases tokens.len() - pos,
{
    if pos < 0 || pos >= tokens.len() {
        ProgramOutcome { results: Ok(results), position: pos, env }
    } else {
        let r = eval(tokens, pos, env, fuel);
        match r.result {
            Err(e) => ProgramOutcome { results: Err(e), position: r.position, env: r.env },
            Ok(v) => if pos < r.position <= tokens.len() {
                run(tokens, r.position, r.env, fuel, results.push(v))
            } else {
                ProgramOutcome { results: Ok(results.push(v)), position: r.position, env: r.env }
            },
        }
    }
}

/// The results that are not empty, with one space between them.
pub open spec fn join_results(results: Seq<Seq<char>>) -> Seq<char>
    decreases results.len(),
{
    if results.len() == 0 {
        Seq::empty()
    } else {
        let head = join_results(results.drop_last());
        let last = results.last();
        if last.len() == 0 {
            head
        } else if head.len() == 0 {
            last
        } else {
            head + seq![' '] + last
        }
    }
}

/// The expressions that a token run describes.
pub open spec fn parsed(tokens: Seq<Seq<char>>) -> Seq<Sexp> {
    choose|trees: Seq<Sexp>| is_parse_of(trees, tokens)
}

/// The output of a program run in a fresh environment of one scope.
pub open spec fn program_output(trees: Seq<Sexp>) -> Result<Seq<char>, Fault> {
    match run(trees, 0, seq![Seq::empty()], MAX_DEPTH as nat, Seq::empty()).results {
        Ok(results) => Ok(join_results(results)),
        Err(e) => Err(e),
    }
}

/// What evaluating a source text comes to: the failure of the tokenizer
/// or of the tree builder, or else the output of the program.
pub open spec fn evaluation(input: Seq<char>) -> Result<Seq<char>, Fault> {
    match source_tokens(input) {
        Err(e) => Err(e),
        Ok(tokens) => if closes_early(tokens) {
            Err(Fault::UnbalancedDelimiter(DelimiterFault::UnmatchedClose))
        } else if !balanced(tokens) {
            Err(Fault::UnbalancedDelimiter(DelimiterFault::UnclosedList))
        } else {
            program_output(parsed(tokens))
        },
    }
}

/// The five comparisons of integers.
pub open spec fn is_comparison(op: Operation) -> bool {
    op == Operation::Lt || op == Operation::Lte || op == Operation::Gt || op == Operation::Gte
        || op == Operation::Equ
}

/// The atom that the numeral of `n` is read as.
pub open spec fn numeral_atom(n: int) -> Sexp {
    Sexp::Atom(classify(text_of_int(n)), text_of_int(n))
}

/// The expression that applies a comparison to two integers.
pub open spec fn comparison_expression(op: Operation, a: int, b: int) -> Seq<Sexp> {
    seq![Sexp::Atom(Kind::LogicalInt, symbol(op)), numeral_atom(a), numeral_atom(b)]
}

/// The numeral of an integer that is not negative is a literal; that of a
/// negative one is an identifier.
pub proof fn lemma_numeral_kind(n: int)
    ensures
        n >= 0 ==> classify(text_of_int(n)) == Kind::Literal,
        n < 0 ==> classify(text_of_int(n)) == Kind::Identifier,
        text_of_int(n).len() > 0,
        n >= 0 ==> all_digits(text_of_int(n)),
{
    let v = text_of_int(n);
    reveal_strlit("(");
    reveal_strlit(")");
    reveal_strlit("define");
    reveal_strlit("if");
    reveal_strlit("format");
    reveal_strlit("<");
    reveal_strlit("<=");
    reveal_strlit(">");
    reveal_strlit(">=");
    reveal_strlit("==");
    reveal_strlit("=");
    reveal_strlit("!=");
    reveal_strlit("+");
    reveal_strlit("-");
    reveal_strlit("*");
    reveal_strlit("/");
    reveal_strlit("**");
    reveal_strlit("%");
    reveal_strlit("&");
    reveal_strlit("|");
    reveal_strlit("!");
    reveal_strlit("true");
    reveal_strlit("false");
    if n >= 0 {
        lemma_text_of_nat(n as nat);
        assert(is_digit(v[0]));
    } else {
        lemma_text_of_nat((-n) as nat);
        assert(v[0] == '-');
        assert(v.len() >= 2);
        assert(!is_digit(v[0]));
    }
}

/// Each comparison is found in the table of logical operators under its
/// own symbol.
pub proof fn lemma_comparison_is_listed(op: Operation)
    requires
        is_comparison(op),
    ensures
        find_entry(logic_entries(), symbol(op)) == Some(op),
{
    reveal_strlit("<");
    reveal_strlit("<=");
    reveal_strlit(">");
    reveal_strlit(">=");
    reveal_strlit("&");
    reveal_strlit("|");
    reveal_strlit("==");
    reveal_with_fuel(find_entry, 8);
    let e = logic_entries();
    assert(e.skip(1)[0] == e[1]);
    assert(e.skip(1).skip(1)[0] == e[2]);
    assert(e.skip(1).skip(1).skip(1)[0] == e[3]);
    assert(e.skip(1).skip(1).skip(1).skip(1)[0] == e[4]);
    assert(e.skip(1).skip(1).skip(1).skip(1).skip(1)[0] == e[5]);
    assert(e.skip(1).skip(1).skip(1).skip(1).skip(1).skip(1)[0] == e[6]);
    assert("<"@.len() == 1 && "<="@.len() == 2 && ">"@.len() == 1 && ">="@.len() == 2);
    assert("<"@[0] == '<' && "<="@[0] == '<' && ">"@[0] == '>' && ">="@[0] == '>');
    assert("&"@[0] == '&' && "|"@[0] == '|' && "=="@[0] == '=');
}

/// A numeral evaluates to itself where no scope binds it.
pub proof fn lemma_numeral_evaluates_to_itself(tokens: Seq<Sexp>, pos: int, n: int, fuel: nat)
    requires
        0 <= pos < tokens.len(),
        tokens[pos] == numeral_atom(n),
        i32::MIN <= n <= i32::MAX,
        fuel >= 1,
    ensures
        eval(tokens, pos, seq![Seq::empty()], fuel) == (Outcome {
            result: Ok(text_of_int(n)),
            position: pos + 1,
            env: seq![Seq::empty()],
        }),
{
    let env: Seq<Seq<BindingModel>> = seq![Seq::empty()];
    lemma_numeral_kind(n);
    lemma_int_text_round_trip(n);
    if n < 0 {
        assert(env.drop_last() =~= Seq::<Seq<BindingModel>>::empty());
        assert(scope_lookup(env.last(), text_of_int(n)) is None);
        assert(lookup_function(env.drop_last(), text_of_int(n)) is None);
        assert(lookup_function(env, text_of_int(n)) is None);
    }
}

/// Comparisons are those of the machine's 32-bit signed integers: the
/// expression that applies one to two such integers evaluates to the word
/// for what the comparison of the two gives.
pub proof fn lemma_comparison_is_native(op: Operation, a: int, b: int, fuel: nat)
    requires
        is_comparison(op),
        i32::MIN <= a <= i32::MAX,
        i32::MIN <= b <= i32::MAX,
        fuel >= 2,
    ensures
        eval(comparison_expression(op, a, b), 0, seq![Seq::empty()], fuel) == (Outcome {
            result: Ok(
                text_of_bool(
                    match op {
                        Operation::Lt => a < b,
                        Operation::Lte => a <= b,
                        Operation::Gt => a > b,
                        Operation::Gte => a >= b,
                        _ => a == b,
                    },
                ),
            ),
            position: 3,
            env: seq![Seq::empty()],
        }),
{
    let tokens = comparison_expression(op, a, b);
    let f = (fuel - 1) as nat;
    lemma_comparison_is_listed(op);
    lemma_numeral_evaluates_to_itself(tokens, 1, a, f);
    lemma_numeral_evaluates_to_itself(tokens, 2, b, f);
    lemma_int_text_round_trip(a);
    lemma_int_text_round_trip(b);
    let env: Seq<Seq<BindingModel>> = seq![Seq::empty()];
    let left = eval(tokens, 1, env, f);
    let right = eval(tokens, 2, env, f);
    assert(left.result == Ok::<Seq<char>, Fault>(text_of_int(a)) && left.position == 2);
    assert(right.result == Ok::<Seq<char>, Fault>(text_of_int(b)) && right.position == 3);
    let whole = eval_logical(tokens, 1, env, f, symbol(op), true);
    assert(whole.result == apply_logical_int(op, text_of_int(a), text_of_int(b)));
    assert(whole.position == 3 && whole.env == env);
    assert(tokens[0] == Sexp::Atom(Kind::LogicalInt, symbol(op)));
    assert(eval(tokens, 0, env, fuel) == whole);
}

/// `after` has the scopes of `before`, all but the innermost unchanged.
pub open spec fn same_outer_scopes(
    before: Seq<Seq<BindingModel>>,
    after: Seq<Seq<BindingModel>>,
) -> bool {
    after.len() == before.len() && after.drop_last() == before.drop_last()
}

/// Binding parameters changes the innermost scope only.
pub proof fn lemma_bind_all_keeps_scopes(
    env: Seq<Seq<BindingModel>>,
    params: Seq<Seq<char>>,
    values: Seq<Seq<char>>,
)
    requires
        env.len() >= 1,
    ensures
        same_outer_scopes(env, bind_all(env, params, values)),
    decreases params.len(),
{
    if params.len() == 0 || values.len() == 0 {
    } else {
        let next = define_in(env, params[0], value_function(values[0]));
        assert(next.drop_last() =~= env.drop_last());
        lemma_bind_all_keeps_scopes(next, params.skip(1), values.skip(1));
    }
}

/// Scopes are opened and closed in pairs: an evaluation leaves as many
/// scopes as it found, and changes none but the innermost, whatever its
/// result.
pub proof fn lemma_eval_keeps_scopes(
    tokens: Seq<Sexp>,
    pos: int,
    env: Seq<Seq<BindingModel>>,
    fuel: nat,
)
    requires
        env.len() >= 1,
    ensures
        same_outer_scopes(env, eval(tokens, pos, env, fuel).env),
    decreases fuel, 0nat, 0nat,
{
    if fuel == 0 || pos < 0 || pos >= tokens.len() {
    } else {
        let f = (fuel - 1) as nat;
        let p = pos + 1;
        match tokens[pos] {
            Sexp::List(items) => {
                lemma_eval_keeps_scopes(items, 0, env, f);
            },
            Sexp::Atom(kind, value) => match kind {
                Kind::Binary => lemma_binary_keeps_scopes(tokens, p, env, f, value),
                Kind::Unary => {
                    lemma_eval_keeps_scopes(tokens, p, env, f);
                    assert(same_outer_scopes(env, eval_unary(tokens, p, env, f, value).env));
                },
                Kind::LogicalInt => lemma_logical_keeps_scopes(tokens, p, env, f, value, true),
                Kind::LogicalBool => lemma_logical_keeps_scopes(tokens, p, env, f, value, false),
                Kind::Condition => lemma_condition_keeps_scopes(tokens, p, env, f),
                Kind::Function => {
                    assert(eval_define(tokens, p, env).env.drop_last() =~= env.drop_last());
                },
                Kind::Identifier => match lookup_function(env, value) {
                    Some(fun) => lemma_call_keeps_scopes(tokens, p, env, f, fun.params, fun.body),
                    None => {},
                },
                _ => {},
            },
        }
    }
}

/// A binary operator leaves the scopes as its operands do.
pub proof fn lemma_binary_keeps_scopes(
    tokens: Seq<Sexp>,
    p: int,
    env: Seq<Seq<BindingModel>>,
    f: nat,
    value: Seq<char>,
)
    requires
        env.len() >= 1,
    ensures
        same_outer_scopes(env, eval_binary(tokens, p, env, f, value).env),
    decreases f, 2nat, 0nat,
{
    if find_entry(binary_entries(), value) is Some {
        lemma_eval_keeps_scopes(tokens, p, env, f);
        let l = eval(tokens, p, env, f);
        if l.result is Ok && l.position < tokens.len() {
            lemma_eval_keeps_scopes(tokens, l.position, l.env, f);
        }
    }
}

/// A comparison or a connective leaves the scopes as its operands do.
pub proof fn lemma_logical_keeps_scopes(
    tokens: Seq<Sexp>,
    p: int,
    env: Seq<Seq<BindingModel>>,
    f: nat,
    value: Seq<char>,
    on_integers: bool,
)
    requires
        env.len() >= 1,
    ensures
        same_outer_scopes(env, eval_logical(tokens, p, env, f, value, on_integers).env),
    decreases f, 2nat, 0nat,
{
    if find_entry(logic_entries(), value) is Some {
        lemma_eval_keeps_scopes(tokens, p, env, f);
        let l = eval(tokens, p, env, f);
        if l.result is Ok {
            lemma_eval_keeps_scopes(tokens, l.position, l.env, f);
        }
    }
}

/// A conditional leaves the scopes as its condition and the branch it
/// selects do.
pub proof fn lemma_condition_keeps_scopes(
    tokens: Seq<Sexp>,
    p: int,
    env: Seq<Seq<BindingModel>>,
    f: nat,
)
    requires
        env.len() >= 1,
    ensures
        same_outer_scopes(env, eval_condition(tokens, p, env, f).env),
    decreases f, 2nat, 0nat,
{
    lemma_eval_keeps_scopes(tokens, p, env, f);
    let c = eval(tokens, p, env, f);
    if c.result is Ok {
        match bool_of_text(c.result->Ok_0) {
            Some(true) => {
                lemma_eval_keeps_scopes(tokens, c.position, c.env, f);
            },
            Some(false) => {
                if c.position < tokens.len() {
                    lemma_eval_keeps_scopes(tokens, c.position + 1, c.env, f);
                }
            },
            None => {},
        }
    }
}

/// A call closes the scope it opened: it leaves the environment exactly
/// as the evaluation of its arguments left it.
pub proof fn lemma_call_keeps_scopes(
    tokens: Seq<Sexp>,
    p: int,
    env: Seq<Seq<BindingModel>>,
    f: nat,
    params: Seq<Seq<char>>,
    body: Seq<Sexp>,
)
    requires
        env.len() >= 1,
    ensures
        same_outer_scopes(env, eval_call(tokens, p, env, f, params, body).env),
        eval_call(tokens, p, env, f, params, body).env == eval_arguments(
            tokens,
            p,
            env,
            params.len(),
            f,
        ).env,
    decreases f, 2nat, 0nat,
{
    lemma_arguments_keep_scopes(tokens, p, env, params.len(), f);
    let a = eval_arguments(tokens, p, env, params.len(), f);
    if a.values is Ok {
        let opened = a.env.push(Seq::empty());
        assert(opened.drop_last() =~= a.env);
        let scoped = bind_all(opened, params, a.values->Ok_0);
        lemma_bind_all_keeps_scopes(opened, params, a.values->Ok_0);
        lemma_body_keeps_scopes(body, 0, scoped, f, Seq::empty());
    }
}

/// A run of arguments leaves the scopes as each of them does.
pub proof fn lemma_arguments_keep_scopes(
    tokens: Seq<Sexp>,
    pos: int,
    env: Seq<Seq<BindingModel>>,
    count: nat,
    f: nat,
)
    requires
        env.len() >= 1,
    ensures
        same_outer_scopes(env, eval_arguments(tokens, pos, env, count, f).env),
    decreases f, 1nat, count,
{
    if count > 0 {
        lemma_eval_keeps_scopes(tokens, pos, env, f);
        let first = eval(tokens, pos, env, f);
        if first.result is Ok {
            lemma_arguments_keep_scopes(tokens, first.position, first.env, (count - 1) as nat, f);
        }
    }
}

/// A body leaves the scopes as each of its expressions does.
pub proof fn lemma_body_keeps_scopes(
    body: Seq<Sexp>,
    pos: int,
    env: Seq<Seq<BindingModel>>,
    f: nat,
    last: Seq<char>,
)
    requires
        env.len() >= 1,
    ensures
        same_outer_scopes(env, eval_body(body, pos, env, f, last).env),
    decreases f, 1nat, body.len() - pos,
{
    if !(pos < 0 || pos >= body.len()) {
        lemma_eval_keeps_scopes(body, pos, env, f);
        let r = eval(body, pos, env, f);
        if r.result is Ok && pos < r.position <= body.len() {
            lemma_body_keeps_scopes(body, r.position, r.env, f, r.result->Ok_0);
        }
    }
}

/// A program leaves as many scopes as it found, and changes none but the
/// innermost.
pub proof fn lemma_run_keeps_scopes(
    tokens: Seq<Sexp>,
    pos: int,
    env: Seq<Seq<BindingModel>>,
    fuel: nat,
    results: Seq<Seq<char>>,
)
    requires
        env.len() >= 1,
    ensures
        same_outer_scopes(env, run(tokens, pos, env, fuel, results).env),
    decreases tokens.len() - pos,
{
    if !(pos < 0 || pos >= tokens.len()) {
        lemma_eval_keeps_scopes(tokens, pos, env, fuel);
        let r = eval(tokens, pos, env, fuel);
        if r.result is Ok && pos < r.position <= tokens.len() {
            lemma_run_keeps_scopes(tokens, r.position, r.env, fuel, results.push(r.result->Ok_0));
        }
    }
}

} // verus!
