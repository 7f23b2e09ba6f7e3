//! The tree builder: classifies atoms, joins two-token operators and
//! rebuilds the nesting that the parentheses of a flat token run describe.

use vstd::prelude::*;
use vstd::string::*;
use crate::text::{all_digits, is_digit_char, same_text};
use crate::error::{DelimiterFault, Fault, InterpretError};
use crate::tokenizer::{lex_at, scan, token_at, tokenize};
use crate::tokens::{Token, TokenModel, TokenType};

verus! {

/// The semantic class of an atom.
#[derive(Debug, Clone, Copy, PartialEq, Eq, Structural)]
pub enum Kind {
    Identifier,
    Literal,
    Function,
    Condition,
    Binary,
    Unary,
    LogicalInt,
    LogicalBool,
    Format,
    Separator,
}

/// A classified atom: its kind and its literal text.
#[derive(Debug, Clone, PartialEq)]
pub struct Element {
    pub kind: Kind,
    pub value: String,
}

/// An expression: one atom, or a list of expressions.
#[derive(Debug, PartialEq)]
pub enum ParserResult {
    Atom(Element),
    Expression(Vec<ParserResult>),
}

/// The mathematical content of a `ParserResult`.
pub enum Sexp {
    Atom(Kind, Seq<char>),
    List(Seq<Sexp>),
}

impl View for ParserResult {
    type V = Sexp;

    open spec fn view(&self) -> Sexp
        decreases self,
    {
        match self {
            ParserResult::Atom(e) => Sexp::Atom(e.kind, e.value@),
            ParserResult::Expression(items) => Sexp::List(
                Seq::new(
                    items@.len(),
                    |i: int|
                        if 0 <= i < items@.len() {
                            items@[i]@
                        } else {
                            Sexp::List(Seq::empty())
                        },
                ),
            ),
        }
    }
}

/// The contents of a sequence of expressions.
pub open spec fn forest(trees: Seq<ParserResult>) -> Seq<Sexp> {
    Seq::new(trees.len(), |i: int| trees[i]@)
}

/// The texts of a run of strings.
pub open spec fn texts(tokens: Seq<String>) -> Seq<Seq<char>> {
    Seq::new(tokens.len(), |i: int| tokens[i]@)
}

/// A text that begins and ends with a double quote.
pub open spec fn is_quoted(v: Seq<char>) -> bool {
    v.len() > 0 && v[0] == '"' && v[v.len() - 1] == '"'
}

/// The kind of an atom, decided by its text alone.
pub open spec fn classify(v: Seq<char>) -> Kind {
    if v == "("@ || v == ")"@ {
        Kind::Separator
    } else if v == "define"@ {
        Kind::Function
    } else if v == "if"@ {
        Kind::Condition
    } else if v == "format"@ {
        Kind::Format
    } else if v == "<"@ || v == "<="@ || v == ">"@ || v == ">="@ || v == "=="@ || v == "="@ || v
        == "!="@ {
        Kind::LogicalInt
    } else if v == "+"@ || v == "-"@ || v == "*"@ || v == "/"@ || v == "**"@ || v == "%"@ {
        Kind::Binary
    } else if v == "&"@ || v == "|"@ {
        Kind::LogicalBool
    } else if v == "!"@ {
        Kind::Unary
    } else if v == "true"@ || v == "false"@ {
        Kind::Literal
    } else if is_quoted(v) || all_digits(v) {
        Kind::Literal
    } else {
        Kind::Identifier
    }
}

/// Whether token `a` directly followed by token `b` reads as one operator.
pub open spec fn joins(a: Seq<char>, b: Seq<char>) -> bool {
    (b == "="@ && (a == "<"@ || a == ">"@ || a == "="@ || a == "!"@)) || (a == "*"@ && b == "*"@)
}

/// The token run after operator lookahead: from the left, each pair that
/// `joins` becomes one token.
pub open spec fn merge(tokens: Seq<Seq<char>>) -> Seq<Seq<char>>
    decreases tokens.len(),
{
    if tokens.len() == 0 {
        Seq::empty()
    } else if tokens.len() >= 2 && joins(tokens[0], tokens[1]) {
        seq![tokens[0] + tokens[1]] + merge(tokens.skip(2))
    } else {
        seq![tokens[0]] + merge(tokens.skip(1))
    }
}

/// The tokens that an expression is written with.
pub open spec fn flatten_tree(t: Sexp) -> Seq<Seq<char>>
    decreases t,
{
    match t {
        Sexp::Atom(_, v) => seq![v],
        Sexp::List(items) => seq!["("@] + flatten(items) + seq![")"@],
    }
}

/// The tokens that a sequence of expressions is written with.
pub open spec fn flatten(trees: Seq<Sexp>) -> Seq<Seq<char>>
    decreases trees,
{
    if trees.len() == 0 {
        Seq::empty()
    } else {
        flatten_tree(trees[0]) + flatten(trees.skip(1))
    }
}

/// Every atom carries the kind of its text and is no parenthesis.
pub open spec fn well_kinded_tree(t: Sexp) -> bool
    decreases t,
{
    match t {
        Sexp::Atom(k, v) => k == classify(v) && k != Kind::Separator,
        Sexp::List(items) => well_kinded(items),
    }
}

/// Every atom of every expression carries the kind of its text.
pub open spec fn well_kinded(trees: Seq<Sexp>) -> bool
    decreases trees,
{
    forall|i: int| 0 <= i < trees.len() ==> well_kinded_tree(#[trigger] trees[i])
}

/// Opens minus closes over a token run.
pub open spec fn nesting(tokens: Seq<Seq<char>>) -> int
    decreases tokens.len(),
{
    if tokens.len() == 0 {
        0
    } else {
        nesting(tokens.drop_last()) + if tokens.last() == "("@ {
            1int
        } else if tokens.last() == ")"@ {
            -1int
        } else {
            0int
        }
    }
}

/// Some `)` of the run has no `(` before it to match.
pub open spec fn closes_early(tokens: Seq<Seq<char>>) -> bool {
    exists|k: int| 0 <= k <= tokens.len() && nesting(#[trigger] tokens.take(k)) < 0
}

/// The parentheses of the run nest.
pub open spec fn balanced(tokens: Seq<Seq<char>>) -> bool {
    !closes_early(tokens) && nesting(tokens) == 0
}

/// `trees` is what the token run `tokens` describes.
pub open spec fn is_parse_of(trees: Seq<Sexp>, tokens: Seq<Seq<char>>) -> bool {
    well_kinded(trees) && flatten(trees) == merge(tokens)
}

/// Whether a text begins and ends with a double quote.
pub fn quoted(value: &str) -> (r: bool)
    ensures
        r == is_quoted(value@),
{
    let n: usize = value.unicode_len();
    n > 0 && value.get_char(0) == '"' && value.get_char(n - 1) == '"'
}

/// Whether a text holds digits only.
pub fn digits_only(value: &str) -> (r: bool)
    ensures
        r == all_digits(value@),
{
    let n: usize = value.unicode_len();
    let mut i: usize = 0;
    while i < n
        invariant
            n == value@.len(),
            i <= n,
            forall|j: int| 0 <= j < i ==> crate::text::is_digit(#[trigger] value@[j]),
        decreases n - i,
    {
        if !is_digit_char(value.get_char(i)) {
            return false;
        }
        i += 1;
    }
    true
}

/// Classifies an atom by its text.
pub fn kind_of(value: &str) -> (r: Kind)
    ensures
        r == classify(value@),
{
    if same_text(value, "(") || same_text(value, ")") {
        Kind::Separator
    } else if same_text(value, "define") {
        Kind::Function
    } else if same_text(value, "if") {
        Kind::Condition
    } else if same_text(value, "format") {
        Kind::Format
    } else if same_text(value, "<") || same_text(value, "<=") || same_text(value, ">")
        || same_text(value, ">=") || same_text(value, "==") || same_text(value, "=") || same_text(
        value,
        "!=",
    ) {
        Kind::LogicalInt
    } else if same_text(value, "+") || same_text(value, "-") || same_text(value, "*") || same_text(
        value,
        "/",
    ) || same_text(value, "**") || same_text(value, "%") {
        Kind::Binary
    } else if same_text(value, "&") || same_text(value, "|") {
        Kind::LogicalBool
    } else if same_text(value, "!") {
        Kind::Unary
    } else if same_text(value, "true") || same_text(value, "false") {
        Kind::Literal
    } else if quoted(value) || digits_only(value) {
        Kind::Literal
    } else {
        Kind::Identifier
    }
}

impl Clone for ParserResult {
    fn clone(&self) -> (r: Self)
        ensures
            r@ == self@,
        decreases self,
    {
        match self {
            ParserResult::Atom(e) => ParserResult::Atom(
                Element { kind: e.kind, value: e.value.clone() },
            ),
            ParserResult::Expression(items) => {
                let mut out: Vec<ParserResult> = Vec::new();
                let mut i: usize = 0;
                while i < items.len()
                    invariant
                        *self == ParserResult::Expression(*items),
                        i <= items.len(),
                        out@.len() == i,
                        forall|j: int| 0 <= j < i ==> out@[j]@ == items@[j]@,
                    decreases items.len() - i,
                {
                    proof {
                        vstd::std_specs::vec::axiom_vec_index_decreases(*items, i as int);
                        assert(self->Expression_0 == *items);
                        assert(decreases_to!(*self => self->Expression_0));
                    }
                    let c = items[i].clone();
                    out.push(c);
                    i += 1;
                }
                let r = ParserResult::Expression(out);
                assert(r@->List_0 =~= self@->List_0);
                r
            },
        }
    }
}

/// Copies a sequence of expressions.
pub fn clone_trees(trees: &Vec<ParserResult>) -> (r: Vec<ParserResult>)
    ensures
        forest(r@) == forest(trees@),
{
    let mut out: Vec<ParserResult> = Vec::new();
    let mut i: usize = 0;
    while i < trees.len()
        invariant
            i <= trees.len(),
            out@.len() == i,
            forall|j: int| 0 <= j < i ==> out@[j]@ == trees@[j]@,
        decreases trees.len() - i,
    {
        out.push(trees[i].clone());
        i += 1;
    }
    assert(forest(out@) =~= forest(trees@));
    out
}

/// Writing one more expression after a sequence appends its tokens.
pub proof fn lemma_flatten_push(trees: Seq<Sexp>, t: Sexp)
    ensures
        flatten(trees.push(t)) == flatten(trees) + flatten_tree(t),
    decreases trees.len(),
{
    let longer = trees.push(t);
    if trees.len() == 0 {
        assert(longer.skip(1) =~= Seq::<Sexp>::empty());
        assert(flatten(longer.skip(1)) =~= Seq::<Seq<char>>::empty());
        assert(flatten(longer) =~= flatten_tree(t));
        assert(flatten(trees) + flatten_tree(t) =~= flatten_tree(t));
    } else {
        assert(longer.skip(1) =~= trees.skip(1).push(t));
        lemma_flatten_push(trees.skip(1), t);
        assert(flatten(longer) =~= flatten(trees) + flatten_tree(t));
    }
}

/// The tokens read so far, as the open lists hold them: the outermost
/// first, each further one behind the `(` that opened it.
pub open spec fn flatten_frames(frames: Seq<Seq<Sexp>>) -> Seq<Seq<char>>
    decreases frames.len(),
{
    if frames.len() == 0 {
        Seq::empty()
    } else if frames.len() == 1 {
        flatten(frames[0])
    } else {
        flatten_frames(frames.drop_last()) + seq!["("@] + flatten(frames.last())
    }
}

/// The contents of a stack of open lists.
pub open spec fn frames_view(frames: Seq<Vec<ParserResult>>) -> Seq<Seq<Sexp>> {
    Seq::new(frames.len(), |i: int| forest(frames[i]@))
}

proof fn lemma_frames_open(frames: Seq<Seq<Sexp>>)
    requires
        frames.len() >= 1,
    ensures
        flatten_frames(frames.push(Seq::empty())) == flatten_frames(frames).push("("@),
{
    let longer = frames.push(Seq::empty());
    assert(longer.drop_last() =~= frames);
    assert(flatten(Seq::<Sexp>::empty()) =~= Seq::<Seq<char>>::empty());
    assert(flatten_frames(longer) =~= flatten_frames(frames).push("("@));
}

proof fn lemma_frames_extend(frames: Seq<Seq<Sexp>>, t: Sexp)
    requires
        frames.len() >= 1,
    ensures
        flatten_frames(frames.drop_last().push(frames.last().push(t))) == flatten_frames(frames)
            + flatten_tree(t),
{
    let changed = frames.drop_last().push(frames.last().push(t));
    lemma_flatten_push(frames.last(), t);
    if frames.len() == 1 {
        assert(changed[0] == frames[0].push(t));
    } else {
        assert(changed.drop_last() =~= frames.drop_last());
        assert(flatten_frames(changed) =~= flatten_frames(frames) + flatten_tree(t));
    }
}

proof fn lemma_frames_close(frames: Seq<Seq<Sexp>>)
    requires
        frames.len() >= 2,
    ensures
        flatten_frames(
            frames.drop_last().drop_last().push(
                frames[frames.len() - 2].push(Sexp::List(frames.last())),
            ),
        ) == flatten_frames(frames).push(")"@),
{
    let outer = frames.drop_last();
    lemma_frames_extend(outer, Sexp::List(frames.last()));
    assert(flatten_frames(frames) == flatten_frames(outer) + seq!["("@] + flatten(frames.last()));
    assert(flatten_tree(Sexp::List(frames.last())) == seq!["("@] + flatten(frames.last()) + seq![
        ")"@,
    ]);
    assert(flatten_frames(outer) + (seq!["("@] + flatten(frames.last()) + seq![")"@])
        =~= flatten_frames(frames).push(")"@));
}

/// Whether two tokens in a row read as one operator.
fn joined(a: &str, b: &str) -> (r: bool)
    ensures
        r == joins(a@, b@),
{
    (same_text(b, "=") && (same_text(a, "<") || same_text(a, ">") || same_text(a, "=")
        || same_text(a, "!"))) || (same_text(a, "*") && same_text(b, "*"))
}

/// Builds the expressions that a flat run of tokens describes.
///
/// Operator lookahead joins `<` `=`, `>` `=`, `=` `=`, `!` `=` and `*` `*`
/// into one atom each; every `(` opens a list that the matching `)`
/// closes. The result is the sequence of top-level expressions, and it
/// fails exactly when the parentheses do not nest, saying which way.
pub fn parse_list(tokens: &[String]) -> (r: Result<Vec<ParserResult>, InterpretError>)
    ensures
        match r {
            Ok(trees) => balanced(texts(tokens@)) && is_parse_of(forest(trees@), texts(tokens@)),
            Err(e) => !balanced(texts(tokens@)) && e == InterpretError::UnbalancedDelimiter(
                if closes_early(texts(tokens@)) {
                    DelimiterFault::UnmatchedClose
                } else {
                    DelimiterFault::UnclosedList
                },
            ),
        },
{
    let ghost ts = texts(tokens@);
    let ghost all = merge(ts);
    proof {
        lemma_merge_keeps_balance(ts);
    }
    let n: usize = tokens.len();
    let mut frames: Vec<Vec<ParserResult>> = Vec::new();
    frames.push(Vec::new());
    let ghost mut done: Seq<Seq<char>> = Seq::empty();
    let mut i: usize = 0;
    proof {
        assert(forest(frames@[0]@) =~= Seq::<Sexp>::empty());
        assert(flatten(frames_view(frames@)[0]) =~= Seq::<Seq<char>>::empty());
        assert(ts.skip(0) =~= ts);
        assert(done + merge(ts.skip(0)) =~= all);
    }
    while i < n
        invariant
            n == tokens@.len(),
            ts == texts(tokens@),
            all == merge(ts),
            closes_early(all) == closes_early(ts),
            balanced(all) == balanced(ts),
            i <= n,
            frames@.len() >= 1,
            done == flatten_frames(frames_view(frames@)),
            done + merge(ts.skip(i as int)) == all,
            nesting(done) == frames@.len() - 1,
            forall|k: int| 0 <= k <= done.len() ==> nesting(#[trigger] done.take(k)) >= 0,
            forall|j: int|
                0 <= j < frames@.len() ==> well_kinded(#[trigger] frames_view(frames@)[j]),
        decreases n - i,
    {
        let ghost rest = ts.skip(i as int);
        let ghost fv = frames_view(frames@);
        let ghost old_done = done;
        assert(rest[0] == ts[i as int]);
        assert(ts[i as int] == tokens@[i as int]@);
        let value: String;
        let next: usize;
        if i + 1 < n && joined(tokens[i].as_str(), tokens[i + 1].as_str()) {
            assert(rest[1] == ts[i + 1]);
            assert(ts[i + 1] == tokens@[i + 1]@);
            assert(rest.skip(2) =~= ts.skip(i + 2));
            let mut both: String = tokens[i].clone();
            both.append(tokens[i + 1].as_str());
            value = both;
            next = i + 2;
        } else {
            if i + 1 < n {
                assert(rest[1] == ts[i + 1]);
                assert(ts[i + 1] == tokens@[i + 1]@);
            }
            assert(rest.skip(1) =~= ts.skip(i + 1));
            value = tokens[i].clone();
            next = i + 1;
        }
        proof {
            assert(merge(rest) == seq![value@] + merge(ts.skip(next as int)));
            done = old_done.push(value@);
            assert(done + merge(ts.skip(next as int)) =~= old_done + merge(rest));
            assert(done.drop_last() =~= old_done);
            assert(all.take(done.len() as int) =~= done);
            assert forall|k: int| 0 <= k < done.len() implies #[trigger] done.take(k)
                == old_done.take(k) by {
                assert(done.take(k) =~= old_done.take(k));
            }
            assert(done.take(done.len() as int) =~= done);
        }
        if same_text(value.as_str(), "(") {
            let fresh: Vec<ParserResult> = Vec::new();
            assert(forest(fresh@) =~= Seq::<Sexp>::empty());
            frames.push(fresh);
            proof {
                lemma_frames_open(fv);
                assert(frames_view(frames@) =~= fv.push(Seq::empty()));
            }
        } else if same_text(value.as_str(), ")") {
            if frames.len() < 2 {
                proof {
                    assert(nesting(all.take(done.len() as int)) < 0);
                }
                return Err(InterpretError::UnbalancedDelimiter(DelimiterFault::UnmatchedClose));
            }
            let inner: Vec<ParserResult> = frames.pop().unwrap();
            let mut outer: Vec<ParserResult> = frames.pop().unwrap();
            let ghost outer_before = forest(outer@);
            let list = ParserResult::Expression(inner);
            assert(list@->List_0 =~= fv.last());
            outer.push(list);
            frames.push(outer);
            proof {
                lemma_frames_close(fv);
                assert(forest(outer@) =~= outer_before.push(Sexp::List(fv.last())));
                assert(frames_view(frames@) =~= fv.drop_last().drop_last().push(
                    fv[fv.len() - 2].push(Sexp::List(fv.last())),
                ));
                assert(well_kinded(fv[fv.len() - 1]));
                assert(well_kinded(fv[fv.len() - 2]));
            }
        } else {
            let kind: Kind = kind_of(value.as_str());
            let mut top: Vec<ParserResult> = frames.pop().unwrap();
            let ghost top_before = forest(top@);
            let atom = ParserResult::Atom(Element { kind, value });
            top.push(atom);
            frames.push(top);
            proof {
                lemma_frames_extend(fv, atom@);
                assert(forest(top@) =~= top_before.push(atom@));
                assert(frames_view(frames@) =~= fv.drop_last().push(fv.last().push(atom@)));
                assert(flatten_tree(atom@) =~= seq![atom@->Atom_1]);
                assert(old_done + flatten_tree(atom@) =~= done);
                assert(well_kinded(fv[fv.len() - 1]));
            }
        }
        i = next;
    }
    proof {
        assert(ts.skip(n as int) =~= Seq::<Seq<char>>::empty());
        assert(done =~= all);
    }
    if frames.len() != 1 {
        proof {
            assert forall|k: int| 0 <= k <= all.len() implies nesting(#[trigger] all.take(k))
                >= 0 by {}
        }
        return Err(InterpretError::UnbalancedDelimiter(DelimiterFault::UnclosedList));
    }
    let trees: Vec<ParserResult> = frames.pop().unwrap();
    assert(forest(trees@) == frames_view(seq![trees])[0]);
    Ok(trees)
}

/// An expression is written with at least one token; the first is `(`
/// exactly for a list, and never `)`.
pub proof fn lemma_first_token(t: Sexp)
    requires
        well_kinded_tree(t),
    ensures
        flatten_tree(t).len() >= 1,
        flatten_tree(t)[0] != ")"@,
        (flatten_tree(t)[0] == "("@) <==> (t is List),
{
    reveal_strlit("(");
    reveal_strlit(")");
    assert("("@ != ")"@) by {
        assert("("@[0] == '(');
        assert(")"@[0] == ')');
    }
}

/// An expression can be read off the front of a token run in one way only.
pub proof fn lemma_tree_prefix(s: Sexp, t: Sexp, x: Seq<Seq<char>>, y: Seq<Seq<char>>)
    requires
        well_kinded_tree(s),
        well_kinded_tree(t),
        flatten_tree(s) + x == flatten_tree(t) + y,
    ensures
        s == t,
        x == y,
    decreases s, 0int,
{
    lemma_first_token(s);
    lemma_first_token(t);
    let left = flatten_tree(s) + x;
    let right = flatten_tree(t) + y;
    assert(left[0] == flatten_tree(s)[0]);
    assert(right[0] == flatten_tree(t)[0]);
    match s {
        Sexp::Atom(k, v) => {
            assert(left.skip(1) =~= x);
            assert(right.skip(1) =~= y);
        },
        Sexp::List(a) => {
            let b = t->List_0;
            assert(left.skip(1) =~= flatten(a) + seq![")"@] + x);
            assert(right.skip(1) =~= flatten(b) + seq![")"@] + y);
            lemma_forest_prefix(a, b, x, y);
        },
    }
}

/// A sequence of expressions followed by `)` can be read off the front of
/// a token run in one way only.
pub proof fn lemma_forest_prefix(f: Seq<Sexp>, g: Seq<Sexp>, x: Seq<Seq<char>>, y: Seq<Seq<char>>)
    requires
        well_kinded(f),
        well_kinded(g),
        flatten(f) + seq![")"@] + x == flatten(g) + seq![")"@] + y,
    ensures
        f == g,
        x == y,
    decreases f, 1int,
{
    let left = flatten(f) + seq![")"@] + x;
    let right = flatten(g) + seq![")"@] + y;
    if f.len() > 0 {
        lemma_first_token(f[0]);
        assert(left[0] == flatten_tree(f[0])[0]);
    } else {
        assert(left[0] == ")"@);
    }
    if g.len() > 0 {
        lemma_first_token(g[0]);
        assert(right[0] == flatten_tree(g[0])[0]);
    } else {
        assert(right[0] == ")"@);
    }
    if f.len() == 0 {
        assert(f =~= g);
        assert(left.skip(1) =~= x);
        assert(right.skip(1) =~= y);
    } else {
        let x1 = flatten(f.skip(1)) + seq![")"@] + x;
        let y1 = flatten(g.skip(1)) + seq![")"@] + y;
        assert(left =~= flatten_tree(f[0]) + x1);
        assert(right =~= flatten_tree(g[0]) + y1);
        lemma_tree_prefix(f[0], g[0], x1, y1);
        assert forall|i: int| 0 <= i < f.skip(1).len() implies well_kinded_tree(
            #[trigger] f.skip(1)[i],
        ) by {
            assert(f.skip(1)[i] == f[i + 1]);
        }
        assert forall|i: int| 0 <= i < g.skip(1).len() implies well_kinded_tree(
            #[trigger] g.skip(1)[i],
        ) by {
            assert(g.skip(1)[i] == g[i + 1]);
        }
        lemma_forest_prefix(f.skip(1), g.skip(1), x, y);
        assert(f =~= seq![f[0]] + f.skip(1));
        assert(g =~= seq![g[0]] + g.skip(1));
    }
}

/// Two sequences of expressions that are written with the same tokens
/// are the same.
pub proof fn lemma_flatten_injective(f: Seq<Sexp>, g: Seq<Sexp>)
    requires
        well_kinded(f),
        well_kinded(g),
        flatten(f) == flatten(g),
    ensures
        f == g,
{
    lemma_forest_prefix(f, g, Seq::empty(), Seq::empty());
}

/// A token run describes at most one sequence of expressions: what
/// `parse_list` returns for it is the only one.
pub proof fn lemma_parse_unique(tokens: Seq<Seq<char>>, f: Seq<Sexp>, g: Seq<Sexp>)
    requires
        is_parse_of(f, tokens),
        is_parse_of(g, tokens),
    ensures
        f == g,
{
    lemma_flatten_injective(f, g);
}

/// The first token after lookahead is the first token before it, alone or
/// joined with the second.
proof fn lemma_merge_head(tokens: Seq<Seq<char>>)
    requires
        tokens.len() > 0,
    ensures
        merge(tokens).len() > 0,
        tokens.len() >= 2 && joins(tokens[0], tokens[1]) ==> merge(tokens)[0] == tokens[0]
            + tokens[1],
        !(tokens.len() >= 2 && joins(tokens[0], tokens[1])) ==> merge(tokens)[0] == tokens[0],
{
}

/// A joined operator has two characters, each of its halves one.
proof fn lemma_joined_length(a: Seq<char>, b: Seq<char>)
    requires
        joins(a, b),
    ensures
        a.len() == 1,
        b.len() == 1,
        (a + b).len() == 2,
        forall|c: Seq<char>| !joins(a + b, c),
        forall|c: Seq<char>| !joins(c, a + b),
{
    reveal_strlit("<");
    reveal_strlit(">");
    reveal_strlit("=");
    reveal_strlit("!");
    reveal_strlit("*");
}

/// Lookahead leaves nothing to join: running it twice changes nothing more.
pub proof fn lemma_merge_idempotent(tokens: Seq<Seq<char>>)
    ensures
        merge(merge(tokens)) == merge(tokens),
    decreases tokens.len(),
{
    let m = merge(tokens);
    if tokens.len() == 0 {
    } else if tokens.len() >= 2 && joins(tokens[0], tokens[1]) {
        let rest = merge(tokens.skip(2));
        lemma_joined_length(tokens[0], tokens[1]);
        lemma_merge_idempotent(tokens.skip(2));
        assert(m[0] == tokens[0] + tokens[1]);
        assert(m.skip(1) =~= rest);
        assert(merge(m) =~= m);
    } else {
        let tail = tokens.skip(1);
        let rest = merge(tail);
        lemma_merge_idempotent(tail);
        assert(m[0] == tokens[0]);
        assert(m.skip(1) =~= rest);
        if m.len() >= 2 {
            assert(m[1] == rest[0]);
            assert(tail.len() > 0);
            lemma_merge_head(tail);
            assert(tail[0] == tokens[1]);
            if tail.len() >= 2 && joins(tail[0], tail[1]) {
                lemma_joined_length(tail[0], tail[1]);
            }
            assert(!joins(m[0], m[1]));
        }
        assert(merge(m) =~= m);
    }
}

/// Round trip: writing the expressions of a balanced token run back out
/// and building them again gives the same expressions.
pub proof fn lemma_round_trip(tokens: Seq<Seq<char>>, trees: Seq<Sexp>, again: Seq<Sexp>)
    requires
        balanced(tokens),
        is_parse_of(trees, tokens),
        is_parse_of(again, flatten(trees)),
    ensures
        balanced(flatten(trees)),
        again == trees,
{
    lemma_merge_idempotent(tokens);
    lemma_merge_keeps_balance(tokens);
    lemma_merge_keeps_balance(flatten(trees));
    lemma_flatten_injective(again, trees);
}

/// The text of an expression: an atom's own text; for a list, the texts
/// of its items with one space between them.
pub open spec fn tree_text(t: Sexp) -> Seq<char>
    decreases t,
{
    match t {
        Sexp::Atom(_, v) => v,
        Sexp::List(items) => spaced_text(items),
    }
}

/// The texts of a sequence of expressions with one space between them.
pub open spec fn spaced_text(trees: Seq<Sexp>) -> Seq<char>
    decreases trees,
{
    if trees.len() == 0 {
        Seq::empty()
    } else if trees.len() == 1 {
        tree_text(trees[0])
    } else {
        spaced_text(trees.drop_last()) + seq![' '] + tree_text(trees.last())
    }
}

impl ParserResult {
    /// The text of the expression.
    pub fn to_string(&self) -> (r: String)
        ensures
            r@ == tree_text(self@),
        decreases self,
    {
        match self {
            ParserResult::Atom(e) => e.value.clone(),
            ParserResult::Expression(items) => {
                let mut out: String = String::new();
                let mut i: usize = 0;
                while i < items.len()
                    invariant
                        *self == ParserResult::Expression(*items),
                        i <= items.len(),
                        out@ == spaced_text(self@->List_0.take(i as int)),
                    decreases items.len() - i,
                {
                    proof {
                        vstd::std_specs::vec::axiom_vec_index_decreases(*items, i as int);
                        assert(self->Expression_0 == *items);
                        assert(decreases_to!(*self => self->Expression_0));
                        reveal_strlit(" ");
                    }
                    let ghost before = self@->List_0.take(i as int);
                    let ghost after = self@->List_0.take(i + 1);
                    let part: String = items[i].to_string();
                    if i > 0 {
                        out.append(" ");
                    }
                    out.append(part.as_str());
                    proof {
                        assert(after.drop_last() =~= before);
                        assert(after.last() == items@[i as int]@);
                        assert(" "@ =~= seq![' ']);
                        if i == 0 {
                            assert(out@ =~= tree_text(after[0]));
                        }
                    }
                    i += 1;
                }
                assert(self@->List_0.take(i as int) =~= self@->List_0);
                out
            },
        }
    }
}

/// Appends to `out` the tokens that `t` is written with.
fn write_tokens(t: &ParserResult, out: &mut Vec<String>)
    ensures
        texts(final(out)@) == texts(old(out)@) + flatten_tree(t@),
    decreases t,
{
    let ghost before = texts(out@);
    match t {
        ParserResult::Atom(e) => {
            out.push(e.value.clone());
            assert(texts(out@) =~= before + flatten_tree(t@));
        },
        ParserResult::Expression(items) => {
            out.push("(".to_owned());
            let mut i: usize = 0;
            assert(t@->List_0.take(0) =~= Seq::<Sexp>::empty());
            assert(texts(out@) =~= before + seq!["("@] + flatten(t@->List_0.take(0)));
            while i < items.len()
                invariant
                    *t == ParserResult::Expression(*items),
                    i <= items.len(),
                    texts(out@) == before + seq!["("@] + flatten(t@->List_0.take(i as int)),
                decreases items.len() - i,
            {
                proof {
                    vstd::std_specs::vec::axiom_vec_index_decreases(*items, i as int);
                    assert(t->Expression_0 == *items);
                    assert(decreases_to!(*t => t->Expression_0));
                    lemma_flatten_push(t@->List_0.take(i as int), items@[i as int]@);
                    assert(t@->List_0.take(i + 1) =~= t@->List_0.take(i as int).push(
                        items@[i as int]@,
                    ));
                }
                write_tokens(&items[i], out);
                i += 1;
            }
            assert(t@->List_0.take(i as int) =~= t@->List_0);
            let ghost inner = texts(out@);
            out.push(")".to_owned());
            proof {
                let mid = flatten(t@->List_0);
                assert(texts(out@) =~= inner.push(")"@));
                assert(flatten_tree(t@) == seq!["("@] + mid + seq![")"@]);
                assert(before + (seq!["("@] + mid + seq![")"@]) =~= (before + seq!["("@]
                    + mid).push(")"@));
            }
        },
    }
}

/// The tokens that a sequence of expressions is written with.
pub fn tokens_of(trees: &[ParserResult]) -> (r: Vec<String>)
    ensures
        texts(r@) == flatten(forest(trees@)),
{
    let mut out: Vec<String> = Vec::new();
    let mut i: usize = 0;
    assert(forest(trees@).take(0) =~= Seq::<Sexp>::empty());
    assert(texts(out@) =~= flatten(forest(trees@).take(0)));
    while i < trees.len()
        invariant
            i <= trees.len(),
            texts(out@) == flatten(forest(trees@).take(i as int)),
        decreases trees.len() - i,
    {
        proof {
            lemma_flatten_push(forest(trees@).take(i as int), trees@[i as int]@);
            assert(forest(trees@).take(i + 1) =~= forest(trees@).take(i as int).push(
                trees@[i as int]@,
            ));
        }
        write_tokens(&trees[i], &mut out);
        i += 1;
    }
    assert(forest(trees@).take(i as int) =~= forest(trees@));
    out
}

/// The expressions of a token run, or none at all where its parentheses
/// do not nest.
pub fn convert(tokens: &[String]) -> (r: Vec<ParserResult>)
    ensures
        balanced(texts(tokens@)) ==> is_parse_of(forest(r@), texts(tokens@)),
        !balanced(texts(tokens@)) ==> r@.len() == 0,
{
    match parse_list(tokens) {
        Ok(trees) => trees,
        Err(_) => Vec::new(),
    }
}

/// A run of `n` spaces.
pub open spec fn spaces(n: nat) -> Seq<char> {
    Seq::new(n, |i: int| ' ')
}

/// The lines that show an expression behind the margin `pad`: an atom on
/// one line; a list as `(`, its items four spaces further in, then `)`.
pub open spec fn tree_lines(t: Sexp, pad: Seq<char>) -> Seq<Seq<char>>
    decreases t,
{
    match t {
        Sexp::Atom(_, v) => seq![pad + v],
        Sexp::List(items) => seq![pad + seq!['(']] + forest_lines(items, pad + spaces(4)) + seq![
            pad + seq![')'],
        ],
    }
}

/// The lines that show a sequence of expressions behind the margin `pad`.
pub open spec fn forest_lines(trees: Seq<Sexp>, pad: Seq<char>) -> Seq<Seq<char>>
    decreases trees,
{
    if trees.len() == 0 {
        Seq::empty()
    } else {
        forest_lines(trees.drop_last(), pad) + tree_lines(trees.last(), pad)
    }
}

/// Appends to `out` the lines that show `t` behind the margin `pad`.
fn write_lines(t: &ParserResult, pad: &str, out: &mut Vec<String>)
    ensures
        texts(final(out)@) == texts(old(out)@) + tree_lines(t@, pad@),
    decreases t,
{
    let ghost before = texts(out@);
    let mut line: String = pad.to_owned();
    match t {
        ParserResult::Atom(e) => {
            line.append(e.value.as_str());
            out.push(line);
            assert(texts(out@) =~= before + tree_lines(t@, pad@));
        },
        ParserResult::Expression(items) => {
            proof {
                reveal_strlit("(");
                reveal_strlit(")");
                reveal_strlit("    ");
            }
            line.append("(");
            assert(line@ =~= pad@ + seq!['(']);
            out.push(line);
            let mut deeper: String = pad.to_owned();
            deeper.append("    ");
            assert(deeper@ =~= pad@ + spaces(4));
            let ghost head = before + seq![pad@ + seq!['(']];
            let mut i: usize = 0;
            assert(t@->List_0.take(0) =~= Seq::<Sexp>::empty());
            assert(texts(out@) =~= head + forest_lines(t@->List_0.take(0), deeper@));
            while i < items.len()
                invariant
                    *t == ParserResult::Expression(*items),
                    i <= items.len(),
                    deeper@ == pad@ + spaces(4),
                    texts(out@) == head + forest_lines(t@->List_0.take(i as int), deeper@),
                decreases items.len() - i,
            {
                proof {
                    vstd::std_specs::vec::axiom_vec_index_decreases(*items, i as int);
                    assert(t->Expression_0 == *items);
                    assert(decreases_to!(*t => t->Expression_0));
                    assert(t@->List_0.take(i + 1).drop_last() =~= t@->List_0.take(i as int));
                    assert(t@->List_0.take(i + 1).last() == items@[i as int]@);
                }
                write_lines(&items[i], deeper.as_str(), out);
                assert(texts(out@) =~= head + forest_lines(t@->List_0.take(i + 1), deeper@));
                i += 1;
            }
            assert(t@->List_0.take(i as int) =~= t@->List_0);
            let ghost inner = texts(out@);
            let mut last: String = pad.to_owned();
            last.append(")");
            assert(last@ =~= pad@ + seq![')']);
            out.push(last);
            proof {
                let mid = forest_lines(t@->List_0, deeper@);
                assert(texts(out@) =~= inner.push(pad@ + seq![')']));
                assert(before + (seq![pad@ + seq!['(']] + mid + seq![pad@ + seq![')']]) =~= (head
                    + mid).push(pad@ + seq![')']));
            }
        },
    }
}

/// The lines that show a sequence of expressions as an indented tree,
/// four spaces to each level, starting `indent` levels in.
pub fn display_tree(tokens: &[ParserResult], indent: usize) -> (r: Vec<String>)
    ensures
        texts(r@) == forest_lines(forest(tokens@), spaces(4 * (indent as nat))),
{
    let mut pad: String = String::new();
    let mut level: usize = 0;
    assert(pad@ =~= spaces(0));
    while level < indent
        invariant
            level <= indent,
            pad@ == spaces(4 * (level as nat)),
        decreases indent - level,
    {
        proof {
            reveal_strlit("    ");
        }
        let ghost before = pad@;
        pad.append("    ");
        assert(pad@ =~= spaces(4 * ((level + 1) as nat)));
        level += 1;
    }
    let mut out: Vec<String> = Vec::new();
    let mut i: usize = 0;
    assert(forest(tokens@).take(0) =~= Seq::<Sexp>::empty());
    assert(texts(out@) =~= forest_lines(forest(tokens@).take(0), pad@));
    while i < tokens.len()
        invariant
            i <= tokens.len(),
            pad@ == spaces(4 * (indent as nat)),
            texts(out@) == forest_lines(forest(tokens@).take(i as int), pad@),
        decreases tokens.len() - i,
    {
        proof {
            assert(forest(tokens@).take(i + 1).drop_last() =~= forest(tokens@).take(i as int));
            assert(forest(tokens@).take(i + 1).last() == tokens@[i as int]@);
        }
        write_lines(&tokens[i], pad.as_str(), &mut out);
        i += 1;
    }
    assert(forest(tokens@).take(i as int) =~= forest(tokens@));
    out
}

/// The text that a token hands to the tree builder: the digits of a
/// number, the lexeme of any other token.
pub open spec fn token_text(t: TokenModel) -> Seq<char> {
    if t.token_type == TokenType::NUMBER && t.lexeme.len() >= 2 {
        t.lexeme.subrange(1, t.lexeme.len() - 1)
    } else {
        t.lexeme
    }
}

/// The texts that a run of tokens hands to the tree builder.
pub open spec fn token_texts(tokens: Seq<TokenModel>) -> Seq<Seq<char>> {
    Seq::new(tokens.len(), |i: int| token_text(tokens[i]))
}

/// The token texts of a source text, or the failure of its first
/// malformed token.
pub open spec fn source_tokens(input: Seq<char>) -> Result<Seq<Seq<char>>, Fault> {
    match scan(input, 0) {
        Ok(tokens) => Ok(token_texts(tokens)),
        Err(e) => Err(e),
    }
}

/// The text that a token hands to the tree builder.
pub fn text_of_token(t: &Token) -> (r: String)
    ensures
        r@ == token_text(t@),
{
    let lexeme: &str = t.lexeme.as_str();
    let n: usize = lexeme.unicode_len();
    if t.token_type == TokenType::NUMBER && n >= 2 {
        lexeme.substring_char(1, n - 1).to_owned()
    } else {
        lexeme.to_owned()
    }
}

/// The text of the atom or parenthesis that starts at `start` of a source
/// text, and the place behind it; nothing where no token starts there.
pub fn atom(input: &str, start: usize) -> (r: Option<(String, usize)>)
    ensures
        match r {
            Some(found) => start < input@.len() && lex_at(input@, start as int) is Token
                && found.0@ == token_text(lex_at(input@, start as int)->Token_0) && found.1
                == lex_at(input@, start as int)->Token_1,
            None => start >= input@.len() || !(lex_at(input@, start as int) is Token),
        },
{
    match token_at(input, start) {
        Some((token, next)) => Some((text_of_token(&token), next)),
        None => None,
    }
}

/// The texts that a run of tokens hands to the tree builder.
pub fn texts_of_tokens(tokens: &Vec<Token>) -> (r: Vec<String>)
    ensures
        texts(r@) == token_texts(crate::tokens::token_models(tokens@)),
{
    let mut out: Vec<String> = Vec::new();
    let mut i: usize = 0;
    while i < tokens.len()
        invariant
            i <= tokens.len(),
            out@.len() == i,
            forall|j: int| 0 <= j < i ==> out@[j]@ == token_text(tokens@[j]@),
        decreases tokens.len() - i,
    {
        out.push(text_of_token(&tokens[i]));
        i += 1;
    }
    assert(texts(out@) =~= token_texts(crate::tokens::token_models(tokens@)));
    out
}

/// Reads a source text into its expressions: tokenizes it, then builds
/// the tree. It fails as the tokenizer does on a malformed token, and as
/// the tree builder does where the parentheses do not nest.
pub fn my_parser(input: &str) -> (r: Result<Vec<ParserResult>, InterpretError>)
    ensures
        match source_tokens(input@) {
            Err(fault) => r matches Err(e) && e@ == fault,
            Ok(tokens) => match r {
                Ok(trees) => balanced(tokens) && is_parse_of(forest(trees@), tokens),
                Err(e) => !balanced(tokens) && e == InterpretError::UnbalancedDelimiter(
                    if closes_early(tokens) {
                        DelimiterFault::UnmatchedClose
                    } else {
                        DelimiterFault::UnclosedList
                    },
                ),
            },
        },
{
    match tokenize(input) {
        Err(e) => Err(e),
        Ok(tokens) => {
            let words: Vec<String> = texts_of_tokens(&tokens);
            parse_list(words.as_slice())
        },
    }
}

/// What a token adds to the nesting: one for `(`, minus one for `)`.
pub open spec fn step_of(token: Seq<char>) -> int {
    if token == "("@ {
        1
    } else if token == ")"@ {
        -1
    } else {
        0
    }
}

/// Some prefix of the run brings a nesting that starts at `base` below
/// zero.
pub open spec fn dips_below(tokens: Seq<Seq<char>>, base: int) -> bool {
    exists|k: int| 0 <= k <= tokens.len() && base + nesting(#[trigger] tokens.take(k)) < 0
}

/// The nesting of a run is what its first token adds and what the rest
/// adds.
pub proof fn lemma_nesting_first(first: Seq<char>, rest: Seq<Seq<char>>)
    ensures
        nesting(seq![first] + rest) == step_of(first) + nesting(rest),
    decreases rest.len(),
{
    let whole = seq![first] + rest;
    if rest.len() == 0 {
        assert(whole.drop_last() =~= Seq::<Seq<char>>::empty());
        assert(whole.last() == first);
        assert(nesting(whole.drop_last()) == 0);
    } else {
        assert(whole.drop_last() =~= seq![first] + rest.drop_last());
        assert(whole.last() == rest.last());
        lemma_nesting_first(first, rest.drop_last());
    }
}

/// A run dips below zero from `base` exactly when `base` is below zero
/// already or the rest dips from what the first token makes of `base`.
pub proof fn lemma_dips_first(first: Seq<char>, rest: Seq<Seq<char>>, base: int)
    ensures
        dips_below(seq![first] + rest, base) <==> (base < 0 || dips_below(
            rest,
            base + step_of(first),
        )),
{
    let whole = seq![first] + rest;
    if dips_below(whole, base) {
        let k = choose|k: int|
            0 <= k <= whole.len() && base + nesting(#[trigger] whole.take(k)) < 0;
        if k == 0 {
            assert(whole.take(0) =~= Seq::<Seq<char>>::empty());
        } else {
            assert(whole.take(k) =~= seq![first] + rest.take(k - 1));
            lemma_nesting_first(first, rest.take(k - 1));
            assert(base + step_of(first) + nesting(rest.take(k - 1)) < 0);
        }
    }
    if base < 0 {
        assert(whole.take(0) =~= Seq::<Seq<char>>::empty());
        assert(base + nesting(whole.take(0)) < 0);
    }
    if dips_below(rest, base + step_of(first)) {
        let j = choose|j: int|
            0 <= j <= rest.len() && base + step_of(first) + nesting(#[trigger] rest.take(j)) < 0;
        assert(whole.take(j + 1) =~= seq![first] + rest.take(j));
        lemma_nesting_first(first, rest.take(j));
        assert(base + nesting(whole.take(j + 1)) < 0);
    }
}

/// Lookahead joins no parenthesis: from any `base`, a token run nests
/// after it exactly as before.
pub proof fn lemma_merge_keeps_nesting(tokens: Seq<Seq<char>>, base: int)
    ensures
        nesting(merge(tokens)) == nesting(tokens),
        dips_below(merge(tokens), base) == dips_below(tokens, base),
    decreases tokens.len(),
{
    reveal_strlit("(");
    reveal_strlit(")");
    reveal_strlit("<");
    reveal_strlit(">");
    reveal_strlit("=");
    reveal_strlit("!");
    reveal_strlit("*");
    if tokens.len() == 0 {
        assert(merge(tokens) =~= tokens);
    } else if tokens.len() >= 2 && joins(tokens[0], tokens[1]) {
        let a = tokens[0];
        let b = tokens[1];
        let rest = tokens.skip(2);
        lemma_joined_length(a, b);
        assert("("@.len() == 1 && ")"@.len() == 1);
        assert("("@[0] == '(' && ")"@[0] == ')');
        assert("<"@[0] == '<' && ">"@[0] == '>' && "="@[0] == '=' && "!"@[0] == '!' && "*"@[0]
            == '*');
        assert(a[0] != '(' && a[0] != ')' && b[0] != '(' && b[0] != ')');
        assert(step_of(a) == 0 && step_of(b) == 0 && step_of(a + b) == 0);
        assert(tokens =~= seq![a] + (seq![b] + rest));
        lemma_merge_keeps_nesting(rest, base);
        lemma_nesting_first(a + b, merge(rest));
        lemma_nesting_first(b, rest);
        lemma_nesting_first(a, seq![b] + rest);
        lemma_dips_first(a + b, merge(rest), base);
        lemma_dips_first(b, rest, base);
        lemma_dips_first(a, seq![b] + rest, base);
        assert(merge(tokens) == seq![a + b] + merge(rest));
        assert(dips_below(merge(tokens), base) == (base < 0 || dips_below(merge(rest), base)));
        assert(dips_below(tokens, base) == (base < 0 || dips_below(rest, base)));
    } else {
        let a = tokens[0];
        let rest = tokens.skip(1);
        assert(tokens =~= seq![a] + rest);
        lemma_merge_keeps_nesting(rest, base + step_of(a));
        lemma_nesting_first(a, merge(rest));
        lemma_nesting_first(a, rest);
        lemma_dips_first(a, merge(rest), base);
        lemma_dips_first(a, rest, base);
        assert(merge(tokens) == seq![a] + merge(rest));
    }
}

/// Whether a token run nests is decided by its parentheses alone:
/// operator lookahead changes neither that nor the way it fails.
pub proof fn lemma_merge_keeps_balance(tokens: Seq<Seq<char>>)
    ensures
        closes_early(merge(tokens)) == closes_early(tokens),
        balanced(merge(tokens)) == balanced(tokens),
{
    lemma_merge_keeps_nesting(tokens, 0);
    assert(closes_early(tokens) == dips_below(tokens, 0));
    assert(closes_early(merge(tokens)) == dips_below(merge(tokens), 0));
}

} // verus!
