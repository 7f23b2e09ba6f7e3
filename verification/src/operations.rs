//! The operators of the language: their tables, and what each does to
//! integers and booleans.

use vstd::prelude::*;
use vstd::string::*;
use crate::error::{Fault, InterpretError};
use crate::text::{bool_of_text, same_text};

verus! {

/// What an operator atom asks for.
#[derive(Debug, Clone, Copy, PartialEq, Eq, Structural)]
pub enum Operation {
    Add,
    Mul,
    Div,
    Sub,
    Lt,
    Lte,
    Gt,
    Gte,
    And,
    Or,
    Equ,
    Neg,
    Not,
}

/// The text an operation is written with.
pub open spec fn symbol(op: Operation) -> Seq<char> {
    match op {
        Operation::Add => "+"@,
        Operation::Mul => "*"@,
        Operation::Div => "/"@,
        Operation::Sub => "-"@,
        Operation::Lt => "<"@,
        Operation::Lte => "<="@,
        Operation::Gt => ">"@,
        Operation::Gte => ">="@,
        Operation::And => "&"@,
        Operation::Or => "|"@,
        Operation::Equ => "=="@,
        Operation::Neg => "-"@,
        Operation::Not => "!"@,
    }
}

/// The text an operation is written with.
pub fn operation_symbol(op: Operation) -> (r: &'static str)
    ensures
        r@ == symbol(op),
{
    match op {
        Operation::Add => "+",
        Operation::Mul => "*",
        Operation::Div => "/",
        Operation::Sub => "-",
        Operation::Lt => "<",
        Operation::Lte => "<=",
        Operation::Gt => ">",
        Operation::Gte => ">=",
        Operation::And => "&",
        Operation::Or => "|",
        Operation::Equ => "==",
        Operation::Neg => "-",
        Operation::Not => "!",
    }
}

/// The entries of the table of binary arithmetic operators.
pub open spec fn binary_entries() -> Seq<(Seq<char>, Operation)> {
    seq![
        ("+"@, Operation::Add),
        ("*"@, Operation::Mul),
        ("/"@, Operation::Div),
        ("-"@, Operation::Sub),
    ]
}

/// The entries of the table of comparisons and boolean connectives.
pub open spec fn logic_entries() -> Seq<(Seq<char>, Operation)> {
    seq![
        ("<"@, Operation::Lt),
        ("<="@, Operation::Lte),
        (">"@, Operation::Gt),
        (">="@, Operation::Gte),
        ("&"@, Operation::And),
        ("|"@, Operation::Or),
        ("=="@, Operation::Equ),
    ]
}

/// The entries of the table of unary operators.
pub open spec fn unary_entries() -> Seq<(Seq<char>, Operation)> {
    seq![("-"@, Operation::Neg), ("!"@, Operation::Not)]
}

/// The contents of an operator table.
pub open spec fn table_view(table: Seq<(&'static str, Operation)>) -> Seq<(Seq<char>, Operation)> {
    Seq::new(table.len(), |i: int| (table[i].0@, table[i].1))
}

/// The operation that the first entry named `name` gives, if any does.
pub open spec fn find_entry(entries: Seq<(Seq<char>, Operation)>, name: Seq<char>) -> Option<
    Operation,
>
    decreases entries.len(),
{
    if entries.len() == 0 {
        None
    } else if entries[0].0 == name {
        Some(entries[0].1)
    } else {
        find_entry(entries.skip(1), name)
    }
}

/// The table of binary arithmetic operators.
pub fn create_binary_map() -> (r: Vec<(&'static str, Operation)>)
    ensures
        table_view(r@) == binary_entries(),
{
    let mut map: Vec<(&'static str, Operation)> = Vec::new();
    map.push(("+", Operation::Add));
    map.push(("*", Operation::Mul));
    map.push(("/", Operation::Div));
    map.push(("-", Operation::Sub));
    assert(table_view(map@) =~= binary_entries());
    map
}

/// The table of comparisons and boolean connectives.
pub fn create_logic_map() -> (r: Vec<(&'static str, Operation)>)
    ensures
        table_view(r@) == logic_entries(),
{
    let mut map: Vec<(&'static str, Operation)> = Vec::new();
    map.push(("<", Operation::Lt));
    map.push(("<=", Operation::Lte));
    map.push((">", Operation::Gt));
    map.push((">=", Operation::Gte));
    map.push(("&", Operation::And));
    map.push(("|", Operation::Or));
    map.push(("==", Operation::Equ));
    assert(table_view(map@) =~= logic_entries());
    map
}

/// The table of unary operators.
pub fn create_unary_map() -> (r: Vec<(&'static str, Operation)>)
    ensures
        table_view(r@) == unary_entries(),
{
    let mut map: Vec<(&'static str, Operation)> = Vec::new();
    map.push(("-", Operation::Neg));
    map.push(("!", Operation::Not));
    assert(table_view(map@) =~= unary_entries());
    map
}

/// Looks an operator up in a table.
pub fn find_operation(table: &Vec<(&'static str, Operation)>, name: &str) -> (r: Option<Operation>)
    ensures
        r == find_entry(table_view(table@), name@),
{
    let ghost entries = table_view(table@);
    let mut i: usize = 0;
    assert(entries.skip(0) =~= entries);
    while i < table.len()
        invariant
            i <= table.len(),
            entries == table_view(table@),
            find_entry(entries, name@) == find_entry(entries.skip(i as int), name@),
        decreases table.len() - i,
    {
        let ghost rest = entries.skip(i as int);
        assert(rest[0] == entries[i as int]);
        assert(rest.skip(1) =~= entries.skip(i + 1));
        if same_text(table[i].0, name) {
            return Some(table[i].1);
        }
        i += 1;
    }
    None
}

/// Division that rounds toward zero, for a divisor that is not zero.
pub open spec fn truncated_quotient(a: int, b: int) -> int {
    if a >= 0 {
        if b > 0 {
            a / b
        } else {
            -(a / (-b))
        }
    } else {
        if b > 0 {
            -((-a) / b)
        } else {
            (-a) / (-b)
        }
    }
}

/// A 32-bit signed result, or an arithmetic error where it does not fit.
pub open spec fn in_range(v: int) -> Result<int, Fault> {
    if i32::MIN <= v <= i32::MAX {
        Ok(v)
    } else {
        Err(Fault::ArithmeticError)
    }
}

/// What a binary arithmetic operation gives on two integers: the exact
/// result where it fits in 32 bits, an arithmetic error where it does not
/// or where the divisor is zero.
pub open spec fn binary_value(op: Operation, a: int, b: int) -> Result<int, Fault> {
    match op {
        Operation::Add => in_range(a + b),
        Operation::Sub => in_range(a - b),
        Operation::Mul => in_range(a * b),
        Operation::Div => if b == 0 {
            Err(Fault::ArithmeticError)
        } else {
            in_range(truncated_quotient(a, b))
        },
        _ => Err(Fault::UnknownOperator(symbol(op))),
    }
}

/// What a unary operation gives on an integer: only negation takes one.
pub open spec fn unary_value(op: Operation, a: int) -> Result<int, Fault> {
    match op {
        Operation::Neg => in_range(-a),
        Operation::Not => Err(Fault::ParseFailure),
        _ => Err(Fault::UnknownOperator(symbol(op))),
    }
}

/// What a comparison gives on two integers.
pub open spec fn logical_int_value(op: Operation, a: int, b: int) -> Result<bool, Fault> {
    match op {
        Operation::Lt => Ok(a < b),
        Operation::Lte => Ok(a <= b),
        Operation::Gt => Ok(a > b),
        Operation::Gte => Ok(a >= b),
        Operation::Equ => Ok(a == b),
        _ => Err(Fault::UnknownOperator(symbol(op))),
    }
}

/// What a boolean connective gives on two booleans.
pub open spec fn logical_bool_value(op: Operation, a: bool, b: bool) -> Result<bool, Fault> {
    match op {
        Operation::And => Ok(a && b),
        Operation::Or => Ok(a || b),
        _ => Err(Fault::UnknownOperator(symbol(op))),
    }
}

/// Whether an executable result holds what its model says.
pub open spec fn same_number(r: Result<i32, InterpretError>, m: Result<int, Fault>) -> bool {
    match r {
        Ok(v) => m == Ok::<int, Fault>(v as int),
        Err(e) => m == Err::<int, Fault>(e@),
    }
}

/// Whether an executable result holds what its model says.
pub open spec fn same_truth(r: Result<bool, InterpretError>, m: Result<bool, Fault>) -> bool {
    match r {
        Ok(v) => m == Ok::<bool, Fault>(v),
        Err(e) => m == Err::<bool, Fault>(e@),
    }
}

fn checked_result(v: i64) -> (r: Result<i32, InterpretError>)
    ensures
        same_number(r, in_range(v as int)),
{
    if v < -0x8000_0000 || v > 0x7fff_ffff {
        Err(InterpretError::ArithmeticError)
    } else {
        Ok(v as i32)
    }
}

/// Applies a binary arithmetic operation to two 32-bit integers.
pub fn binary(operation: Operation, left: i32, right: i32) -> (r: Result<i32, InterpretError>)
    ensures
        same_number(r, binary_value(operation, left as int, right as int)),
{
    let a: i64 = left as i64;
    let b: i64 = right as i64;
    match operation {
        Operation::Add => checked_result(a + b),
        Operation::Sub => checked_result(a - b),
        Operation::Mul => {
            assert(-0x8000_0000 * 0x8000_0000 <= a * b <= 0x8000_0000 * 0x8000_0000)
                by (nonlinear_arith)
                requires
                    -0x8000_0000 <= a <= 0x7fff_ffff,
                    -0x8000_0000 <= b <= 0x7fff_ffff,
            ;
            checked_result(a * b)
        },
        Operation::Div => {
            if right == 0 {
                Err(InterpretError::ArithmeticError)
            } else {
                let ma: u64 = if a < 0 {
                    (-a) as u64
                } else {
                    a as u64
                };
                let mb: u64 = if b < 0 {
                    (-b) as u64
                } else {
                    b as u64
                };
                let q: u64 = ma / mb;
                assert(q <= ma) by (nonlinear_arith)
                    requires
                        q == ma / mb,
                        mb > 0,
                ;
                let v: i64 = if (a < 0) != (b < 0) {
                    -(q as i64)
                } else {
                    q as i64
                };
                checked_result(v)
            }
        },
        _ => Err(InterpretError::UnknownOperator(operation_symbol(operation).to_owned())),
    }
}

/// Applies a unary operation to a 32-bit integer.
pub fn unary(operation: Operation, left: i32) -> (r: Result<i32, InterpretError>)
    ensures
        same_number(r, unary_value(operation, left as int)),
{
    match operation {
        Operation::Neg => checked_result(-(left as i64)),
        Operation::Not => Err(InterpretError::ParseFailure),
        _ => Err(InterpretError::UnknownOperator(operation_symbol(operation).to_owned())),
    }
}

/// Compares two 32-bit integers.
pub fn logical_int(operation: Operation, left: i32, right: i32) -> (r: Result<
    bool,
    InterpretError,
>)
    ensures
        same_truth(r, logical_int_value(operation, left as int, right as int)),
{
    match operation {
        Operation::Lt => Ok(left < right),
        Operation::Lte => Ok(left <= right),
        Operation::Gt => Ok(left > right),
        Operation::Gte => Ok(left >= right),
        Operation::Equ => Ok(left == right),
        _ => Err(InterpretError::UnknownOperator(operation_symbol(operation).to_owned())),
    }
}

/// Joins two booleans.
pub fn logical_bool(operation: Operation, left: bool, right: bool) -> (r: Result<
    bool,
    InterpretError,
>)
    ensures
        same_truth(r, logical_bool_value(operation, left, right)),
{
    match operation {
        Operation::And => Ok(left && right),
        Operation::Or => Ok(left || right),
        _ => Err(InterpretError::UnknownOperator(operation_symbol(operation).to_owned())),
    }
}

/// Reads a text as a boolean: exactly `true` or `false`.
pub fn parse_bool(b: &str) -> (r: Result<bool, String>)
    ensures
        match r {
            Ok(v) => bool_of_text(b@) == Some(v),
            Err(message) => bool_of_text(b@) is None && message@
                == "Error converting to boolean"@,
        },
{
    if same_text(b, "true") {
        Ok(true)
    } else if same_text(b, "false") {
        Ok(false)
    } else {
        Err("Error converting to boolean".to_owned())
    }
}

} // verus!
