//! The failures of tokenizing, tree building and evaluation.

use vstd::prelude::*;

verus! {

/// Which way a run of tokens fails to nest.
#[derive(Debug, Clone, Copy, PartialEq, Eq, Structural)]
pub enum DelimiterFault {
    /// A `)` with no list open.
    UnmatchedClose,
    /// The input ended while a list was open.
    UnclosedList,
}

/// Why tokenizing, tree building or evaluation stopped.
#[derive(Debug, Clone, PartialEq)]
pub enum InterpretError {
    /// An operator atom names nothing in the table for its kind.
    UnknownOperator(String),
    /// A text is not the integer or boolean that was called for.
    ParseFailure,
    /// The cursor was asked for more than the input holds.
    UnexpectedEnd,
    /// The parentheses do not nest.
    UnbalancedDelimiter(DelimiterFault),
    /// Division by zero, or a result outside the 32-bit signed range.
    ArithmeticError,
    /// Evaluation nested deeper than its budget allows.
    RecursionLimit,
}

/// The mathematical content of an `InterpretError`.
pub enum Fault {
    UnknownOperator(Seq<char>),
    ParseFailure,
    UnexpectedEnd,
    UnbalancedDelimiter(DelimiterFault),
    ArithmeticError,
    RecursionLimit,
}

impl View for InterpretError {
    type V = Fault;

    open spec fn view(&self) -> Fault {
        match *self {
            InterpretError::UnknownOperator(name) => Fault::UnknownOperator(name@),
            InterpretError::ParseFailure => Fault::ParseFailure,
            InterpretError::UnexpectedEnd => Fault::UnexpectedEnd,
            InterpretError::UnbalancedDelimiter(d) => Fault::UnbalancedDelimiter(d),
            InterpretError::ArithmeticError => Fault::ArithmeticError,
            InterpretError::RecursionLimit => Fault::RecursionLimit,
        }
    }
}

} // verus!
