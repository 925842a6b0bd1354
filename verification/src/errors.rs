//! The error taxonomy of the library.
//!
//! Every failure of parsing or evaluation is reported as a typed value of
//! [`RollError`]; no verified function of this crate panics.

use vstd::prelude::*;

verus! {

/// Why value computation failed.
#[derive(Debug, Clone, Copy, PartialEq, Eq, Structural)]
pub enum ArithmeticKind {
    /// Division or modulo with a zero right-hand value.
    DivisionByZero,
    /// An intermediate result does not fit in a signed 64-bit integer.
    Overflow,
}

/// The failures that a dice-roll submission can surface.
#[derive(Debug, Clone, Copy, PartialEq, Eq, Structural)]
pub enum RollError {
    /// The input does not match the grammar (unexpected character, unmatched
    /// parenthesis, empty input); `at` is the offending character position.
    GrammarError { at: usize },
    /// The grammar matched, but a numeral starting at character position `at`
    /// does not fit in an unsigned 32-bit integer.
    ParseError { at: usize },
    /// A dice spec asks for dice with zero faces; detected before any
    /// sampling takes place.
    InvalidDice,
    /// Value computation failed on the rolled tree.
    ArithmeticError { kind: ArithmeticKind },
}

} // verus!
