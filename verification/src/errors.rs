//! The error kinds shared by every operation of the crate.

use vstd::prelude::*;

verus! {

/// Why an operation of this crate did not produce a value.
#[derive(Debug, PartialEq, Eq, Structural)]
pub enum MathError {
    /// The divisor was zero.
    DivisionByZero,
    /// A negative operand was given where none is allowed.
    PositifIntegerRequired,
    /// The exact result does not fit in 64 signed bits.
    Overflow,
    /// The operand lies outside the domain of the operation.
    OutOfRange,
}

} // verus!
