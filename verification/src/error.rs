//! The failures that the arithmetic can report.

use vstd::prelude::*;

verus! {

/// Why an operation could not be carried out.
#[derive(Clone, Copy, Debug, PartialEq, Eq, Structural)]
pub enum EccError {
    /// A modular inverse was asked of an element that has none.
    NoInverse,
    /// A point does not satisfy the curve equation.
    InvalidPoint,
}

} // verus!
