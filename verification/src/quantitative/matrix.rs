//! Errors of matrix statistics.

use vstd::prelude::*;

verus! {

/// Why a statistic of a matrix was refused.
#[derive(Debug, Clone, Copy, PartialEq, Eq, Structural)]
pub enum MatrixError {
    /// The matrix holds no observation.
    EmptyInput,
    /// The matrix has no inverse.
    NonInvertible,
    /// The rows differ in length.
    InvalidDimensions,
}

} // verus!
