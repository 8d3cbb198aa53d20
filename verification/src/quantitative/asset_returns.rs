//! Returns of a price series.
//!
//! The return at position `i` compares price `i + 1` with price `i`, so a
//! series of `n` prices has `n - 1` returns and every price but the last
//! becomes a divisor.

use vstd::prelude::*;
use crate::quantitative::double::Double;

verus! {

/// Why returns could not be computed.
#[derive(Debug, Clone, PartialEq, Eq)]
pub enum ReturnsError {
    /// The input holds no element.
    EmptyInput,
    /// The series of this length cannot yield returns: it has fewer than
    /// two prices, or a price that would be divided by is zero.
    LengthError(usize),
    /// The method is not available for the named kind of input.
    NotImplementedFor(String),
}

/// How a return relates two consecutive prices.
#[derive(Debug, Clone, Copy, PartialEq, Eq, Structural)]
pub enum ReturnType {
    /// The ratio of the two prices.
    Absolute,
    /// The ratio less one.
    Arithmetic,
    /// The natural logarithm of the ratio.
    Logarithmic,
}

/// Some price that a return divides by is zero: any but the last.
pub open spec fn zero_divisor(prices: Seq<Double>) -> bool {
    exists|i: int| 0 <= i < prices.len() - 1 && (#[trigger] prices[i]).zero()
}

/// Number of returns a series of adjusted closing prices yields.
///
/// A series with fewer than two prices, or with a zero among the prices
/// that are divided by, is refused with its own length.
pub fn returns_count(prices: &Vec<Double>) -> (r: Result<usize, ReturnsError>)
    ensures
        prices@.len() < 2 || zero_divisor(prices@) ==> r == Err::<usize, ReturnsError>(
            ReturnsError::LengthError(prices@.len() as usize),
        ),
        prices@.len() >= 2 && !zero_divisor(prices@) ==> r == Ok::<usize, ReturnsError>(
            (prices@.len() - 1) as usize,
        ),
{
    let n = prices.len();
    if n < 2 {
        return Err(ReturnsError::LengthError(n));
    }
    let mut i: usize = 1;
    while i < n
        invariant
            1 <= i <= n,
            n == prices@.len(),
            forall|k: int| 0 <= k < i - 1 ==> !(#[trigger] prices@[k]).zero(),
        decreases n - i,
    {
        if prices[i - 1].is_zero() {
            assert(prices@[i - 1].zero());
            return Err(ReturnsError::LengthError(n));
        }
        i = i + 1;
    }
    Ok(n - 1)
}

/// Number of returns between the rows of a table of prices for several
/// assets: one for each row after the first. A table of fewer than two
/// rows is refused with its own length.
pub fn table_returns_count(rows: usize) -> (r: Result<usize, ReturnsError>)
    ensures
        rows < 2 ==> r == Err::<usize, ReturnsError>(ReturnsError::LengthError(rows)),
        rows >= 2 ==> r == Ok::<usize, ReturnsError>((rows - 1) as usize),
{
    if rows < 2 {
        Err(ReturnsError::LengthError(rows))
    } else {
        Ok(rows - 1)
    }
}

} // verus!
