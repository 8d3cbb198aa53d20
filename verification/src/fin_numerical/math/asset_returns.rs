//! Returns between consecutive quotes.

use vstd::prelude::*;
use crate::quantitative::double::Double;

verus! {

/// How a return relates two consecutive prices.
#[derive(Debug, Clone, Copy, PartialEq, Eq, Structural)]
pub enum ReturnType {
    /// The natural logarithm of the ratio.
    Logarithmic,
    /// The ratio less one.
    Arithmetic,
}

/// The return of an asset at a point in time.
#[derive(Debug, Clone)]
pub struct Return {
    pub datetime: String,
    pub asset_return: Double,
}

/// Bits of `2^-52`, the gap between `1.0` and the next double. A price
/// smaller in magnitude counts as zero.
pub const NEGLIGIBLE_BITS: u64 = 0x3CB0_0000_0000_0000;

/// Whether a price is too small in magnitude to divide by or to take a
/// ratio of: `|price| < 2^-52`.
pub open spec fn negligible(price: Double) -> bool {
    price.absolute().less(Double { bits: NEGLIGIBLE_BITS })
}

/// Number of returns a series of adjusted closing prices yields.
///
/// Fewer than two prices are refused first; then any price that counts as
/// zero, since every price enters a ratio.
pub fn returns_count(prices: &Vec<Double>) -> (r: Result<usize, String>)
    ensures
        prices@.len() < 2 ==> (r matches Err(message) && message@
            == "Not enough data to calculate returns."@),
        prices@.len() >= 2 && (exists|i: int|
            0 <= i < prices@.len() && negligible(#[trigger] prices@[i])) ==> (r matches Err(message)
            && message@ == "Error: adjclose value is zero."@),
        prices@.len() >= 2 && !(exists|i: int|
            0 <= i < prices@.len() && negligible(#[trigger] prices@[i])) ==> r == Ok::<
            usize,
            String,
        >((prices@.len() - 1) as usize),
{
    let n = prices.len();
    if n < 2 {
        return Err("Not enough data to calculate returns.".to_owned());
    }
    let mut i: usize = 0;
    while i < n
        invariant
            i <= n,
            n >= 2,
            n == prices@.len(),
            forall|k: int| 0 <= k < i ==> !negligible(#[trigger] prices@[k]),
        decreases n - i,
    {
        if prices[i].abs().lt(Double::from_bits(NEGLIGIBLE_BITS)) {
            assert(negligible(prices@[i as int]));
            return Err("Error: adjclose value is zero.".to_owned());
        }
        i = i + 1;
    }
    Ok(n - 1)
}

} // verus!
