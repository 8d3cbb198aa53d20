//! Alpha and beta of an asset against a market.
//!
//! Both are quotients and differences of numbers computed elsewhere. The
//! checks that stand before the arithmetic are made here: a market variance
//! of zero is no divisor, and an alpha is computed from finite numbers
//! only.

use vstd::prelude::*;
use crate::quantitative::double::Double;

verus! {

/// Refuses a market variance of zero as the divisor of a beta.
pub fn check_market_variance(market_variance: Double) -> (r: Result<(), String>)
    ensures
        market_variance.zero() ==> (r matches Err(message) && message@
            == "Error: market variance is zero, can not divide by zero."@),
        !market_variance.zero() ==> r is Ok,
{
    if market_variance.is_zero() {
        Err("Error: market variance is zero, can not divide by zero.".to_owned())
    } else {
        Ok(())
    }
}

/// Admits the four inputs of an alpha. A NaN among them is reported before
/// an infinity.
pub fn check_alpha_inputs(
    asset_return: Double,
    market_return: Double,
    risk_free_rate: Double,
    beta: Double,
) -> (r: Result<(), String>)
    ensures
        asset_return.nan() || market_return.nan() || risk_free_rate.nan() || beta.nan() ==> (
        r matches Err(message) && message@ == "Input values must not be NaN"@),
        !(asset_return.nan() || market_return.nan() || risk_free_rate.nan() || beta.nan()) && (
        asset_return.infinite() || market_return.infinite() || risk_free_rate.infinite()
            || beta.infinite()) ==> (r matches Err(message) && message@
            == "Input values must not be infinite"@),
        !(asset_return.nan() || market_return.nan() || risk_free_rate.nan() || beta.nan()) && !(
        asset_return.infinite() || market_return.infinite() || risk_free_rate.infinite()
            || beta.infinite()) ==> r is Ok,
{
    if asset_return.is_nan() || market_return.is_nan() || risk_free_rate.is_nan() || beta.is_nan() {
        return Err("Input values must not be NaN".to_owned());
    }
    if asset_return.is_infinite() || market_return.is_infinite() || risk_free_rate.is_infinite()
        || beta.is_infinite() {
        return Err("Input values must not be infinite".to_owned());
    }
    Ok(())
}

} // verus!
