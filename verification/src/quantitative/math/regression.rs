//! Single-factor regression: the sensitivity of an asset to a market.
//!
//! Beta is the sample covariance of the asset with the market over the
//! corrected sample variance of the market.

use vstd::prelude::*;
use crate::quantitative::math::statistics::covariance_plan;
use crate::quantitative::math::statistics::variance_plan;
use crate::quantitative::math::statistics::NumericSequence;
use crate::quantitative::math::statistics::StatisticsError;
use crate::quantitative::math::statistics::VarianceType;

verus! {

/// What both halves of a beta divide by, or the error owed.
///
/// The covariance is asked first and its errors pass through unchanged;
/// the variance of the market is asked second. A market whose variance
/// comes out as zero is not refused here.
pub fn beta_divisor(asset: &NumericSequence, market: &NumericSequence) -> (r: Result<
    usize,
    StatisticsError,
>)
    ensures
        r == covariance_plan(asset@.len(), market@.len()),
        r is Ok ==> r == variance_plan(market@.len(), VarianceType::CorrectedSample),
{
    let shared = asset.covariance_divisor(market)?;
    let own = market.variance_divisor(VarianceType::CorrectedSample)?;
    assert(shared == own);
    Ok(own)
}

/// Once the covariance of two sequences is admitted, so is the corrected
/// variance of either, over the same divisor: a beta never fails at its
/// second step.
pub proof fn lemma_variance_follows_covariance(n: nat, m: nat)
    requires
        covariance_plan(n, m) is Ok,
    ensures
        variance_plan(n, VarianceType::CorrectedSample) == covariance_plan(n, m),
        variance_plan(m, VarianceType::CorrectedSample) == covariance_plan(n, m),
{
}

} // verus!
