//! Errors of a portfolio.

use vstd::prelude::*;

verus! {

/// Why a figure of a portfolio could not be computed.
#[derive(Debug, Clone, PartialEq, Eq)]
pub enum PortfolioError {
    /// The returns under the figure could not be computed; holds the
    /// reason.
    ReturnsError(String),
}

} // verus!
