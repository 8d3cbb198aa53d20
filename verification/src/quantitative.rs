//! Statistics, regression and root finding.

pub mod asset_returns;
pub mod double;
pub mod error;
pub mod math;
pub mod matrix;
pub mod rootfinding;
pub mod sequence;
pub mod statistics;
pub mod traits;
pub mod utils;
pub mod whole;
