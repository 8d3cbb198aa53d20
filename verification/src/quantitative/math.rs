//! Descriptive statistics, pairwise matrices and regression.

pub mod matrices;
pub mod order;
pub mod regression;
pub mod statistics;
