//! Numerical routines on market data.

pub mod math;
