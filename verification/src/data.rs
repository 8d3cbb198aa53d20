//! Kinds of market data a caller can ask for.

pub mod options;
pub mod yahoo;
