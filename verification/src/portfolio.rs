//! Holdings and what can go wrong in valuing them.

pub mod portfolio;
