//! Helpers shared across the toolkit.

pub mod date;
