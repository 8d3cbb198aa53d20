//! Conversions at the edge of the toolkit.

pub mod parsers;
