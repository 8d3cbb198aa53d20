//! Returns of quoted prices.

pub mod asset_returns;
