//! Decision core of a quantitative analytics toolkit.
//!
//! Every rule the toolkit applies before, between and after its numeric
//! kernels lives here and is proved: which inputs a statistic accepts and
//! which error it reports, how values are ordered and selected, how a
//! pairwise matrix is assembled, and when an iterative root search stops.
//! Double-precision values are carried by their bit patterns, see
//! [`quantitative::double`]; they are classified, compared and selected
//! here, and the arithmetic on them is supplied by the caller.
//!
//! Around the core stand the helpers that feed it: dates and timestamps in
//! [`commons::date`], the alignment of dated returns in
//! [`quantitative::utils`].

pub mod commons;
pub mod data;
pub mod fin_numerical;
pub mod portfolio;
pub mod quantitative;
pub mod utils;
