//! Options by type.

use vstd::prelude::*;

verus! {

/// Which type of option is asked for.
#[derive(Debug, Clone, Copy, PartialEq, Eq, Structural)]
pub enum OptionType {
    /// The right to buy.
    Call,
    /// The right to sell.
    Put,
}

} // verus!
