//! Option contracts by side.

use vstd::prelude::*;

verus! {

/// Which side of an option chain is asked for.
#[derive(Debug, Clone, Copy, PartialEq, Eq, Structural)]
pub enum ContractType {
    /// The right to buy.
    Call,
    /// The right to sell.
    Put,
}

} // verus!
