//! What a dated return offers to the routines that align and aggregate
//! returns.

use vstd::prelude::*;
use crate::fin_numerical::math::asset_returns::Return;
use crate::quantitative::double::Double;

verus! {

/// A value that carries the date and time it belongs to, as text.
pub trait ReturnDatetime {
    /// The text that [`ReturnDatetime::datetime`] hands out.
    spec fn datetime_text(&self) -> Seq<char>;

    /// The date, optionally followed by white space and a time of day.
    fn datetime(&self) -> (r: &str)
        ensures
            r@ == self.datetime_text(),
    ;
}

/// A value that carries the return of an asset.
pub trait AssetReturn {
    /// The number that [`AssetReturn::asset_return`] hands out.
    spec fn return_value(&self) -> Double;

    /// The return.
    fn asset_return(&self) -> (r: Double)
        ensures
            r == self.return_value(),
    ;
}

impl ReturnDatetime for Return {
    open spec fn datetime_text(&self) -> Seq<char> {
        self.datetime@
    }

    fn datetime(&self) -> (r: &str) {
        self.datetime.as_str()
    }
}

impl AssetReturn for Return {
    open spec fn return_value(&self) -> Double {
        self.asset_return
    }

    fn asset_return(&self) -> (r: Double) {
        self.asset_return
    }
}

} // verus!
