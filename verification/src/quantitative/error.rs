//! Errors of the array-based statistics.

use vstd::prelude::*;
use vstd::std_specs::convert::FromSpecImpl;

verus! {

/// The input holds no element.
#[derive(Debug, Clone, Copy, PartialEq, Eq, Structural)]
pub struct EmptyInput;

/// Why a minimum or maximum could not be computed.
#[derive(Debug, Clone, Copy, PartialEq, Eq, Structural)]
pub enum MinMaxErr {
    /// The input holds no element.
    EmptyInput,
    /// Two of the values compared have no order between them.
    UndefinedOrder,
}

impl From<EmptyInput> for MinMaxErr {
    fn from(e: EmptyInput) -> (r: MinMaxErr) {
        MinMaxErr::EmptyInput
    }
}

impl FromSpecImpl<EmptyInput> for MinMaxErr {
    open spec fn obeys_from_spec() -> bool {
        true
    }

    open spec fn from_spec(e: EmptyInput) -> MinMaxErr {
        MinMaxErr::EmptyInput
    }
}

/// Two arrays that are read in pairs differ in shape.
#[derive(Debug, Clone, PartialEq)]
pub struct ShapeMismatch {
    /// Shape of the first array, one length per axis.
    pub f_shape: Vec<usize>,
    /// Shape of the second array.
    pub s_shape: Vec<usize>,
}

/// Why a statistic of several arrays was refused.
#[derive(Debug, Clone, PartialEq)]
pub enum MultiInputErr {
    /// One of the arrays holds no element.
    EmptyInput,
    /// The arrays differ in shape.
    ShapeMismatch(ShapeMismatch),
}

impl MultiInputErr {
    /// Whether `self` is the `EmptyInput` variant.
    pub fn is_empty_input(&self) -> (r: bool)
        ensures
            r == (self is EmptyInput),
    {
        match self {
            MultiInputErr::EmptyInput => true,
            _ => false,
        }
    }

    /// Whether `self` is the `ShapeMismatch` variant.
    pub fn is_shapemismatch(&self) -> (r: bool)
        ensures
            r == (self is ShapeMismatch),
    {
        match self {
            MultiInputErr::ShapeMismatch(_) => true,
            _ => false,
        }
    }
}

impl From<EmptyInput> for MultiInputErr {
    fn from(e: EmptyInput) -> (r: MultiInputErr) {
        MultiInputErr::EmptyInput
    }
}

impl FromSpecImpl<EmptyInput> for MultiInputErr {
    open spec fn obeys_from_spec() -> bool {
        true
    }

    open spec fn from_spec(e: EmptyInput) -> MultiInputErr {
        MultiInputErr::EmptyInput
    }
}

impl From<ShapeMismatch> for MultiInputErr {
    fn from(e: ShapeMismatch) -> (r: MultiInputErr) {
        MultiInputErr::ShapeMismatch(e)
    }
}

impl FromSpecImpl<ShapeMismatch> for MultiInputErr {
    open spec fn obeys_from_spec() -> bool {
        true
    }

    open spec fn from_spec(e: ShapeMismatch) -> MultiInputErr {
        MultiInputErr::ShapeMismatch(e)
    }
}

} // verus!
