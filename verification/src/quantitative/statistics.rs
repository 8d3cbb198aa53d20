//! Statistics over one-dimensional arrays.
//!
//! The array routines leave the arithmetic to their numeric backend. What
//! they decide themselves is decided here: an empty array is refused, two
//! arrays that are read in pairs must agree in shape, and a variance kind
//! fixes the degrees of freedom removed.

pub mod greeks;

use vstd::prelude::*;
use crate::quantitative::error::EmptyInput;
use crate::quantitative::error::MinMaxErr;
use crate::quantitative::error::MultiInputErr;
use crate::quantitative::error::ShapeMismatch;

verus! {

/// The aggregation a mean uses.
#[derive(Clone, Copy, Debug, PartialEq, Eq, Structural)]
pub enum MeanType {
    Arithmetic,
    Harmonic,
    Geometric,
    /// Announced, not available: no routine accepts it.
    Weighted,
}

/// Which estimator a variance or standard deviation uses.
#[derive(Clone, Copy, Debug, PartialEq, Eq, Structural)]
pub enum VarType {
    /// Divide by `n - 1`.
    Sample,
    /// Divide by `n`.
    Population,
}

/// Degrees of freedom a variance of this kind removes from `n`.
pub fn degrees_removed(kind: VarType) -> (r: u8)
    ensures
        kind == VarType::Sample ==> r == 1,
        kind == VarType::Population ==> r == 0,
{
    match kind {
        VarType::Sample => 1,
        VarType::Population => 0,
    }
}

/// Admits an array of `len` elements to a minimum, maximum or range.
pub fn check_extreme(len: usize) -> (r: Result<(), MinMaxErr>)
    ensures
        len == 0 ==> r == Err::<(), MinMaxErr>(MinMaxErr::EmptyInput),
        len > 0 ==> r is Ok,
{
    if len == 0 {
        Err(MinMaxErr::EmptyInput)
    } else {
        Ok(())
    }
}

/// Admits an array of `len` elements to a variance or standard deviation.
pub fn check_dispersion(len: usize) -> (r: Result<(), EmptyInput>)
    ensures
        len == 0 <==> r is Err,
{
    if len == 0 {
        Err(EmptyInput)
    } else {
        Ok(())
    }
}

/// Admits two arrays, of `first` and `second` elements, to a covariance or
/// correlation. An empty array is reported before a mismatch, and a
/// mismatch carries both shapes.
pub fn check_pair(first: usize, second: usize) -> (r: Result<(), MultiInputErr>)
    ensures
        first == 0 || second == 0 ==> (r matches Err(e) && e is EmptyInput),
        first > 0 && second > 0 && first != second ==> (r matches Err(
            MultiInputErr::ShapeMismatch(shapes),
        ) && shapes.f_shape@ == seq![first] && shapes.s_shape@ == seq![second]),
        first > 0 && first == second ==> r is Ok,
{
    if first == 0 || second == 0 {
        return Err(MultiInputErr::EmptyInput);
    }
    if first != second {
        let mut f_shape: Vec<usize> = Vec::new();
        f_shape.push(first);
        let mut s_shape: Vec<usize> = Vec::new();
        s_shape.push(second);
        assert(f_shape@ =~= seq![first]);
        assert(s_shape@ =~= seq![second]);
        return Err(MultiInputErr::ShapeMismatch(ShapeMismatch { f_shape, s_shape }));
    }
    Ok(())
}

} // verus!
