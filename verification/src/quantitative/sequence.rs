//! Generated sequences: by step, by repetition, evenly or logarithmically
//! spaced, and running sums.
//!
//! The generators fill their arrays with the caller's arithmetic; which
//! parameters they accept is decided here.

use vstd::prelude::*;
use crate::quantitative::double::Double;

verus! {

/// Why a sequence could not be generated.
#[derive(Debug, Clone, Copy, PartialEq, Eq, Structural)]
pub enum SequenceErr {
    /// A step of zero never reaches the end.
    InvalidStep,
    /// The number of elements does not fit a machine index.
    UsizeConversionFailed,
    /// The ends coincide, or no element is asked for.
    InvalidParams,
    /// A value has no double-precision form.
    FloatConversionFailed,
    /// The input holds no element.
    EmptyInput,
}

/// Admits the step of a stepped sequence: any but zero.
pub fn check_step(step: Double) -> (r: Result<(), SequenceErr>)
    ensures
        step.zero() ==> r == Err::<(), SequenceErr>(SequenceErr::InvalidStep),
        !step.zero() ==> r is Ok,
{
    if step.is_zero() {
        Err(SequenceErr::InvalidStep)
    } else {
        Ok(())
    }
}

/// Admits the parameters of a spaced sequence from `start` to `end` in
/// `count` elements: the ends must differ and `count` must not be zero.
pub fn check_span(start: Double, end: Double, count: usize) -> (r: Result<(), SequenceErr>)
    ensures
        start.same(end) || count == 0 ==> r == Err::<(), SequenceErr>(SequenceErr::InvalidParams),
        !start.same(end) && count > 0 ==> r is Ok,
{
    if start.eq_value(end) || count == 0 {
        Err(SequenceErr::InvalidParams)
    } else {
        Ok(())
    }
}

/// Every element of `values` is `0.0` or `-0.0`.
pub open spec fn all_zero(values: Seq<Double>) -> bool {
    forall|i: int| 0 <= i < values.len() ==> (#[trigger] values[i]).zero()
}

/// Decides how a running sum of `values` is made: an empty input is
/// refused, and an input of zeros alone is its own running sum, which the
/// result reports as `true`.
pub fn cumsum_is_identity(values: &Vec<Double>) -> (r: Result<bool, SequenceErr>)
    ensures
        values@.len() == 0 ==> r == Err::<bool, SequenceErr>(SequenceErr::EmptyInput),
        values@.len() > 0 ==> r == Ok::<bool, SequenceErr>(all_zero(values@)),
{
    if values.len() == 0 {
        return Err(SequenceErr::EmptyInput);
    }
    let mut i: usize = 0;
    while i < values.len()
        invariant
            i <= values.len(),
            forall|k: int| 0 <= k < i ==> (#[trigger] values@[k]).zero(),
        decreases values.len() - i,
    {
        if !values[i].is_zero() {
            assert(!values@[i as int].zero());
            return Ok(false);
        }
        i = i + 1;
    }
    Ok(true)
}

} // verus!
