//! Descriptive statistics over one sequence of doubles.
//!
//! Selection by order (minimum, maximum, median, the two order statistics
//! around a quantile) is done here in full. For the statistics that sum, multiply
//! or take roots, this module decides what comes before and after the
//! arithmetic: whether the sequence is long enough, which error is owed if
//! it is not, what the formula divides by, and whether a dispersion that is
//! about to become a divisor is zero.

use vstd::prelude::*;
use crate::quantitative::double::Double;
use crate::quantitative::double::INFINITY_BITS;
use crate::quantitative::double::SIGN_BIT;
use crate::quantitative::math::order::arrangement_of;
use crate::quantitative::math::order::ascending;
use crate::quantitative::math::order::free_of_nan;
use crate::quantitative::math::order::lemma_ascending;
use crate::quantitative::math::order::sorted;
use crate::quantitative::whole::lemma_whole_part;
use crate::quantitative::whole::lemma_whole_part_monotone;

verus! {

/// Why a statistic was refused.
#[derive(Clone, Copy, Debug, PartialEq, Eq, Structural)]
pub enum StatisticsError {
    /// The sequence has no element.
    EmptyVector,
    /// Kept for callers that match on it; every kind of mean is available.
    MeanTypeNotImplemented,
    /// Kept for callers that match on it; both kinds of variance are
    /// available.
    VarianceTypenotImplented,
    /// Kept for callers that match on it; both kinds of standard deviation
    /// are available.
    StandardDeviationTypeNotImplemented,
    /// Two sequences that are read in pairs differ in length.
    VectorLengthNotEqual,
    /// Fewer than two elements.
    VectorLengthLessThanTwo,
    /// Fewer than three elements.
    VectorLengthLessThanThree,
    /// Fewer than four elements.
    VectorLengthLessThanFour,
    /// A percentile outside `[0, 1]`.
    PercentileError,
    /// A quantile outside `[0, 1]`.
    QuantileError,
    /// A standard deviation that would be divided by is zero.
    StandardDeviationZero,
    /// A harmonic mean was asked of a sequence that holds a zero, whose
    /// reciprocal is no number to sum.
    HarmonicMeanOfZero,
}

/// The aggregation a mean uses.
#[derive(Clone, Copy, Debug, PartialEq, Eq, Structural)]
pub enum MeanType {
    Arithmetic,
    Harmonic,
    Geometric,
    Quadratic,
    Cubic,
}

/// What a variance divides its sum of squares by.
#[derive(Clone, Copy, Debug, PartialEq, Eq, Structural)]
pub enum VarianceType {
    /// Divide by `n - 1`.
    CorrectedSample,
    /// Divide by `n`.
    UncorrectedSample,
}

/// What the variance under a standard deviation divides by.
#[derive(Clone, Copy, Debug, PartialEq, Eq, Structural)]
pub enum StandardDeviationType {
    /// Root of the variance over `n - 1`.
    CorrectedSample,
    /// Root of the variance over `n`.
    UncorrectedSample,
}

/// The centre of a sequence in ascending order.
#[derive(Clone, Copy, Debug, PartialEq, Eq, Structural)]
pub enum Median {
    /// Odd length: the middle element is the median.
    Middle(Double),
    /// Even length: the median is the mean of these two, lower first.
    Between(Double, Double),
}

/// `m` is what a scan for the least element of `data` yields: the first
/// element that no number in `data` lies below, or positive infinity where
/// `data` holds nothing below it. NaNs are passed over.
pub open spec fn minimum_of(m: Double, data: Seq<Double>) -> bool {
    &&& !m.nan()
    &&& forall|i: int| 0 <= i < data.len() && !data[i].nan() ==> m.rank() <= (#[trigger] data[i]).rank()
    &&& m.rank() <= INFINITY_BITS
    &&& m.bits == INFINITY_BITS || exists|i: int| first_at(m, data, i)
}

/// `m` stands at position `i` of `data`, and before it only NaNs and
/// elements of another rank.
pub open spec fn first_at(m: Double, data: Seq<Double>, i: int) -> bool {
    &&& 0 <= i < data.len()
    &&& data[i] == m
    &&& forall|j: int| 0 <= j < i ==> (#[trigger] data[j]).nan() || data[j].rank() != m.rank()
}

/// `m` is what a scan for the greatest element of `data` yields; the
/// mirror image of [`minimum_of`], with negative infinity as the floor.
pub open spec fn maximum_of(m: Double, data: Seq<Double>) -> bool {
    &&& !m.nan()
    &&& forall|i: int| 0 <= i < data.len() && !data[i].nan() ==> (#[trigger] data[i]).rank() <= m.rank()
    &&& -INFINITY_BITS <= m.rank()
    &&& m.bits == SIGN_BIT + INFINITY_BITS || exists|i: int| first_at(m, data, i)
}

/// The centre of an ascending, non-empty sequence.
pub open spec fn centre(ascending: Seq<Double>) -> Median {
    let mid = ascending.len() as int / 2;
    if ascending.len() % 2 == 1 {
        Median::Middle(ascending[mid])
    } else {
        Median::Between(ascending[mid - 1], ascending[mid])
    }
}

/// `m` is the centre of `data` in ascending order.
pub open spec fn median_of(m: Median, data: Seq<Double>) -> bool {
    m == centre(ascending(data))
}

/// `q` is a fraction: `0 <= q <= 1`. A NaN is not.
pub open spec fn unit_fraction(q: Double) -> bool {
    !q.nan() && 0 <= q.rank() <= crate::quantitative::double::ONE_BITS
}

/// An ordered, finite sequence of doubles. Operations read it and never
/// change it.
#[derive(Debug)]
pub struct NumericSequence {
    pub values: Vec<Double>,
}

impl View for NumericSequence {
    type V = Seq<Double>;

    open spec fn view(&self) -> Seq<Double> {
        self.values@
    }
}

impl NumericSequence {
    /// Takes ownership of `values`.
    pub fn new(values: Vec<Double>) -> (r: NumericSequence)
        ensures
            r@ == values@,
    {
        NumericSequence { values }
    }

    /// Number of elements.
    pub fn len(&self) -> (n: usize)
        ensures
            n == self@.len(),
    {
        self.values.len()
    }

    /// Whether any element is a NaN.
    pub fn has_nan(&self) -> (r: bool)
        ensures
            r == !free_of_nan(self@),
    {
        let mut i: usize = 0;
        while i < self.values.len()
            invariant
                i <= self.values.len(),
                forall|k: int| 0 <= k < i ==> !(#[trigger] self@[k]).nan(),
            decreases self.values.len() - i,
        {
            if self.values[i].is_nan() {
                return true;
            }
            i = i + 1;
        }
        false
    }

    /// Whether any element is `0.0` or `-0.0`.
    pub fn has_zero(&self) -> (r: bool)
        ensures
            r == holds_zero(self@),
    {
        let mut i: usize = 0;
        while i < self.values.len()
            invariant
                i <= self.values.len(),
                forall|k: int| 0 <= k < i ==> !(#[trigger] self@[k]).zero(),
            decreases self.values.len() - i,
        {
            if self.values[i].is_zero() {
                assert(self@[i as int].zero());
                return true;
            }
            i = i + 1;
        }
        false
    }

    /// The least element, by a linear scan that passes over NaNs.
    pub fn min(&self) -> (r: Result<Double, StatisticsError>)
        ensures
            self@.len() == 0 <==> r is Err,
            r is Err ==> r == Err::<Double, StatisticsError>(StatisticsError::EmptyVector),
            r is Ok ==> minimum_of(r->Ok_0, self@),
    {
        if self.values.len() == 0 {
            return Err(StatisticsError::EmptyVector);
        }
        let mut best: Double = Double::infinity();
        let mut i: usize = 0;
        while i < self.values.len()
            invariant
                i <= self.values.len(),
                minimum_of(best, self@.take(i as int)),
            decreases self.values.len() - i,
        {
            let x = self.values[i];
            let ghost seen = self@.take(i as int);
            let ghost more = self@.take(i + 1);
            proof {
                assert forall|k: int| 0 <= k < seen.len() implies more[k] == seen[k] by {}
                assert(more[i as int] == x);
            }
            if x.lt(best) {
                best = x;
                proof {
                    assert(first_at(best, more, i as int));
                }
            } else {
                proof {
                    if best.bits != INFINITY_BITS {
                        let w = choose|w: int| first_at(best, seen, w);
                        assert(first_at(best, more, w));
                    }
                }
            }
            i = i + 1;
        }
        proof {
            assert(self@.take(i as int) =~= self@);
        }
        Ok(best)
    }

    /// The greatest element, by a linear scan that passes over NaNs.
    pub fn max(&self) -> (r: Result<Double, StatisticsError>)
        ensures
            self@.len() == 0 <==> r is Err,
            r is Err ==> r == Err::<Double, StatisticsError>(StatisticsError::EmptyVector),
            r is Ok ==> maximum_of(r->Ok_0, self@),
    {
        if self.values.len() == 0 {
            return Err(StatisticsError::EmptyVector);
        }
        let mut best: Double = Double::neg_infinity();
        let mut i: usize = 0;
        while i < self.values.len()
            invariant
                i <= self.values.len(),
                maximum_of(best, self@.take(i as int)),
            decreases self.values.len() - i,
        {
            let x = self.values[i];
            let ghost seen = self@.take(i as int);
            let ghost more = self@.take(i + 1);
            proof {
                assert forall|k: int| 0 <= k < seen.len() implies more[k] == seen[k] by {}
                assert(more[i as int] == x);
            }
            if best.lt(x) {
                best = x;
                proof {
                    assert(first_at(best, more, i as int));
                }
            } else {
                proof {
                    if best.bits != SIGN_BIT + INFINITY_BITS {
                        let w = choose|w: int| first_at(best, seen, w);
                        assert(first_at(best, more, w));
                    }
                }
            }
            i = i + 1;
        }
        proof {
            assert(self@.take(i as int) =~= self@);
        }
        Ok(best)
    }

    /// Both ends of the sequence, least first: the two numbers whose
    /// difference is the range.
    pub fn range_ends(&self) -> (r: Result<(Double, Double), StatisticsError>)
        ensures
            self@.len() == 0 <==> r is Err,
            r is Err ==> r == Err::<(Double, Double), StatisticsError>(StatisticsError::EmptyVector),
            r is Ok ==> minimum_of(r->Ok_0.0, self@) && maximum_of(r->Ok_0.1, self@),
    {
        let low = self.min();
        let high = self.max();
        match (low, high) {
            (Ok(a), Ok(b)) => Ok((a, b)),
            _ => Err(StatisticsError::EmptyVector),
        }
    }

    /// The centre of the sequence: its middle element in ascending order,
    /// or the two elements around the middle when the length is even. The
    /// sequence is sorted in a copy. Sorting compares, and a NaN compares
    /// with nothing: from two elements on the sequence must hold none.
    pub fn median(&self) -> (r: Result<Median, StatisticsError>)
        requires
            self@.len() > 1 ==> free_of_nan(self@),
        ensures
            self@.len() == 0 <==> r is Err,
            r is Err ==> r == Err::<Median, StatisticsError>(StatisticsError::EmptyVector),
            r is Ok ==> median_of(r->Ok_0, self@),
    {
        if self.values.len() == 0 {
            return Err(StatisticsError::EmptyVector);
        }
        let ladder = sorted(&self.values);
        let mid: usize = ladder.len() / 2;
        let m = if ladder.len() % 2 == 0 {
            Median::Between(ladder[mid - 1], ladder[mid])
        } else {
            Median::Middle(ladder[mid])
        };
        Ok(m)
    }
}

/// Bits of `0.25`, the fraction of the lower quartile.
pub const LOWER_QUARTILE_BITS: u64 = 0x3FD0_0000_0000_0000;

/// Bits of `0.75`, the fraction of the upper quartile.
pub const UPPER_QUARTILE_BITS: u64 = 0x3FE8_0000_0000_0000;

/// Some element of `data` is `0.0` or `-0.0`.
pub open spec fn holds_zero(data: Seq<Double>) -> bool {
    exists|k: int| 0 <= k < data.len() && (#[trigger] data[k]).zero()
}

/// Number of terms a mean of `data` aggregates, or the error owed: an
/// empty sequence before a zero under a harmonic mean.
pub open spec fn mean_plan(data: Seq<Double>, kind: MeanType) -> Result<usize, StatisticsError> {
    if data.len() == 0 {
        Err(StatisticsError::EmptyVector)
    } else if kind == MeanType::Harmonic && holds_zero(data) {
        Err(StatisticsError::HarmonicMeanOfZero)
    } else {
        Ok(data.len() as usize)
    }
}

/// What a variance over `n` elements divides by, or the error owed.
pub open spec fn variance_plan(n: nat, kind: VarianceType) -> Result<usize, StatisticsError> {
    if n == 0 {
        Err(StatisticsError::EmptyVector)
    } else {
        match kind {
            VarianceType::CorrectedSample => if n < 2 {
                Err(StatisticsError::VectorLengthLessThanTwo)
            } else {
                Ok((n - 1) as usize)
            },
            VarianceType::UncorrectedSample => Ok(n as usize),
        }
    }
}

/// What the variance under a standard deviation over `n` elements divides
/// by, or the error owed. Two elements are asked for whatever the kind.
pub open spec fn deviation_plan(n: nat, kind: StandardDeviationType) -> Result<
    usize,
    StatisticsError,
> {
    if n < 2 {
        Err(StatisticsError::VectorLengthLessThanTwo)
    } else {
        match kind {
            StandardDeviationType::CorrectedSample => Ok((n - 1) as usize),
            StandardDeviationType::UncorrectedSample => Ok(n as usize),
        }
    }
}

/// What a sample covariance of sequences of lengths `n` and `m` divides
/// by, or the error owed. A mismatch is reported before a short length.
pub open spec fn covariance_plan(n: nat, m: nat) -> Result<usize, StatisticsError> {
    if n != m {
        Err(StatisticsError::VectorLengthNotEqual)
    } else if n < 2 {
        Err(StatisticsError::VectorLengthLessThanTwo)
    } else {
        Ok((n - 1) as usize)
    }
}

/// Refuses a standard deviation of zero as a divisor.
pub fn check_deviation(deviation: Double) -> (r: Result<(), StatisticsError>)
    ensures
        r is Err <==> deviation.zero(),
        r is Err ==> r == Err::<(), StatisticsError>(StatisticsError::StandardDeviationZero),
{
    if deviation.is_zero() {
        Err(StatisticsError::StandardDeviationZero)
    } else {
        Ok(())
    }
}

/// Refuses a correlation when either standard deviation is zero.
pub fn check_deviations(first: Double, second: Double) -> (r: Result<(), StatisticsError>)
    ensures
        r is Err <==> first.zero() || second.zero(),
        r is Err ==> r == Err::<(), StatisticsError>(StatisticsError::StandardDeviationZero),
{
    if first.is_zero() || second.is_zero() {
        Err(StatisticsError::StandardDeviationZero)
    } else {
        Ok(())
    }
}

/// Decides [`unit_fraction`].
pub fn is_unit_fraction(q: Double) -> (r: bool)
    ensures
        r == unit_fraction(q),
{
    Double::positive_zero().le(q) && q.le(Double::one())
}

/// The two fractions an interquantile range is read at: `0.25` and `0.75`.
pub fn quartile_fractions() -> (r: (Double, Double))
    ensures
        r.0.bits == LOWER_QUARTILE_BITS,
        r.1.bits == UPPER_QUARTILE_BITS,
        unit_fraction(r.0),
        unit_fraction(r.1),
{
    (Double::from_bits(LOWER_QUARTILE_BITS), Double::from_bits(UPPER_QUARTILE_BITS))
}

impl NumericSequence {
    /// Number of terms a mean aggregates.
    ///
    /// An empty sequence is refused first. A harmonic mean sums reciprocals
    /// and is refused on a sequence that holds a zero.
    pub fn mean_count(&self, kind: MeanType) -> (r: Result<usize, StatisticsError>)
        ensures
            r == mean_plan(self@, kind),
    {
        if self.values.len() == 0 {
            Err(StatisticsError::EmptyVector)
        } else if kind == MeanType::Harmonic && self.has_zero() {
            Err(StatisticsError::HarmonicMeanOfZero)
        } else {
            Ok(self.values.len())
        }
    }

    /// What the variance of this sequence divides its sum of squared
    /// deviations by.
    pub fn variance_divisor(&self, kind: VarianceType) -> (r: Result<usize, StatisticsError>)
        ensures
            r == variance_plan(self@.len(), kind),
            r is Ok ==> r->Ok_0 >= 1,
    {
        let n = self.values.len();
        if n == 0 {
            Err(StatisticsError::EmptyVector)
        } else {
            match kind {
                VarianceType::CorrectedSample => {
                    if n < 2 {
                        Err(StatisticsError::VectorLengthLessThanTwo)
                    } else {
                        Ok(n - 1)
                    }
                },
                VarianceType::UncorrectedSample => Ok(n),
            }
        }
    }

    /// What the variance under the standard deviation of this sequence
    /// divides by.
    pub fn standard_deviation_divisor(&self, kind: StandardDeviationType) -> (r: Result<
        usize,
        StatisticsError,
    >)
        ensures
            r == deviation_plan(self@.len(), kind),
            r is Ok ==> r->Ok_0 >= 1,
    {
        let n = self.values.len();
        if n < 2 {
            Err(StatisticsError::VectorLengthLessThanTwo)
        } else {
            match kind {
                StandardDeviationType::CorrectedSample => Ok(n - 1),
                StandardDeviationType::UncorrectedSample => Ok(n),
            }
        }
    }

    /// What the sample covariance of this sequence with `other` divides its
    /// sum of products by: always `n - 1`.
    pub fn covariance_divisor(&self, other: &NumericSequence) -> (r: Result<usize, StatisticsError>)
        ensures
            r == covariance_plan(self@.len(), other@.len()),
            r is Ok ==> r->Ok_0 >= 1,
    {
        let n = self.values.len();
        if n != other.values.len() {
            Err(StatisticsError::VectorLengthNotEqual)
        } else if n < 2 {
            Err(StatisticsError::VectorLengthLessThanTwo)
        } else {
            Ok(n - 1)
        }
    }

    /// Number of terms the skewness sums: at least three are asked for.
    pub fn skewness_count(&self) -> (r: Result<usize, StatisticsError>)
        ensures
            self@.len() < 3 ==> r == Err::<usize, StatisticsError>(
                StatisticsError::VectorLengthLessThanThree,
            ),
            self@.len() >= 3 ==> r == Ok::<usize, StatisticsError>(self@.len() as usize),
    {
        if self.values.len() < 3 {
            Err(StatisticsError::VectorLengthLessThanThree)
        } else {
            Ok(self.values.len())
        }
    }

    /// Number of terms the kurtosis sums: at least four are asked for.
    pub fn kurtosis_count(&self) -> (r: Result<usize, StatisticsError>)
        ensures
            self@.len() < 4 ==> r == Err::<usize, StatisticsError>(
                StatisticsError::VectorLengthLessThanFour,
            ),
            self@.len() >= 4 ==> r == Ok::<usize, StatisticsError>(self@.len() as usize),
    {
        if self.values.len() < 4 {
            Err(StatisticsError::VectorLengthLessThanFour)
        } else {
            Ok(self.values.len())
        }
    }
}

/// An arrangement of `data` is as long as `data`, and every element of it
/// is an element of `data`.
pub proof fn lemma_arrangement_member(ladder: Seq<Double>, data: Seq<Double>, k: int)
    requires
        arrangement_of(ladder, data),
        0 <= k < ladder.len(),
    ensures
        exists|i: int| 0 <= i < data.len() && data[i] == ladder[k],
{
    ladder.to_multiset_ensures();
    data.to_multiset_ensures();
    assert(ladder.contains(ladder[k]));
    assert(ladder.to_multiset().count(ladder[k]) > 0);
    assert(data.to_multiset().count(ladder[k]) > 0);
    assert(data.contains(ladder[k]));
}

/// An arrangement of `data` holds every element of `data`.
pub proof fn lemma_arrangement_holds(ladder: Seq<Double>, data: Seq<Double>, i: int)
    requires
        arrangement_of(ladder, data),
        0 <= i < data.len(),
    ensures
        ladder.len() == data.len(),
        exists|k: int| 0 <= k < ladder.len() && ladder[k] == data[i],
{
    ladder.to_multiset_ensures();
    data.to_multiset_ensures();
    assert(data.contains(data[i]));
    assert(data.to_multiset().count(data[i]) > 0);
    assert(ladder.to_multiset().count(data[i]) > 0);
    assert(ladder.contains(data[i]));
}

/// The ends of the ladder are the extremes: on a non-empty sequence free of
/// NaNs, the least element equals the first of any ascending arrangement and
/// the greatest equals the last, so the quantile at `0` is the minimum and
/// the quantile at `1` the maximum.
pub proof fn lemma_ladder_ends(
    data: Seq<Double>,
    ladder: Seq<Double>,
    lowest: Double,
    highest: Double,
)
    requires
        data.len() > 0,
        free_of_nan(data),
        arrangement_of(ladder, data),
        minimum_of(lowest, data),
        maximum_of(highest, data),
    ensures
        ladder.len() == data.len(),
        lowest.same(ladder[0]),
        highest.same(ladder[ladder.len() - 1]),
{
    lemma_arrangement_holds(ladder, data, 0);
    let top = ladder.len() - 1;
    lemma_arrangement_member(ladder, data, 0);
    lemma_arrangement_member(ladder, data, top);
    let first = choose|i: int| 0 <= i < data.len() && data[i] == ladder[0];
    let last = choose|i: int| 0 <= i < data.len() && data[i] == ladder[top];
    assert(!data[first].nan() && !data[last].nan());
    if lowest.bits != INFINITY_BITS {
        let at = choose|i: int| first_at(lowest, data, i);
        lemma_arrangement_holds(ladder, data, at);
        let k = choose|k: int| 0 <= k < ladder.len() && ladder[k] == data[at];
        assert(ladder[0].rank() <= ladder[k].rank());
    }
    if highest.bits != SIGN_BIT + INFINITY_BITS {
        let at = choose|i: int| first_at(highest, data, i);
        lemma_arrangement_holds(ladder, data, at);
        let k = choose|k: int| 0 <= k < ladder.len() && ladder[k] == data[at];
        assert(ladder[k].rank() <= ladder[top].rank());
    }
}

/// The median lies between the extremes: on a non-empty sequence free of
/// NaNs, the least element is at most the centre and the centre at most the
/// greatest element. Where the centre is a pair, both of its members lie
/// between the extremes, lower first, and so does every number between
/// them.
pub proof fn lemma_median_within_extremes(
    data: Seq<Double>,
    lowest: Double,
    highest: Double,
    middle: Median,
)
    requires
        data.len() > 0,
        free_of_nan(data),
        minimum_of(lowest, data),
        maximum_of(highest, data),
        median_of(middle, data),
    ensures
        match middle {
            Median::Middle(m) => lowest.at_most(m) && m.at_most(highest),
            Median::Between(a, b) => lowest.at_most(a) && a.at_most(b) && b.at_most(highest),
        },
{
    let ladder = ascending(data);
    lemma_ascending(data);
    lemma_arrangement_holds(ladder, data, 0);
    let mid = ladder.len() as int / 2;
    lemma_arrangement_member(ladder, data, mid);
    let at_mid = choose|i: int| 0 <= i < data.len() && data[i] == ladder[mid];
    assert(!data[at_mid].nan());
    if ladder.len() % 2 == 0 {
        lemma_arrangement_member(ladder, data, mid - 1);
        let under = choose|i: int| 0 <= i < data.len() && data[i] == ladder[mid - 1];
        assert(!data[under].nan());
    }
}

/// Positions on the ladder are ordered as the values are: further up an
/// ascending arrangement nothing is smaller.
pub proof fn lemma_ladder_monotone(data: Seq<Double>, ladder: Seq<Double>, i: int, j: int)
    requires
        free_of_nan(data),
        arrangement_of(ladder, data),
        0 <= i <= j < ladder.len(),
    ensures
        ladder[i].at_most(ladder[j]),
{
    lemma_arrangement_member(ladder, data, i);
    lemma_arrangement_member(ladder, data, j);
    let a = choose|k: int| 0 <= k < data.len() && data[k] == ladder[i];
    let b = choose|k: int| 0 <= k < data.len() && data[k] == ladder[j];
    assert(!data[a].nan() && !data[b].nan());
}

/// Between the two variances of one sequence only the divisor differs: the
/// corrected one divides the same sum of squares by one less, so it is
/// never the smaller of the two. Both are admitted from two elements on.
pub proof fn lemma_corrected_divisor_is_smaller(n: nat)
    requires
        2 <= n <= usize::MAX,
    ensures
        variance_plan(n, VarianceType::CorrectedSample) == Ok::<usize, StatisticsError>(
            (n - 1) as usize,
        ),
        variance_plan(n, VarianceType::UncorrectedSample) == Ok::<usize, StatisticsError>(
            n as usize,
        ),
        1 <= n - 1 < n,
{
}

/// The two order statistics a quantile is interpolated between.
#[derive(Clone, Copy, Debug, PartialEq, Eq, Structural)]
pub struct Bracket {
    /// The order statistic at the floor of the position.
    pub lower: Double,
    /// The order statistic at the ceiling of the position.
    pub upper: Double,
}

/// `position` is a place on a ladder of `n` ascending values: not
/// negative, and with a ceiling that is an index.
pub open spec fn on_ladder(position: Double, n: nat) -> bool {
    position.countable() && position.whole_above() < n
}

/// `bracket` holds the elements around `position` in the ascending order
/// of `data`: the one at its floor and the one at its ceiling.
pub open spec fn bracket_of(bracket: Bracket, data: Seq<Double>, position: Double) -> bool {
    bracket.lower == ascending(data)[position.whole_part()] && bracket.upper == ascending(
        data,
    )[position.whole_above()]
}

/// Decides [`on_ladder`].
pub fn is_on_ladder(position: Double, n: usize) -> (r: bool)
    ensures
        r == on_ladder(position, n as nat),
{
    match position.whole_parts() {
        Some((_, above)) => above < n as u64,
        None => false,
    }
}

/// The elements of an ascending ladder around a position on it.
fn bracket_at(ladder: &Vec<Double>, position: Double) -> (bracket: Bracket)
    requires
        on_ladder(position, ladder@.len()),
    ensures
        bracket.lower == ladder@[position.whole_part()],
        bracket.upper == ladder@[position.whole_above()],
{
    let parts = position.whole_parts();
    match parts {
        Some(pair) => {
            let below: u64 = pair.0;
            let above: u64 = pair.1;
            assert(below == position.whole_part() && above == position.whole_above());
            let n: usize = ladder.len();
            assert(below <= above < n);
            let low: usize = below as usize;
            let high: usize = above as usize;
            assert(low == below && high == above);
            Bracket { lower: ladder[low], upper: ladder[high] }
        },
        None => Bracket { lower: position, upper: position },
    }
}

impl NumericSequence {
    /// Admits a quantile at fraction `q`: an empty sequence is refused
    /// first, then a fraction out of range. Nothing is compared, so NaNs
    /// among the elements do not matter here.
    pub fn check_quantile(&self, q: Double) -> (r: Result<(), StatisticsError>)
        ensures
            self@.len() == 0 ==> r == Err::<(), StatisticsError>(StatisticsError::EmptyVector),
            self@.len() > 0 && !unit_fraction(q) ==> r == Err::<(), StatisticsError>(
                StatisticsError::QuantileError,
            ),
            self@.len() > 0 && unit_fraction(q) ==> r is Ok,
    {
        if self.values.len() == 0 {
            Err(StatisticsError::EmptyVector)
        } else if !is_unit_fraction(q) {
            Err(StatisticsError::QuantileError)
        } else {
            Ok(())
        }
    }

    /// Admits a percentile at fraction `p`, as [`Self::check_quantile`]
    /// does a quantile.
    pub fn check_percentile(&self, p: Double) -> (r: Result<(), StatisticsError>)
        ensures
            self@.len() == 0 ==> r == Err::<(), StatisticsError>(StatisticsError::EmptyVector),
            self@.len() > 0 && !unit_fraction(p) ==> r == Err::<(), StatisticsError>(
                StatisticsError::PercentileError,
            ),
            self@.len() > 0 && unit_fraction(p) ==> r is Ok,
    {
        if self.values.len() == 0 {
            Err(StatisticsError::EmptyVector)
        } else if !is_unit_fraction(p) {
            Err(StatisticsError::PercentileError)
        } else {
            Ok(())
        }
    }

    /// The order statistics around the quantile at fraction `q`.
    ///
    /// `position` is where the quantile stands among the ascending values,
    /// `q * (n - 1)` as the caller computes it; the quantile is interpolated
    /// between the two elements returned, by the fractional part of
    /// `position`. An empty sequence is reported before a fraction out of
    /// range. The sequence is sorted in a copy.
    pub fn quantile_bracket(&self, q: Double, position: Double) -> (r: Result<
        Bracket,
        StatisticsError,
    >)
        requires
            self@.len() > 1 ==> free_of_nan(self@),
            self@.len() > 0 && unit_fraction(q) ==> on_ladder(position, self@.len()),
        ensures
            self@.len() == 0 ==> r == Err::<Bracket, StatisticsError>(StatisticsError::EmptyVector),
            self@.len() > 0 && !unit_fraction(q) ==> r == Err::<Bracket, StatisticsError>(
                StatisticsError::QuantileError,
            ),
            self@.len() > 0 && unit_fraction(q) ==> r is Ok && bracket_of(
                r->Ok_0,
                self@,
                position,
            ),
    {
        match self.check_quantile(q) {
            Err(e) => Err(e),
            Ok(()) => {
                let ladder = sorted(&self.values);
                Ok(bracket_at(&ladder, position))
            },
        }
    }

    /// The order statistics around the percentile at fraction `p`; `p` is
    /// a fraction of one, and `position` as for a quantile.
    pub fn percentile_bracket(&self, p: Double, position: Double) -> (r: Result<
        Bracket,
        StatisticsError,
    >)
        requires
            self@.len() > 1 ==> free_of_nan(self@),
            self@.len() > 0 && unit_fraction(p) ==> on_ladder(position, self@.len()),
        ensures
            self@.len() == 0 ==> r == Err::<Bracket, StatisticsError>(StatisticsError::EmptyVector),
            self@.len() > 0 && !unit_fraction(p) ==> r == Err::<Bracket, StatisticsError>(
                StatisticsError::PercentileError,
            ),
            self@.len() > 0 && unit_fraction(p) ==> r is Ok && bracket_of(
                r->Ok_0,
                self@,
                position,
            ),
    {
        match self.check_percentile(p) {
            Err(e) => Err(e),
            Ok(()) => {
                let ladder = sorted(&self.values);
                Ok(bracket_at(&ladder, position))
            },
        }
    }

    /// The order statistics around both quartiles, the lower one first.
    ///
    /// The interquantile range is the quantile at `0.75` less the quantile
    /// at `0.25`; the two positions are those of these fractions, see
    /// [`quartile_fractions`].
    pub fn interquantile_brackets(&self, lower_position: Double, upper_position: Double) -> (r:
        Result<(Bracket, Bracket), StatisticsError>)
        requires
            self@.len() > 1 ==> free_of_nan(self@),
            self@.len() > 0 ==> on_ladder(lower_position, self@.len()) && on_ladder(
                upper_position,
                self@.len(),
            ),
        ensures
            self@.len() == 0 ==> r == Err::<(Bracket, Bracket), StatisticsError>(
                StatisticsError::EmptyVector,
            ),
            self@.len() > 0 ==> r is Ok && bracket_of(r->Ok_0.0, self@, lower_position)
                && bracket_of(r->Ok_0.1, self@, upper_position),
    {
        if self.values.len() == 0 {
            Err(StatisticsError::EmptyVector)
        } else {
            let ladder = sorted(&self.values);
            let low = bracket_at(&ladder, lower_position);
            let high = bracket_at(&ladder, upper_position);
            Ok((low, high))
        }
    }
}

/// Brackets follow their positions: of two positions on the ladder of one
/// sequence, the one that is not larger has neither the larger lower
/// element nor the larger upper element, and within a bracket the lower
/// element is not the larger. The quantile itself lies between the two
/// elements of its bracket wherever the interpolation does.
pub proof fn lemma_brackets_ordered(
    data: Seq<Double>,
    first: Bracket,
    at: Double,
    second: Bracket,
    beyond: Double,
)
    requires
        free_of_nan(data),
        on_ladder(at, data.len()),
        on_ladder(beyond, data.len()),
        bracket_of(first, data, at),
        bracket_of(second, data, beyond),
        at.rank() <= beyond.rank(),
    ensures
        first.lower.at_most(first.upper),
        first.lower.at_most(second.lower),
        first.upper.at_most(second.upper),
{
    let ladder = ascending(data);
    lemma_ascending(data);
    lemma_whole_part(at);
    lemma_whole_part(beyond);
    lemma_whole_part_monotone(at, beyond);
    lemma_arrangement_member(ladder, data, at.whole_part());
    lemma_arrangement_member(ladder, data, at.whole_above());
    lemma_arrangement_member(ladder, data, beyond.whole_part());
    lemma_arrangement_member(ladder, data, beyond.whole_above());
    let a = choose|i: int| 0 <= i < data.len() && data[i] == ladder[at.whole_part()];
    let b = choose|i: int| 0 <= i < data.len() && data[i] == ladder[at.whole_above()];
    let c = choose|i: int| 0 <= i < data.len() && data[i] == ladder[beyond.whole_part()];
    let d = choose|i: int| 0 <= i < data.len() && data[i] == ladder[beyond.whole_above()];
    assert(!data[a].nan() && !data[b].nan() && !data[c].nan() && !data[d].nan());
}

} // verus!
