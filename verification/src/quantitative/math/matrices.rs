//! Square matrices of a pairwise statistic over a collection of sequences.
//!
//! Entry `(i, j)` of the matrix is the statistic of sequence `i` with
//! sequence `j`, self-pairs on the diagonal included. Both orders of a pair
//! go through the same routine, so the matrix is as symmetric as the
//! statistic is.

use vstd::prelude::*;
use crate::quantitative::double::Double;
use crate::quantitative::math::statistics::NumericSequence;
use crate::quantitative::math::statistics::StatisticsError;

verus! {

/// Every sequence of the collection is as long as the first.
pub open spec fn rectangular(rows: Seq<NumericSequence>) -> bool {
    forall|i: int| 0 <= i < rows.len() ==> (#[trigger] rows[i])@.len() == rows[0]@.len()
}

/// The error a collection is refused with before any pair is computed, if
/// there is one: an empty collection first, then unequal lengths.
pub open spec fn shape_error(rows: Seq<NumericSequence>) -> Option<StatisticsError> {
    if rows.len() == 0 {
        Some(StatisticsError::EmptyVector)
    } else if !rectangular(rows) {
        Some(StatisticsError::VectorLengthNotEqual)
    } else {
        None
    }
}

/// `matrix` is square of side `rows.len()` and each entry is what `pair`
/// may return for the two sequences of its position.
pub open spec fn matrix_of<F: Fn(&NumericSequence, &NumericSequence) -> Result<
    Double,
    StatisticsError,
>>(matrix: Seq<Vec<Double>>, rows: Seq<NumericSequence>, pair: F) -> bool {
    &&& matrix.len() == rows.len()
    &&& forall|i: int| 0 <= i < matrix.len() ==> (#[trigger] matrix[i])@.len() == rows.len()
    &&& forall|i: int, j: int|
        0 <= i < rows.len() && 0 <= j < rows.len() ==> call_ensures(
            pair,
            (&rows[i], &rows[j]),
            Ok::<Double, StatisticsError>(#[trigger] matrix[i]@[j]),
        )
}

/// `pair` may accept the sequences at positions `i` and `j`.
pub open spec fn accepted_at<F: Fn(&NumericSequence, &NumericSequence) -> Result<
    Double,
    StatisticsError,
>>(rows: Seq<NumericSequence>, pair: F, i: int, j: int) -> bool {
    exists|value: Double|
        call_ensures(pair, (&rows[i], &rows[j]), Ok::<Double, StatisticsError>(value))
}

/// `pair` may refuse the sequences at positions `i` and `j` with `e`, and
/// may accept every pair that comes before them row by row.
pub open spec fn refused_at<F: Fn(&NumericSequence, &NumericSequence) -> Result<
    Double,
    StatisticsError,
>>(rows: Seq<NumericSequence>, pair: F, i: int, j: int, e: StatisticsError) -> bool {
    &&& 0 <= i < rows.len()
    &&& 0 <= j < rows.len()
    &&& call_ensures(pair, (&rows[i], &rows[j]), Err::<Double, StatisticsError>(e))
    &&& forall|a: int, b: int|
        0 <= a < rows.len() && 0 <= b < rows.len() && (a < i || (a == i && b < j))
            ==> #[trigger] accepted_at(rows, pair, a, b)
}

/// Checks the shape of a collection and returns the common length.
pub fn check_rows(rows: &Vec<NumericSequence>) -> (r: Result<usize, StatisticsError>)
    ensures
        match shape_error(rows@) {
            Some(e) => r == Err::<usize, StatisticsError>(e),
            None => r == Ok::<usize, StatisticsError>(rows@[0]@.len() as usize),
        },
{
    if rows.len() == 0 {
        return Err(StatisticsError::EmptyVector);
    }
    let width = rows[0].len();
    let mut i: usize = 0;
    while i < rows.len()
        invariant
            i <= rows.len(),
            rows.len() > 0,
            width == rows@[0]@.len(),
            forall|k: int| 0 <= k < i ==> (#[trigger] rows@[k])@.len() == width,
        decreases rows.len() - i,
    {
        if rows[i].len() != width {
            assert(rows@[i as int]@.len() != rows@[0]@.len());
            return Err(StatisticsError::VectorLengthNotEqual);
        }
        i = i + 1;
    }
    Ok(width)
}

/// The matrix of `pair` over every ordered pair of `rows`, row by row.
///
/// A collection of the wrong shape is refused before `pair` is called. The
/// first pair that `pair` refuses, going row by row, ends the computation
/// with its error.
pub fn pairwise_matrix<F>(rows: &Vec<NumericSequence>, pair: F) -> (r: Result<
    Vec<Vec<Double>>,
    StatisticsError,
>)
    where F: Fn(&NumericSequence, &NumericSequence) -> Result<Double, StatisticsError>
    requires
        forall|i: int, j: int|
            0 <= i < rows@.len() && 0 <= j < rows@.len() ==> call_requires(
                pair,
                (&rows@[i], &rows@[j]),
            ),
    ensures
        shape_error(rows@) is Some ==> r == Err::<Vec<Vec<Double>>, StatisticsError>(
            shape_error(rows@)->Some_0,
        ),
        shape_error(rows@) is None ==> match r {
            Ok(matrix) => matrix_of(matrix@, rows@, pair),
            Err(e) => exists|i: int, j: int| refused_at(rows@, pair, i, j, e),
        },
{
    match check_rows(rows) {
        Err(e) => {
            return Err(e);
        },
        Ok(_) => {},
    }
    let n = rows.len();
    let mut matrix: Vec<Vec<Double>> = Vec::new();
    let mut i: usize = 0;
    while i < n
        invariant
            i <= n,
            n == rows@.len(),
            shape_error(rows@) is None,
            forall|a: int, b: int|
                0 <= a < rows@.len() && 0 <= b < rows@.len() ==> call_requires(
                    pair,
                    (&rows@[a], &rows@[b]),
                ),
            matrix@.len() == i,
            forall|a: int| 0 <= a < i ==> (#[trigger] matrix@[a])@.len() == n,
            forall|a: int, b: int|
                0 <= a < i && 0 <= b < n ==> call_ensures(
                    pair,
                    (&rows@[a], &rows@[b]),
                    Ok::<Double, StatisticsError>(#[trigger] matrix@[a]@[b]),
                ),
        decreases n - i,
    {
        let mut line: Vec<Double> = Vec::new();
        let mut j: usize = 0;
        while j < n
            invariant
                i < n,
                j <= n,
                n == rows@.len(),
                shape_error(rows@) is None,
                forall|a: int, b: int|
                    0 <= a < rows@.len() && 0 <= b < rows@.len() ==> call_requires(
                        pair,
                        (&rows@[a], &rows@[b]),
                    ),
                matrix@.len() == i,
                forall|a: int| 0 <= a < i ==> (#[trigger] matrix@[a])@.len() == n,
                forall|a: int, b: int|
                    0 <= a < i && 0 <= b < n ==> call_ensures(
                        pair,
                        (&rows@[a], &rows@[b]),
                        Ok::<Double, StatisticsError>(#[trigger] matrix@[a]@[b]),
                    ),
                line@.len() == j,
                forall|b: int|
                    0 <= b < j ==> call_ensures(
                        pair,
                        (&rows@[i as int], &rows@[b]),
                        Ok::<Double, StatisticsError>(#[trigger] line@[b]),
                    ),
            decreases n - j,
        {
            match pair(&rows[i], &rows[j]) {
                Ok(value) => {
                    line.push(value);
                },
                Err(e) => {
                    proof {
                        assert forall|a: int, b: int|
                            0 <= a < rows@.len() && 0 <= b < rows@.len() && (a < i || (a == i && b
                                < j)) implies #[trigger] accepted_at(rows@, pair, a, b) by {
                            if a < i {
                                assert(call_ensures(
                                    pair,
                                    (&rows@[a], &rows@[b]),
                                    Ok::<Double, StatisticsError>(matrix@[a]@[b]),
                                ));
                            } else {
                                assert(call_ensures(
                                    pair,
                                    (&rows@[i as int], &rows@[b]),
                                    Ok::<Double, StatisticsError>(line@[b]),
                                ));
                            }
                        }
                        assert(refused_at(rows@, pair, i as int, j as int, e));
                    }
                    return Err(e);
                },
            }
            j = j + 1;
        }
        matrix.push(line);
        i = i + 1;
    }
    Ok(matrix)
}

/// The matrix is as symmetric as the statistic: where `pair` can return
/// only one value for a pair of sequences, and the same for the pair
/// turned round, entries `(i, j)` and `(j, i)` are equal.
pub proof fn lemma_matrix_symmetric<F: Fn(&NumericSequence, &NumericSequence) -> Result<
    Double,
    StatisticsError,
>>(matrix: Seq<Vec<Double>>, rows: Seq<NumericSequence>, pair: F, i: int, j: int)
    requires
        matrix_of(matrix, rows, pair),
        0 <= i < rows.len(),
        0 <= j < rows.len(),
        forall|x: Double, y: Double|
            call_ensures(pair, (&rows[i], &rows[j]), Ok::<Double, StatisticsError>(x))
                && call_ensures(pair, (&rows[j], &rows[i]), Ok::<Double, StatisticsError>(y))
                ==> x == y,
    ensures
        matrix[i]@[j] == matrix[j]@[i],
{
}

/// The diagonal holds the statistic of each sequence with itself: where
/// `pair` can return only `on_self` for a sequence paired with itself,
/// entry `(i, i)` is `on_self` of sequence `i`.
pub proof fn lemma_matrix_diagonal<F: Fn(&NumericSequence, &NumericSequence) -> Result<
    Double,
    StatisticsError,
>>(
    matrix: Seq<Vec<Double>>,
    rows: Seq<NumericSequence>,
    pair: F,
    on_self: spec_fn(NumericSequence) -> Double,
    i: int,
)
    requires
        matrix_of(matrix, rows, pair),
        0 <= i < rows.len(),
        forall|x: Double|
            call_ensures(pair, (&rows[i], &rows[i]), Ok::<Double, StatisticsError>(x)) ==> x
                == on_self(rows[i]),
    ensures
        matrix[i]@[i] == on_self(rows[i]),
{
}

} // verus!
