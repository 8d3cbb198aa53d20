use rs_quant::quantitative::double::Double;
use rs_quant::quantitative::math::matrices::{check_rows, pairwise_matrix};
use rs_quant::quantitative::math::regression::beta_divisor;
use rs_quant::quantitative::math::order::sorted;
use rs_quant::quantitative::math::statistics::{
    check_deviation, check_deviations, is_on_ladder, is_unit_fraction, quartile_fractions, Bracket,
    MeanType, Median, NumericSequence, StandardDeviationType, StatisticsError, VarianceType,
};

const PROX_ERR: f64 = 0.000_000_014_901_161_193_847_656;

fn d(x: f64) -> Double {
    Double::from_bits(x.to_bits())
}

fn v(x: Double) -> f64 {
    f64::from_bits(x.to_bits())
}

fn seq(xs: &[f64]) -> NumericSequence {
    NumericSequence::new(xs.iter().map(|x| d(*x)).collect())
}

fn near(a: f64, b: f64) -> bool {
    (a - b <= PROX_ERR) && (b - a <= PROX_ERR)
}

// The arithmetic the library leaves to its caller, written out once for the
// tests: each statistic asks the library what to do and does the sums.

fn min(xs: &[f64]) -> Result<f64, StatisticsError> {
    seq(xs).min().map(v)
}

fn max(xs: &[f64]) -> Result<f64, StatisticsError> {
    seq(xs).max().map(v)
}

fn range(xs: &[f64]) -> Result<f64, StatisticsError> {
    let (low, high) = seq(xs).range_ends()?;
    Ok(v(high) - v(low))
}

// A sequence for an operation that sorts: from two elements on it is to
// hold no NaN.
fn sortable(xs: &[f64]) -> NumericSequence {
    let s = seq(xs);
    assert!(s.len() <= 1 || !s.has_nan());
    s
}

fn median(xs: &[f64]) -> Result<f64, StatisticsError> {
    Ok(match sortable(xs).median()? {
        Median::Middle(m) => v(m),
        Median::Between(a, b) => (v(a) + v(b)) / 2.0,
    })
}

// Where the quantile at `q` stands among `n` ascending values, `n` being at
// least one.
fn position(q: f64, n: usize) -> Double {
    let index = q * (n - 1) as f64;
    assert!(is_on_ladder(d(index), n));
    d(index)
}

fn interpolate(bracket: Bracket, index: Double) -> f64 {
    let lower = v(bracket.lower);
    let upper = v(bracket.upper);
    lower + (upper - lower) * (v(index) - v(index).floor())
}

fn quantile(xs: &[f64], q: f64) -> Result<f64, StatisticsError> {
    seq(xs).check_quantile(d(q))?;
    let index = position(q, xs.len());
    let bracket = sortable(xs).quantile_bracket(d(q), index)?;
    Ok(interpolate(bracket, index))
}

fn percentile(xs: &[f64], p: f64) -> Result<f64, StatisticsError> {
    seq(xs).check_percentile(d(p))?;
    let index = position(p, xs.len());
    let bracket = sortable(xs).percentile_bracket(d(p), index)?;
    Ok(interpolate(bracket, index))
}

fn interquantile_range(xs: &[f64]) -> Result<f64, StatisticsError> {
    let (lower, upper) = quartile_fractions();
    seq(xs).check_quantile(upper)?;
    let low = position(v(lower), xs.len());
    let high = position(v(upper), xs.len());
    let (q1, q3) = sortable(xs).interquantile_brackets(low, high)?;
    Ok(interpolate(q3, high) - interpolate(q1, low))
}

fn mean(xs: &[f64], kind: MeanType) -> Result<f64, StatisticsError> {
    let n = seq(xs).mean_count(kind)? as f64;
    Ok(match kind {
        MeanType::Arithmetic => xs.iter().sum::<f64>() / n,
        MeanType::Harmonic => n / xs.iter().map(|&x| 1.0 / x).sum::<f64>(),
        MeanType::Geometric => xs.iter().product::<f64>().powf(1.0 / n),
        MeanType::Quadratic => (xs.iter().map(|&x| x.powi(2)).sum::<f64>() / n).sqrt(),
        MeanType::Cubic => (xs.iter().map(|&x| x.powi(3)).sum::<f64>() / n).cbrt(),
    })
}

fn squares(xs: &[f64]) -> f64 {
    let m = xs.iter().sum::<f64>() / xs.len() as f64;
    xs.iter().map(|x| (x - m).powi(2)).sum::<f64>()
}

fn variance(xs: &[f64], kind: VarianceType) -> Result<f64, StatisticsError> {
    let divisor = seq(xs).variance_divisor(kind)?;
    Ok(squares(xs) / divisor as f64)
}

fn standard_deviation(xs: &[f64], kind: StandardDeviationType) -> Result<f64, StatisticsError> {
    let divisor = seq(xs).standard_deviation_divisor(kind)?;
    Ok((squares(xs) / divisor as f64).sqrt())
}

fn products(xs: &[f64], ys: &[f64]) -> f64 {
    let n = xs.len() as f64;
    let mean_x = xs.iter().sum::<f64>() / n;
    let mean_y = ys.iter().sum::<f64>() / n;
    xs.iter().zip(ys.iter()).map(|(x, y)| (x - mean_x) * (y - mean_y)).sum::<f64>()
}

fn covariance(xs: &[f64], ys: &[f64]) -> Result<f64, StatisticsError> {
    let divisor = seq(xs).covariance_divisor(&seq(ys))?;
    Ok(products(xs, ys) / divisor as f64)
}

fn correlation(xs: &[f64], ys: &[f64]) -> Result<f64, StatisticsError> {
    let cov = covariance(xs, ys)?;
    let std_x = standard_deviation(xs, StandardDeviationType::CorrectedSample)?;
    let std_y = standard_deviation(ys, StandardDeviationType::CorrectedSample)?;
    check_deviations(d(std_x), d(std_y))?;
    Ok(cov / (std_x * std_y))
}

fn skewness(xs: &[f64]) -> Result<f64, StatisticsError> {
    let n = seq(xs).skewness_count()? as f64;
    let m = xs.iter().sum::<f64>() / n;
    let std = standard_deviation(xs, StandardDeviationType::CorrectedSample)?;
    let skew = xs.iter().map(|x| ((x - m) / std).powi(3)).sum::<f64>();
    Ok(skew * n / ((n - 1.0) * (n - 2.0)))
}

fn kurtosis(xs: &[f64]) -> Result<f64, StatisticsError> {
    let n = seq(xs).kurtosis_count()? as f64;
    let m = xs.iter().sum::<f64>() / n;
    let std = standard_deviation(xs, StandardDeviationType::CorrectedSample)?;
    check_deviation(d(std))?;
    let kurt = xs.iter().map(|x| ((x - m) / std).powi(4)).sum::<f64>();
    Ok(kurt * n * (n + 1.0) / ((n - 1.0) * (n - 2.0) * (n - 3.0))
        - 3.0 * (n - 1.0).powi(2) / ((n - 2.0) * (n - 3.0)))
}

// Sensitivity of `asset` to `market`.
fn beta(asset: &[f64], market: &[f64]) -> Result<f64, StatisticsError> {
    let divisor = beta_divisor(&seq(asset), &seq(market))? as f64;
    Ok((products(asset, market) / divisor) / (squares(market) / divisor))
}

fn values(s: &NumericSequence) -> Vec<f64> {
    s.values.iter().map(|x| v(*x)).collect()
}

fn rows(m: &[Vec<f64>]) -> Vec<NumericSequence> {
    m.iter().map(|r| seq(r)).collect()
}

fn unwrap_matrix(m: Vec<Vec<Double>>) -> Vec<Vec<f64>> {
    m.into_iter().map(|r| r.into_iter().map(v).collect()).collect()
}

fn covariance_matrix(m: &[Vec<f64>]) -> Result<Vec<Vec<f64>>, StatisticsError> {
    pairwise_matrix(&rows(m), |a: &NumericSequence, b: &NumericSequence| {
        covariance(&values(a), &values(b)).map(d)
    })
    .map(unwrap_matrix)
}

fn correlation_matrix(m: &[Vec<f64>]) -> Result<Vec<Vec<f64>>, StatisticsError> {
    pairwise_matrix(&rows(m), |a: &NumericSequence, b: &NumericSequence| {
        correlation(&values(a), &values(b)).map(d)
    })
    .map(unwrap_matrix)
}

#[test]
fn test_min() {
    let empty: Vec<f64> = vec![];
    assert!(matches!(min(&empty), Err(StatisticsError::EmptyVector)));

    let vec = vec![50.0];
    assert!(min(&vec).is_ok());
    assert_eq!(min(&vec).unwrap(), 50.0);

    let vec: Vec<f64> = vec![1.0, 2.0, 4.0, 5.0, 5.0, 7.0, 9.0];
    assert_eq!(min(&vec).unwrap(), 1.0);
}

#[test]
fn test_max() {
    let empty: Vec<f64> = vec![];
    assert!(matches!(max(&empty), Err(StatisticsError::EmptyVector)));

    let vec = vec![50.0];
    assert!(max(&vec).is_ok());
    assert_eq!(max(&vec).unwrap(), 50.0);

    let vec: Vec<f64> = vec![1.0, 2.0, 4.0, 5.0, 5.0, 7.0, 9.0];
    assert_eq!(max(&vec).unwrap(), 9.0);
}

#[test]
fn test_median() {
    let empty: Vec<f64> = vec![];
    assert!(matches!(median(&empty), Err(StatisticsError::EmptyVector)));

    let odd = vec![3.0, 1.0, 2.0];
    assert_eq!(median(&odd).unwrap(), 2.0);

    let even = vec![3.0, 1.0, 4.0, 2.0];
    assert_eq!(median(&even).unwrap(), 2.5);
}

#[test]
fn test_percentile() {
    let empty: Vec<f64> = vec![];
    assert!(matches!(percentile(&empty, 0.5), Err(StatisticsError::EmptyVector)));

    let vec = vec![1.0, 2.0, 3.0];
    assert!(matches!(percentile(&vec, 1.5), Err(StatisticsError::PercentileError)));

    let vec = vec![1.0, 2.0, 3.0, 4.0, 5.0];
    assert_eq!(percentile(&vec, 0.25).unwrap(), 2.0);
    assert_eq!(percentile(&vec, 0.5).unwrap(), 3.0);
    assert_eq!(percentile(&vec, 0.75).unwrap(), 4.0);
}

#[test]
fn test_quantile() {
    let empty: Vec<f64> = vec![];
    assert!(matches!(quantile(&empty, 0.5), Err(StatisticsError::EmptyVector)));

    let vec = vec![1.0, 2.0, 3.0];
    assert!(matches!(quantile(&vec, 1.5), Err(StatisticsError::QuantileError)));

    let vec = vec![1.0, 2.0, 3.0, 4.0, 5.0];
    assert_eq!(quantile(&vec, 0.25).unwrap(), 2.0);
    assert_eq!(quantile(&vec, 0.5).unwrap(), 3.0);
    assert_eq!(quantile(&vec, 0.75).unwrap(), 4.0);
}

#[test]
fn test_range() {
    let empty = vec![];
    assert!(matches!(range(&empty), Err(StatisticsError::EmptyVector)));

    let vec = vec![1.0, 5.0, 3.0, 7.0, 2.0];
    assert_eq!(range(&vec).unwrap(), 6.0);
}

#[test]
fn test_mean() {
    let empty: Vec<f64> = vec![];
    assert!(matches!(mean(&empty, MeanType::Arithmetic), Err(StatisticsError::EmptyVector)));

    let vec = vec![1.0, 5.0, 6.0, 2.0];
    assert!(near(mean(&vec, MeanType::Arithmetic).unwrap(), 3.5));
    assert!(near(mean(&vec, MeanType::Harmonic).unwrap(), 2.1428571428571));
    assert!(near(mean(&vec, MeanType::Geometric).unwrap(), 2.783157683714));
    assert!(near(mean(&vec, MeanType::Quadratic).unwrap(), 4.06201920231798));
    assert!(near(mean(&vec, MeanType::Cubic).unwrap(), 4.439520008713004));
}

#[test]
fn test_variance() {
    let empty: Vec<f64> = vec![];
    assert!(matches!(
        variance(&empty, VarianceType::CorrectedSample),
        Err(StatisticsError::EmptyVector)
    ));

    let vec = vec![1.0, 2.0, 3.0, 4.0, 5.0];
    assert!(near(variance(&vec, VarianceType::CorrectedSample).unwrap(), 2.5));
    assert!(near(variance(&vec, VarianceType::UncorrectedSample).unwrap(), 2.0));
}

#[test]
fn test_standard_deviation() {
    let vec = vec![1.0];
    assert!(matches!(
        standard_deviation(&vec, StandardDeviationType::CorrectedSample),
        Err(StatisticsError::VectorLengthLessThanTwo)
    ));

    let vec = vec![1.0, 2.0, 4.0, 5.0, 5.0, 7.0, 9.0];
    assert!(near(
        standard_deviation(&vec, StandardDeviationType::CorrectedSample).unwrap(),
        2.751622897751175
    ));
    assert!(near(
        standard_deviation(&vec, StandardDeviationType::UncorrectedSample).unwrap(),
        2.5475077857324
    ));
}

#[test]
fn test_covariance() {
    let x = vec![1.0, 2.0];
    let y = vec![1.0];
    assert!(matches!(covariance(&x, &y), Err(StatisticsError::VectorLengthNotEqual)));

    let x = vec![1.0];
    let y = vec![1.0];
    assert!(matches!(covariance(&x, &y), Err(StatisticsError::VectorLengthLessThanTwo)));

    let x = vec![2.1, 2.5, 4.0, 3.6];
    let y = vec![8.0, 10.0, 12.0, 14.0];
    assert!(near(covariance(&x, &y).unwrap(), 2.0));
}

#[test]
fn test_correlation() {
    let x = vec![1.0, 1.0];
    let y = vec![1.0, 2.0];
    assert!(matches!(correlation(&x, &y), Err(StatisticsError::StandardDeviationZero)));

    let x = vec![2.1, 2.5, 4.0, 3.6];
    let y = vec![8.0, 10.0, 12.0, 14.0];
    assert!(near(correlation(&x, &y).unwrap(), 0.8642268028735162));
}

#[test]
fn test_skewness() {
    let vec = vec![1.0];
    assert!(matches!(skewness(&vec), Err(StatisticsError::VectorLengthLessThanThree)));

    let vec = vec![1.0, 2.0, 4.0, 4.0, 5.0, 5.0, 7.0, 9.0];
    assert!(near(skewness(&vec).unwrap(), 0.352308329));
}

#[test]
fn test_kurtosis() {
    let vec = vec![1.0];
    assert!(matches!(kurtosis(&vec), Err(StatisticsError::VectorLengthLessThanFour)));

    let vec = vec![1.0, 2.0, 3.0, 4.0, 5.0, 5.0, 7.0, 9.0];
    assert!(near(kurtosis(&vec).unwrap(), -0.207812500));
}

#[test]
fn test_beta() {
    let x = vec![1.0, 2.0, 3.0, 4.0];
    let y = vec![2.0, 4.0, 6.0, 8.0, 10.0];
    assert!(matches!(beta(&x, &y), Err(StatisticsError::VectorLengthNotEqual)));

    // the covariance is 5 and the variance of the market, the second
    // series, is 10
    let x = vec![1.0, 2.0, 3.0, 4.0, 5.0];
    let y = vec![2.0, 4.0, 6.0, 8.0, 10.0];
    assert!(near(beta(&x, &y).unwrap(), 0.5));
    assert!(near(beta(&y, &x).unwrap(), 2.0));
}

#[test]
fn test_covariance_matrix() {
    let empty: Vec<Vec<f64>> = vec![];
    assert!(matches!(covariance_matrix(&empty), Err(StatisticsError::EmptyVector)));

    let vec = vec![vec![1.0, 2.0], vec![1.0, 2.0, 3.0]];
    assert!(matches!(covariance_matrix(&vec), Err(StatisticsError::VectorLengthNotEqual)));

    let vec = vec![vec![1.0], vec![2.0]];
    assert!(matches!(covariance_matrix(&vec), Err(StatisticsError::VectorLengthLessThanTwo)));

    let vec = vec![vec![1.0, 2.0, 3.0], vec![4.0, 5.0, 6.0], vec![7.0, 8.0, 9.0]];
    let expected = vec![vec![1.0, 1.0, 1.0], vec![1.0, 1.0, 1.0], vec![1.0, 1.0, 1.0]];
    assert_eq!(covariance_matrix(&vec).unwrap(), expected);

    let vec = vec![vec![1.0, 2.0, 3.0], vec![1.0, 3.0, 5.0]];
    let expected = vec![vec![1.0, 2.0], vec![2.0, 4.0]];
    assert_eq!(covariance_matrix(&vec).unwrap(), expected);
}

#[test]
fn test_correlation_matrix() {
    let empty: Vec<Vec<f64>> = vec![];
    assert!(matches!(correlation_matrix(&empty), Err(StatisticsError::EmptyVector)));

    let vec = vec![vec![1.0, 2.0], vec![1.0, 2.0, 3.0]];
    assert!(matches!(correlation_matrix(&vec), Err(StatisticsError::VectorLengthNotEqual)));

    let vec = vec![vec![1.0, 2.0, 3.0], vec![4.0, 5.0, 6.0], vec![7.0, 8.0, 9.0]];
    let expected = vec![vec![1.0, 1.0, 1.0], vec![1.0, 1.0, 1.0], vec![1.0, 1.0, 1.0]];
    assert_eq!(correlation_matrix(&vec).unwrap(), expected);

    let vec = vec![vec![1.0, 2.0, 3.0], vec![1.0, 3.0, 5.0]];
    let expected = vec![vec![1.0, 1.0], vec![1.0, 1.0]];
    assert_eq!(correlation_matrix(&vec).unwrap(), expected);
}

#[test]
fn test_covariance_and_correlation_matrix_with_return() {
    let matrix: Vec<Vec<f64>> =
        vec![vec![0.01, 0.02, 0.03], vec![0.04, 0.05, 0.06], vec![-0.01, -0.02, -0.03]];

    let covariance_result = covariance_matrix(&matrix);
    assert!(covariance_result.is_ok(), "Covariance matrix calculation failed");
    let covariance = covariance_result.unwrap();
    assert_eq!(covariance.len(), matrix.len(), "Covariance matrix row count mismatch");
    for row in &covariance {
        assert_eq!(row.len(), matrix.len(), "Covariance matrix column count mismatch");
    }

    let correlation_result = correlation_matrix(&matrix);
    assert!(correlation_result.is_ok(), "Correlation matrix calculation failed");
    let correlation = correlation_result.unwrap();
    assert_eq!(correlation.len(), matrix.len(), "Correlation matrix row count mismatch");
    for row in &correlation {
        assert_eq!(row.len(), matrix.len(), "Correlation matrix column count mismatch");
    }
    for (i, row) in correlation.iter().enumerate() {
        assert!(near(row[i], 1.0));
    }
}

// Edge cases and rules beyond the cases above.

#[test]
fn test_interquantile_range() {
    let empty: Vec<f64> = vec![];
    assert!(matches!(interquantile_range(&empty), Err(StatisticsError::EmptyVector)));

    let vec = vec![1.0, 2.0, 3.0, 4.0, 5.0, 6.0, 7.0, 8.0];
    let q3 = quantile(&vec, 0.75).unwrap();
    let q1 = quantile(&vec, 0.25).unwrap();
    assert_eq!(q3, 6.25);
    assert_eq!(q1, 2.75);
    assert_eq!(interquantile_range(&vec).unwrap(), 3.5);
}

#[test]
fn quartile_fractions_are_a_quarter_and_three() {
    let (lower, upper) = quartile_fractions();
    assert_eq!(v(lower), 0.25);
    assert_eq!(v(upper), 0.75);
}

#[test]
fn median_lies_between_extremes() {
    let samples: Vec<Vec<f64>> = vec![
        vec![4.0],
        vec![-1.0, 7.5],
        vec![3.0, -2.0, 9.0, 0.5, 0.5],
        vec![1.0e300, -1.0e300, 0.0, -0.0, 5.0e-324, 42.0],
        vec![f64::INFINITY, 1.0, f64::NEG_INFINITY],
    ];
    for xs in samples.iter() {
        let low = min(xs).unwrap();
        let high = max(xs).unwrap();
        match seq(xs).median().unwrap() {
            Median::Middle(m) => {
                assert!(low <= v(m) && v(m) <= high);
            }
            Median::Between(a, b) => {
                assert!(low <= v(a) && v(a) <= v(b) && v(b) <= high);
            }
        }
    }
}

#[test]
fn sorting_leaves_the_input_and_quantiles_end_at_extremes() {
    let xs = vec![3.5, -1.0, 8.0, 2.0, 2.0, -7.25, 0.0];
    let s = seq(&xs);
    let got: Vec<f64> = sorted(&s.values).iter().map(|x| v(*x)).collect();
    let mut expected = xs.clone();
    expected.sort_by(|a, b| a.partial_cmp(b).unwrap());
    assert_eq!(got, expected);
    assert_eq!(values(&s), xs);
    assert_eq!(quantile(&xs, 0.0).unwrap(), min(&xs).unwrap());
    assert_eq!(quantile(&xs, 1.0).unwrap(), max(&xs).unwrap());
}

#[test]
fn brackets_are_the_order_statistics_around_a_position() {
    let xs = vec![40.0, 10.0, 30.0, 20.0, 50.0];
    let s = seq(&xs);
    let at = |index: f64| {
        let b = s.quantile_bracket(d(0.5), d(index)).unwrap();
        (v(b.lower), v(b.upper))
    };
    assert_eq!(at(0.0), (10.0, 10.0));
    assert_eq!(at(-0.0), (10.0, 10.0));
    assert_eq!(at(5.0e-324), (10.0, 20.0));
    assert_eq!(at(0.999), (10.0, 20.0));
    assert_eq!(at(1.0), (20.0, 20.0));
    assert_eq!(at(2.5), (30.0, 40.0));
    assert_eq!(at(3.0000000000000004), (40.0, 50.0));
    assert_eq!(at(4.0), (50.0, 50.0));
    assert!(is_on_ladder(d(4.0), 5));
    assert!(!is_on_ladder(d(4.000000000000001), 5));
    assert!(!is_on_ladder(d(5.0), 5));
    assert!(!is_on_ladder(d(-1.0e-300), 5));
    assert!(!is_on_ladder(d(f64::NAN), 5));
    assert!(!is_on_ladder(d(f64::INFINITY), 5));
    assert!(!is_on_ladder(d(0.0), 0));
    assert!(is_on_ladder(d(0.0), 1));
    assert!(!is_on_ladder(d(0.5), 1));
}

#[test]
fn quantile_is_monotone_on_a_grid() {
    let xs = vec![9.0, 1.0, 4.0, 4.0, -3.0, 12.5, 0.25];
    let mut last = f64::NEG_INFINITY;
    for k in 0..=100 {
        let q = k as f64 / 100.0;
        let value = quantile(&xs, q).unwrap();
        assert!(last <= value);
        last = value;
    }
}

#[test]
fn sorting_handles_many_lengths() {
    for n in 0..40usize {
        let xs: Vec<f64> = (0..n).map(|i| (((i * 7919) % 31) as f64) - 15.0).collect();
        let got: Vec<f64> = sorted(&seq(&xs).values).iter().map(|x| v(*x)).collect();
        let mut expected = xs.clone();
        expected.sort_by(|a, b| a.partial_cmp(b).unwrap());
        assert_eq!(got, expected);
    }
}

#[test]
fn sorting_keeps_equal_numbers_in_their_order() {
    let xs = vec![0.0, -0.0, 1.0, -0.0, 0.0, -1.0];
    let got: Vec<u64> = sorted(&seq(&xs).values).iter().map(|x| x.to_bits()).collect();
    let mut expected = xs.clone();
    expected.sort_by(|a, b| a.partial_cmp(b).unwrap());
    let expected: Vec<u64> = expected.iter().map(|x| x.to_bits()).collect();
    assert_eq!(got, expected);
}

#[test]
fn extremes_pass_over_nan() {
    let xs = vec![f64::NAN, 2.0, -3.0, f64::NAN, 8.0];
    assert_eq!(min(&xs).unwrap(), -3.0);
    assert_eq!(max(&xs).unwrap(), 8.0);
    assert!(seq(&xs).has_nan());
    let only_nan = vec![f64::NAN];
    assert_eq!(min(&only_nan).unwrap(), f64::INFINITY);
    assert_eq!(max(&only_nan).unwrap(), f64::NEG_INFINITY);
}

#[test]
fn fraction_bounds_are_inclusive() {
    assert!(is_unit_fraction(d(0.0)));
    assert!(is_unit_fraction(d(-0.0)));
    assert!(is_unit_fraction(d(1.0)));
    assert!(is_unit_fraction(d(0.3)));
    assert!(!is_unit_fraction(d(1.0000000000000002)));
    assert!(!is_unit_fraction(d(-5.0e-324)));
    assert!(!is_unit_fraction(d(f64::NAN)));
    assert!(!is_unit_fraction(d(f64::INFINITY)));
    let vec = vec![1.0, 2.0, 3.0];
    assert!(matches!(quantile(&vec, -0.1), Err(StatisticsError::QuantileError)));
    assert!(matches!(percentile(&vec, f64::NAN), Err(StatisticsError::PercentileError)));
    // an empty sequence is reported before a fraction out of range
    let empty: Vec<f64> = vec![];
    assert!(matches!(quantile(&empty, 7.0), Err(StatisticsError::EmptyVector)));
}

#[test]
fn variance_divisors_follow_the_kind() {
    let one = seq(&[4.0]);
    assert_eq!(
        one.variance_divisor(VarianceType::CorrectedSample),
        Err(StatisticsError::VectorLengthLessThanTwo)
    );
    assert_eq!(one.variance_divisor(VarianceType::UncorrectedSample), Ok(1));
    let five = seq(&[1.0, 2.0, 3.0, 4.0, 5.0]);
    assert_eq!(five.variance_divisor(VarianceType::CorrectedSample), Ok(4));
    assert_eq!(five.variance_divisor(VarianceType::UncorrectedSample), Ok(5));
    assert_eq!(five.standard_deviation_divisor(StandardDeviationType::CorrectedSample), Ok(4));
    assert_eq!(five.standard_deviation_divisor(StandardDeviationType::UncorrectedSample), Ok(5));
    let empty = seq(&[]);
    assert_eq!(
        empty.standard_deviation_divisor(StandardDeviationType::UncorrectedSample),
        Err(StatisticsError::VectorLengthLessThanTwo)
    );
    assert_eq!(
        one.standard_deviation_divisor(StandardDeviationType::UncorrectedSample),
        Err(StatisticsError::VectorLengthLessThanTwo)
    );
}

#[test]
fn corrected_variance_is_not_below_uncorrected() {
    let samples: Vec<Vec<f64>> =
        vec![vec![1.0, 2.0], vec![3.0, 3.0, 3.0], vec![-4.0, 0.5, 9.0, 2.0], vec![1.0e-3, 2.0e3]];
    for xs in samples.iter() {
        let corrected = variance(xs, VarianceType::CorrectedSample).unwrap();
        let uncorrected = variance(xs, VarianceType::UncorrectedSample).unwrap();
        assert!(corrected >= uncorrected && uncorrected >= 0.0);
    }
    let constant = vec![3.0, 3.0, 3.0];
    assert_eq!(variance(&constant, VarianceType::CorrectedSample).unwrap(), 0.0);
    assert_eq!(variance(&constant, VarianceType::UncorrectedSample).unwrap(), 0.0);
}

#[test]
fn short_sequences_are_refused_by_each_statistic() {
    let two = vec![1.0, 2.0];
    let three = vec![1.0, 2.0, 4.0];
    assert!(matches!(skewness(&two), Err(StatisticsError::VectorLengthLessThanThree)));
    assert!(skewness(&three).is_ok());
    assert!(matches!(kurtosis(&three), Err(StatisticsError::VectorLengthLessThanFour)));
    assert!(kurtosis(&[1.0, 2.0, 4.0, 8.0]).is_ok());
    let empty: Vec<f64> = vec![];
    assert!(matches!(skewness(&empty), Err(StatisticsError::VectorLengthLessThanThree)));
    assert!(matches!(kurtosis(&empty), Err(StatisticsError::VectorLengthLessThanFour)));
    // a mismatch of lengths is reported before a short length
    assert!(matches!(covariance(&[1.0], &empty), Err(StatisticsError::VectorLengthNotEqual)));
}

#[test]
fn kurtosis_of_constant_input_is_refused() {
    let constant = vec![2.0, 2.0, 2.0, 2.0, 2.0];
    assert!(matches!(kurtosis(&constant), Err(StatisticsError::StandardDeviationZero)));
    assert_eq!(check_deviation(d(0.0)), Err(StatisticsError::StandardDeviationZero));
    assert_eq!(check_deviation(d(-0.0)), Err(StatisticsError::StandardDeviationZero));
    assert_eq!(check_deviation(d(5.0e-324)), Ok(()));
    assert_eq!(check_deviation(d(f64::NAN)), Ok(()));
    assert_eq!(check_deviations(d(1.0), d(0.0)), Err(StatisticsError::StandardDeviationZero));
    assert_eq!(check_deviations(d(1.0), d(2.0)), Ok(()));
}

#[test]
fn correlation_with_itself_is_one() {
    let xs = vec![2.1, 2.5, 4.0, 3.6];
    assert!(near(correlation(&xs, &xs).unwrap(), 1.0));
    assert!(near(beta(&xs, &xs).unwrap(), 1.0));
}

#[test]
fn covariance_matrix_diagonal_is_the_variance() {
    let m = vec![vec![1.0, 2.0, 4.0, 9.0], vec![3.0, 3.5, 2.0, 8.0], vec![0.0, -1.0, 7.0, 2.0]];
    let cov = covariance_matrix(&m).unwrap();
    for i in 0..m.len() {
        let var = variance(&m[i], VarianceType::CorrectedSample).unwrap();
        assert!(near(cov[i][i], var));
        for j in 0..m.len() {
            assert_eq!(cov[i][j], cov[j][i]);
        }
    }
}

#[test]
fn matrix_stops_at_the_first_refused_pair() {
    let m = vec![vec![1.0, 1.0, 1.0], vec![1.0, 2.0, 3.0]];
    assert!(matches!(correlation_matrix(&m), Err(StatisticsError::StandardDeviationZero)));
    assert_eq!(check_rows(&rows(&m)), Ok(3));
    assert_eq!(check_rows(&rows(&[])), Err(StatisticsError::EmptyVector));
    assert_eq!(
        check_rows(&rows(&[vec![1.0], vec![]])),
        Err(StatisticsError::VectorLengthNotEqual)
    );
}

#[test]
fn beta_on_a_flat_market_is_not_refused_by_the_lengths() {
    // a market that never moves has zero variance: the lengths are in
    // order, and the quotient that follows is not a finite number
    let asset = vec![1.0, 2.0, 3.0];
    let market = vec![5.0, 5.0, 5.0];
    assert_eq!(beta_divisor(&seq(&asset), &seq(&market)), Ok(2));
    let value = beta(&asset, &market).unwrap();
    assert!(!value.is_finite());
}

#[test]
fn harmonic_mean_of_a_zero_is_refused() {
    assert_eq!(mean(&[0.0, 1.0], MeanType::Harmonic), Err(StatisticsError::HarmonicMeanOfZero));
    assert_eq!(
        mean(&[1.0, -0.0, 3.0], MeanType::Harmonic),
        Err(StatisticsError::HarmonicMeanOfZero)
    );
    assert_eq!(
        seq(&[4.0, 0.0]).mean_count(MeanType::Harmonic),
        Err(StatisticsError::HarmonicMeanOfZero)
    );
    // the smallest number above zero is no zero
    assert_eq!(seq(&[1.0, 5.0e-324, 3.0]).mean_count(MeanType::Harmonic), Ok(3));
    assert!(mean(&[1.0, 5.0e-324, 3.0], MeanType::Harmonic).is_ok());
    // only the harmonic mean minds a zero
    for kind in [MeanType::Arithmetic, MeanType::Geometric, MeanType::Quadratic, MeanType::Cubic] {
        assert_eq!(seq(&[0.0, 1.0]).mean_count(kind), Ok(2));
    }
    assert_eq!(mean(&[0.0, 1.0], MeanType::Arithmetic), Ok(0.5));
    // an empty sequence is reported first
    assert_eq!(seq(&[]).mean_count(MeanType::Harmonic), Err(StatisticsError::EmptyVector));
    assert!(seq(&[1.0, 0.0, 3.0]).has_zero());
    assert!(!seq(&[1.0, 5.0e-324, 3.0]).has_zero());
}

#[test]
fn one_element_is_its_own_median_whatever_it_is() {
    assert!(median(&[f64::NAN]).unwrap().is_nan());
    assert_eq!(median(&[f64::INFINITY]).unwrap(), f64::INFINITY);
    assert_eq!(median(&[7.5]).unwrap(), 7.5);
    assert_eq!(quantile(&[7.5], 0.3).unwrap(), 7.5);
}

#[test]
fn admission_of_a_quantile_compares_nothing() {
    let with_nan = seq(&[1.0, f64::NAN, 3.0]);
    assert_eq!(with_nan.check_quantile(d(1.5)), Err(StatisticsError::QuantileError));
    assert_eq!(with_nan.check_percentile(d(-0.5)), Err(StatisticsError::PercentileError));
    assert_eq!(with_nan.check_quantile(d(0.5)), Ok(()));
    assert_eq!(seq(&[]).check_quantile(d(1.5)), Err(StatisticsError::EmptyVector));
    assert_eq!(seq(&[]).check_percentile(d(0.5)), Err(StatisticsError::EmptyVector));
}

#[test]
fn skewness_and_kurtosis_of_one_sample() {
    let vec = vec![1.0, 2.0, 3.0, 4.0, 5.0, 5.0, 7.0, 9.0];
    assert!((kurtosis(&vec).unwrap() - (-0.2078125)).abs() < 1e-9);
    assert!((skewness(&vec).unwrap() - 0.47735163489123317).abs() < 1e-9);
    let other = vec![1.0, 2.0, 4.0, 4.0, 5.0, 5.0, 7.0, 9.0];
    assert!((skewness(&other).unwrap() - 0.352308329).abs() < 1e-6);
}

#[test]
fn correlation_with_itself_is_one_up_to_rounding() {
    // the product of two equal roots need not be the number under them
    let xs = vec![1.0, 2.0];
    let r = correlation(&xs, &xs).unwrap();
    assert!((r - 1.0).abs() <= 4.0 * f64::EPSILON);
    assert_eq!(beta(&xs, &xs).unwrap(), 1.0);
}
