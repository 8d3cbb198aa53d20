use std::cell::Cell;

use rs_quant::quantitative::double::Double;
use rs_quant::quantitative::rootfinding::{
    has_same_strict_sign, is_flat, is_within, BrentsMethod, NewtonProbe, NewtonRaphsonMethod,
    Progress, RootFindingError, SecantMethod, SecantProbe, FLATNESS_BITS,
};

fn d(x: f64) -> Double {
    Double::from_bits(x.to_bits())
}

fn v(x: Double) -> f64 {
    f64::from_bits(x.to_bits())
}

// The arithmetic of each method, as a caller supplies it.

fn newton<F: Fn(f64) -> (f64, f64)>(
    x0: f64,
    f: F,
    tol: f64,
    max_iter: usize,
) -> Result<f64, RootFindingError> {
    let method = NewtonRaphsonMethod { x0: d(x0) };
    method
        .find_root(
            |x: Double| {
                let x = v(x);
                let (fx, dfx) = f(x);
                let next = x - fx / dfx;
                NewtonProbe { value: d(fx), slope: d(dfx), next: d(next), step: d(next - x) }
            },
            d(tol),
            max_iter,
        )
        .map(v)
}

fn secant<F: Fn(f64) -> f64>(
    x0: f64,
    x1: f64,
    f: F,
    tol: f64,
    max_iter: usize,
) -> Result<f64, RootFindingError> {
    let method = SecantMethod { x0: d(x0), x1: d(x1) };
    method
        .find_root(
            |a: Double, b: Double| {
                let (x0, x1) = (v(a), v(b));
                let (fx0, fx1) = (f(x0), f(x1));
                let next = x1 - fx1 * (x1 - x0) / (fx1 - fx0);
                SecantProbe { rise: d(fx1 - fx0), next: d(next), step: d(next - x1) }
            },
            d(tol),
            max_iter,
        )
        .map(v)
}

fn brent<F: Fn(f64) -> f64>(
    a: f64,
    b: f64,
    f: F,
    tol: f64,
    max_iter: usize,
) -> Result<f64, RootFindingError> {
    let method = BrentsMethod { a: d(a), b: d(b) };
    method
        .find_root(
            |x: Double| d(f(v(x))),
            |a: Double, b: Double, tol: Double, max_iter: usize| {
                let mut convergency = roots::SimpleConvergency { eps: v(tol), max_iter };
                roots::find_root_brent(v(a), v(b), |x| f(x), &mut convergency).ok().map(d)
            },
            d(tol),
            max_iter,
        )
        .map(v)
}

#[test]
fn newton_raphson_success() {
    let f = |x: f64| (x * x - 4.0, 2.0 * x);
    let root = newton(1.0, f, 1e-6, 100);
    assert!(root.is_ok());
    let root = root.unwrap();
    assert!((root - 2.0).abs() < 1e-6 || (root + 2.0).abs() < 1e-6)
}

#[test]
fn test_newton_raphson_zero_derivative() {
    let f = |x: f64| (x * x, 2.0 * x);
    let root = newton(0.0, f, 1e-6, 1000);
    assert!(matches!(root, Err(RootFindingError::ZeroDerivative)));
}

#[test]
fn test_secant_method_success() {
    let f = |x: f64| x * x - 4.0;
    let root = secant(1.0, 2.0, f, 1e-6, 100);
    assert!(root.is_ok());
    let root = root.unwrap();
    assert!((root - 2.0).abs() < 1e-6 || (root + 2.0).abs() < 1e-6);
}

#[test]
fn test_secant_method_no_convergence() {
    let f = |x: f64| x * x - 4.0;
    let root = secant(1.0, 1.0000001, f, 1e-6, 5);
    assert!(matches!(root, Err(RootFindingError::NoConvergence)));
}

#[test]
fn test_brents_method_success() {
    let f = |x: f64| x * x - 4.0;
    let root = brent(1.0, 3.0, f, 1e-6, 100);
    assert!(root.is_ok());
    let root = root.unwrap();
    assert!((root - 2.0).abs() < 1e-6);
}

#[test]
fn test_brents_method_invalid_interval() {
    let f = |x: f64| x * x - 4.0;
    let root = brent(3.0, 5.0, f, 1e-6, 100);
    assert!(matches!(root, Err(RootFindingError::InvalidInterval)));
}

// Edge cases and rules beyond the cases above.

#[test]
fn secant_from_one_and_two_reaches_two() {
    let f = |x: f64| x * x - 4.0;
    let root = secant(1.0, 2.0, f, 1e-6, 100).unwrap();
    assert!((root - 2.0).abs() < 1e-6);
}

#[test]
fn newton_returns_a_seed_that_is_already_a_root() {
    let probes = Cell::new(0usize);
    let f = |x: f64| {
        probes.set(probes.get() + 1);
        (x * x - 4.0, 2.0 * x)
    };
    let root = newton(2.0, f, 1e-6, 100).unwrap();
    assert_eq!(root, 2.0);
    assert_eq!(probes.get(), 1);
}

#[test]
fn newton_checks_the_slope_before_the_residual() {
    // at the seed the residual is within tolerance and the slope is flat
    let f = |_x: f64| (0.0, 0.0);
    assert!(matches!(newton(1.0, f, 1e-6, 10), Err(RootFindingError::ZeroDerivative)));
}

#[test]
fn newton_without_budget_does_not_converge() {
    let f = |x: f64| (x * x - 4.0, 2.0 * x);
    assert!(matches!(newton(1.0, f, 1e-6, 0), Err(RootFindingError::NoConvergence)));
}

#[test]
fn newton_probes_at_most_once_more_than_the_budget() {
    for max_iter in 0..6usize {
        let probes = Cell::new(0usize);
        // the updates run away from the root and never settle
        let f = |x: f64| {
            probes.set(probes.get() + 1);
            (x.cbrt(), 1.0 / (3.0 * x.cbrt() * x.cbrt()))
        };
        let r = newton(1.0, f, 1e-12, max_iter);
        assert!(matches!(r, Err(RootFindingError::NoConvergence)));
        assert_eq!(probes.get(), max_iter + 1);
    }
}

#[test]
fn secant_probes_at_most_the_budget() {
    for max_iter in 0..6usize {
        let probes = Cell::new(0usize);
        let f = |x: f64| {
            probes.set(probes.get() + 1);
            x.cbrt()
        };
        let r = secant(1.0, 1.5, f, 1e-300, max_iter);
        assert!(matches!(r, Err(RootFindingError::NoConvergence)));
        // each probe of a pair evaluates the objective twice
        assert_eq!(probes.get(), 2 * max_iter);
    }
}

#[test]
fn secant_on_a_flat_function_has_no_slope() {
    let f = |_x: f64| 3.0;
    assert!(matches!(secant(1.0, 2.0, f, 1e-6, 10), Err(RootFindingError::ZeroDerivative)));
}

#[test]
fn brent_accepts_a_root_at_an_end() {
    let f = |x: f64| x * x - 4.0;
    let root = brent(2.0, 5.0, f, 1e-9, 100).unwrap();
    assert!((root - 2.0).abs() < 1e-6);
}

#[test]
fn brent_gives_up_within_its_budget() {
    let f = |x: f64| x * x * x - 2.0;
    assert!(matches!(brent(0.0, 1.0e6, f, 1e-15, 2), Err(RootFindingError::NoConvergence)));
}

#[test]
fn brent_does_not_search_a_refused_bracket() {
    let searched = Cell::new(false);
    let method = BrentsMethod { a: d(3.0), b: d(5.0) };
    let r = method.find_root(
        |x: Double| d(v(x) * v(x) - 4.0),
        |_a: Double, _b: Double, _tol: Double, _n: usize| {
            searched.set(true);
            Some(d(0.0))
        },
        d(1e-6),
        10,
    );
    assert_eq!(r, Err(RootFindingError::InvalidInterval));
    assert!(!searched.get());
}

#[test]
fn strict_signs() {
    assert!(has_same_strict_sign(d(1.0), d(5.0e-324)));
    assert!(has_same_strict_sign(d(-1.0), d(f64::NEG_INFINITY)));
    assert!(!has_same_strict_sign(d(1.0), d(-1.0)));
    assert!(!has_same_strict_sign(d(0.0), d(1.0)));
    assert!(!has_same_strict_sign(d(-0.0), d(-1.0)));
    assert!(!has_same_strict_sign(d(f64::NAN), d(1.0)));
    assert_eq!(BrentsMethod::check_bracket(d(2.0), d(3.0)), Err(RootFindingError::InvalidInterval));
    assert_eq!(BrentsMethod::check_bracket(d(-2.0), d(3.0)), Ok(()));
    assert_eq!(BrentsMethod::conclude(d(-2.0), d(3.0), None), Err(RootFindingError::NoConvergence));
    assert_eq!(BrentsMethod::conclude(d(-2.0), d(3.0), Some(d(1.5))), Ok(d(1.5)));
    assert_eq!(
        BrentsMethod::conclude(d(2.0), d(3.0), Some(d(1.5))),
        Err(RootFindingError::InvalidInterval)
    );
}

#[test]
fn flatness_threshold_is_one_in_ten_billion() {
    assert_eq!(FLATNESS_BITS, 1e-10f64.to_bits());
    assert!(!is_flat(d(1e-10)));
    assert!(!is_flat(d(-1e-10)));
    assert!(is_flat(d(0.99999e-10)));
    assert!(is_flat(d(-0.99999e-10)));
    assert!(is_flat(d(0.0)));
    assert!(!is_flat(d(f64::NAN)));
    assert!(is_within(d(-0.5), d(1.0)));
    assert!(!is_within(d(1.0), d(1.0)));
    assert!(!is_within(d(0.0), d(f64::NAN)));
    assert!(!is_within(d(0.0), d(0.0)));
}

#[test]
fn newton_machine_steps() {
    let tol = d(1e-6);
    let probe = |value: f64, slope: f64, next: f64, step: f64| NewtonProbe {
        value: d(value),
        slope: d(slope),
        next: d(next),
        step: d(step),
    };
    let start = || Progress::Initial { seed: d(1.0) };
    let s = NewtonRaphsonMethod::advance(start(), probe(-3.0, 2.0, 2.5, 1.5), tol, 3);
    assert!(matches!(s, Progress::Iterate { at, steps: 0 } if v(at) == 1.0));
    assert_eq!(s.result(), None);
    let s = NewtonRaphsonMethod::advance(s, probe(-3.0, 2.0, 2.5, 1.5), tol, 3);
    assert!(matches!(s, Progress::Iterate { at, steps: 1 } if v(at) == 2.5));
    let s = NewtonRaphsonMethod::advance(s, probe(2.25, 5.0, 2.05, -0.45), tol, 3);
    assert!(matches!(s, Progress::Iterate { at, steps: 2 } if v(at) == 2.05));
    let s = NewtonRaphsonMethod::advance(s, probe(0.2, 4.1, 2.0006, -0.0494), tol, 3);
    assert!(matches!(s, Progress::Exhausted));
    assert_eq!(s.result(), Some(Err(RootFindingError::NoConvergence)));
    // a stopped search stays where it is
    let s = NewtonRaphsonMethod::advance(s, probe(0.0, 1.0, 2.0, 0.0), tol, 3);
    assert!(matches!(s, Progress::Exhausted));

    let s = NewtonRaphsonMethod::advance(
        Progress::Iterate { at: d(2.0006), steps: 1 },
        probe(0.002, 4.0, 2.0000001, -0.0000009),
        tol,
        9,
    );
    assert_eq!(s.result(), Some(Ok(d(2.0000001))));
    let s = NewtonRaphsonMethod::advance(start(), probe(5.0, 1e-11, 0.0, 0.0), tol, 9);
    assert_eq!(s.result(), Some(Err(RootFindingError::ZeroDerivative)));
}

#[test]
fn secant_machine_steps() {
    let tol = d(1e-6);
    let probe =
        |rise: f64, next: f64, step: f64| SecantProbe { rise: d(rise), next: d(next), step: d(step) };
    let method = SecantMethod { x0: d(1.0), x1: d(2.0) };
    assert!(matches!(method.start(0), Progress::Exhausted));
    let s = method.start(2);
    assert!(matches!(s, Progress::Initial { seed } if v(seed.0) == 1.0 && v(seed.1) == 2.0));
    let s = SecantMethod::advance(s, probe(3.0, 2.0, 0.5), tol, 2);
    assert!(matches!(s, Progress::Iterate { at, steps: 1 } if v(at.0) == 2.0 && v(at.1) == 2.0));
    let s = SecantMethod::advance(s, probe(3.0, 2.5, 0.5), tol, 2);
    assert!(matches!(s, Progress::Exhausted));
    let s = SecantMethod::advance(method.start(2), probe(3.0, 2.0, 1e-7), tol, 2);
    assert_eq!(s.result(), Some(Ok(d(2.0))));
    let s = SecantMethod::advance(method.start(2), probe(-1e-12, 2.0, 1e-7), tol, 2);
    assert_eq!(s.result(), Some(Err(RootFindingError::ZeroDerivative)));
}
