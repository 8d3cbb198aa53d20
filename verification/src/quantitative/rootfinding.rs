//! Iterative root searches for a scalar function.
//!
//! A search is a small state machine: it starts at its seed, applies one
//! update per probe of the objective, and stops when the update is within
//! tolerance, when the slope is too flat to divide by, or when the iteration
//! budget is spent. The machine and the loops that drive it are defined here.
//! The objective and the arithmetic of an update reach the loop as a probe:
//! a caller-supplied function from the current point to the numbers the
//! machine decides on.

use vstd::prelude::*;
use crate::quantitative::double::Double;

verus! {

/// Why a search did not return a root.
#[derive(Clone, Copy, Debug, PartialEq, Eq, Structural)]
pub enum RootFindingError {
    /// A slope estimate was smaller in magnitude than the flatness threshold.
    ZeroDerivative,
    /// The iteration budget ran out before an update came within tolerance.
    NoConvergence,
    /// The objective has the same strict sign at both ends of the bracket.
    InvalidInterval,
}

/// Bits of `1e-10`, the magnitude below which a slope counts as flat.
pub const FLATNESS_BITS: u64 = 0x3DDB_7CDF_D9D7_BDBB;

/// Whether `d` is too small in magnitude to divide by: `|d| < 1e-10`.
pub open spec fn flat(d: Double) -> bool {
    d.absolute().less(Double { bits: FLATNESS_BITS })
}

/// Whether `d` is within tolerance: `|d| < tol`.
pub open spec fn within(d: Double, tol: Double) -> bool {
    d.absolute().less(tol)
}

/// Decides [`flat`].
pub fn is_flat(d: Double) -> (r: bool)
    ensures
        r == flat(d),
{
    d.abs().lt(Double::from_bits(FLATNESS_BITS))
}

/// Decides [`within`].
pub fn is_within(d: Double, tol: Double) -> (r: bool)
    ensures
        r == within(d, tol),
{
    d.abs().lt(tol)
}

/// Where a search stands. `P` is the point a method iterates on: one
/// abscissa for Newton-Raphson, the last two for the secant method.
#[derive(Debug)]
pub enum Progress<P> {
    /// Nothing probed yet.
    Initial { seed: P },
    /// `steps` updates applied without reaching tolerance; `at` is current.
    Iterate { at: P, steps: usize },
    /// An update came within tolerance.
    Converged { root: Double },
    /// A slope was too flat.
    Diverged,
    /// The budget is spent.
    Exhausted,
}

impl<P> Progress<P> {
    /// Whether the search has stopped.
    pub open spec fn terminal(self) -> bool {
        self is Converged || self is Diverged || self is Exhausted
    }

    /// What a stopped search returns; `None` while it is still running.
    pub open spec fn outcome(self) -> Option<Result<Double, RootFindingError>> {
        match self {
            Progress::Converged { root } => Some(Ok(root)),
            Progress::Diverged => Some(Err(RootFindingError::ZeroDerivative)),
            Progress::Exhausted => Some(Err(RootFindingError::NoConvergence)),
            _ => None,
        }
    }

    /// The point the next probe is taken at; meaningful while running.
    pub open spec fn point(self) -> P {
        match self {
            Progress::Initial { seed } => seed,
            Progress::Iterate { at, .. } => at,
            _ => arbitrary(),
        }
    }

    /// Updates applied so far.
    pub open spec fn steps_taken(self) -> nat {
        match self {
            Progress::Iterate { steps, .. } => steps as nat,
            _ => 0,
        }
    }

    /// A running search has budget left.
    pub open spec fn within_budget(self, max_iter: usize) -> bool {
        self is Iterate ==> self.steps_taken() < max_iter
    }

    /// Decides [`Progress::outcome`].
    pub fn result(&self) -> (r: Option<Result<Double, RootFindingError>>)
        ensures
            r == self.outcome(),
            r is Some <==> self.terminal(),
    {
        match self {
            Progress::Converged { root } => Some(Ok(*root)),
            Progress::Diverged => Some(Err(RootFindingError::ZeroDerivative)),
            Progress::Exhausted => Some(Err(RootFindingError::NoConvergence)),
            _ => None,
        }
    }
}

/// What one probe of the objective at `x` reports to Newton-Raphson.
#[derive(Clone, Copy, Debug)]
pub struct NewtonProbe {
    /// `f(x)`.
    pub value: Double,
    /// `f'(x)`.
    pub slope: Double,
    /// The Newton update `x - f(x) / f'(x)`.
    pub next: Double,
    /// The signed length of the update, `next - x`.
    pub step: Double,
}

/// Newton-Raphson from a single starting point.
#[derive(Clone, Copy, Debug)]
pub struct NewtonRaphsonMethod {
    pub x0: Double,
}

impl NewtonRaphsonMethod {
    /// The transition of the machine on one probe.
    ///
    /// At the seed the slope is checked, then the residual: a seed whose
    /// residual is within tolerance is returned as it is. At every later
    /// probe the slope is checked, then the length of the update. A search
    /// that has stopped stays where it is.
    pub open spec fn advanced(
        state: Progress<Double>,
        probe: NewtonProbe,
        tol: Double,
        max_iter: usize,
    ) -> Progress<Double> {
        match state {
            Progress::Initial { seed } => {
                if flat(probe.slope) {
                    Progress::Diverged
                } else if within(probe.value, tol) {
                    Progress::Converged { root: seed }
                } else if max_iter == 0 {
                    Progress::Exhausted
                } else {
                    Progress::Iterate { at: seed, steps: 0 }
                }
            },
            Progress::Iterate { at, steps } => {
                if flat(probe.slope) {
                    Progress::Diverged
                } else if within(probe.step, tol) {
                    Progress::Converged { root: probe.next }
                } else if steps + 1 >= max_iter {
                    Progress::Exhausted
                } else {
                    Progress::Iterate { at: probe.next, steps: (steps + 1) as usize }
                }
            },
            _ => state,
        }
    }

    /// The state after the probes of `trace`, taken in order from the seed.
    pub open spec fn replay(
        self,
        trace: Seq<NewtonProbe>,
        tol: Double,
        max_iter: usize,
    ) -> Progress<Double>
        decreases trace.len(),
    {
        if trace.len() == 0 {
            Progress::Initial { seed: self.x0 }
        } else {
            Self::advanced(self.replay(trace.drop_last(), tol, max_iter), trace.last(), tol, max_iter)
        }
    }

    /// `trace` is a run of the search against `probe`: each entry is what
    /// `probe` may return at the point the machine had reached, and the
    /// machine was still running when it was taken.
    pub open spec fn run_of<F: Fn(Double) -> NewtonProbe>(
        self,
        probe: F,
        trace: Seq<NewtonProbe>,
        tol: Double,
        max_iter: usize,
    ) -> bool {
        forall|k: int|
            0 <= k < trace.len() ==> {
                let before = #[trigger] self.replay(trace.take(k), tol, max_iter);
                !before.terminal() && call_ensures(probe, (before.point(),), trace[k])
            }
    }

    /// Applies one probe to the machine.
    pub fn advance(
        state: Progress<Double>,
        probe: NewtonProbe,
        tol: Double,
        max_iter: usize,
    ) -> (next: Progress<Double>)
        requires
            state.within_budget(max_iter),
        ensures
            next == Self::advanced(state, probe, tol, max_iter),
            next.within_budget(max_iter),
    {
        match state {
            Progress::Initial { seed } => {
                if is_flat(probe.slope) {
                    Progress::Diverged
                } else if is_within(probe.value, tol) {
                    Progress::Converged { root: seed }
                } else if max_iter == 0 {
                    Progress::Exhausted
                } else {
                    Progress::Iterate { at: seed, steps: 0 }
                }
            },
            Progress::Iterate { at, steps } => {
                if is_flat(probe.slope) {
                    Progress::Diverged
                } else if is_within(probe.step, tol) {
                    Progress::Converged { root: probe.next }
                } else if steps + 1 >= max_iter {
                    Progress::Exhausted
                } else {
                    Progress::Iterate { at: probe.next, steps: steps + 1 }
                }
            },
            Progress::Converged { root } => Progress::Converged { root },
            Progress::Diverged => Progress::Diverged,
            Progress::Exhausted => Progress::Exhausted,
        }
    }

    /// Runs the search to its end.
    ///
    /// The result is the outcome of some run against `probe`: the machine
    /// replayed over the probes taken stops exactly at the last of them, and
    /// what it stopped with is returned.
    pub fn find_root<F: Fn(Double) -> NewtonProbe>(
        &self,
        probe: F,
        tol: Double,
        max_iter: usize,
    ) -> (r: Result<Double, RootFindingError>)
        requires
            forall|x: Double| call_requires(probe, (x,)),
        ensures
            exists|trace: Seq<NewtonProbe>|
                self.run_of(probe, trace, tol, max_iter)
                    && #[trigger] self.replay(trace, tol, max_iter).outcome() == Some(r),
            r != Err::<Double, RootFindingError>(RootFindingError::InvalidInterval),
    {
        let mut state: Progress<Double> = Progress::Initial { seed: self.x0 };
        let ghost mut trace: Seq<NewtonProbe> = Seq::empty();
        loop
            invariant
                forall|x: Double| call_requires(probe, (x,)),
                self.run_of(probe, trace, tol, max_iter),
                self.replay(trace, tol, max_iter) == state,
                !state.terminal(),
                state.within_budget(max_iter),
                state is Initial ==> trace.len() == 0,
                state is Iterate ==> trace.len() == state.steps_taken() + 1,
            decreases max_iter + 1 - trace.len(),
        {
            let at: Double = match state {
                Progress::Initial { seed } => seed,
                Progress::Iterate { at, .. } => at,
                _ => self.x0,
            };
            let sample = probe(at);
            let next = Self::advance(state, sample, tol, max_iter);
            proof {
                let longer = trace.push(sample);
                assert(longer.drop_last() =~= trace);
                assert(longer.last() == sample);
                assert forall|k: int| 0 <= k < longer.len() implies {
                    let before = #[trigger] self.replay(longer.take(k), tol, max_iter);
                    !before.terminal() && call_ensures(probe, (before.point(),), longer[k])
                } by {
                    if k < trace.len() {
                        assert(longer.take(k) =~= trace.take(k));
                    } else {
                        assert(longer.take(k) =~= trace);
                    }
                }
                trace = longer;
            }
            state = next;
            match state.result() {
                Some(r) => {
                    return r;
                },
                None => {},
            }
        }
    }
}

impl NewtonRaphsonMethod {
    /// No proper prefix of `trace` has stopped the machine.
    pub open spec fn running_before(
        self,
        trace: Seq<NewtonProbe>,
        tol: Double,
        max_iter: usize,
    ) -> bool {
        forall|k: int|
            0 <= k < trace.len() ==> !(#[trigger] self.replay(trace.take(k), tol, max_iter)).terminal()
    }

    /// A run without its last probe is a run: the machine was running
    /// before each of the probes that remain, and was still running when
    /// the last one was taken.
    pub proof fn lemma_prefix_running(self, trace: Seq<NewtonProbe>, tol: Double, max_iter: usize)
        requires
            self.running_before(trace, tol, max_iter),
            trace.len() > 0,
        ensures
            self.running_before(trace.drop_last(), tol, max_iter),
            !self.replay(trace.drop_last(), tol, max_iter).terminal(),
    {
        let shorter = trace.drop_last();
        assert(shorter =~= trace.take(trace.len() - 1));
        assert forall|k: int| 0 <= k < shorter.len() implies !(#[trigger] self.replay(
            shorter.take(k),
            tol,
            max_iter,
        )).terminal() by {
            assert(shorter.take(k) =~= trace.take(k));
        }
    }

    /// A machine that was running before each probe has counted them: after
    /// the first probe it has either stopped or applied one update fewer
    /// than it has seen probes, and it never holds more updates than the
    /// budget allows.
    pub proof fn lemma_replay_counts(
        self,
        trace: Seq<NewtonProbe>,
        tol: Double,
        max_iter: usize,
    )
        requires
            self.running_before(trace, tol, max_iter),
        ensures
            ({
                let s = self.replay(trace, tol, max_iter);
                &&& s is Initial <==> trace.len() == 0
                &&& s is Initial ==> s.point() == self.x0
                &&& s is Iterate ==> s.steps_taken() + 1 == trace.len() && s.steps_taken() < max_iter
            }),
        decreases trace.len(),
    {
        if trace.len() > 0 {
            self.lemma_prefix_running(trace, tol, max_iter);
            self.lemma_replay_counts(trace.drop_last(), tol, max_iter);
        }
    }

    /// A search never probes the objective more than `max_iter + 1` times:
    /// once at the seed, and once for each update the budget allows.
    pub proof fn lemma_probes_bounded(
        self,
        trace: Seq<NewtonProbe>,
        tol: Double,
        max_iter: usize,
    )
        requires
            self.running_before(trace, tol, max_iter),
        ensures
            trace.len() <= max_iter + 1,
    {
        if trace.len() > 0 {
            self.lemma_prefix_running(trace, tol, max_iter);
            self.lemma_replay_counts(trace.drop_last(), tol, max_iter);
        }
    }

    /// A seed that is already a root is returned on the first probe: where
    /// the slope at the seed is not flat and the residual is within
    /// tolerance, the search stops there with the seed, whatever the budget.
    pub proof fn lemma_seed_root(self, probe: NewtonProbe, tol: Double, max_iter: usize)
        requires
            !flat(probe.slope),
            within(probe.value, tol),
        ensures
            self.replay(seq![probe], tol, max_iter).outcome() == Some(
                Ok::<Double, RootFindingError>(self.x0),
            ),
    {
        let trace = seq![probe];
        assert(trace.drop_last() =~= Seq::<NewtonProbe>::empty());
        assert(trace.last() == probe);
        assert(self.replay(trace.drop_last(), tol, max_iter) == (Progress::Initial {
            seed: self.x0,
        }));
    }

    /// What each outcome of a search says about its last probe.
    ///
    /// A flat slope at the last probe is the one way to `ZeroDerivative`. A
    /// root is the seed itself when the seed's residual was within
    /// tolerance, and otherwise the last update, whose length was within
    /// tolerance. `NoConvergence` comes after exactly `max_iter + 1` probes,
    /// none of which was flat or within tolerance at its turn.
    pub proof fn lemma_outcome(
        self,
        trace: Seq<NewtonProbe>,
        tol: Double,
        max_iter: usize,
        r: Result<Double, RootFindingError>,
    )
        requires
            self.running_before(trace, tol, max_iter),
            self.replay(trace, tol, max_iter).outcome() == Some(r),
        ensures
            trace.len() >= 1,
            r == Err::<Double, RootFindingError>(RootFindingError::ZeroDerivative) <==> flat(
                trace.last().slope,
            ),
            r is Ok && trace.len() == 1 ==> r == Ok::<Double, RootFindingError>(self.x0) && within(
                trace.last().value,
                tol,
            ),
            r is Ok && trace.len() > 1 ==> r == Ok::<Double, RootFindingError>(trace.last().next)
                && within(trace.last().step, tol),
            r == Err::<Double, RootFindingError>(RootFindingError::NoConvergence) ==> trace.len()
                == max_iter + 1,
            r != Err::<Double, RootFindingError>(RootFindingError::InvalidInterval),
    {
        assert(trace.len() >= 1);
        self.lemma_prefix_running(trace, tol, max_iter);
        self.lemma_replay_counts(trace.drop_last(), tol, max_iter);
    }
}

/// What one probe at the pair `(x0, x1)` reports to the secant method.
#[derive(Clone, Copy, Debug)]
pub struct SecantProbe {
    /// `f(x1) - f(x0)`, the rise of the secant line.
    pub rise: Double,
    /// The secant update `x1 - f(x1) * (x1 - x0) / (f(x1) - f(x0))`.
    pub next: Double,
    /// The signed length of the update, `next - x1`.
    pub step: Double,
}

/// The secant method from two starting points.
#[derive(Clone, Copy, Debug)]
pub struct SecantMethod {
    pub x0: Double,
    pub x1: Double,
}

impl SecantMethod {
    /// Where the search stands before its first probe: with no budget at
    /// all it is spent at once.
    pub open spec fn started(self, max_iter: usize) -> Progress<(Double, Double)> {
        if max_iter == 0 {
            Progress::Exhausted
        } else {
            Progress::Initial { seed: (self.x0, self.x1) }
        }
    }

    /// The transition of the machine on one probe.
    ///
    /// The rise is checked, then the length of the update; an update that
    /// is not within tolerance slides the pair forward. A search that has
    /// stopped stays where it is.
    pub open spec fn advanced(
        state: Progress<(Double, Double)>,
        probe: SecantProbe,
        tol: Double,
        max_iter: usize,
    ) -> Progress<(Double, Double)> {
        if state.terminal() {
            state
        } else if flat(probe.rise) {
            Progress::Diverged
        } else if within(probe.step, tol) {
            Progress::Converged { root: probe.next }
        } else if state.steps_taken() + 1 >= max_iter {
            Progress::Exhausted
        } else {
            Progress::Iterate {
                at: (state.point().1, probe.next),
                steps: (state.steps_taken() + 1) as usize,
            }
        }
    }

    /// The state after the probes of `trace`, taken in order from the seeds.
    pub open spec fn replay(
        self,
        trace: Seq<SecantProbe>,
        tol: Double,
        max_iter: usize,
    ) -> Progress<(Double, Double)>
        decreases trace.len(),
    {
        if trace.len() == 0 {
            self.started(max_iter)
        } else {
            Self::advanced(self.replay(trace.drop_last(), tol, max_iter), trace.last(), tol, max_iter)
        }
    }

    /// `trace` is a run of the search against `probe`: each entry is what
    /// `probe` may return at the pair the machine had reached, and the
    /// machine was still running when it was taken.
    pub open spec fn run_of<F: Fn(Double, Double) -> SecantProbe>(
        self,
        probe: F,
        trace: Seq<SecantProbe>,
        tol: Double,
        max_iter: usize,
    ) -> bool {
        forall|k: int|
            0 <= k < trace.len() ==> {
                let before = #[trigger] self.replay(trace.take(k), tol, max_iter);
                !before.terminal() && call_ensures(
                    probe,
                    (before.point().0, before.point().1),
                    trace[k],
                )
            }
    }

    /// No proper prefix of `trace` has stopped the machine.
    pub open spec fn running_before(
        self,
        trace: Seq<SecantProbe>,
        tol: Double,
        max_iter: usize,
    ) -> bool {
        forall|k: int|
            0 <= k < trace.len() ==> !(#[trigger] self.replay(trace.take(k), tol, max_iter)).terminal()
    }

    /// The state before the first probe.
    pub fn start(&self, max_iter: usize) -> (state: Progress<(Double, Double)>)
        ensures
            state == self.started(max_iter),
            state.within_budget(max_iter),
    {
        if max_iter == 0 {
            Progress::Exhausted
        } else {
            Progress::Initial { seed: (self.x0, self.x1) }
        }
    }

    /// Applies one probe to the machine.
    pub fn advance(
        state: Progress<(Double, Double)>,
        probe: SecantProbe,
        tol: Double,
        max_iter: usize,
    ) -> (next: Progress<(Double, Double)>)
        requires
            state.within_budget(max_iter),
        ensures
            next == Self::advanced(state, probe, tol, max_iter),
            next.within_budget(max_iter),
    {
        let (at, steps): ((Double, Double), usize) = match state {
            Progress::Initial { seed } => (seed, 0),
            Progress::Iterate { at, steps } => (at, steps),
            Progress::Converged { root } => {
                return Progress::Converged { root };
            },
            Progress::Diverged => {
                return Progress::Diverged;
            },
            Progress::Exhausted => {
                return Progress::Exhausted;
            },
        };
        if is_flat(probe.rise) {
            Progress::Diverged
        } else if is_within(probe.step, tol) {
            Progress::Converged { root: probe.next }
        } else if steps + 1 >= max_iter {
            Progress::Exhausted
        } else {
            Progress::Iterate { at: (at.1, probe.next), steps: steps + 1 }
        }
    }

    /// Runs the search to its end.
    ///
    /// The result is the outcome of some run against `probe`: the machine
    /// replayed over the probes taken stops exactly at the last of them, and
    /// what it stopped with is returned.
    pub fn find_root<F: Fn(Double, Double) -> SecantProbe>(
        &self,
        probe: F,
        tol: Double,
        max_iter: usize,
    ) -> (r: Result<Double, RootFindingError>)
        requires
            forall|a: Double, b: Double| call_requires(probe, (a, b)),
        ensures
            exists|trace: Seq<SecantProbe>|
                self.run_of(probe, trace, tol, max_iter)
                    && #[trigger] self.replay(trace, tol, max_iter).outcome() == Some(r),
            r != Err::<Double, RootFindingError>(RootFindingError::InvalidInterval),
            max_iter == 0 ==> r == Err::<Double, RootFindingError>(
                RootFindingError::NoConvergence,
            ),
    {
        let mut state: Progress<(Double, Double)> = self.start(max_iter);
        let ghost mut trace: Seq<SecantProbe> = Seq::empty();
        loop
            invariant
                forall|a: Double, b: Double| call_requires(probe, (a, b)),
                self.run_of(probe, trace, tol, max_iter),
                self.replay(trace, tol, max_iter) == state,
                state.within_budget(max_iter),
                state is Initial ==> trace.len() == 0 && max_iter > 0,
                state is Iterate ==> trace.len() == state.steps_taken(),
                max_iter == 0 ==> state is Exhausted,
            decreases max_iter + 1 - trace.len(),
        {
            match state.result() {
                Some(r) => {
                    return r;
                },
                None => {},
            }
            let at: (Double, Double) = match state {
                Progress::Initial { seed } => seed,
                Progress::Iterate { at, .. } => at,
                _ => (self.x0, self.x1),
            };
            let sample = probe(at.0, at.1);
            let next = Self::advance(state, sample, tol, max_iter);
            proof {
                let longer = trace.push(sample);
                assert(longer.drop_last() =~= trace);
                assert(longer.last() == sample);
                assert forall|k: int| 0 <= k < longer.len() implies {
                    let before = #[trigger] self.replay(longer.take(k), tol, max_iter);
                    !before.terminal() && call_ensures(
                        probe,
                        (before.point().0, before.point().1),
                        longer[k],
                    )
                } by {
                    if k < trace.len() {
                        assert(longer.take(k) =~= trace.take(k));
                    } else {
                        assert(longer.take(k) =~= trace);
                    }
                }
                trace = longer;
            }
            state = next;
        }
    }

    /// A run without its last probe is a run: the machine was running
    /// before each of the probes that remain, and was still running when
    /// the last one was taken.
    pub proof fn lemma_prefix_running(self, trace: Seq<SecantProbe>, tol: Double, max_iter: usize)
        requires
            self.running_before(trace, tol, max_iter),
            trace.len() > 0,
        ensures
            self.running_before(trace.drop_last(), tol, max_iter),
            !self.replay(trace.drop_last(), tol, max_iter).terminal(),
    {
        let shorter = trace.drop_last();
        assert(shorter =~= trace.take(trace.len() - 1));
        assert forall|k: int| 0 <= k < shorter.len() implies !(#[trigger] self.replay(
            shorter.take(k),
            tol,
            max_iter,
        )).terminal() by {
            assert(shorter.take(k) =~= trace.take(k));
        }
    }

    /// A machine that was running before each probe has applied one update
    /// per probe, and never more than the budget allows.
    pub proof fn lemma_replay_counts(
        self,
        trace: Seq<SecantProbe>,
        tol: Double,
        max_iter: usize,
    )
        requires
            self.running_before(trace, tol, max_iter),
        ensures
            ({
                let s = self.replay(trace, tol, max_iter);
                &&& s is Initial ==> trace.len() == 0 && s.point() == (self.x0, self.x1)
                &&& s is Iterate ==> s.steps_taken() == trace.len() && trace.len() < max_iter
                &&& !s.terminal() ==> max_iter > 0 && s.steps_taken() == trace.len()
            }),
        decreases trace.len(),
    {
        if trace.len() > 0 {
            self.lemma_prefix_running(trace, tol, max_iter);
            self.lemma_replay_counts(trace.drop_last(), tol, max_iter);
        }
    }

    /// A search never probes the objective more than `max_iter` times.
    pub proof fn lemma_probes_bounded(
        self,
        trace: Seq<SecantProbe>,
        tol: Double,
        max_iter: usize,
    )
        requires
            self.running_before(trace, tol, max_iter),
        ensures
            trace.len() <= max_iter,
    {
        if trace.len() > 0 {
            self.lemma_prefix_running(trace, tol, max_iter);
            self.lemma_replay_counts(trace.drop_last(), tol, max_iter);
        }
    }

    /// What each outcome of a search says about its last probe.
    ///
    /// A flat rise at the last probe is the one way to `ZeroDerivative`. A
    /// root is the last update, whose length was within tolerance.
    /// `NoConvergence` comes after exactly `max_iter` probes.
    pub proof fn lemma_outcome(
        self,
        trace: Seq<SecantProbe>,
        tol: Double,
        max_iter: usize,
        r: Result<Double, RootFindingError>,
    )
        requires
            self.running_before(trace, tol, max_iter),
            self.replay(trace, tol, max_iter).outcome() == Some(r),
        ensures
            r == Err::<Double, RootFindingError>(RootFindingError::ZeroDerivative) <==> trace.len()
                > 0 && flat(trace.last().rise),
            r is Ok ==> trace.len() > 0 && r == Ok::<Double, RootFindingError>(trace.last().next)
                && within(trace.last().step, tol),
            r == Err::<Double, RootFindingError>(RootFindingError::NoConvergence) ==> trace.len()
                == max_iter,
            r != Err::<Double, RootFindingError>(RootFindingError::InvalidInterval),
    {
        if trace.len() > 0 {
            self.lemma_prefix_running(trace, tol, max_iter);
            self.lemma_replay_counts(trace.drop_last(), tol, max_iter);
        }
    }
}

/// Whether `fa` and `fb` are both above zero or both below it. Zeros and
/// NaNs have no strict sign.
pub open spec fn same_strict_sign(fa: Double, fb: Double) -> bool {
    !fa.nan() && !fb.nan() && ((fa.rank() > 0 && fb.rank() > 0) || (fa.rank() < 0 && fb.rank()
        < 0))
}

/// Decides [`same_strict_sign`].
pub fn has_same_strict_sign(fa: Double, fb: Double) -> (r: bool)
    ensures
        r == same_strict_sign(fa, fb),
{
    if fa.is_nan() || fb.is_nan() {
        false
    } else {
        let ka: i64 = fa.rank_key();
        let kb: i64 = fb.rank_key();
        (ka > 0 && kb > 0) || (ka < 0 && kb < 0)
    }
}

/// Brent's method on a bracket `[a, b]`.
#[derive(Clone, Copy, Debug)]
pub struct BrentsMethod {
    pub a: Double,
    pub b: Double,
}

impl BrentsMethod {
    /// What the search returns once the objective is known at both ends
    /// and, for a bracket that passes, the bracketed search has reported.
    ///
    /// A bracket whose ends share a strict sign holds no sign change and is
    /// refused whatever the search would have found. Otherwise a found root
    /// is returned and a search that gave up is `NoConvergence`.
    pub open spec fn concluded(fa: Double, fb: Double, found: Option<Double>) -> Result<
        Double,
        RootFindingError,
    > {
        if same_strict_sign(fa, fb) {
            Err(RootFindingError::InvalidInterval)
        } else {
            match found {
                Some(root) => Ok(root),
                None => Err(RootFindingError::NoConvergence),
            }
        }
    }

    /// Decides whether the bracket may be searched.
    pub fn check_bracket(fa: Double, fb: Double) -> (r: Result<(), RootFindingError>)
        ensures
            r is Err <==> same_strict_sign(fa, fb),
            r is Err ==> r == Err::<(), RootFindingError>(RootFindingError::InvalidInterval),
    {
        if has_same_strict_sign(fa, fb) {
            Err(RootFindingError::InvalidInterval)
        } else {
            Ok(())
        }
    }

    /// Decides [`BrentsMethod::concluded`].
    pub fn conclude(fa: Double, fb: Double, found: Option<Double>) -> (r: Result<
        Double,
        RootFindingError,
    >)
        ensures
            r == Self::concluded(fa, fb, found),
    {
        match Self::check_bracket(fa, fb) {
            Err(e) => Err(e),
            Ok(()) => match found {
                Some(root) => Ok(root),
                None => Err(RootFindingError::NoConvergence),
            },
        }
    }

    /// Checks the bracket and, if it passes, runs the bracketed search.
    ///
    /// `objective` is probed at `a` and at `b`. `search` is the bracketed
    /// solver: handed the ends, the tolerance and the budget, it reports a
    /// root or gives up. It is not consulted for a bracket that is refused.
    pub fn find_root<F, S>(&self, objective: F, search: S, tol: Double, max_iter: usize) -> (r:
        Result<Double, RootFindingError>)
        where F: Fn(Double) -> Double, S: FnOnce(Double, Double, Double, usize) -> Option<Double>
        requires
            call_requires(objective, (self.a,)),
            call_requires(objective, (self.b,)),
            call_requires(search, (self.a, self.b, tol, max_iter)),
        ensures
            exists|fa: Double, fb: Double|
                {
                    &&& call_ensures(objective, (self.a,), fa)
                    &&& call_ensures(objective, (self.b,), fb)
                    &&& same_strict_sign(fa, fb) ==> r == Err::<Double, RootFindingError>(
                        RootFindingError::InvalidInterval,
                    )
                    &&& !same_strict_sign(fa, fb) ==> exists|found: Option<Double>|
                        call_ensures(search, (self.a, self.b, tol, max_iter), found) && r
                            == #[trigger] Self::concluded(fa, fb, found)
                },
            r != Err::<Double, RootFindingError>(RootFindingError::ZeroDerivative),
    {
        let fa = objective(self.a);
        let fb = objective(self.b);
        match Self::check_bracket(fa, fb) {
            Err(e) => Err(e),
            Ok(()) => {
                let found = search(self.a, self.b, tol, max_iter);
                let r = Self::conclude(fa, fb, found);
                assert(r == Self::concluded(fa, fb, found));
                r
            },
        }
    }
}

} // verus!
