//! The convergence controller and the reduction of difference maxima.
//!
//! After each full sweep the caller computes, per productivity state, the
//! magnitudes of the value-function changes and hands them over as order
//! codes.  [`sup`] reduces a slice of codes to its supremum; reducing each
//! state's codes first and the per-state suprema afterwards gives the same
//! answer as one global reduction ([`lemma_sup_of_sups`]), which is what lets
//! the states be swept by independent workers.  [`Controller`] then compares
//! the global supremum against the tolerance code and decides whether to run
//! another iteration, to stop with the converged buffers, or — when a generous
//! iteration budget is spent without convergence, a calibration fault — to
//! stop hard.

use vstd::prelude::*;

verus! {

/// The supremum of a sequence of order codes, 0 for the empty sequence.
pub open spec fn sup_code(s: Seq<u64>) -> u64
    decreases s.len(),
{
    if s.len() == 0 {
        0
    } else {
        let rest = sup_code(s.drop_last());
        if s.last() >= rest {
            s.last()
        } else {
            rest
        }
    }
}

/// Reduces the difference codes of one sweep (or the per-state suprema of
/// several sweeps) to their supremum.
pub fn sup(diffs: &Vec<u64>) -> (r: u64)
    ensures
        r == sup_code(diffs@),
{
    let mut r: u64 = 0;
    let mut i: usize = 0;
    while i < diffs.len()
        invariant
            i <= diffs@.len(),
            r == sup_code(diffs@.take(i as int)),
        decreases diffs@.len() - i,
    {
        if diffs[i] > r {
            r = diffs[i];
        }
        proof {
            assert(diffs@.take(i + 1).drop_last() =~= diffs@.take(i as int));
            assert(diffs@.take(i + 1).last() == diffs@[i as int]);
        }
        i = i + 1;
    }
    proof {
        assert(diffs@.take(diffs@.len() as int) =~= diffs@);
    }
    r
}

/// The supremum dominates every element and, for a non-empty sequence, is one
/// of them.
pub proof fn lemma_sup_bounds(s: Seq<u64>)
    ensures
        forall|t: int| 0 <= t < s.len() ==> #[trigger] s[t] <= sup_code(s),
        s.len() > 0 ==> exists|t: int| 0 <= t < s.len() && #[trigger] s[t] == sup_code(s),
    decreases s.len(),
{
    if s.len() > 0 {
        lemma_sup_bounds(s.drop_last());
        assert forall|t: int| 0 <= t < s.len() implies #[trigger] s[t] <= sup_code(s) by {
            if t < s.len() - 1 {
                assert(s.drop_last()[t] == s[t]);
                assert(s.drop_last()[t] <= sup_code(s.drop_last()));
            }
        }
        if s.last() >= sup_code(s.drop_last()) {
            assert(s[s.len() - 1] == sup_code(s));
        } else {
            let t0 = choose|t: int|
                0 <= t < s.drop_last().len() && #[trigger] s.drop_last()[t] == sup_code(
                    s.drop_last(),
                );
            assert(s[t0] == sup_code(s));
        }
    }
}

/// The supremum of a concatenation is the larger of the two suprema.
pub proof fn lemma_sup_concat(a: Seq<u64>, b: Seq<u64>)
    ensures
        sup_code(a + b) == if sup_code(a) >= sup_code(b) {
            sup_code(a)
        } else {
            sup_code(b)
        },
    decreases b.len(),
{
    if b.len() == 0 {
        assert(a + b =~= a);
    } else {
        lemma_sup_concat(a, b.drop_last());
        assert((a + b).drop_last() =~= a + b.drop_last());
        assert((a + b).last() == b.last());
    }
}

/// Reducing per-state difference codes state by state and then reducing the
/// per-state suprema gives the same answer as one reduction over all codes:
/// distributing the sweep over independent workers does not change the
/// convergence metric.
pub proof fn lemma_sup_of_sups(parts: Seq<Seq<u64>>)
    ensures
        sup_code(parts.flatten()) == sup_code(parts.map_values(|p: Seq<u64>| sup_code(p))),
    decreases parts.len(),
{
    let f = |p: Seq<u64>| sup_code(p);
    if parts.len() == 0 {
        assert(parts.map_values(f) =~= Seq::<u64>::empty());
    } else {
        lemma_sup_of_sups(parts.drop_first());
        lemma_sup_concat(parts.first(), parts.drop_first().flatten());
        let head = seq![f(parts.first())];
        assert(parts.map_values(f) =~= head + parts.drop_first().map_values(f));
        lemma_sup_concat(head, parts.drop_first().map_values(f));
        assert(head.drop_last() =~= Seq::<u64>::empty());
        assert(sup_code(Seq::<u64>::empty()) == 0);
        assert(sup_code(head) == f(parts.first()));
    }
}

/// What the controller answers when an iteration's difference supremum is
/// observed.
#[derive(Clone, Copy, Debug, PartialEq, Eq, Structural)]
pub enum Verdict {
    /// Not yet converged: run another iteration.
    Proceed,
    /// The supremum is within tolerance: the current buffers are the answer.
    Converged,
    /// The iteration budget is spent without convergence — a calibration or
    /// numerical fault; the solve stops hard.
    Exhausted,
}

/// Decides after each iteration whether the value-function iteration goes on,
/// has converged, or has exhausted its iteration budget.
pub struct Controller {
    /// Order code of the convergence tolerance.
    tol: u64,
    /// Hard ceiling on the number of iterations.
    budget: u64,
    /// Iterations observed so far.
    iterations: u64,
    /// Whether a verdict other than `Proceed` has been given.
    halted: bool,
}

impl Controller {
    /// The tolerance code the controller was built with.
    pub closed spec fn tol_code(self) -> u64 {
        self.tol
    }

    /// The iteration ceiling the controller was built with.
    pub closed spec fn budget_spec(self) -> u64 {
        self.budget
    }

    /// How many iterations have been observed.
    pub closed spec fn iterations_spec(self) -> u64 {
        self.iterations
    }

    /// The controller still expects another observation.
    pub closed spec fn is_running(self) -> bool {
        !self.halted
    }

    /// Internal consistency: the iteration count never passes the budget and
    /// a running controller still has budget left.
    pub closed spec fn wf(self) -> bool {
        &&& 1 <= self.budget
        &&& self.iterations <= self.budget
        &&& (!self.halted ==> self.iterations < self.budget)
    }

    /// Starts a controller that stops the iteration once the difference
    /// supremum's code is at most `tol`, or hard after `budget` iterations.
    pub fn new(tol: u64, budget: u64) -> (c: Controller)
        requires
            1 <= budget,
        ensures
            c.wf(),
            c.is_running(),
            c.tol_code() == tol,
            c.budget_spec() == budget,
            c.iterations_spec() == 0,
    {
        Controller { tol, budget, iterations: 0, halted: false }
    }

    /// How many iterations have been observed.
    pub fn iterations(&self) -> (n: u64)
        ensures
            n == self.iterations_spec(),
    {
        self.iterations
    }

    /// Observes one iteration's difference supremum and answers `Converged`
    /// exactly when the supremum is within tolerance, `Exhausted` exactly
    /// when it is not and this observation spends the budget, and `Proceed`
    /// otherwise.
    pub fn observe(&mut self, sup: u64) -> (v: Verdict)
        requires
            old(self).wf(),
            old(self).is_running(),
        ensures
            final(self).wf(),
            final(self).tol_code() == old(self).tol_code(),
            final(self).budget_spec() == old(self).budget_spec(),
            final(self).iterations_spec() == old(self).iterations_spec() + 1,
            (v == Verdict::Converged) <==> sup <= old(self).tol_code(),
            (v == Verdict::Exhausted) <==> (sup > old(self).tol_code() && old(
                self,
            ).iterations_spec() + 1 == old(self).budget_spec()),
            (v == Verdict::Proceed) <==> (sup > old(self).tol_code() && old(
                self,
            ).iterations_spec() + 1 < old(self).budget_spec()),
            final(self).is_running() <==> v == Verdict::Proceed,
    {
        self.iterations = self.iterations + 1;
        let v = if sup <= self.tol {
            Verdict::Converged
        } else if self.iterations == self.budget {
            Verdict::Exhausted
        } else {
            Verdict::Proceed
        };
        self.halted = !(matches!(v, Verdict::Proceed));
        v
    }
}

} // verus!
