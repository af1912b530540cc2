use vstd::prelude::*;

verus! {

/// Outcome of simulating a code: how many decodings succeeded and how many failed.
/// Codes are ranked by failure rate, `n_failures / (n_failures + n_successes)`;
/// a result without any trial ranks as a failure rate of one, the worst.
#[derive(Clone, Copy, Debug, PartialEq, Eq, Structural)]
pub struct SimulationResult {
    pub n_successes: u64,
    pub n_failures: u64,
}

/// Failure count used for ranking (a result without trials counts as one failure).
pub open spec fn ranked_failures(r: SimulationResult) -> int {
    if r.n_successes == 0 && r.n_failures == 0 {
        1
    } else {
        r.n_failures as int
    }
}

/// Success count used for ranking.
pub open spec fn ranked_successes(r: SimulationResult) -> int {
    r.n_successes as int
}

/// `a` has a strictly lower failure rate than `b`:
/// `fa / (fa + sa) < fb / (fb + sb)`, that is `fa * sb < fb * sa`.
pub open spec fn better(a: SimulationResult, b: SimulationResult) -> bool {
    ranked_failures(a) * ranked_successes(b) < ranked_failures(b) * ranked_successes(a)
}

/// The worst possible result: one failure and no success.
pub open spec fn worst() -> SimulationResult {
    SimulationResult { n_successes: 0, n_failures: 1 }
}

impl SimulationResult {
    pub fn new(n_successes: u64, n_failures: u64) -> (r: Self)
        ensures
            r.n_successes == n_successes,
            r.n_failures == n_failures,
    {
        SimulationResult { n_successes, n_failures }
    }

    /// The worst possible result, below or level with every other.
    pub fn worse_result() -> (r: Self)
        ensures
            r == worst(),
            forall|x: SimulationResult| !better(r, x),
    {
        let r = SimulationResult { n_successes: 0, n_failures: 1 };
        assert forall|x: SimulationResult| !better(r, x) by {
            assert(ranked_failures(x) * 0 == 0) by (nonlinear_arith);
        }
        r
    }

    /// Whether `self` has a strictly lower failure rate than `other`.
    pub fn is_better_than(&self, other: &SimulationResult) -> (r: bool)
        ensures
            r == better(*self, *other),
    {
        let fa: u128 = if self.n_successes == 0 && self.n_failures == 0 {
            1
        } else {
            self.n_failures as u128
        };
        let fb: u128 = if other.n_successes == 0 && other.n_failures == 0 {
            1
        } else {
            other.n_failures as u128
        };
        let sa = self.n_successes as u128;
        let sb = other.n_successes as u128;
        proof {
            lemma_product_fits(fa, sb);
            lemma_product_fits(fb, sa);
        }
        fa * sb < fb * sa
    }
}

proof fn lemma_product_fits(x: u128, y: u128)
    requires
        x <= u64::MAX,
        y <= u64::MAX,
    ensures
        x * y <= u128::MAX,
{
    assert(x * y <= (u64::MAX as int) * (u64::MAX as int)) by (nonlinear_arith)
        requires
            x <= u64::MAX,
            y <= u64::MAX,
    ;
}

/// Non-strict comparison of failure rates, `fa / (fa + sa) <= fb / (fb + sb)`.
pub open spec fn no_worse(a: SimulationResult, b: SimulationResult) -> bool {
    !better(b, a)
}

proof fn lemma_rank_nonzero(a: SimulationResult)
    ensures
        ranked_failures(a) >= 0,
        ranked_successes(a) >= 0,
        ranked_failures(a) + ranked_successes(a) > 0,
{
}

/// Being better is transitive.
pub proof fn lemma_better_transitive(a: SimulationResult, b: SimulationResult, c: SimulationResult)
    requires
        better(a, b),
        better(b, c),
    ensures
        better(a, c),
{
    lemma_rank_nonzero(a);
    lemma_rank_nonzero(b);
    lemma_rank_nonzero(c);
    let (fa, sa) = (ranked_failures(a), ranked_successes(a));
    let (fb, sb) = (ranked_failures(b), ranked_successes(b));
    let (fc, sc) = (ranked_failures(c), ranked_successes(c));
    assert(fa * sc < fc * sa) by (nonlinear_arith)
        requires
            fa >= 0, sa >= 0, fb >= 0, sb >= 0, fc >= 0, sc >= 0,
            fa + sa > 0, fb + sb > 0, fc + sc > 0,
            fa * sb < fb * sa,
            fb * sc < fc * sb,
    ;
}

/// Being no worse is transitive.
pub proof fn lemma_no_worse_transitive(a: SimulationResult, b: SimulationResult, c: SimulationResult)
    requires
        no_worse(a, b),
        no_worse(b, c),
    ensures
        no_worse(a, c),
{
    lemma_rank_nonzero(a);
    lemma_rank_nonzero(b);
    lemma_rank_nonzero(c);
    let (fa, sa) = (ranked_failures(a), ranked_successes(a));
    let (fb, sb) = (ranked_failures(b), ranked_successes(b));
    let (fc, sc) = (ranked_failures(c), ranked_successes(c));
    assert(fa * sc <= fc * sa) by (nonlinear_arith)
        requires
            fa >= 0, sa >= 0, fb >= 0, sb >= 0, fc >= 0, sc >= 0,
            fa + sa > 0, fb + sb > 0, fc + sc > 0,
            fa * sb <= fb * sa,
            fb * sc <= fc * sb,
    ;
}

} // verus!
