use crate::parity_check_matrix::ParityCheckMatrix;
use crate::simulation_result::{
    better, lemma_better_transitive, lemma_no_worse_transitive, worst, SimulationResult,
};
use rand::Rng;
use rand::SeedableRng;
use rand_chacha::ChaCha8Rng;
use vstd::prelude::*;

verus! {

#[verifier::external_type_specification]
#[verifier::external_body]
pub struct ExChaCha8Rng(ChaCha8Rng);

/// Relies on rand's `Rng::gen::<u64>`: draws the next 64-bit value from `rng`.
#[verifier::external_body]
fn draw_seed(rng: &mut ChaCha8Rng) -> (r: u64) {
    rng.gen::<u64>()
}

/// Relies on rand_core's `SeedableRng::seed_from_u64` for ChaCha8: a generator
/// whose whole stream is fixed by `seed`.
#[verifier::external_body]
fn rng_from_seed(seed: u64) -> (r: ChaCha8Rng) {
    ChaCha8Rng::seed_from_u64(seed)
}

/// A probability as the fraction `numerator / denominator`.
#[derive(Clone, Copy, Debug, PartialEq, Eq, Structural)]
pub struct Probability {
    pub numerator: u64,
    pub denominator: u64,
}

impl Probability {
    /// Lies in `[0, 1]`.
    pub open spec fn wf(self) -> bool {
        self.denominator > 0 && self.numerator <= self.denominator
    }
}

/// Raised by a probability setter given a value outside `[0, 1]`.
#[derive(Clone, Copy, Debug, PartialEq, Eq, Structural)]
pub enum InvalidProbability {
    OutOfRange,
}

/// Produces candidate codes from a random source.
pub trait CodeGenerator {
    fn generate_with_rng(&self, rng: &mut ChaCha8Rng) -> ParityCheckMatrix;
}

/// Simulates decoding of one code over an erasure channel.
pub trait Decoder: Sized {
    fn for_code(erasure_prob: Probability, code: ParityCheckMatrix) -> Self;

    /// Runs exactly `n_iterations` trials.
    fn simulate_n_iterations_with_rng(&mut self, n_iterations: usize, rng: &mut ChaCha8Rng)
        -> SimulationResult;

    /// Runs trials until `n_events` successes and `n_events` failures were seen.
    fn simulate_until_n_events_are_found_with_rng(&mut self, n_events: usize, rng: &mut ChaCha8Rng)
        -> SimulationResult;

    /// Hands the simulated code back.
    fn take_code(self) -> ParityCheckMatrix;
}

/// When the simulation of one candidate stops.
#[derive(Clone, Copy, Debug, PartialEq, Eq, Structural)]
pub enum StoppingPolicy {
    /// After exactly this many trials.
    Iterations(usize),
    /// Once this many successes and this many failures were observed.
    Events(usize),
}

/// One simulated candidate: its index in the search, its code and its result.
pub struct Candidate {
    pub index: usize,
    pub code: ParityCheckMatrix,
    pub result: SimulationResult,
}

/// What the selection looks at in a candidate: its index and its result.
pub type Rank = (usize, SimulationResult);

pub open spec fn rank_of(c: Candidate) -> Rank {
    (c.index, c.result)
}

/// `a` is preferred to `b`: a strictly better result, or a level one at an earlier index.
pub open spec fn beats(a: Rank, b: Rank) -> bool {
    better(a.1, b.1) || (!better(b.1, a.1) && a.0 < b.0)
}

/// The preferred of two partial selections of candidates; `None` is the
/// empty selection, and a tie between two candidates keeps the earlier index.
pub open spec fn combine(a: Option<Candidate>, b: Option<Candidate>) -> Option<Candidate> {
    match (a, b) {
        (None, _) => b,
        (_, None) => a,
        (Some(x), Some(y)) => if beats(rank_of(y), rank_of(x)) {
            b
        } else {
            a
        },
    }
}

/// The two candidates of a selection hold different indices.
pub open spec fn distinct_indices(a: Option<Candidate>, b: Option<Candidate>) -> bool {
    a matches Some(x) && b matches Some(y) ==> x.index != y.index
}

/// `i` is the first index holding a best result of `results`.
pub open spec fn is_first_best(results: Seq<SimulationResult>, i: int) -> bool {
    &&& 0 <= i < results.len()
    &&& forall|j: int| 0 <= j < results.len() ==> !better(#[trigger] results[j], results[i])
    &&& forall|j: int| 0 <= j < i ==> better(results[i], #[trigger] results[j])
}

/// Keeps the preferred of two partial selections, candidate and code alike.
pub fn get_best_between(first: Option<Candidate>, second: Option<Candidate>) -> (r: Option<Candidate>)
    ensures
        r == combine(first, second),
{
    match (first, second) {
        (None, s) => s,
        (f, None) => f,
        (Some(f), Some(s)) => {
            let s_better = s.result.is_better_than(&f.result);
            let f_better = f.result.is_better_than(&s.result);
            if s_better || (!f_better && s.index < f.index) {
                Some(s)
            } else {
                Some(f)
            }
        },
    }
}

proof fn lemma_better_asymmetric(a: SimulationResult, b: SimulationResult)
    ensures
        !(better(a, b) && better(b, a)),
{
    if better(a, b) && better(b, a) {
        lemma_better_transitive(a, b, a);
    }
}

proof fn lemma_beats_transitive(a: Rank, b: Rank, c: Rank)
    requires
        beats(a, b),
        beats(b, c),
    ensures
        beats(a, c),
{
    lemma_better_asymmetric(a.1, b.1);
    lemma_better_asymmetric(b.1, c.1);
    lemma_better_asymmetric(a.1, c.1);
    if better(a.1, b.1) && better(b.1, c.1) {
        lemma_better_transitive(a.1, b.1, c.1);
    } else if better(a.1, b.1) {
        if !better(a.1, c.1) {
            lemma_no_worse_transitive(b.1, c.1, a.1);
        }
    } else if better(b.1, c.1) {
        if !better(a.1, c.1) {
            lemma_no_worse_transitive(c.1, a.1, b.1);
        }
    } else {
        lemma_no_worse_transitive(a.1, b.1, c.1);
    }
}

/// Of two candidates at different indices, exactly one is preferred.
proof fn lemma_beats_total(a: Rank, b: Rank)
    requires
        a.0 != b.0,
    ensures
        beats(a, b) != beats(b, a),
{
    lemma_better_asymmetric(a.1, b.1);
}

/// The empty selection is the identity of the combine.
pub proof fn lemma_combine_identity(a: Option<Candidate>)
    ensures
        combine(None, a) == a,
        combine(a, None) == a,
{
}

/// Combining two partial selections over different candidates does not depend
/// on which arrives first.
pub proof fn lemma_combine_commutative(a: Option<Candidate>, b: Option<Candidate>)
    requires
        distinct_indices(a, b),
    ensures
        combine(a, b) == combine(b, a),
{
    if let (Some(x), Some(y)) = (a, b) {
        lemma_beats_total(rank_of(x), rank_of(y));
    }
}

/// Combining partial selections over different candidates does not depend on
/// how they are grouped: with the commutative law, any order in which the
/// workers finish yields the same winner.
pub proof fn lemma_combine_associative(a: Option<Candidate>, b: Option<Candidate>, c: Option<Candidate>)
    requires
        distinct_indices(a, b),
        distinct_indices(b, c),
        distinct_indices(a, c),
    ensures
        combine(combine(a, b), c) == combine(a, combine(b, c)),
{
    if let (Some(x), Some(y), Some(z)) = (a, b, c) {
        let (rx, ry, rz) = (rank_of(x), rank_of(y), rank_of(z));
        lemma_beats_total(rx, ry);
        lemma_beats_total(ry, rz);
        lemma_beats_total(rx, rz);
        if beats(rx, ry) && beats(ry, rz) {
            lemma_beats_transitive(rx, ry, rz);
        }
        if beats(rz, ry) && beats(ry, rx) {
            lemma_beats_transitive(rz, ry, rx);
        }
    }
}

proof fn lemma_first_best_step(s: Seq<SimulationResult>, best: int)
    requires
        s.len() >= 2,
        is_first_best(s.drop_last(), best),
    ensures
        better(s.last(), s[best]) ==> is_first_best(s, s.len() - 1),
        !better(s.last(), s[best]) ==> is_first_best(s, best),
{
    let prefix = s.drop_last();
    let k = s.len() - 1;
    assert(!better(s[k], s[k])) by (nonlinear_arith);
    assert(prefix[best] == s[best]);
    if better(s[k], s[best]) {
        assert forall|j: int| 0 <= j < s.len() implies !better(#[trigger] s[j], s[k]) by {
            if j < k {
                assert(s[j] == prefix[j]);
                lemma_better_asymmetric(s[k], s[best]);
                if better(s[j], s[k]) {
                    lemma_better_transitive(s[j], s[k], s[best]);
                }
            }
        }
        assert forall|j: int| 0 <= j < k implies better(s[k], #[trigger] s[j]) by {
            assert(s[j] == prefix[j]);
            assert(!better(prefix[j], prefix[best]));
            lemma_better_asymmetric(s[k], s[best]);
            if !better(s[k], s[j]) {
                lemma_no_worse_transitive(s[best], s[j], s[k]);
            }
        }
    } else {
        assert forall|j: int| 0 <= j < s.len() implies !better(#[trigger] s[j], s[best]) by {
            if j < k {
                assert(s[j] == prefix[j]);
            }
        }
        assert forall|j: int| 0 <= j < best implies better(s[best], #[trigger] s[j]) by {
            assert(s[j] == prefix[j]);
        }
    }
}

/// Folds the combine over the candidates in index order, from the empty selection.
pub open spec fn fold_combine(candidates: Seq<Candidate>) -> Option<Candidate>
    decreases candidates.len(),
{
    if candidates.len() == 0 {
        None
    } else {
        combine(fold_combine(candidates.drop_last()), Some(candidates.last()))
    }
}

/// Candidate `i` holds index `i`, code `codes[i]` and result `results[i]`.
pub open spec fn candidates_of(codes: Seq<ParityCheckMatrix>, results: Seq<SimulationResult>) -> Seq<
    Candidate,
> {
    Seq::new(results.len(), |i: int| Candidate { index: i as usize, code: codes[i], result: results[i] })
}

/// A sequence holds at most one first best index.
proof fn lemma_first_best_unique(s: Seq<SimulationResult>, i: int, j: int)
    requires
        is_first_best(s, i),
        is_first_best(s, j),
    ensures
        i == j,
{
    if i < j {
        assert(better(s[j], s[i]));
    } else if j < i {
        assert(better(s[i], s[j]));
    }
}

/// Reducing the candidates with the combine in index order selects the first
/// best result, with its own code.
pub proof fn lemma_fold_combine_first_best(codes: Seq<ParityCheckMatrix>, results: Seq<SimulationResult>)
    requires
        0 < results.len() <= usize::MAX,
        codes.len() == results.len(),
    ensures
        fold_combine(candidates_of(codes, results)) matches Some(c) && is_first_best(results, c.index as int)
            && c.code == codes[c.index as int] && c.result == results[c.index as int],
    decreases results.len(),
{
    let cs = candidates_of(codes, results);
    let k = results.len() - 1;
    assert(cs.drop_last() == candidates_of(codes.drop_last(), results.drop_last()));
    if k == 0 {
        assert(fold_combine(cs.drop_last()) == None::<Candidate>);
        assert(!better(results[0], results[0])) by (nonlinear_arith);
    } else {
        lemma_fold_combine_first_best(codes.drop_last(), results.drop_last());
        let x = fold_combine(cs.drop_last())->Some_0;
        assert(results.drop_last()[x.index as int] == results[x.index as int]);
        assert(codes.drop_last()[x.index as int] == codes[x.index as int]);
        lemma_first_best_step(results, x.index as int);
        lemma_better_asymmetric(results.last(), results[x.index as int]);
    }
}

/// Of two candidates, the one whose result is strictly better wins, with its
/// own code, wherever it stands.
pub proof fn lemma_strictly_better_wins(
    code_a: ParityCheckMatrix,
    a: SimulationResult,
    code_b: ParityCheckMatrix,
    b: SimulationResult,
)
    requires
        better(a, b),
    ensures
        fold_combine(candidates_of(seq![code_a, code_b], seq![a, b])) matches Some(c) && c.code
            == code_a && c.result == a,
        fold_combine(candidates_of(seq![code_b, code_a], seq![b, a])) matches Some(c) && c.code
            == code_a && c.result == a,
{
    lemma_better_asymmetric(a, b);
    assert(!better(a, a)) by (nonlinear_arith);
    assert(!better(b, b)) by (nonlinear_arith);
    lemma_fold_combine_first_best(seq![code_a, code_b], seq![a, b]);
    lemma_fold_combine_first_best(seq![code_b, code_a], seq![b, a]);
    let c1 = fold_combine(candidates_of(seq![code_a, code_b], seq![a, b]))->Some_0;
    let c2 = fold_combine(candidates_of(seq![code_b, code_a], seq![b, a]))->Some_0;
    if c1.index != 0 {
        assert(better(seq![a, b][1], seq![a, b][0]));
    }
    if c2.index != 1 {
        assert(!better(seq![b, a][1], seq![b, a][0]));
    }
}

/// The code and result of the first best candidate, or no code and the worst
/// result when there is no candidate. This is the index-order fold of the combine.
pub fn pick_winner(codes: Vec<ParityCheckMatrix>, results: Vec<SimulationResult>) -> (r: (
    Option<ParityCheckMatrix>,
    SimulationResult,
))
    requires
        codes@.len() == results@.len(),
    ensures
        results@.len() == 0 ==> r.0 is None && r.1 == worst(),
        results@.len() > 0 ==> (fold_combine(candidates_of(codes@, results@)) matches Some(c) && r.0
            == Some(c.code) && r.1 == c.result && is_first_best(results@, c.index as int)),
{
    let mut codes = codes;
    let ghost old_codes = codes@;
    match select_best(&results) {
        None => (None, SimulationResult::worse_result()),
        Some(best) => {
            proof {
                lemma_fold_combine_first_best(codes@, results@);
                let c = fold_combine(candidates_of(codes@, results@))->Some_0;
                lemma_first_best_unique(results@, c.index as int, best as int);
            }
            let result = results[best];
            (Some(codes.swap_remove(best)), result)
        },
    }
}

/// Index of the first best result, or `None` when there is none.
pub fn select_best(results: &Vec<SimulationResult>) -> (r: Option<usize>)
    ensures
        r is None <==> results@.len() == 0,
        r matches Some(i) ==> is_first_best(results@, i as int),
{
    if results.len() == 0 {
        return None;
    }
    let mut best: usize = 0;
    let mut i: usize = 1;
    assert(!better(results@[0], results@[0])) by (nonlinear_arith);
    while i < results.len()
        invariant
            1 <= i <= results@.len(),
            is_first_best(results@.take(i as int), best as int),
        decreases results@.len() - i,
    {
        proof {
            assert(results@.take(i + 1).drop_last() == results@.take(i as int));
            lemma_first_best_step(results@.take(i + 1), best as int);
        }
        if results[i].is_better_than(&results[best]) {
            best = i;
        }
        i += 1;
    }
    assert(results@.take(i as int) == results@);
    Some(best)
}

/// Configuration of a search for the best code among randomly generated ones,
/// each simulated over an erasure channel.
pub struct BestCodeFinderUsingErasure<'a, G: CodeGenerator> {
    code_generator: &'a G,
    erasure_prob: Probability,
    n_codes_to_try: usize,
}

impl<'a, G: CodeGenerator> BestCodeFinderUsingErasure<'a, G> {
    pub closed spec fn generator(&self) -> &'a G {
        self.code_generator
    }

    pub closed spec fn erasure_prob(&self) -> Probability {
        self.erasure_prob
    }

    pub closed spec fn n_codes(&self) -> nat {
        self.n_codes_to_try as nat
    }

    /// A finder over `code_generator`, with erasure probability one half and no code to try.
    pub fn from_code_generator(code_generator: &'a G) -> (r: Self)
        ensures
            r.generator() == code_generator,
            r.erasure_prob() == (Probability { numerator: 1, denominator: 2 }),
            r.n_codes() == 0,
    {
        BestCodeFinderUsingErasure {
            code_generator,
            erasure_prob: Probability { numerator: 1, denominator: 2 },
            n_codes_to_try: 0,
        }
    }

    /// Sets the number of candidate codes to try.
    pub fn among_n_codes(self, n_codes: usize) -> (r: Self)
        ensures
            r.generator() == self.generator(),
            r.erasure_prob() == self.erasure_prob(),
            r.n_codes() == n_codes,
    {
        BestCodeFinderUsingErasure { n_codes_to_try: n_codes, ..self }
    }

    /// Sets the erasure probability to `numerator / denominator`; fails when
    /// that is not a number in `[0, 1]`.
    pub fn with_erasure_prob(self, numerator: u64, denominator: u64) -> (r: Result<
        Self,
        InvalidProbability,
    >)
        ensures
            r is Ok <==> denominator > 0 && numerator <= denominator,
            r matches Ok(f) ==> f.erasure_prob() == (Probability { numerator, denominator })
                && f.generator() == self.generator() && f.n_codes() == self.n_codes(),
            r matches Err(e) ==> e == InvalidProbability::OutOfRange,
    {
        if denominator == 0 || numerator > denominator {
            return Err(InvalidProbability::OutOfRange);
        }
        Ok(BestCodeFinderUsingErasure { erasure_prob: Probability { numerator, denominator }, ..self })
    }

    /// Draws one seed per candidate, in index order, before any simulation.
    pub fn initialize_random_seeds_with_rng(&self, rng: &mut ChaCha8Rng) -> (seeds: Vec<u64>)
        ensures
            seeds@.len() == self.n_codes(),
            self.n_codes() == 0 ==> *final(rng) == *old(rng),
    {
        let mut seeds: Vec<u64> = Vec::new();
        let mut i: usize = 0;
        while i < self.n_codes_to_try
            invariant
                i <= self.n_codes_to_try,
                seeds@.len() == i,
                i == 0 ==> *rng == *old(rng),
            decreases self.n_codes_to_try - i,
        {
            seeds.push(draw_seed(rng));
            i += 1;
        }
        seeds
    }

    /// Generates the candidate of `seed` and simulates it under `policy`; the
    /// generator and the decoder share one random source seeded by `seed`.
    pub fn simulate_one_code_with_rng<D: Decoder>(&self, seed: u64, policy: StoppingPolicy) -> (
        ParityCheckMatrix,
        SimulationResult,
    ) {
        let mut rng = rng_from_seed(seed);
        let code = self.code_generator.generate_with_rng(&mut rng);
        let mut decoder = D::for_code(self.erasure_prob, code);
        let result = match policy {
            StoppingPolicy::Iterations(n) => decoder.simulate_n_iterations_with_rng(n, &mut rng),
            StoppingPolicy::Events(n) => decoder.simulate_until_n_events_are_found_with_rng(n, &mut rng),
        };
        (decoder.take_code(), result)
    }

    /// Simulates every candidate and returns the first best one with its result;
    /// with no candidate, no code and the worst result.
    pub fn find_with_policy<D: Decoder>(&self, policy: StoppingPolicy, rng: &mut ChaCha8Rng) -> (r: (
        Option<ParityCheckMatrix>,
        SimulationResult,
    ))
        ensures
            r.0 is None <==> self.n_codes() == 0,
            self.n_codes() == 0 ==> r.1 == worst(),
            self.n_codes() == 0 ==> *final(rng) == *old(rng),
    {
        let seeds = self.initialize_random_seeds_with_rng(rng);
        let mut codes: Vec<ParityCheckMatrix> = Vec::new();
        let mut results: Vec<SimulationResult> = Vec::new();
        let mut i: usize = 0;
        while i < seeds.len()
            invariant
                i <= seeds@.len(),
                codes@.len() == i,
                results@.len() == i,
            decreases seeds@.len() - i,
        {
            let (code, result) = self.simulate_one_code_with_rng::<D>(seeds[i], policy);
            codes.push(code);
            results.push(result);
            i += 1;
        }
        pick_winner(codes, results)
    }

    /// The best candidate and its result, each candidate simulated over exactly
    /// `n_iterations` trials; seeds are drawn from `rng`.
    pub fn find_best_code_simulating_n_iterations_with_rng<D: Decoder>(
        &self,
        n_iterations: usize,
        rng: &mut ChaCha8Rng,
    ) -> (r: (Option<ParityCheckMatrix>, SimulationResult))
        ensures
            r.0 is None <==> self.n_codes() == 0,
            self.n_codes() == 0 ==> r.1 == worst(),
            self.n_codes() == 0 ==> *final(rng) == *old(rng),
    {
        self.find_with_policy::<D>(StoppingPolicy::Iterations(n_iterations), rng)
    }

    /// The best candidate and its result, each candidate simulated until
    /// `n_events` successes and `n_events` failures; seeds are drawn from `rng`.
    pub fn find_best_code_simulating_n_events_with_rng<D: Decoder>(
        &self,
        n_events: usize,
        rng: &mut ChaCha8Rng,
    ) -> (r: (Option<ParityCheckMatrix>, SimulationResult))
        ensures
            r.0 is None <==> self.n_codes() == 0,
            self.n_codes() == 0 ==> r.1 == worst(),
            self.n_codes() == 0 ==> *final(rng) == *old(rng),
    {
        self.find_with_policy::<D>(StoppingPolicy::Events(n_events), rng)
    }
}

} // verus!
