use believer::{
    get_best_between, pick_winner, select_best, BestCodeFinderUsingErasure, Candidate, CodeGenerator, Decoder,
    InvalidProbability, ParityCheckMatrix, Probability, SimulationResult,
};
use rand::Rng;
use rand::SeedableRng;
use rand_chacha::ChaCha8Rng;

/// Random codes with `n_checks` checks of two bits each among `n_bits` bits.
struct RandomPairsGenerator {
    n_checks: usize,
    n_bits: usize,
}

impl CodeGenerator for RandomPairsGenerator {
    fn generate_with_rng(&self, rng: &mut ChaCha8Rng) -> ParityCheckMatrix {
        let mut positions = Vec::new();
        for row in 0..self.n_checks {
            positions.push((row, rng.gen_range(0..self.n_bits)));
            positions.push((row, rng.gen_range(0..self.n_bits)));
        }
        ParityCheckMatrix::new(positions)
    }
}

/// Succeeds on a trial when no erased bit is left unchecked; a crude stand-in
/// for an erasure decoder.
struct CoverageDecoder {
    code: ParityCheckMatrix,
    prob: Probability,
}

impl CoverageDecoder {
    fn trial(&self, rng: &mut ChaCha8Rng) -> bool {
        let mut erased = Vec::new();
        for _ in 0..4 {
            erased.push(rng.gen_range(0..self.prob.denominator) < self.prob.numerator);
        }
        let mut row = 0;
        let mut covered = vec![false; 4];
        while let Some(slice) = self.code.row_slice(row) {
            for (bit, c) in covered.iter_mut().enumerate() {
                let mut unit = vec![believer::GF2::B0; 4];
                unit[bit] = believer::GF2::B1;
                if slice.dot(&unit) == believer::GF2::B1 {
                    *c = true;
                }
            }
            row += 1;
        }
        erased.iter().zip(covered.iter()).all(|(e, c)| !*e || *c)
    }
}

impl Decoder for CoverageDecoder {
    fn for_code(erasure_prob: Probability, code: ParityCheckMatrix) -> Self {
        CoverageDecoder { code, prob: erasure_prob }
    }

    fn simulate_n_iterations_with_rng(&mut self, n_iterations: usize, rng: &mut ChaCha8Rng) -> SimulationResult {
        let mut successes = 0;
        let mut failures = 0;
        for _ in 0..n_iterations {
            if self.trial(rng) {
                successes += 1;
            } else {
                failures += 1;
            }
        }
        SimulationResult::new(successes, failures)
    }

    fn simulate_until_n_events_are_found_with_rng(&mut self, n_events: usize, rng: &mut ChaCha8Rng) -> SimulationResult {
        let mut successes = 0;
        let mut failures = 0;
        let mut trials = 0;
        while (successes < n_events as u64 || failures < n_events as u64) && trials < 100_000 {
            if self.trial(rng) {
                successes += 1;
            } else {
                failures += 1;
            }
            trials += 1;
        }
        SimulationResult::new(successes, failures)
    }

    fn take_code(self) -> ParityCheckMatrix {
        self.code
    }
}

fn finder(generator: &RandomPairsGenerator) -> BestCodeFinderUsingErasure<'_, RandomPairsGenerator> {
    BestCodeFinderUsingErasure::from_code_generator(generator)
        .with_erasure_prob(1, 4)
        .unwrap()
        .among_n_codes(10)
}

#[test]
fn reproductibility_for_finding_best_ldpc_code_simulating_n_iterations() {
    let rng = ChaCha8Rng::seed_from_u64(123);
    let generator = RandomPairsGenerator { n_checks: 3, n_bits: 4 };
    let code_finder = finder(&generator);

    let code_and_result_0 = code_finder
        .find_best_code_simulating_n_iterations_with_rng::<CoverageDecoder>(50, &mut rng.clone());
    let code_and_result_1 = code_finder
        .find_best_code_simulating_n_iterations_with_rng::<CoverageDecoder>(50, &mut rng.clone());
    assert_eq!(code_and_result_0, code_and_result_1);
}

#[test]
fn reproductibility_for_finding_best_ldpc_code_simulating_n_events() {
    let rng = ChaCha8Rng::seed_from_u64(123);
    let generator = RandomPairsGenerator { n_checks: 3, n_bits: 4 };
    let code_finder = finder(&generator);

    let code_and_result_0 = code_finder
        .find_best_code_simulating_n_events_with_rng::<CoverageDecoder>(50, &mut rng.clone());
    let code_and_result_1 = code_finder
        .find_best_code_simulating_n_events_with_rng::<CoverageDecoder>(50, &mut rng.clone());
    assert_eq!(code_and_result_0, code_and_result_1);
}

#[test]
fn search_returns_a_code_whenever_one_is_tried() {
    let generator = RandomPairsGenerator { n_checks: 3, n_bits: 4 };
    let code_finder = finder(&generator);
    let mut rng = ChaCha8Rng::seed_from_u64(7);
    let (code, result) =
        code_finder.find_best_code_simulating_n_iterations_with_rng::<CoverageDecoder>(20, &mut rng);
    assert!(code.is_some());
    assert_eq!(result.n_successes + result.n_failures, 20);
}

#[test]
fn empty_search_gives_no_code_and_the_worst_result() {
    let generator = RandomPairsGenerator { n_checks: 3, n_bits: 4 };
    let code_finder = BestCodeFinderUsingErasure::from_code_generator(&generator)
        .with_erasure_prob(1, 1)
        .unwrap();
    let mut rng = ChaCha8Rng::seed_from_u64(1);
    let (code, result) =
        code_finder.find_best_code_simulating_n_iterations_with_rng::<CoverageDecoder>(10, &mut rng);
    assert!(code.is_none());
    assert_eq!(result, SimulationResult::worse_result());
    let (code, result) =
        code_finder.find_best_code_simulating_n_events_with_rng::<CoverageDecoder>(10, &mut rng);
    assert!(code.is_none());
    assert_eq!(result, SimulationResult::worse_result());
}

#[test]
fn seeds_follow_the_source_in_index_order() {
    let generator = RandomPairsGenerator { n_checks: 3, n_bits: 4 };
    let code_finder = finder(&generator);
    let mut source = ChaCha8Rng::seed_from_u64(123);
    let seeds = code_finder.initialize_random_seeds_with_rng(&mut source);
    let mut again = ChaCha8Rng::seed_from_u64(123);
    let expected: Vec<u64> = (0..10).map(|_| again.gen::<u64>()).collect();
    assert_eq!(seeds, expected);
}

#[test]
fn probability_outside_unit_interval_is_rejected() {
    let generator = RandomPairsGenerator { n_checks: 1, n_bits: 2 };
    let base = || BestCodeFinderUsingErasure::from_code_generator(&generator);
    assert!(matches!(base().with_erasure_prob(3, 2), Err(InvalidProbability::OutOfRange)));
    assert!(matches!(base().with_erasure_prob(1, 0), Err(InvalidProbability::OutOfRange)));
    assert!(matches!(base().with_erasure_prob(0, 0), Err(InvalidProbability::OutOfRange)));
    assert!(base().with_erasure_prob(0, 1).is_ok());
    assert!(base().with_erasure_prob(1, 1).is_ok());
    assert!(base().with_erasure_prob(1, 5).is_ok());
}

#[test]
fn lower_failure_rate_is_better() {
    let good = SimulationResult::new(9, 1);
    let bad = SimulationResult::new(1, 1);
    assert!(good.is_better_than(&bad));
    assert!(!bad.is_better_than(&good));
    assert!(!SimulationResult::new(2, 2).is_better_than(&SimulationResult::new(1, 1)));
    assert!(!SimulationResult::worse_result().is_better_than(&SimulationResult::new(0, 5)));
    assert!(SimulationResult::new(1, 0).is_better_than(&SimulationResult::worse_result()));
    assert!(!SimulationResult::new(0, 0).is_better_than(&SimulationResult::worse_result()));
}

#[test]
fn strictly_better_candidate_wins() {
    let good = SimulationResult::new(9, 1);
    let bad = SimulationResult::new(5, 5);
    assert_eq!(select_best(&vec![good, bad]), Some(0));
    assert_eq!(select_best(&vec![bad, good]), Some(1));
    assert_eq!(select_best(&vec![]), None);
}

#[test]
fn ties_keep_the_earliest_candidate() {
    let a = SimulationResult::new(1, 1);
    let b = SimulationResult::new(3, 3);
    let worse = SimulationResult::new(0, 4);
    assert_eq!(select_best(&vec![worse, a, b, a]), Some(1));
}

fn candidate(index: usize, successes: u64, failures: u64) -> Option<Candidate> {
    Some(Candidate {
        index,
        code: ParityCheckMatrix::new(vec![(0, index)]),
        result: SimulationResult::new(successes, failures),
    })
}

#[test]
fn combine_does_not_depend_on_arrival_order() {
    let pick = |a: Option<Candidate>, b: Option<Candidate>| get_best_between(a, b).map(|c| c.index);
    assert_eq!(pick(candidate(0, 1, 1), candidate(1, 2, 2)), Some(0));
    assert_eq!(pick(candidate(1, 2, 2), candidate(0, 1, 1)), Some(0));
    assert_eq!(pick(candidate(0, 1, 1), candidate(1, 3, 1)), Some(1));
    assert_eq!(pick(candidate(1, 3, 1), candidate(0, 1, 1)), Some(1));
    assert_eq!(pick(None, candidate(4, 0, 1)), Some(4));
    assert_eq!(pick(candidate(4, 0, 1), None), Some(4));
    assert_eq!(pick(None, None), None);
}

#[test]
fn winner_carries_its_own_code() {
    let codes = vec![
        ParityCheckMatrix::new(vec![(0, 0)]),
        ParityCheckMatrix::new(vec![(0, 1)]),
        ParityCheckMatrix::new(vec![(0, 2)]),
        ParityCheckMatrix::new(vec![(0, 3)]),
    ];
    let results = vec![
        SimulationResult::new(0, 4),
        SimulationResult::new(1, 1),
        SimulationResult::new(3, 3),
        SimulationResult::new(1, 3),
    ];
    let (code, result) = pick_winner(codes.clone(), results);
    assert_eq!(code, Some(codes[1].clone()));
    assert_eq!(result, SimulationResult::new(1, 1));
    let (code, result) = pick_winner(Vec::new(), Vec::new());
    assert!(code.is_none());
    assert_eq!(result, SimulationResult::worse_result());
}

#[test]
fn empty_search_leaves_the_source_unchanged() {
    let generator = RandomPairsGenerator { n_checks: 3, n_bits: 4 };
    let code_finder = BestCodeFinderUsingErasure::from_code_generator(&generator);
    let mut rng = ChaCha8Rng::seed_from_u64(5);
    let before = rng.clone();
    let _ = code_finder.find_best_code_simulating_n_events_with_rng::<CoverageDecoder>(3, &mut rng);
    assert_eq!(rng, before);
}

#[test]
fn combine_keeps_the_winner_code() {
    let winner = get_best_between(candidate(2, 3, 1), candidate(0, 1, 1)).unwrap();
    assert_eq!(winner.index, 2);
    assert_eq!(winner.code, ParityCheckMatrix::new(vec![(0, 2)]));
}

/// Reports what it was handed instead of simulating.
struct EchoDecoder {
    code: ParityCheckMatrix,
    prob: Probability,
}

impl Decoder for EchoDecoder {
    fn for_code(erasure_prob: Probability, code: ParityCheckMatrix) -> Self {
        EchoDecoder { code, prob: erasure_prob }
    }

    fn simulate_n_iterations_with_rng(&mut self, n_iterations: usize, _rng: &mut ChaCha8Rng) -> SimulationResult {
        SimulationResult::new(n_iterations as u64, self.prob.numerator)
    }

    fn simulate_until_n_events_are_found_with_rng(&mut self, n_events: usize, _rng: &mut ChaCha8Rng) -> SimulationResult {
        SimulationResult::new(n_events as u64, self.prob.denominator)
    }

    fn take_code(self) -> ParityCheckMatrix {
        self.code
    }
}

#[test]
fn decoder_gets_the_configured_probability_and_count() {
    let generator = RandomPairsGenerator { n_checks: 2, n_bits: 3 };
    let code_finder = BestCodeFinderUsingErasure::from_code_generator(&generator)
        .with_erasure_prob(1, 4)
        .unwrap()
        .among_n_codes(1);
    let mut rng = ChaCha8Rng::seed_from_u64(9);
    let (_, result) = code_finder.find_best_code_simulating_n_iterations_with_rng::<EchoDecoder>(50, &mut rng);
    assert_eq!(result, SimulationResult::new(50, 1));
    let (_, result) = code_finder.find_best_code_simulating_n_events_with_rng::<EchoDecoder>(7, &mut rng);
    assert_eq!(result, SimulationResult::new(7, 4));
}
