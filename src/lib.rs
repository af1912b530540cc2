//! Sparse parity-check matrices over GF(2) and a reproducible search for the
//! best code among randomly generated candidates.

mod best_code_finder;
mod gf2;
mod parity_check_matrix;
mod simulation_result;

pub use best_code_finder::{
    get_best_between, pick_winner, select_best, BestCodeFinderUsingErasure, Candidate,
    CodeGenerator, Decoder, InvalidProbability, Probability, StoppingPolicy,
};
pub use gf2::GF2;
pub use parity_check_matrix::{ParityCheckMatrix, Slice};
pub use simulation_result::SimulationResult;
