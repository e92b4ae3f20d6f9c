//! Core of a solver for a discretized stochastic neoclassical growth model.
//!
//! The solver finds, by value-function iteration, the value function and the
//! optimal capital-accumulation policy of a calibrated production/utility
//! economy with a Markov productivity process, on a dense grid of capital
//! levels.
//!
//! This library holds the decision logic of that iteration: the
//! concavity-driven search for the best next-period capital choice with its
//! monotone resume position, the reduction of per-state difference maxima,
//! and the convergence controller.  The model's real-valued arithmetic (grid
//! construction, production output, expected values, candidate utilities,
//! difference magnitudes) is IEEE floating point and is done by the caller;
//! each such quantity enters the library as a 64-bit *order code*, an integer
//! key whose `u64` order mirrors the order of the quantity it encodes.  All
//! contracts are stated over those keys, so everything the library decides —
//! which candidate wins a cell, where the next search resumes, when the
//! iteration stops — is proved, while the caller remains responsible only for
//! the arithmetic that produces the keys.

pub mod bellman;
pub mod checks;
pub mod convergence;
