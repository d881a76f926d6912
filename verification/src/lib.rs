//! A grammar-guided Monte-Carlo tree search engine for symbolic program
//! synthesis.  A user-supplied grammar derives formulas, a user-supplied
//! fitness function scores them, and the engine searches the derivation
//! space for the best formula under an iteration budget, optionally
//! switching to non-growing rollouts or pruning when free memory runs low.
//!
//! The search tree, the arm-selection policy, the reward summaries, the
//! rollouts, the search drivers and the result aggregators all carry
//! contracts; scores and samples are plain integers in thousandths, and
//! randomness comes from the crate's own seeded generator, so a run is a
//! deterministic function of its inputs.

pub mod distribution;
pub mod expand;
pub mod grammar;
pub mod grammar2019;
pub mod memory;
pub mod no_expand;
pub mod numeric;
pub mod pareto;
pub mod random_expand;
pub mod results;
pub mod rng;
pub mod search;
pub mod tree;
