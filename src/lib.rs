//! Convergence diagnostics for Markov chain Monte Carlo draws.
//!
//! The library holds the parts of the diagnostics that do not depend on the
//! arithmetic of the draws: the failure taxonomy, the effective length of a
//! set of chains and the checks on it, trimming, chain splitting, pooling,
//! the per-lag columns of autocovariances, and the lag walk of Geyer's
//! initial positive and monotone sequences.
pub mod chains;
pub mod checks;
pub mod error;
pub mod geyer;
pub mod split;

pub use chains::effective_length;
pub use error::DiagnosticError;
pub use geyer::LagWalk;
pub use split::split_chains;
