//! Run one command in many working directories at once, bounded by a
//! concurrency gate, with every output line forwarded under a
//! directory-derived prefix and all per-directory outcomes reduced to a
//! single exit status.
//!
//! The crate verifies the decision logic of the tool: line splitting and
//! prefixing, outcome classification, result aggregation, and the permit
//! accounting of the concurrency gate. Process spawning, pipes, threads and
//! the command line live in the surrounding binary.

pub mod decimal;
pub mod fizzbuzz;
pub mod gate;
pub mod job;
pub mod outcome;
pub mod primes;
pub mod tee;
