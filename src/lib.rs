//! Parameter generation and evaluation for a Poseidon-style algebraic hash.
//!
//! For a width (the arity plus one) the library picks the numbers of full and
//! partial rounds, draws the round constants from a seeded shift register, builds
//! a Cauchy MDS matrix, and rewrites the round schedule into a cheaper one:
//! compressed constants for the partial rounds and one sparse matrix per partial
//! round. Both schedules can be evaluated over the resulting bundle.

pub mod constants;
pub mod error;
pub mod field;
pub mod hash;
pub mod matrix;
pub mod mds;
pub mod permutation;
pub mod preprocessing;
pub mod round_constants;
pub mod round_numbers;
