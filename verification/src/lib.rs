//! Brute-force nearest-neighbour search under cosine similarity.
//!
//! An [`index::ANNIndex`] stores fixed-dimension vectors, each component held
//! as its 32-bit IEEE-754 bit pattern, and answers top-k queries by ranking
//! every stored vector against per-entry scores supplied by the caller.
//! Scores are 32-bit order keys; [`score`] provides the order-preserving
//! translation between bit patterns and keys, and [`ranking`] the stable
//! descending ranking that a query returns a prefix of.

pub mod index;
pub mod ranking;
pub mod score;
