//! A brute-force hash-mining library: a fixed iteration space is split into
//! disjoint partitions, each partition is searched exhaustively for the
//! candidate input whose SHA-256 digest is smallest under byte-wise
//! lexicographic order, and the per-partition minima are reduced to a single
//! global best.

pub mod candidate;
pub mod encode;
pub mod order;
pub mod pair;
pub mod reduce;
pub mod partition;
pub mod rng;
pub mod search;
pub mod simple;
pub mod sha;
