//! The append-only note commitment tree and the witnesses that follow it.

pub mod model;
pub mod tree;
pub mod witness;

pub use tree::{CommitmentTree, MAX_LEAVES};
pub use witness::{IncrementalWitness, MerklePath};
