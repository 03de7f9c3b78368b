//! The extensions that the consensus rules know.

pub mod transparent;
