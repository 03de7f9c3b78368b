//! The parts of a transaction that the extensions work on.

pub mod components;
