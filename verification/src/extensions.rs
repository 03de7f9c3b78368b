//! Extensions of the transaction format.

pub mod transparent;
