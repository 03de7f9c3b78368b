//! The first mode of the demo: funds are locked under the hash of a preimage
//! and of the hash that will lock them next.

use vstd::prelude::*;

verus! {

/// The number of the mode.
pub const MODE: usize = 0;

/// The hash that locks the funds.
#[derive(Debug, PartialEq)]
pub struct Predicate(pub [u8; 32]);

/// The preimage that unlocks the funds.
#[derive(Debug, PartialEq)]
pub struct Witness(pub [u8; 32]);

} // verus!
