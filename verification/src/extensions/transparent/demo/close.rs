//! The second mode of the demo: funds are locked under the hash of a
//! preimage alone.

use vstd::prelude::*;

verus! {

/// The number of the mode.
pub const MODE: usize = 1;

/// The hash that locks the funds.
#[derive(Debug, PartialEq)]
pub struct Predicate(pub [u8; 32]);

/// The preimage that unlocks the funds.
#[derive(Debug, PartialEq)]
pub struct Witness(pub [u8; 32]);

} // verus!
