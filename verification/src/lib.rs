//! Core of a shielded light wallet: commitment-tree maintenance, compact-block
//! scanning and partially-created transactions.

use vstd::prelude::*;

pub mod api;
pub mod consensus;
pub mod encoding;
pub mod extensions;
pub mod hashing;
pub mod keys;
pub mod merkle_tree;
pub mod note_encryption;
pub mod pczt;
pub mod primitives;
pub mod proto;
pub mod sapling;
pub mod transaction;
pub mod wallet;
pub mod welding_rig;
pub mod zip304;
pub mod zip32;

verus! {

/// The largest amount of zatoshis that may exist.
pub const MAX_MONEY: i64 = 21_000_000 * 100_000_000;

/// Whether `value` is an amount a shielded output may carry.
pub open spec fn is_valid_amount(value: int) -> bool {
    0 <= value <= MAX_MONEY
}

/// Tests that `value` lies in the range of valid amounts.
pub fn amount_in_range(value: i64) -> (ok: bool)
    ensures
        ok == is_valid_amount(value as int),
{
    0 <= value && value <= MAX_MONEY
}

} // verus!
