//! The components of a transaction.

use vstd::prelude::*;
use crate::extensions::transparent::{Precondition, Witness};

verus! {

/// A place in the outputs of an earlier transaction.
#[derive(Clone, Copy, Debug, PartialEq, Eq)]
pub struct OutPoint {
    pub hash: [u8; 32],
    pub n: u32,
}

impl OutPoint {
    /// The `n`-th output of the transaction with the identifier `hash`.
    pub fn new(hash: [u8; 32], n: u32) -> (outpoint: OutPoint)
        ensures
            outpoint.hash == hash,
            outpoint.n == n,
    {
        OutPoint { hash, n }
    }
}

/// An input that spends funds that an extension encumbers.
#[derive(Debug)]
pub struct TzeIn {
    pub prevout: OutPoint,
    pub witness: Witness,
}

/// An output whose funds an extension encumbers.
#[derive(Debug)]
pub struct TzeOut {
    /// The value of the output, in zatoshis.
    pub value: i64,
    pub precondition: Precondition,
}

/// The inputs and outputs of a transaction, each kind in its list. Of the
/// kinds that are no concern of the extensions only the encodings are held.
#[derive(Debug)]
pub struct TransactionData {
    pub vin: Vec<Vec<u8>>,
    pub vout: Vec<Vec<u8>>,
    pub tze_inputs: Vec<TzeIn>,
    pub tze_outputs: Vec<TzeOut>,
    pub joinsplits: Vec<Vec<u8>>,
    pub shielded_spends: Vec<Vec<u8>>,
    pub shielded_outputs: Vec<Vec<u8>>,
}

impl TransactionData {
    /// A transaction without inputs and outputs.
    pub fn new() -> (tx: TransactionData)
        ensures
            tx.vin@.len() == 0,
            tx.vout@.len() == 0,
            tx.tze_inputs@.len() == 0,
            tx.tze_outputs@.len() == 0,
            tx.joinsplits@.len() == 0,
            tx.shielded_spends@.len() == 0,
            tx.shielded_outputs@.len() == 0,
    {
        TransactionData {
            vin: Vec::new(),
            vout: Vec::new(),
            tze_inputs: Vec::new(),
            tze_outputs: Vec::new(),
            joinsplits: Vec::new(),
            shielded_spends: Vec::new(),
            shielded_outputs: Vec::new(),
        }
    }
}

} // verus!
