//! The rules of the demo extension: a lock of two hashes.
//!
//! Funds are locked under `hash_1 = BLAKE2b_256(preimage_1 || hash_2)` with
//! `hash_2 = BLAKE2b_256(preimage_2)`. The first preimage moves the funds
//! into one output that is locked under `hash_2`; the second preimage
//! releases them.

use vstd::prelude::*;
use crate::encoding::bytes_equal;
use crate::extensions::transparent::Extension;
use crate::hashing::{blake2b_256, blake2b_256_hash};
use crate::pczt::wire::write_raw;
use crate::transaction::components::TzeOut;

pub use crate::extensions::transparent::demo::{close, open, Error, Predicate, Witness};

verus! {

/// What the demo extension needs to know of the transaction that brings
/// the evidence.
pub trait Context {
    /// Whether the transaction has no inputs and outputs but those of
    /// extensions.
    fn is_tze_only(&self) -> bool;

    /// The outputs of the transaction that extensions encumber.
    fn tx_tze_outputs(&self) -> &[TzeOut];
}

/// The personalisation of the hashes of the demo: none.
pub open spec fn no_personal() -> Seq<u8> {
    Seq::new(16, |i: int| 0u8)
}

/// The verdict on evidence of the first mode in a transaction that holds
/// nothing but inputs and outputs of extensions: there must be one such
/// output, whose condition must be one of the second mode; and the hash of
/// the preimage and of that condition's hash must be the hash of the
/// condition.
pub open spec fn open_verdict(hash: Seq<u8>, preimage: Seq<u8>, outputs: Seq<TzeOut>) -> Result<
    (),
    Error,
> {
    if outputs.len() != 1 {
        Err(Error::InvalidOutputQty(outputs.len() as usize))
    } else {
        match Predicate::spec_parse(outputs[0].precondition.mode, outputs[0].precondition.payload@) {
            Ok(Predicate::Close(next)) => if blake2b_256(no_personal(), preimage + next.0@)
                == hash {
                Ok(())
            } else {
                Err(Error::HashMismatch)
            },
            Ok(Predicate::Open(_)) => Err(Error::ExpectedClose),
            Err(reason) => Err(reason),
        }
    }
}

/// The verdict on evidence of the second mode: the hash of the preimage
/// must be the hash of the condition.
pub open spec fn close_verdict(hash: Seq<u8>, preimage: Seq<u8>) -> Result<(), Error> {
    if blake2b_256(no_personal(), preimage) == hash {
        Ok(())
    } else {
        Err(Error::HashMismatch)
    }
}

/// Decides on evidence of the first mode, given the outputs of a
/// transaction that holds nothing but inputs and outputs of extensions.
pub fn verify_open(hash: &[u8; 32], preimage: &[u8; 32], outputs: &[TzeOut]) -> (verdict: Result<
    (),
    Error,
>)
    ensures
        verdict == open_verdict(hash@, preimage@, outputs@),
{
    if outputs.len() != 1 {
        return Err(Error::InvalidOutputQty(outputs.len()));
    }
    let tze_out = &outputs[0];
    match Predicate::parse(tze_out.precondition.mode, tze_out.precondition.payload.as_slice()) {
        Ok(Predicate::Close(p_close)) => {
            let zeros: [u8; 16] = [0, 0, 0, 0, 0, 0, 0, 0, 0, 0, 0, 0, 0, 0, 0, 0];
            assert(zeros@ =~= no_personal());
            let mut data: Vec<u8> = Vec::new();
            write_raw(&mut data, preimage.as_slice());
            write_raw(&mut data, p_close.0.as_slice());
            assert(data@ =~= preimage@ + p_close.0@);
            let found = blake2b_256_hash(&zeros, data.as_slice());
            if bytes_equal(found.as_slice(), hash.as_slice()) {
                Ok(())
            } else {
                Err(Error::HashMismatch)
            }
        },
        Ok(Predicate::Open(_)) => Err(Error::ExpectedClose),
        Err(reason) => Err(reason),
    }
}

/// Decides on evidence of the second mode.
pub fn verify_close(hash: &[u8; 32], preimage: &[u8; 32]) -> (verdict: Result<(), Error>)
    ensures
        verdict == close_verdict(hash@, preimage@),
{
    let zeros: [u8; 16] = [0, 0, 0, 0, 0, 0, 0, 0, 0, 0, 0, 0, 0, 0, 0, 0];
    assert(zeros@ =~= no_personal());
    let found = blake2b_256_hash(&zeros, preimage.as_slice());
    if bytes_equal(found.as_slice(), hash.as_slice()) {
        Ok(())
    } else {
        Err(Error::HashMismatch)
    }
}

/// The demo extension.
pub struct Program;

impl<C: Context> Extension<C> for Program {
    type P = Predicate;

    type W = Witness;

    type Error = Error;

    /// Decides whether the evidence meets the condition. Evidence and
    /// condition must be of the same mode. In the second mode the evidence
    /// must hash to the condition. In the first mode the transaction must
    /// hold nothing but inputs and outputs of extensions, and the verdict is
    /// that of `verify_open` on its outputs.
    fn verify_inner(&self, predicate: &Predicate, witness: &Witness, context: &C) -> (verdict:
        Result<(), Error>)
        ensures
            match (*predicate, *witness) {
                (Predicate::Open(p), Witness::Open(w)) => exists|only: bool|
                    {
                        &&& #[trigger] call_ensures(C::is_tze_only, (context,), only)
                        &&& if only {
                            exists|outputs: &[TzeOut]|
                                {
                                    &&& #[trigger] call_ensures(
                                        C::tx_tze_outputs,
                                        (context,),
                                        outputs,
                                    )
                                    &&& verdict == open_verdict(p.0@, w.0@, outputs@)
                                }
                        } else {
                            verdict == Err::<(), Error>(Error::NonTzeTxn)
                        }
                    },
                (Predicate::Close(p), Witness::Close(w)) => verdict == close_verdict(p.0@, w.0@),
                _ => verdict == Err::<(), Error>(Error::ModeMismatch),
            },
    {
        match (predicate, witness) {
            (Predicate::Open(p_open), Witness::Open(w_open)) => {
                let only = context.is_tze_only();
                if !only {
                    return Err(Error::NonTzeTxn);
                }
                let outputs = context.tx_tze_outputs();
                verify_open(&p_open.0, &w_open.0, outputs)
            },
            (Predicate::Close(p), Witness::Close(w)) => verify_close(&p.0, &w.0),
            _ => Err(Error::ModeMismatch),
        }
    }
}

} // verus!
