//! Extensions that encumber transparent funds: the conditions under which
//! funds may be spent, and the evidence that a spend brings.

use vstd::prelude::*;
use crate::transaction::components::{OutPoint, TransactionData};

pub mod demo;

verus! {

/// A type that can be read from the mode and the payload of a condition or
/// of a piece of evidence.
pub trait FromPayload<E>: Sized {
    /// Reads a value from a mode and a payload.
    fn from_payload(mode: usize, payload: &[u8]) -> Result<Self, E>;
}

/// A type that can be written as a mode and a payload.
pub trait ToPayload {
    /// The mode and the payload of a value.
    fn to_payload(&self) -> (usize, Vec<u8>);
}

/// A condition under which encumbered funds may be spent.
#[derive(Debug)]
pub struct Precondition {
    pub extension_id: usize,
    pub mode: usize,
    pub payload: Vec<u8>,
}

impl Precondition {
    /// The condition of the extension `extension_id` that `value` stands
    /// for.
    pub fn from<P: ToPayload>(extension_id: usize, value: &P) -> (precondition: Precondition)
        ensures
            precondition.extension_id == extension_id,
            call_ensures(P::to_payload, (value,), (precondition.mode, precondition.payload)),
    {
        let (mode, payload) = value.to_payload();
        Precondition { extension_id, mode, payload }
    }
}

/// The evidence that a spend of encumbered funds brings.
#[derive(Debug)]
pub struct Witness {
    pub extension_id: usize,
    pub mode: usize,
    pub payload: Vec<u8>,
}

impl Witness {
    /// The evidence for the extension `extension_id` that `value` stands
    /// for.
    pub fn from<P: ToPayload>(extension_id: usize, value: &P) -> (witness: Witness)
        ensures
            witness.extension_id == extension_id,
            call_ensures(P::to_payload, (value,), (witness.mode, witness.payload)),
    {
        let (mode, payload) = value.to_payload();
        Witness { extension_id, mode, payload }
    }
}

/// Why evidence was not accepted.
#[derive(Debug, PartialEq)]
pub enum Error<E> {
    /// The extension (second) is not part of the epoch (first).
    InvalidForEpoch(u32, usize),
    /// No extension has this identifier.
    InvalidExtensionId(usize),
    /// The extension itself has refused the evidence.
    ProgramError(E),
}

/// A transaction that is being built, as far as an extension needs it.
pub trait ExtensionTxBuilder {
    type Error;

    /// Adds an input that spends `from_prevout` on the evidence given.
    fn add_tze_input<W: ToPayload>(
        &mut self,
        extension_id: usize,
        from_prevout: OutPoint,
        with_evidence: &W,
    ) -> Result<(), Self::Error>;

    /// Adds an output of `value` zatoshis under the condition given.
    fn add_tze_output<P: ToPayload>(
        &mut self,
        extension_id: usize,
        value: i64,
        guarded_by: &P,
    ) -> Result<(), Self::Error>;
}

/// An extension: a program that decides whether evidence meets a
/// condition, in the context of the transaction that brings the evidence.
pub trait Extension<C> {
    /// The conditions of the extension.
    type P;

    /// The evidence of the extension.
    type W;

    /// The reasons for which the extension refuses.
    type Error;

    /// Decides whether the evidence meets the condition.
    fn verify_inner(&self, precondition: &Self::P, witness: &Self::W, context: &C) -> Result<
        (),
        Self::Error,
    >;

    /// Reads a condition and evidence, and decides whether the evidence
    /// meets the condition: where the condition cannot be read, or else the
    /// evidence cannot, the verdict is the reason for that; else it is the
    /// verdict of `verify_inner` on what they are read as.
    fn verify(&self, precondition: &Precondition, witness: &Witness, context: &C) -> (verdict:
        Result<(), Self::Error>) where
        Self::P: FromPayload<Self::Error>,
        Self::W: FromPayload<Self::Error>,
        Self: Sized,

        ensures
            exists|condition_bytes: &[u8], read_condition: Result<Self::P, Self::Error>|
                {
                    &&& condition_bytes@ == precondition.payload@
                    &&& #[trigger] call_ensures(
                        Self::P::from_payload,
                        (precondition.mode, condition_bytes),
                        read_condition,
                    )
                    &&& match read_condition {
                        Err(reason) => verdict == Err::<(), Self::Error>(reason),
                        Ok(condition) => exists|
                            evidence_bytes: &[u8],
                            read_evidence: Result<Self::W, Self::Error>,
                        |
                            {
                                &&& evidence_bytes@ == witness.payload@
                                &&& #[trigger] call_ensures(
                                    Self::W::from_payload,
                                    (witness.mode, evidence_bytes),
                                    read_evidence,
                                )
                                &&& match read_evidence {
                                    Err(reason) => verdict == Err::<(), Self::Error>(reason),
                                    Ok(evidence) => call_ensures(
                                        Self::verify_inner,
                                        (self, &condition, &evidence, context),
                                        verdict,
                                    ),
                                }
                            },
                    }
                },
    {
        let condition_bytes = precondition.payload.as_slice();
        let read_condition = Self::P::from_payload(precondition.mode, condition_bytes);
        let condition = match read_condition {
            Ok(condition) => condition,
            Err(reason) => {
                return Err(reason);
            },
        };
        let evidence_bytes = witness.payload.as_slice();
        let read_evidence = Self::W::from_payload(witness.mode, evidence_bytes);
        let evidence = match read_evidence {
            Ok(evidence) => evidence,
            Err(reason) => {
                return Err(reason);
            },
        };
        self.verify_inner(&condition, &evidence, context)
    }
}

/// The extensions that an epoch of the consensus rules knows.
pub trait Epoch<C> {
    /// The reasons for which the extensions of the epoch refuse.
    type VerifyError;

    /// Decides whether the evidence meets the condition under the rules of
    /// the epoch.
    fn verify(&self, precondition: &Precondition, witness: &Witness, context: &C) -> Result<
        (),
        Error<Self::VerifyError>,
    >;
}

/// The transaction that brings the evidence.
pub struct Context<'a> {
    pub tx: &'a TransactionData,
}

} // verus!
