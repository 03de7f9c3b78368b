//! The extensions of transparent funds that the consensus rules know, epoch
//! by epoch.

use vstd::prelude::*;
use vstd::std_specs::convert::{FromSpecImpl, TryFromSpecImpl};
use crate::extensions::transparent::{Context, Epoch, Error, Extension, Precondition, Witness};
use crate::transaction::components::{TransactionData, TzeOut};

pub mod demo;

verus! {

/// The extensions that have an identifier of their own under the consensus
/// rules.
#[derive(Debug, Clone, Copy)]
pub enum ExtensionId {
    Demo,
}

/// An identifier that no extension has.
pub struct InvalidExtId(pub usize);

impl TryFrom<usize> for ExtensionId {
    type Error = InvalidExtId;

    fn try_from(t: usize) -> (id: Result<Self, InvalidExtId>) {
        if t == 0 {
            Ok(ExtensionId::Demo)
        } else {
            Err(InvalidExtId(t))
        }
    }
}

impl TryFromSpecImpl<usize> for ExtensionId {
    open spec fn obeys_try_from_spec() -> bool {
        true
    }

    open spec fn try_from_spec(t: usize) -> Result<Self, InvalidExtId> {
        if t == 0 {
            Ok(ExtensionId::Demo)
        } else {
            Err(InvalidExtId(t))
        }
    }
}

impl From<ExtensionId> for usize {
    fn from(type_id: ExtensionId) -> (id: usize) {
        match type_id {
            ExtensionId::Demo => 0,
        }
    }
}

impl FromSpecImpl<ExtensionId> for usize {
    open spec fn obeys_from_spec() -> bool {
        true
    }

    open spec fn from_spec(type_id: ExtensionId) -> usize {
        match type_id {
            ExtensionId::Demo => 0,
        }
    }
}

/// Whether a transaction has no inputs and outputs but those of extensions.
pub open spec fn tze_only(tx: &TransactionData) -> bool {
    &&& tx.vin@.len() == 0
    &&& tx.vout@.len() == 0
    &&& tx.shielded_spends@.len() == 0
    &&& tx.shielded_outputs@.len() == 0
    &&& tx.joinsplits@.len() == 0
}

impl<'a> demo::Context for Context<'a> {
    fn is_tze_only(&self) -> (only: bool)
        ensures
            only == tze_only(self.tx),
    {
        self.tx.vin.len() == 0 && self.tx.vout.len() == 0 && self.tx.shielded_spends.len() == 0
            && self.tx.shielded_outputs.len() == 0 && self.tx.joinsplits.len() == 0
    }

    fn tx_tze_outputs(&self) -> (outputs: &[TzeOut])
        ensures
            outputs@ == self.tx.tze_outputs@,
    {
        self.tx.tze_outputs.as_slice()
    }
}

/// The identifier on the wire of the epoch that knows the demo extension.
pub const V1_EPOCH_ID: u32 = 0x7473_6554;

/// The verdict of the demo extension on a condition and evidence as they
/// are written down, in a transaction: both must be read, and be of the
/// same mode; evidence of the first mode needs a transaction that holds
/// nothing but inputs and outputs of extensions.
pub open spec fn demo_verdict(
    precondition: &Precondition,
    witness: &Witness,
    tx: &TransactionData,
) -> Result<(), demo::Error> {
    match demo::Predicate::spec_parse(precondition.mode, precondition.payload@) {
        Err(reason) => Err(reason),
        Ok(condition) => match demo::Witness::spec_parse(witness.mode, witness.payload@) {
            Err(reason) => Err(reason),
            Ok(evidence) => match (condition, evidence) {
                (demo::Predicate::Open(p), demo::Witness::Open(w)) => if tze_only(tx) {
                    demo::open_verdict(p.0@, w.0@, tx.tze_outputs@)
                } else {
                    Err(demo::Error::NonTzeTxn)
                },
                (demo::Predicate::Close(p), demo::Witness::Close(w)) => demo::close_verdict(
                    p.0@,
                    w.0@,
                ),
                _ => Err(demo::Error::ModeMismatch),
            },
        },
    }
}

/// The verdict of the first epoch: the extension must be the demo, and the
/// verdict is that of the demo.
pub open spec fn epoch_v1_verdict(
    precondition: &Precondition,
    witness: &Witness,
    tx: &TransactionData,
) -> Result<(), Error<demo::Error>> {
    if precondition.extension_id != 0 {
        Err(Error::InvalidExtensionId(precondition.extension_id))
    } else {
        match demo_verdict(precondition, witness, tx) {
            Ok(()) => Ok(()),
            Err(reason) => Err(Error::ProgramError(reason)),
        }
    }
}

/// The extensions of the first epoch: the demo.
pub struct EpochV1;

impl<'a> Epoch<Context<'a>> for EpochV1 {
    type VerifyError = demo::Error;

    fn verify(&self, precondition: &Precondition, witness: &Witness, context: &Context<'a>) -> (verdict:
        Result<(), Error<demo::Error>>)
        ensures
            verdict == epoch_v1_verdict(precondition, witness, context.tx),
    {
        let ext_id = match ExtensionId::try_from(precondition.extension_id) {
            Ok(id) => id,
            Err(InvalidExtId(id)) => {
                return Err(Error::InvalidExtensionId(id));
            },
        };
        match ext_id {
            ExtensionId::Demo => match Extension::verify(
                &demo::Program,
                precondition,
                witness,
                context,
            ) {
                Ok(()) => Ok(()),
                Err(reason) => Err(Error::ProgramError(reason)),
            },
        }
    }
}

/// The extensions of the epoch with the given identifier, if the epoch
/// knows any.
pub fn epoch_for_branch(consensus_branch_id: u32) -> (epoch: Option<EpochV1>)
    ensures
        epoch is Some <==> consensus_branch_id == V1_EPOCH_ID,
{
    if consensus_branch_id == V1_EPOCH_ID {
        Some(EpochV1)
    } else {
        None
    }
}

} // verus!
