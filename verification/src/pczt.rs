//! Partially-created transactions: documents that pass from hand to hand
//! while a shielded transaction is built and signed.

use vstd::prelude::*;
use crate::encoding::{
    add_points, add_scalars, copy_bytes, decodes_to_point, decodes_to_scalar,
    is_canonical_scalar, leading_bytes, lemma_scalar_sum_is_canonical, point_decodes, point_sum,
    scalar_sum,
};
use crate::keys::OutgoingViewingKey;
use crate::primitives::PaymentAddress;
use crate::{amount_in_range, is_valid_amount};

pub mod codec;
pub mod proto;
pub mod sign;
pub mod wire;

use codec::{enc_document, parse_document, parse_from_bytes};
use proto::{
    DocumentView, GlobalView, OutputView, PartiallyCreatedTransaction, PcztGlobal, PcztOutput,
};

verus! {

/// Why a document could not be worked on.
#[derive(Clone, Copy, Debug, PartialEq, Eq)]
pub enum PcztError {
    /// The value of an output lies outside the range of valid amounts.
    InvalidAmount,
    /// The bytes are not the encoding of a document.
    Undecodable,
    /// The accumulators of the document cannot be read.
    DocumentCorrupt,
    /// What the prover has built is no valid output.
    MalformedOutput,
    /// The value balance of the document would leave the range of its type.
    BalanceOverflow,
    /// The re-randomisation scalar of a spend cannot be read.
    InvalidAlpha,
    /// The key of a spend cannot be derived from the seed.
    UnderivableKey,
}

/// A memo that goes with a note.
#[derive(Clone, Copy, Debug, PartialEq, Eq)]
pub struct Memo(pub [u8; 512]);

/// What a prover builds for an output: the value commitment, the note
/// commitment, the ephemeral key, the two ciphertexts and the proof, and the
/// randomness of the value commitment. The proof is one of 192 bytes.
#[derive(Debug, PartialEq, Eq)]
pub struct SaplingOutput {
    pub cv: [u8; 32],
    pub cmu: [u8; 32],
    pub epk: [u8; 32],
    pub enc_ciphertext: Vec<u8>,
    pub out_ciphertext: Vec<u8>,
    pub zkproof: Vec<u8>,
    pub rcv: [u8; 32],
}

/// What a built output is in contracts.
pub struct SaplingOutputView {
    pub cv: Seq<u8>,
    pub cmu: Seq<u8>,
    pub epk: Seq<u8>,
    pub enc_ciphertext: Seq<u8>,
    pub out_ciphertext: Seq<u8>,
    pub zkproof: Seq<u8>,
    pub rcv: Seq<u8>,
}

impl View for SaplingOutput {
    type V = SaplingOutputView;

    open spec fn view(&self) -> SaplingOutputView {
        SaplingOutputView {
            cv: self.cv@,
            cmu: self.cmu@,
            epk: self.epk@,
            enc_ciphertext: self.enc_ciphertext@,
            out_ciphertext: self.out_ciphertext@,
            zkproof: self.zkproof@,
            rcv: self.rcv@,
        }
    }
}

/// The party that builds outputs: it encrypts the note to its recipient and
/// proves the output, with randomness of its own.
pub trait TxProver {
    /// Builds an output of `value` zatoshis to `to`.
    fn build_output(
        &self,
        ovk: &OutgoingViewingKey,
        to: &PaymentAddress,
        value: u64,
        memo: &Option<Memo>,
    ) -> SaplingOutput;
}

/// Whether nothing has been added to the accumulators yet.
pub open spec fn accumulator_is_empty(global: GlobalView) -> bool {
    global.bsk.len() == 0 && global.bvk.len() == 0
}

/// Whether the accumulators can be read: they are empty, or the one is the
/// encoding of a scalar and the other that of a point.
pub open spec fn accumulator_is_sound(global: GlobalView) -> bool {
    accumulator_is_empty(global) || (is_canonical_scalar(global.bsk) && global.bvk.len() == 32
        && point_decodes(global.bvk))
}

/// The length of the proof of an output.
pub const GROTH_PROOF_SIZE: usize = 192;

/// Whether a built output is one that a document can take: its randomness
/// and its value commitment can be read, its commitments and its ephemeral
/// key have 32 bytes each, and its proof has the length of a proof.
pub open spec fn output_is_sound(output: SaplingOutputView) -> bool {
    &&& is_canonical_scalar(output.rcv)
    &&& output.cv.len() == 32
    &&& point_decodes(output.cv)
    &&& output.cmu.len() == 32
    &&& output.epk.len() == 32
    &&& output.zkproof.len() == GROTH_PROOF_SIZE
}

/// Whether the accumulators of an encoded document stand: both have 32
/// bytes and can be read, so that the document takes further outputs.
pub open spec fn accumulators_stand(pczt: Seq<u8>) -> bool {
    match parse_document(pczt) {
        Some(document) => {
            &&& document.global.bsk.len() == 32
            &&& document.global.bvk.len() == 32
            &&& accumulator_is_sound(document.global)
        },
        None => false,
    }
}

/// The scalar accumulator once `rcv` has been added to it.
pub open spec fn next_bsk(global: GlobalView, rcv: Seq<u8>) -> Seq<u8> {
    if accumulator_is_empty(global) {
        rcv
    } else {
        scalar_sum(global.bsk, rcv)
    }
}

/// The point accumulator once `cv` has been added to it.
pub open spec fn next_bvk(global: GlobalView, cv: Seq<u8>) -> Seq<u8> {
    if accumulator_is_empty(global) {
        cv
    } else {
        point_sum(global.bvk, cv)
    }
}

/// The entry that a built output of `value` zatoshis makes in a document.
pub open spec fn output_entry(value: i64, output: SaplingOutputView) -> OutputView {
    OutputView {
        cv: output.cv,
        cmu: output.cmu,
        epk: output.epk,
        enc_ciphertext: output.enc_ciphertext,
        out_ciphertext: output.out_ciphertext,
        zkproof: output.zkproof,
        value,
        rcv: output.rcv,
    }
}

/// The document with one more output: the output stands last, its
/// randomness and value commitment are added to the accumulators, and its
/// value is taken from the value balance.
pub open spec fn with_output(
    document: DocumentView,
    value: i64,
    output: SaplingOutputView,
) -> Result<DocumentView, PcztError> {
    if !is_valid_amount(value as int) {
        Err(PcztError::InvalidAmount)
    } else if !accumulator_is_sound(document.global) {
        Err(PcztError::DocumentCorrupt)
    } else if !output_is_sound(output) {
        Err(PcztError::MalformedOutput)
    } else if document.global.value_balance - value < i64::MIN {
        Err(PcztError::BalanceOverflow)
    } else {
        Ok(
            DocumentView {
                global: GlobalView {
                    value_balance: (document.global.value_balance - value) as i64,
                    bsk: next_bsk(document.global, output.rcv),
                    bvk: next_bvk(document.global, output.cv),
                },
                spends: document.spends,
                outputs: document.outputs.push(output_entry(value, output)),
            },
        )
    }
}

/// What becomes of an encoded document when a built output of `value`
/// zatoshis is added to it.
pub open spec fn output_added(
    pczt: Seq<u8>,
    value: i64,
    output: SaplingOutputView,
) -> Result<Seq<u8>, PcztError> {
    if !is_valid_amount(value as int) {
        Err(PcztError::InvalidAmount)
    } else {
        match parse_document(pczt) {
            None => Err(PcztError::Undecodable),
            Some(document) => match with_output(document, value, output) {
                Ok(next) => Ok(enc_document(next)),
                Err(reason) => Err(reason),
            },
        }
    }
}

/// What stands in the way of adding an output of `value` zatoshis to an
/// encoded document, before the output is built.
pub open spec fn output_refused(pczt: Seq<u8>, value: i64) -> Option<PcztError> {
    if !is_valid_amount(value as int) {
        Some(PcztError::InvalidAmount)
    } else {
        match parse_document(pczt) {
            None => Some(PcztError::Undecodable),
            Some(document) => if !accumulator_is_sound(document.global) {
                Some(PcztError::DocumentCorrupt)
            } else {
                None
            },
        }
    }
}

/// Whether the accumulators of a document can be read.
fn accumulator_readable(global: &PcztGlobal) -> (ok: bool)
    ensures
        ok == accumulator_is_sound(global@),
{
    if global.bsk.len() == 0 && global.bvk.len() == 0 {
        return true;
    }
    if global.bsk.len() != 32 || global.bvk.len() != 32 {
        return false;
    }
    let bsk: [u8; 32] = leading_bytes(global.bsk.as_slice());
    let bvk: [u8; 32] = leading_bytes(global.bvk.as_slice());
    assert(bsk@ =~= global.bsk@);
    assert(bvk@ =~= global.bvk@);
    decodes_to_scalar(&bsk) && decodes_to_point(&bvk)
}

/// Reads the document that an output of `value` zatoshis is to be added to,
/// and tells whether it can be: the value must be a valid amount, the bytes
/// the encoding of a document, and the accumulators of it readable.
pub fn open_for_output(pczt: &[u8], value: i64) -> (opened: Result<
    PartiallyCreatedTransaction,
    PcztError,
>)
    ensures
        match opened {
            Ok(document) => output_refused(pczt@, value) is None && parse_document(pczt@) == Some(
                document@,
            ),
            Err(reason) => output_refused(pczt@, value) == Some(reason),
        },
{
    if !amount_in_range(value) {
        return Err(PcztError::InvalidAmount);
    }
    let document = match parse_from_bytes(pczt) {
        Some(document) => document,
        None => {
            return Err(PcztError::Undecodable);
        },
    };
    if !accumulator_readable(&document.global) {
        return Err(PcztError::DocumentCorrupt);
    }
    Ok(document)
}

/// Adds a built output of `value` zatoshis to a document.
pub fn append_output(
    document: PartiallyCreatedTransaction,
    value: i64,
    output: SaplingOutput,
) -> (appended: Result<PartiallyCreatedTransaction, PcztError>)
    ensures
        match appended {
            Ok(next) => with_output(document@, value, output@) == Ok::<DocumentView, PcztError>(
                next@,
            ),
            Err(reason) => with_output(document@, value, output@) == Err::<
                DocumentView,
                PcztError,
            >(reason),
        },
        appended matches Ok(next) ==> {
            &&& next@.global.bsk.len() == 32
            &&& next@.global.bvk.len() == 32
            &&& accumulator_is_sound(next@.global)
        },
{
    if !amount_in_range(value) {
        return Err(PcztError::InvalidAmount);
    }
    if !accumulator_readable(&document.global) {
        return Err(PcztError::DocumentCorrupt);
    }
    if !decodes_to_scalar(&output.rcv) || !decodes_to_point(&output.cv) {
        return Err(PcztError::MalformedOutput);
    }
    if output.zkproof.len() != GROTH_PROOF_SIZE {
        return Err(PcztError::MalformedOutput);
    }
    let value_balance = match document.global.value_balance.checked_sub(value) {
        Some(balance) => balance,
        None => {
            return Err(PcztError::BalanceOverflow);
        },
    };
    let (bsk, bvk) = if document.global.bsk.len() == 0 && document.global.bvk.len() == 0 {
        (output.rcv, output.cv)
    } else {
        let old_bsk: [u8; 32] = leading_bytes(document.global.bsk.as_slice());
        let old_bvk: [u8; 32] = leading_bytes(document.global.bvk.as_slice());
        assert(old_bsk@ =~= document.global.bsk@);
        assert(old_bvk@ =~= document.global.bvk@);
        let bsk = match add_scalars(&old_bsk, &output.rcv) {
            Some(sum) => sum,
            None => {
                return Err(PcztError::DocumentCorrupt);
            },
        };
        let bvk = match add_points(&old_bvk, &output.cv) {
            Some(sum) => sum,
            None => {
                return Err(PcztError::DocumentCorrupt);
            },
        };
        (bsk, bvk)
    };
    let ghost before = document@;
    let ghost entry = output_entry(value, output@);
    let PartiallyCreatedTransaction { global: _, spends, outputs } = document;
    let mut outputs = outputs;
    let SaplingOutput { cv, cmu, epk, enc_ciphertext, out_ciphertext, zkproof, rcv } = output;
    outputs.push(
        PcztOutput {
            cv: copy_bytes(cv.as_slice()),
            cmu: copy_bytes(cmu.as_slice()),
            epk: copy_bytes(epk.as_slice()),
            enc_ciphertext,
            out_ciphertext,
            zkproof,
            value,
            rcv: copy_bytes(rcv.as_slice()),
        },
    );
    let next = PartiallyCreatedTransaction {
        global: PcztGlobal {
            value_balance,
            bsk: copy_bytes(bsk.as_slice()),
            bvk: copy_bytes(bvk.as_slice()),
        },
        spends,
        outputs,
    };
    proof {
        assert(next@.outputs =~= before.outputs.push(entry));
        assert(next@.spends =~= before.spends);
        lemma_scalar_sum_is_canonical(before.global.bsk, entry.rcv);
    }
    Ok(next)
}

/// Adds a built output of `value` zatoshis to an encoded document, and hands
/// out the encoding of the document with it.
pub fn apply_output(pczt: &[u8], value: i64, output: SaplingOutput) -> (applied: Result<
    Vec<u8>,
    PcztError,
>)
    ensures
        match applied {
            Ok(bytes) => output_added(pczt@, value, output@) == Ok::<Seq<u8>, PcztError>(bytes@),
            Err(reason) => output_added(pczt@, value, output@) == Err::<Seq<u8>, PcztError>(
                reason,
            ),
        },
        applied matches Ok(bytes) ==> accumulators_stand(bytes@),
{
    let document = match open_for_output(pczt, value) {
        Ok(document) => document,
        Err(reason) => {
            return Err(reason);
        },
    };
    match append_output(document, value, output) {
        Ok(next) => Ok(next.write_to_bytes()),
        Err(reason) => Err(reason),
    }
}

/// Adds an output of `value` zatoshis to `to` to an encoded document.
///
/// The value must be a valid amount, the bytes the encoding of a document,
/// and the accumulators of it readable: else nothing is built. Then the
/// prover builds an output of that value to that address, and the document
/// with it is what `apply_output` makes of what the prover has built.
///
/// Outputs are to be added before the spends are signed: a signature covers
/// the outputs that stand in the document when it is made, and no others.
/// The input is left as it is, so that several drafts can be made from one
/// document.
pub fn add_sapling_output<P: TxProver>(
    pczt: &[u8],
    ovk: OutgoingViewingKey,
    to: PaymentAddress,
    value: i64,
    memo: Option<Memo>,
    prover: &P,
) -> (added: Result<Vec<u8>, PcztError>)
    ensures
        output_refused(pczt@, value) is Some ==> added == Err::<Vec<u8>, PcztError>(
            output_refused(pczt@, value)->0,
        ),
        output_refused(pczt@, value) is None ==> exists|built: SaplingOutput|
            {
                &&& #[trigger] call_ensures(
                    P::build_output,
                    (prover, &ovk, &to, value as u64, &memo),
                    built,
                )
                &&& match added {
                    Ok(bytes) => output_added(pczt@, value, built@) == Ok::<Seq<u8>, PcztError>(
                        bytes@,
                    ),
                    Err(reason) => output_added(pczt@, value, built@) == Err::<
                        Seq<u8>,
                        PcztError,
                    >(reason),
                }
            },
        added matches Ok(bytes) ==> accumulators_stand(bytes@),
{
    let document = match open_for_output(pczt, value) {
        Ok(document) => document,
        Err(reason) => {
            return Err(reason);
        },
    };
    let built = prover.build_output(&ovk, &to, value as u64, &memo);
    let ghost made = built;
    let added = match append_output(document, value, built) {
        Ok(next) => Ok(next.write_to_bytes()),
        Err(reason) => Err(reason),
    };
    proof {
        assert(call_ensures(P::build_output, (prover, &ovk, &to, value as u64, &memo), made));
        assert(match added {
            Ok(bytes) => output_added(pczt@, value, made@) == Ok::<Seq<u8>, PcztError>(bytes@),
            Err(reason) => output_added(pczt@, value, made@) == Err::<Seq<u8>, PcztError>(reason),
        });
    }
    added
}

/// An output of a valid amount added to the empty byte string, which is the
/// document that holds nothing: the result is the encoding of the document
/// with that output alone, the value negated as its balance, and the
/// output's randomness and value commitment as its accumulators.
pub proof fn lemma_first_output(value: i64, output: SaplingOutputView)
    requires
        is_valid_amount(value as int),
        output_is_sound(output),
        output.enc_ciphertext.len() <= u64::MAX,
        output.out_ciphertext.len() <= u64::MAX,
    ensures
        output_added(Seq::empty(), value, output) is Ok,
        ({
            let first = parse_document(output_added(Seq::empty(), value, output)->Ok_0);
            &&& first is Some
            &&& first->0.outputs == seq![output_entry(value, output)]
            &&& first->0.spends.len() == 0
            &&& first->0.global.value_balance == -value
            &&& first->0.global.bsk == output.rcv
            &&& first->0.global.bvk == output.cv
        }),
{
    let made = with_output(proto::empty_document(), value, output)->Ok_0;
    assert(made.outputs =~= seq![output_entry(value, output)]);
    codec::lemma_encode_then_parse(made);
}

/// Two outputs added to the document that holds nothing: the value balance
/// is the sum of their values, negated; the point accumulator is the sum of
/// their value commitments, and the scalar accumulator the sum of their
/// randomness.
pub proof fn lemma_two_outputs(
    first_value: i64,
    first: SaplingOutputView,
    second_value: i64,
    second: SaplingOutputView,
)
    requires
        is_valid_amount(first_value as int),
        is_valid_amount(second_value as int),
        output_is_sound(first),
        output_is_sound(second),
    ensures
        with_output(proto::empty_document(), first_value, first) is Ok,
        with_output(
            with_output(proto::empty_document(), first_value, first)->Ok_0,
            second_value,
            second,
        ) is Ok,
        ({
            let both = with_output(
                with_output(proto::empty_document(), first_value, first)->Ok_0,
                second_value,
                second,
            )->Ok_0;
            &&& both.global.value_balance == -(first_value + second_value)
            &&& both.global.bvk == point_sum(first.cv, second.cv)
            &&& both.global.bsk == scalar_sum(first.rcv, second.rcv)
            &&& both.spends.len() == 0
            &&& both.outputs == seq![
                output_entry(first_value, first),
                output_entry(second_value, second),
            ]
        }),
{
    let one = with_output(proto::empty_document(), first_value, first)->Ok_0;
    let both = with_output(one, second_value, second)->Ok_0;
    assert(both.outputs =~= seq![
        output_entry(first_value, first),
        output_entry(second_value, second),
    ]);
}

/// An output is refused for its value exactly where the value is negative
/// or more than the largest amount.
pub proof fn lemma_amount_bounds(pczt: Seq<u8>, value: i64, output: SaplingOutputView)
    ensures
        output_added(pczt, value, output) == Err::<Seq<u8>, PcztError>(PcztError::InvalidAmount)
            <==> (value < 0 || value > crate::MAX_MONEY),
{
}

} // verus!
