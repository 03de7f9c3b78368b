//! Signing of the spends of a document.

use vstd::prelude::*;
use vstd::bytes::u32_to_le_bytes;
use crate::consensus::BranchId;
use crate::encoding::{bytes_equal, copy_bytes, decodes_to_scalar, is_canonical_scalar, leading_bytes};
use crate::hashing::{blake2b_256, blake2b_256_hash};
use crate::pczt::codec::{enc_document, parse_document, parse_from_bytes};
use crate::pczt::proto::{
    DocumentView, PartiallyCreatedTransaction, PcztGlobal, PcztOutput, PcztSpend, SpendView,
    Zip32Key,
};
use crate::pczt::wire::enc_u32;
use crate::pczt::PcztError;
use crate::sapling::{randomized_key, signature_verifies, spend_sig};
use crate::zip32::{derive_spend_authorizing_key, spend_authorizing_key, MAX_DEPTH};

verus! {

/// The personalisation of the hash that fingerprints a seed:
/// `Zcash_HD_Seed_FP`.
pub open spec fn seed_fingerprint_personal() -> Seq<u8> {
    seq![
        0x5au8, 0x63, 0x61, 0x73, 0x68, 0x5f, 0x48, 0x44, 0x5f, 0x53, 0x65, 0x65, 0x64, 0x5f, 0x46,
        0x50,
    ]
}

/// The fingerprint of a seed, in contracts: the hash of the byte 32 and the
/// seed.
pub open spec fn spec_seed_fingerprint(seed: Seq<u8>) -> Seq<u8> {
    blake2b_256(seed_fingerprint_personal(), seq![32u8] + seed)
}

/// The fingerprint of a seed: it tells which seed controls a spend, and
/// tells nothing of the keys.
pub fn seed_fingerprint(seed: &[u8]) -> (fingerprint: [u8; 32])
    ensures
        fingerprint@ == spec_seed_fingerprint(seed@),
{
    let personal: [u8; 16] = [
        0x5a, 0x63, 0x61, 0x73, 0x68, 0x5f, 0x48, 0x44, 0x5f, 0x53, 0x65, 0x65, 0x64, 0x5f, 0x46,
        0x50,
    ];
    assert(personal@ =~= seed_fingerprint_personal());
    let mut data: Vec<u8> = Vec::new();
    data.push(32u8);
    let mut i: usize = 0;
    while i < seed.len()
        invariant
            i <= seed@.len(),
            data@ == seq![32u8] + seed@.take(i as int),
        decreases seed@.len() - i,
    {
        data.push(seed[i]);
        assert(seq![32u8] + seed@.take(i + 1) =~= (seq![32u8] + seed@.take(i as int)).push(
            seed@[i as int],
        ));
        i += 1;
    }
    assert(seed@.take(i as int) =~= seed@);
    blake2b_256_hash(&personal, data.as_slice())
}

/// The personalisation of the hash that digests a transaction for signing:
/// `ZcashSigHash` and the identifier of the epoch.
pub open spec fn signature_hash_personal(branch_id: u32) -> Seq<u8> {
    seq![0x5au8, 0x63, 0x61, 0x73, 0x68, 0x53, 0x69, 0x67, 0x48, 0x61, 0x73, 0x68] + enc_u32(
        branch_id,
    )
}

/// A spend without its signature.
pub open spec fn unsigned(spend: SpendView) -> SpendView {
    SpendView {
        master_fingerprint: spend.master_fingerprint,
        derivation_path: spend.derivation_path,
        alpha: spend.alpha,
        spend_auth_sig: Seq::empty(),
    }
}

/// What of a document the signatures are made over: the document without
/// the signatures of its spends.
pub open spec fn frozen(document: DocumentView) -> DocumentView {
    DocumentView {
        global: document.global,
        spends: Seq::new(document.spends.len(), |i: int| unsigned(document.spends[i])),
        outputs: document.outputs,
    }
}

/// The digest that the spends of a document are signed over, for an epoch.
pub open spec fn signature_digest(document: DocumentView, branch_id: u32) -> Seq<u8> {
    blake2b_256(signature_hash_personal(branch_id), enc_document(frozen(document)))
}

/// A copy of an output.
fn copy_output(output: &PcztOutput) -> (copy: PcztOutput)
    ensures
        copy@ == output@,
{
    PcztOutput {
        cv: copy_bytes(output.cv.as_slice()),
        cmu: copy_bytes(output.cmu.as_slice()),
        epk: copy_bytes(output.epk.as_slice()),
        enc_ciphertext: copy_bytes(output.enc_ciphertext.as_slice()),
        out_ciphertext: copy_bytes(output.out_ciphertext.as_slice()),
        zkproof: copy_bytes(output.zkproof.as_slice()),
        value: output.value,
        rcv: copy_bytes(output.rcv.as_slice()),
    }
}

/// A copy of a spend, without its signature.
fn copy_unsigned(spend: &PcztSpend) -> (copy: PcztSpend)
    ensures
        copy@ == unsigned(spend@),
{
    let mut path: Vec<u32> = Vec::new();
    let mut i: usize = 0;
    while i < spend.key.derivation_path.len()
        invariant
            i <= spend.key.derivation_path@.len(),
            path@ == spend.key.derivation_path@.take(i as int),
        decreases spend.key.derivation_path@.len() - i,
    {
        path.push(spend.key.derivation_path[i]);
        assert(spend.key.derivation_path@.take(i + 1) =~= spend.key.derivation_path@.take(
            i as int,
        ).push(spend.key.derivation_path@[i as int]));
        i += 1;
    }
    assert(spend.key.derivation_path@.take(i as int) =~= spend.key.derivation_path@);
    PcztSpend {
        key: Zip32Key {
            master_fingerprint: copy_bytes(spend.key.master_fingerprint.as_slice()),
            derivation_path: path,
        },
        alpha: copy_bytes(spend.alpha.as_slice()),
        spend_auth_sig: Vec::new(),
    }
}

/// The digest that the spends of a document are signed over.
pub fn signature_hash(document: &PartiallyCreatedTransaction, branch: BranchId) -> (digest: [u8; 32])
    ensures
        digest@ == signature_digest(document@, branch.spec_id()),
{
    let mut spends: Vec<PcztSpend> = Vec::new();
    let mut i: usize = 0;
    while i < document.spends.len()
        invariant
            i <= document.spends@.len(),
            spends@.len() == i,
            forall|j: int| 0 <= j < i ==> (#[trigger] spends@[j])@ == unsigned(document.spends@[j]@),
        decreases document.spends@.len() - i,
    {
        spends.push(copy_unsigned(&document.spends[i]));
        i += 1;
    }
    let mut outputs: Vec<PcztOutput> = Vec::new();
    let mut j: usize = 0;
    while j < document.outputs.len()
        invariant
            j <= document.outputs@.len(),
            outputs@.len() == j,
            forall|k: int| 0 <= k < j ==> (#[trigger] outputs@[k])@ == document.outputs@[k]@,
        decreases document.outputs@.len() - j,
    {
        outputs.push(copy_output(&document.outputs[j]));
        j += 1;
    }
    let copy = PartiallyCreatedTransaction {
        global: PcztGlobal {
            value_balance: document.global.value_balance,
            bsk: copy_bytes(document.global.bsk.as_slice()),
            bvk: copy_bytes(document.global.bvk.as_slice()),
        },
        spends,
        outputs,
    };
    proof {
        assert(copy@.spends =~= frozen(document@).spends);
        assert(copy@.outputs =~= document@.outputs);
    }
    let data = copy.write_to_bytes();
    let mut personal: [u8; 16] = [
        0x5a, 0x63, 0x61, 0x73, 0x68, 0x53, 0x69, 0x67, 0x48, 0x61, 0x73, 0x68, 0, 0, 0, 0,
    ];
    let id = u32_to_le_bytes(branch.id());
    personal[12] = id[0];
    personal[13] = id[1];
    personal[14] = id[2];
    personal[15] = id[3];
    assert(personal@ =~= signature_hash_personal(branch.spec_id()));
    blake2b_256_hash(&personal, data.as_slice())
}

/// Whether a spend is controlled by the seed with the given fingerprint.
pub open spec fn is_ours(spend: SpendView, fingerprint: Seq<u8>) -> bool {
    spend.master_fingerprint == fingerprint
}

/// What stands in the way of signing a spend with a seed that controls it:
/// its key cannot be derived, for its path is too long or leads to no key,
/// or its re-randomisation scalar cannot be read.
pub open spec fn spend_refused(spend: SpendView, seed: Seq<u8>) -> Option<PcztError> {
    if spend.derivation_path.len() > MAX_DEPTH || spend_authorizing_key(
        seed,
        spend.derivation_path,
    ) is None {
        Some(PcztError::UnderivableKey)
    } else if !is_canonical_scalar(spend.alpha) {
        Some(PcztError::InvalidAlpha)
    } else {
        None
    }
}

/// What stands in the way of signing the first `upto` spends with a seed:
/// the reason for which the first of them that the seed controls, and that
/// cannot be signed, is refused.
pub open spec fn signing_refused(spends: Seq<SpendView>, seed: Seq<u8>, upto: nat) -> Option<
    PcztError,
>
    decreases upto,
{
    if upto == 0 {
        None
    } else {
        match signing_refused(spends, seed, (upto - 1) as nat) {
            Some(reason) => Some(reason),
            None => if is_ours(spends[upto - 1], spec_seed_fingerprint(seed)) {
                spend_refused(spends[upto - 1], seed)
            } else {
                None
            },
        }
    }
}

/// A spend with the given signature in its slot.
pub open spec fn signed_with(spend: SpendView, signature: Seq<u8>) -> SpendView {
    SpendView {
        master_fingerprint: spend.master_fingerprint,
        derivation_path: spend.derivation_path,
        alpha: spend.alpha,
        spend_auth_sig: signature,
    }
}

/// Whether a signature is one of the key of a spend under a seed, over the
/// digest given: it verifies under the key that the spend's path leads to
/// from the seed, re-randomised by the spend's scalar.
pub open spec fn is_spend_signature(
    spend: SpendView,
    seed: Seq<u8>,
    digest: Seq<u8>,
    signature: Seq<u8>,
) -> bool {
    signature_verifies(
        randomized_key(spend_authorizing_key(seed, spend.derivation_path)->0, spend.alpha),
        digest,
        signature,
    )
}

/// Whether `after` is `before` signed with a seed for an epoch: the spends
/// that the seed controls carry a signature of 64 bytes, which verifies over
/// the digest of `before` for the epoch under the spend's own key, and are
/// else as they were; and everything else is as it was.
pub open spec fn is_signed_by(
    after: DocumentView,
    before: DocumentView,
    seed: Seq<u8>,
    branch_id: u32,
) -> bool {
    &&& after.global == before.global
    &&& after.outputs == before.outputs
    &&& after.spends.len() == before.spends.len()
    &&& forall|i: int|
        0 <= i < before.spends.len() ==> if is_ours(before.spends[i], spec_seed_fingerprint(seed)) {
            &&& (#[trigger] after.spends[i]).spend_auth_sig.len() == 64
            &&& after.spends[i] == signed_with(before.spends[i], after.spends[i].spend_auth_sig)
            &&& is_spend_signature(
                before.spends[i],
                seed,
                signature_digest(before, branch_id),
                after.spends[i].spend_auth_sig,
            )
        } else {
            after.spends[i] == before.spends[i]
        }
}

/// Writes a signature into the slot of a spend.
pub fn fill_signature(spend: &mut PcztSpend, signature: [u8; 64])
    ensures
        final(spend)@ == signed_with(old(spend)@, signature@),
{
    spend.spend_auth_sig = copy_bytes(signature.as_slice());
}

/// Signs the spends of a document that the seed controls.
///
/// The spends are matched by the fingerprint of the seed; those of other
/// seeds are left as they are. For each spend of this seed the key is
/// derived by the spend's path, and the signature over the document's digest
/// for the epoch is made with it. A spend of this seed whose key cannot be
/// derived, or whose re-randomisation scalar cannot be read, ends the
/// signing.
pub fn sign_document(document: PartiallyCreatedTransaction, seed: [u8; 32], branch: BranchId) -> (signed: Result<
    PartiallyCreatedTransaction,
    PcztError,
>)
    ensures
        match signed {
            Ok(after) => signing_refused(document@.spends, seed@, document@.spends.len())
                is None && is_signed_by(after@, document@, seed@, branch.spec_id()),
            Err(reason) => signing_refused(document@.spends, seed@, document@.spends.len())
                == Some(reason),
        },
{
    let digest = signature_hash(&document, branch);
    let fingerprint = seed_fingerprint(seed.as_slice());
    let ghost before = document@;
    let mut working = document;
    let n = working.spends.len();
    let mut i: usize = 0;
    while i < n
        invariant
            i <= n,
            before == document@,
            n == before.spends.len(),
            fingerprint@ == spec_seed_fingerprint(seed@),
            working@.global == before.global,
            working@.outputs == before.outputs,
            working@.spends.len() == n,
            signing_refused(before.spends, seed@, i as nat) is None,
            digest@ == signature_digest(before, branch.spec_id()),
            forall|j: int|
                0 <= j < i ==> if is_ours(before.spends[j], spec_seed_fingerprint(seed@)) {
                    &&& (#[trigger] working@.spends[j]).spend_auth_sig.len() == 64
                    &&& working@.spends[j] == signed_with(
                        before.spends[j],
                        working@.spends[j].spend_auth_sig,
                    )
                    &&& is_spend_signature(
                        before.spends[j],
                        seed@,
                        digest@,
                        working@.spends[j].spend_auth_sig,
                    )
                } else {
                    working@.spends[j] == before.spends[j]
                },
            forall|j: int| i <= j < n ==> #[trigger] working@.spends[j] == before.spends[j],
        decreases n - i,
    {
        let ghost entry = working@;
        let ghost entry_spends = working.spends@;
        assert(working@.spends[i as int] == before.spends[i as int]);
        assert(working@.spends[i as int] == working.spends@[i as int]@);
        if bytes_equal(working.spends[i].key.master_fingerprint.as_slice(), fingerprint.as_slice()) {
            if working.spends[i].key.derivation_path.len() > MAX_DEPTH {
                proof {
                    lemma_refused_stays(before.spends, seed@, (i + 1) as nat, n as nat);
                }
                return Err(PcztError::UnderivableKey);
            }
            let ask = match derive_spend_authorizing_key(
                &seed,
                working.spends[i].key.derivation_path.as_slice(),
            ) {
                Some(ask) => ask,
                None => {
                    proof {
                        lemma_refused_stays(before.spends, seed@, (i + 1) as nat, n as nat);
                    }
                    return Err(PcztError::UnderivableKey);
                },
            };
            if working.spends[i].alpha.len() != 32 {
                proof {
                    lemma_refused_stays(before.spends, seed@, (i + 1) as nat, n as nat);
                }
                return Err(PcztError::InvalidAlpha);
            }
            let alpha: [u8; 32] = leading_bytes(working.spends[i].alpha.as_slice());
            assert(alpha@ =~= working.spends@[i as int].alpha@);
            if !decodes_to_scalar(&alpha) {
                proof {
                    lemma_refused_stays(before.spends, seed@, (i + 1) as nat, n as nat);
                }
                return Err(PcztError::InvalidAlpha);
            }
            let signature = spend_sig(&ask, &alpha, &digest);
            let slot = &mut working.spends[i];
            fill_signature(slot, signature);
            proof {
                assert(working@.global == entry.global);
                assert(working@.outputs =~= entry.outputs);
                assert forall|j: int| 0 <= j < n && j != i implies #[trigger] working@.spends[j]
                    == entry.spends[j] by {
                    assert(working.spends@[j] == entry_spends[j]);
                    assert(working@.spends[j] == working.spends@[j]@);
                    assert(entry.spends[j] == entry_spends[j]@);
                }
            }
        }
        i += 1;
    }
    Ok(working)
}

/// Where the signing of some spends is refused, that of more is refused for
/// the same reason.
pub proof fn lemma_refused_stays(spends: Seq<SpendView>, seed: Seq<u8>, short: nat, upto: nat)
    requires
        short <= upto,
        signing_refused(spends, seed, short) is Some,
    ensures
        signing_refused(spends, seed, upto) == signing_refused(spends, seed, short),
    decreases upto,
{
    if short < upto {
        lemma_refused_stays(spends, seed, short, (upto - 1) as nat);
    }
}

/// A seed that controls none of the spends of a document changes nothing
/// of it: every slot is left as it was.
pub proof fn lemma_foreign_seed_signs_nothing(
    after: DocumentView,
    before: DocumentView,
    seed: Seq<u8>,
    branch_id: u32,
)
    requires
        is_signed_by(after, before, seed, branch_id),
        forall|i: int|
            0 <= i < before.spends.len() ==> !is_ours(
                #[trigger] before.spends[i],
                spec_seed_fingerprint(seed),
            ),
    ensures
        after == before,
{
    assert(after.spends =~= before.spends);
}

/// Signs the spends of an encoded document that the seed controls, and hands
/// out the encoding of the signed document.
pub fn sign_pczt(pczt: &[u8], seed: [u8; 32], consensus_branch_id: BranchId) -> (signed: Result<
    Vec<u8>,
    PcztError,
>)
    ensures
        match signed {
            Ok(bytes) => {
                &&& parse_document(pczt@) is Some
                &&& parse_document(bytes@) is Some
                &&& signing_refused(
                    parse_document(pczt@)->0.spends,
                    seed@,
                    parse_document(pczt@)->0.spends.len(),
                ) is None
                &&& is_signed_by(
                    parse_document(bytes@)->0,
                    parse_document(pczt@)->0,
                    seed@,
                    consensus_branch_id.spec_id(),
                )
            },
            Err(reason) => match parse_document(pczt@) {
                None => reason == PcztError::Undecodable,
                Some(document) => signing_refused(document.spends, seed@, document.spends.len())
                    == Some(reason),
            },
        },
{
    let document = match parse_from_bytes(pczt) {
        Some(document) => document,
        None => {
            return Err(PcztError::Undecodable);
        },
    };
    match sign_document(document, seed, consensus_branch_id) {
        Ok(after) => Ok(after.write_to_bytes()),
        Err(reason) => Err(reason),
    }
}

} // verus!
