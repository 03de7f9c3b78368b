//! Signatures over messages, made with the spending key of a shielded
//! address.

use vstd::prelude::*;
use crate::encoding::{
    decodes_to_point, decodes_to_scalar, has_small_order, is_canonical_scalar, point_decodes,
    point_is_small_order,
};
use crate::hashing::{blake2b_256, blake2b_256_hash};
use crate::keys::ExpandedSpendingKey;
use crate::merkle_tree::model::{auth_path, merkle_root};
use crate::merkle_tree::{CommitmentTree, IncrementalWitness, MerklePath};
use crate::pczt::wire::{enc_u32, write_raw};
use crate::primitives::PaymentAddress;
use crate::sapling::{
    randomized_key, signature_verifies, spend_randomized_key, spend_sig, verify_spend_sig, Node,
};
use ff::Field;
use group::GroupEncoding;
use sapling_crypto::value::{NoteValue, ValueCommitTrapdoor, ValueCommitment};
use vstd::bytes::u32_to_le_bytes;
use vstd::string::StringSliceAdditionalSpecFns;

verus! {

/// The key `nk` that nullifiers are derived with, for the 96-byte encoding
/// of an expanded spending key, as `sapling_crypto` derives it: `None` where
/// `ExpandedSpendingKey::from_bytes` rejects the encoding.
pub uninterp spec fn nullifier_key(expsk: Seq<u8>) -> Option<Seq<u8>>;

/// The commitment of the note of `value` zatoshis to the address with the
/// given 43-byte encoding, with the commitment randomness `rcm`, as
/// `sapling_crypto::Note::cmu` computes it: `None` where the address or the
/// randomness is no valid encoding.
pub uninterp spec fn note_commitment(address: Seq<u8>, value: u64, rcm: Seq<u8>) -> Option<
    Seq<u8>,
>;

/// The nullifier of that note at `position` of the commitment tree under the
/// key `nk`, as `sapling_crypto::Note::nf` computes it: `None` where the
/// key, the address or the randomness is no valid encoding.
pub uninterp spec fn note_nullifier(
    nk: Seq<u8>,
    address: Seq<u8>,
    value: u64,
    rcm: Seq<u8>,
    position: u64,
) -> Option<Seq<u8>>;

/// The commitment to `value` with the randomness `rcv`, as
/// `sapling_crypto::value::ValueCommitment::derive` computes it: `None`
/// where the randomness is no canonical encoding of a scalar.
pub uninterp spec fn value_commitment(value: u64, rcv: Seq<u8>) -> Option<Seq<u8>>;

/// Reads an expanded spending key with
/// `sapling_crypto::keys::ExpandedSpendingKey::from_bytes` and hands out the
/// nullifier deriving key of its viewing key. The first 32 bytes must be the
/// canonical encoding of a scalar: on others the reader panics.
#[verifier::external_body]
pub(crate) fn derive_nullifier_key(expsk: &[u8; 96]) -> (nk: Option<[u8; 32]>)
    requires
        is_canonical_scalar(expsk@.subrange(0, 32)),
    ensures
        match nk {
            Some(key) => nullifier_key(expsk@) == Some(key@),
            None => nullifier_key(expsk@) is None,
        },
{
    let key = sapling_crypto::keys::ExpandedSpendingKey::from_bytes(expsk).ok()?;
    Some(key.proof_generation_key().to_viewing_key().nk().0.to_bytes())
}

/// Computes a note commitment: `sapling_crypto::PaymentAddress::from_bytes`,
/// `create_note` and `Note::cmu`.
#[verifier::external_body]
pub(crate) fn commit_to_note(address: &[u8; 43], value: u64, rcm: &[u8; 32]) -> (cmu: Option<
    [u8; 32],
>)
    ensures
        match cmu {
            Some(found) => note_commitment(address@, value, rcm@) == Some(found@),
            None => note_commitment(address@, value, rcm@) is None,
        },
{
    let to = sapling_crypto::PaymentAddress::from_bytes(address)?;
    let rcm = jubjub::Fr::from_bytes(rcm).into_option()?;
    let note = to.create_note(NoteValue::from_raw(value), sapling_crypto::Rseed::BeforeZip212(rcm));
    Some(note.cmu().to_bytes())
}

/// Derives a nullifier: `jubjub::SubgroupPoint::from_bytes` for the key,
/// `sapling_crypto::PaymentAddress::from_bytes`, `create_note` and
/// `Note::nf`.
#[verifier::external_body]
pub(crate) fn derive_nullifier(
    nk: &[u8; 32],
    address: &[u8; 43],
    value: u64,
    rcm: &[u8; 32],
    position: u64,
) -> (nullifier: Option<[u8; 32]>)
    ensures
        match nullifier {
            Some(found) => note_nullifier(nk@, address@, value, rcm@, position) == Some(found@),
            None => note_nullifier(nk@, address@, value, rcm@, position) is None,
        },
{
    let nk = sapling_crypto::NullifierDerivingKey(
        jubjub::SubgroupPoint::from_bytes(nk).into_option()?,
    );
    let to = sapling_crypto::PaymentAddress::from_bytes(address)?;
    let rcm = jubjub::Fr::from_bytes(rcm).into_option()?;
    let note = to.create_note(NoteValue::from_raw(value), sapling_crypto::Rseed::BeforeZip212(rcm));
    Some(note.nf(&nk, position).0)
}

/// Commits to a value: `ValueCommitTrapdoor::from_bytes` and
/// `ValueCommitment::derive`.
#[verifier::external_body]
pub(crate) fn commit_to_value(value: u64, rcv: &[u8; 32]) -> (cv: Option<[u8; 32]>)
    ensures
        match cv {
            Some(found) => value_commitment(value, rcv@) == Some(found@),
            None => value_commitment(value, rcv@) is None,
        },
{
    let rcv = ValueCommitTrapdoor::from_bytes(*rcv).into_option()?;
    Some(ValueCommitment::derive(NoteValue::from_raw(value), rcv).to_bytes())
}

/// A Jubjub scalar drawn at random with `jubjub::Fr::random`, in its
/// canonical encoding.
#[verifier::external_body]
pub(crate) fn random_scalar() -> (scalar: [u8; 32])
    ensures
        is_canonical_scalar(scalar@),
{
    jubjub::Fr::random(&mut rand::rng()).to_bytes()
}

/// A signature over a message. Its first 32 bytes, the nullifier, are the
/// same for every signature of one address, whoever reads it; signatures of
/// different addresses of one spending key have nothing in common.
#[derive(Clone, Copy, Debug, PartialEq, Eq)]
pub struct Signature {
    pub nullifier: [u8; 32],
    pub rk: [u8; 32],
    pub zkproof: [u8; 192],
    pub spend_auth_sig: [u8; 64],
}

/// Whether 32 bytes can be the key of a signature that is read: they encode
/// a point of the curve, and not one of small order.
pub open spec fn is_signature_key(rk: Seq<u8>) -> bool {
    point_decodes(rk) && !point_is_small_order(rk)
}

impl Signature {
    /// The encoding of the signature, in contracts: the nullifier, the key,
    /// the proof and the spend authorization signature.
    pub open spec fn encoding(&self) -> Seq<u8> {
        self.nullifier@ + self.rk@ + self.zkproof@ + self.spend_auth_sig@
    }

    /// Reads a signature. There is one exactly where the bytes from 32 to 64
    /// can be the key of a signature, and its encoding is the given bytes.
    pub fn from_bytes(bytes: &[u8; 320]) -> (signature: Option<Signature>)
        ensures
            signature is Some <==> is_signature_key(bytes@.subrange(32, 64)),
            signature matches Some(read) ==> read.encoding() == bytes@,
    {
        let mut nullifier = [0u8; 32];
        let mut rk = [0u8; 32];
        let mut zkproof = [0u8; 192];
        let mut spend_auth_sig = [0u8; 64];
        let mut i: usize = 0;
        while i < 32
            invariant
                i <= 32,
                forall|j: int| 0 <= j < i ==> nullifier@[j] == bytes@[j],
                forall|j: int| 0 <= j < i ==> rk@[j] == bytes@[32 + j],
            decreases 32 - i,
        {
            nullifier[i] = bytes[i];
            rk[i] = bytes[32 + i];
            i += 1;
        }
        let mut k: usize = 0;
        while k < 192
            invariant
                k <= 192,
                forall|j: int| 0 <= j < k ==> zkproof@[j] == bytes@[64 + j],
            decreases 192 - k,
        {
            zkproof[k] = bytes[64 + k];
            k += 1;
        }
        let mut m: usize = 0;
        while m < 64
            invariant
                m <= 64,
                forall|j: int| 0 <= j < m ==> spend_auth_sig@[j] == bytes@[256 + j],
            decreases 64 - m,
        {
            spend_auth_sig[m] = bytes[256 + m];
            m += 1;
        }
        assert(rk@ =~= bytes@.subrange(32, 64));
        assert(nullifier@ + rk@ + zkproof@ + spend_auth_sig@ =~= bytes@);
        if !decodes_to_point(&rk) {
            return None;
        }
        if has_small_order(&rk) {
            return None;
        }
        Some(Signature { nullifier, rk, zkproof, spend_auth_sig })
    }

    /// The encoding of the signature.
    pub fn to_bytes(&self) -> (bytes: [u8; 320])
        ensures
            bytes@ == self.encoding(),
    {
        let mut bytes = [0u8; 320];
        let mut i: usize = 0;
        while i < 32
            invariant
                i <= 32,
                forall|j: int| 0 <= j < i ==> bytes@[j] == self.nullifier@[j],
                forall|j: int| 0 <= j < i ==> bytes@[32 + j] == self.rk@[j],
            decreases 32 - i,
        {
            bytes[i] = self.nullifier[i];
            bytes[32 + i] = self.rk[i];
            i += 1;
        }
        let mut k: usize = 0;
        while k < 192
            invariant
                k <= 192,
                forall|j: int| 0 <= j < 32 ==> bytes@[j] == self.nullifier@[j],
                forall|j: int| 0 <= j < 32 ==> bytes@[32 + j] == self.rk@[j],
                forall|j: int| 0 <= j < k ==> bytes@[64 + j] == self.zkproof@[j],
            decreases 192 - k,
        {
            bytes[64 + k] = self.zkproof[k];
            k += 1;
        }
        let mut m: usize = 0;
        while m < 64
            invariant
                m <= 64,
                forall|j: int| 0 <= j < 32 ==> bytes@[j] == self.nullifier@[j],
                forall|j: int| 0 <= j < 32 ==> bytes@[32 + j] == self.rk@[j],
                forall|j: int| 0 <= j < 192 ==> bytes@[64 + j] == self.zkproof@[j],
                forall|j: int| 0 <= j < m ==> bytes@[256 + j] == self.spend_auth_sig@[j],
            decreases 64 - m,
        {
            bytes[256 + m] = self.spend_auth_sig[m];
            m += 1;
        }
        assert(bytes@ =~= self.encoding());
        bytes
    }
}

/// The party that proves spends.
pub trait SpendProver {
    /// Proves the spend of the note of `value` zatoshis to `to` with the
    /// commitment randomness `rcm`, which stands in a tree with the root
    /// `anchor` at the end of `path`: with the key re-randomised by `alpha`
    /// and the value committed to with `rcv`. `None` where no proof can be
    /// made.
    fn prove_spend(
        &self,
        expsk: &ExpandedSpendingKey,
        to: &PaymentAddress,
        value: u64,
        rcm: &[u8; 32],
        alpha: &[u8; 32],
        rcv: &[u8; 32],
        anchor: &Node,
        path: &MerklePath,
    ) -> Option<[u8; 192]>;
}

/// The party that checks spends.
pub trait SpendVerifier {
    /// Whether a spend holds: `zkproof` proves a spend with the given value
    /// commitment, anchor, nullifier and randomised key, and the signature
    /// over `sighash` is one of that key.
    fn check_spend(
        &self,
        cv: &[u8; 32],
        anchor: &Node,
        nullifier: &[u8; 32],
        rk: &[u8; 32],
        sighash: &[u8; 32],
        spend_auth_sig: &[u8; 64],
        zkproof: &[u8; 192],
    ) -> bool;
}

/// The personalisation of the digest of a message: `ZIP304Signed` and the
/// coin type.
pub open spec fn message_personal(coin_type: u32) -> Seq<u8> {
    seq![0x5au8, 0x49, 0x50, 0x33, 0x30, 0x34, 0x53, 0x69, 0x67, 0x6e, 0x65, 0x64] + enc_u32(
        coin_type,
    )
}

/// The digest that is signed for a message: the hash of the proof and the
/// message.
pub open spec fn message_digest(coin_type: u32, zkproof: Seq<u8>, message: Seq<u8>) -> Seq<u8> {
    blake2b_256(message_personal(coin_type), zkproof + message)
}

/// The scalar zero, which a signature's note and value commitment are made
/// with.
pub open spec fn zero_scalar() -> Seq<u8> {
    Seq::new(32, |i: int| 0u8)
}

/// The leaves of the tree that holds nothing but the note of one zatoshi,
/// made with zero for its randomness, to the address with the given
/// encoding.
pub open spec fn lone_note(address: Seq<u8>) -> Seq<Seq<u8>> {
    seq![note_commitment(address, 1, zero_scalar())->0]
}

/// The digest that is signed for a message.
pub fn digest_message(coin_type: u32, zkproof: &[u8; 192], message: &[u8]) -> (digest: [u8; 32])
    ensures
        digest@ == message_digest(coin_type, zkproof@, message@),
{
    let mut personal: [u8; 16] = [
        0x5a, 0x49, 0x50, 0x33, 0x30, 0x34, 0x53, 0x69, 0x67, 0x6e, 0x65, 0x64, 0, 0, 0, 0,
    ];
    let coin = u32_to_le_bytes(coin_type);
    personal[12] = coin[0];
    personal[13] = coin[1];
    personal[14] = coin[2];
    personal[15] = coin[3];
    assert(personal@ =~= message_personal(coin_type));
    let mut data: Vec<u8> = Vec::new();
    write_raw(&mut data, zkproof.as_slice());
    write_raw(&mut data, message);
    assert(data@ =~= zkproof@ + message@);
    blake2b_256_hash(&personal, data.as_slice())
}

/// Whether the key and the proof of a signature are what signing makes
/// them: the key is the spend authorizing key re-randomised by some scalar,
/// and the proof is what the prover has made for the spend, with that
/// scalar, of the note of one zatoshi to the address that stands alone in
/// its tree.
pub open spec fn is_proved_by<P: SpendProver>(
    prover: &P,
    expsk: &ExpandedSpendingKey,
    payment_address: &PaymentAddress,
    made: Signature,
) -> bool {
    exists|alpha: [u8; 32], zero: [u8; 32], anchor: Node, path: MerklePath|
        {
            &&& is_canonical_scalar(alpha@)
            &&& made.rk@ == randomized_key(expsk.ask@, alpha@)
            &&& zero@ == zero_scalar()
            &&& anchor@ == merkle_root(lone_note(payment_address.encoding()))
            &&& path.position == 0
            &&& path@ == auth_path(lone_note(payment_address.encoding()), 0)
            &&& #[trigger] call_ensures(
                P::prove_spend,
                (prover, expsk, payment_address, 1u64, &zero, &alpha, &zero, &anchor, &path),
                Some(made.zkproof),
            )
        }
}

/// Whether signing is refused once the key and the address have been read:
/// for some scalar that is drawn, the key re-randomised by it cannot be the
/// key of a signature, or the prover makes no proof of the spend, with that
/// scalar, of the note of one zatoshi to the address that stands alone in
/// its tree.
pub open spec fn is_refused_by<P: SpendProver>(
    prover: &P,
    expsk: &ExpandedSpendingKey,
    payment_address: &PaymentAddress,
) -> bool {
    exists|alpha: [u8; 32], zero: [u8; 32], anchor: Node, path: MerklePath|
        {
            &&& is_canonical_scalar(alpha@)
            &&& zero@ == zero_scalar()
            &&& anchor@ == merkle_root(lone_note(payment_address.encoding()))
            &&& path.position == 0
            &&& path@ == auth_path(lone_note(payment_address.encoding()), 0)
            &&& (!is_signature_key(randomized_key(expsk.ask@, alpha@)) || #[trigger] call_ensures(
                P::prove_spend,
                (prover, expsk, payment_address, 1u64, &zero, &alpha, &zero, &anchor, &path),
                None::<[u8; 192]>,
            ))
        }
}

/// Signs a message for a payment address and a coin type.
///
/// The signature is that of a spend of a note of one zatoshi to the address,
/// made with zero for its randomness, that stands alone in a commitment
/// tree: its nullifier, a key re-randomised by a scalar drawn for the
/// occasion, a proof of the spend, and a signature by that key over the
/// digest of the proof and the message.
///
/// There is no signature where the key or the address cannot be read, where
/// the prover makes no proof, or where the randomised key is of small order;
/// and there is one everywhere else.
pub fn sign_message<P: SpendProver>(
    expsk: &ExpandedSpendingKey,
    payment_address: &PaymentAddress,
    coin_type: u32,
    message: &str,
    prover: &P,
) -> (signature: Option<Signature>)
    ensures
        !is_canonical_scalar(expsk.ask@) || nullifier_key(expsk.encoding()) is None
            || note_commitment(payment_address.encoding(), 1, zero_scalar()) is None
            ==> signature is None,
        signature is None ==> {
            ||| !is_canonical_scalar(expsk.ask@)
            ||| nullifier_key(expsk.encoding()) is None
            ||| note_commitment(payment_address.encoding(), 1, zero_scalar()) is None
            ||| note_nullifier(
                nullifier_key(expsk.encoding())->0,
                payment_address.encoding(),
                1,
                zero_scalar(),
                0,
            ) is None
            ||| is_refused_by(prover, expsk, payment_address)
        },
        signature matches Some(made) ==> nullifier_key(expsk.encoding()) is Some && note_nullifier(
            nullifier_key(expsk.encoding())->0,
            payment_address.encoding(),
            1,
            zero_scalar(),
            0,
        ) == Some(made.nullifier@),
        signature matches Some(made) ==> is_signature_key(made.rk@),
        signature matches Some(made) ==> signature_verifies(
            made.rk@,
            message_digest(coin_type, made.zkproof@, message.spec_bytes()),
            made.spend_auth_sig@,
        ),
        signature matches Some(made) ==> is_proved_by(prover, expsk, payment_address, made),
{
    if !decodes_to_scalar(&expsk.ask) {
        return None;
    }
    let encoded = expsk.to_bytes();
    assert(encoded@.subrange(0, 32) =~= expsk.ask@);
    let nk = match derive_nullifier_key(&encoded) {
        Some(nk) => nk,
        None => {
            return None;
        },
    };
    let address = payment_address.to_bytes();
    let zero = [0u8, 0, 0, 0, 0, 0, 0, 0, 0, 0, 0, 0, 0, 0, 0, 0, 0, 0, 0, 0, 0, 0, 0, 0, 0, 0, 0, 0, 0, 0, 0, 0];
    assert(zero@ =~= zero_scalar());

    // The note, alone in its tree.
    let cmu = match commit_to_note(&address, 1, &zero) {
        Some(cmu) => cmu,
        None => {
            return None;
        },
    };
    let mut tree = CommitmentTree::empty();
    let _ = tree.append(Node::new(cmu));
    assert(tree@ =~= seq![cmu@]);
    assert(lone_note(payment_address.encoding()) =~= tree@);
    let anchor = tree.root();
    let path = match IncrementalWitness::from_tree(&tree).path() {
        Some(path) => path,
        None => {
            return None;
        },
    };
    let nullifier = match derive_nullifier(&nk, &address, 1, &zero, path.position) {
        Some(nullifier) => nullifier,
        None => {
            return None;
        },
    };

    // The key for this signature.
    let alpha = random_scalar();
    let rk = spend_randomized_key(&expsk.ask, &alpha);
    let ghost no_proof = call_ensures(
        P::prove_spend,
        (prover, expsk, payment_address, 1u64, &zero, &alpha, &zero, &anchor, &path),
        None::<[u8; 192]>,
    );
    if !decodes_to_point(&rk) {
        assert(no_proof || !is_signature_key(randomized_key(expsk.ask@, alpha@)));
        assert(is_refused_by(prover, expsk, payment_address));
        return None;
    }
    if has_small_order(&rk) {
        assert(no_proof || !is_signature_key(randomized_key(expsk.ask@, alpha@)));
        assert(is_refused_by(prover, expsk, payment_address));
        return None;
    }
    let zkproof = match prover.prove_spend(
        expsk,
        payment_address,
        1,
        &zero,
        &alpha,
        &zero,
        &anchor,
        &path,
    ) {
        Some(zkproof) => zkproof,
        None => {
            assert(no_proof);
            assert(is_refused_by(prover, expsk, payment_address));
            return None;
        },
    };
    let digest = digest_message(coin_type, &zkproof, message.as_bytes());
    let spend_auth_sig = spend_sig(&expsk.ask, &alpha, &digest);
    let made = Signature { nullifier, rk, zkproof, spend_auth_sig };
    proof {
        let leaves = lone_note(payment_address.encoding());
        assert(anchor@ == merkle_root(leaves));
        assert(path@ == auth_path(leaves, 0));
        assert(path.position == 0);
        assert(made.rk@ == randomized_key(expsk.ask@, alpha@));
        assert(call_ensures(
            P::prove_spend,
            (prover, expsk, payment_address, 1u64, &zero, &alpha, &zero, &anchor, &path),
            Some(made.zkproof),
        ));
        assert(is_proved_by(prover, expsk, payment_address, made));
    }
    Some(made)
}

/// The verdict on a signature whose spend authorization signature has been
/// found good, given what the verifier says of its spend.
pub open spec fn spend_verdict(spend_holds: bool) -> Result<(), ()> {
    if spend_holds {
        Ok(())
    } else {
        Err(())
    }
}

/// Verifies a signature on a message for a payment address and a coin type.
///
/// The spend authorization signature must verify over the digest of the
/// proof and the message under the key of the signature; and the verifier
/// must accept the spend, under that key and with the nullifier of the
/// signature, of the note of one zatoshi to the address that stands alone
/// in a commitment tree.
pub fn verify_message<V: SpendVerifier>(
    payment_address: &PaymentAddress,
    coin_type: u32,
    message: &str,
    signature: &Signature,
    verifier: &V,
) -> (verdict: Result<(), ()>)
    ensures
        !signature_verifies(
            signature.rk@,
            message_digest(coin_type, signature.zkproof@, message.spec_bytes()),
            signature.spend_auth_sig@,
        ) || note_commitment(payment_address.encoding(), 1, zero_scalar()) is None
            || value_commitment(1, zero_scalar()) is None ==> verdict is Err,
        signature_verifies(
            signature.rk@,
            message_digest(coin_type, signature.zkproof@, message.spec_bytes()),
            signature.spend_auth_sig@,
        ) && note_commitment(payment_address.encoding(), 1, zero_scalar()) is Some
            && value_commitment(1, zero_scalar()) is Some ==> exists|
            cv: [u8; 32],
            anchor: Node,
            digest: [u8; 32],
            spend_holds: bool,
        |
            {
                &&& cv@ == value_commitment(1, zero_scalar())->0
                &&& anchor@ == merkle_root(lone_note(payment_address.encoding()))
                &&& digest@ == message_digest(
                    coin_type,
                    signature.zkproof@,
                    message.spec_bytes(),
                )
                &&& #[trigger] call_ensures(
                    V::check_spend,
                    (
                        verifier,
                        &cv,
                        &anchor,
                        &signature.nullifier,
                        &signature.rk,
                        &digest,
                        &signature.spend_auth_sig,
                        &signature.zkproof,
                    ),
                    spend_holds,
                )
                &&& verdict == spend_verdict(spend_holds)
            },
{
    let digest = digest_message(coin_type, &signature.zkproof, message.as_bytes());
    if !verify_spend_sig(&signature.rk, digest.as_slice(), &signature.spend_auth_sig) {
        return Err(());
    }
    let address = payment_address.to_bytes();
    let zero = [0u8, 0, 0, 0, 0, 0, 0, 0, 0, 0, 0, 0, 0, 0, 0, 0, 0, 0, 0, 0, 0, 0, 0, 0, 0, 0, 0, 0, 0, 0, 0, 0];
    assert(zero@ =~= zero_scalar());
    let cmu = match commit_to_note(&address, 1, &zero) {
        Some(cmu) => cmu,
        None => {
            return Err(());
        },
    };
    let mut tree = CommitmentTree::empty();
    let _ = tree.append(Node::new(cmu));
    let anchor = tree.root();
    assert(tree@ =~= seq![cmu@]);
    let cv = match commit_to_value(1, &zero) {
        Some(cv) => cv,
        None => {
            return Err(());
        },
    };
    let spend_holds = verifier.check_spend(
        &cv,
        &anchor,
        &signature.nullifier,
        &signature.rk,
        &digest,
        &signature.spend_auth_sig,
        &signature.zkproof,
    );
    if spend_holds {
        Ok(())
    } else {
        Err(())
    }
}

} // verus!
