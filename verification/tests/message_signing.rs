use redjubjub::{SpendAuth, VerificationKey};
use sapling_crypto::keys::ExpandedSpendingKey as RealExpandedSpendingKey;
use sapling_crypto::value::{NoteValue, ValueCommitTrapdoor, ValueCommitment};
use shielded_core::keys::{ExpandedSpendingKey, OutgoingViewingKey};
use shielded_core::merkle_tree::MerklePath;
use shielded_core::primitives::PaymentAddress;
use shielded_core::sapling::Node;
use shielded_core::zip304::{
    digest_message, sign_message, verify_message, Signature, SpendProver, SpendVerifier,
};

/// A prover whose proofs say what tree the note stands in, and nothing more.
struct MarkingProver;

fn mark(anchor: &Node) -> [u8; 192] {
    let mut proof = [0x5a; 192];
    let hash = blake2b_simd::Params::new().hash_length(32).hash(&anchor.repr);
    proof[..32].copy_from_slice(hash.as_bytes());
    proof
}

impl SpendProver for MarkingProver {
    fn prove_spend(
        &self,
        _expsk: &ExpandedSpendingKey,
        _to: &PaymentAddress,
        value: u64,
        rcm: &[u8; 32],
        _alpha: &[u8; 32],
        rcv: &[u8; 32],
        anchor: &Node,
        path: &MerklePath,
    ) -> Option<[u8; 192]> {
        assert_eq!(value, 1);
        assert_eq!(rcm, &[0; 32]);
        assert_eq!(rcv, &[0; 32]);
        assert_eq!(path.position, 0);
        assert_eq!(path.auth_path.len(), 32);
        Some(mark(anchor))
    }
}

struct NoProver;

impl SpendProver for NoProver {
    fn prove_spend(
        &self,
        _expsk: &ExpandedSpendingKey,
        _to: &PaymentAddress,
        _value: u64,
        _rcm: &[u8; 32],
        _alpha: &[u8; 32],
        _rcv: &[u8; 32],
        _anchor: &Node,
        _path: &MerklePath,
    ) -> Option<[u8; 192]> {
        None
    }
}

/// The verifier that goes with the marking prover.
struct MarkingVerifier;

impl SpendVerifier for MarkingVerifier {
    fn check_spend(
        &self,
        cv: &[u8; 32],
        anchor: &Node,
        _nullifier: &[u8; 32],
        rk: &[u8; 32],
        sighash: &[u8; 32],
        spend_auth_sig: &[u8; 64],
        zkproof: &[u8; 192],
    ) -> bool {
        let key = VerificationKey::<SpendAuth>::try_from(*rk).unwrap();
        assert!(key
            .verify(sighash, &redjubjub::Signature::<SpendAuth>::from(*spend_auth_sig))
            .is_ok());
        let zero = ValueCommitTrapdoor::from_bytes([0; 32]).unwrap();
        assert_eq!(cv, &ValueCommitment::derive(NoteValue::from_raw(1), zero).to_bytes());
        zkproof == &mark(anchor)
    }
}

fn real_key() -> RealExpandedSpendingKey {
    RealExpandedSpendingKey::from_spending_key(&[42; 32][..]).unwrap()
}

fn key() -> ExpandedSpendingKey {
    let bytes = real_key().to_bytes();
    let mut ask = [0u8; 32];
    let mut nsk = [0u8; 32];
    let mut ovk = [0u8; 32];
    ask.copy_from_slice(&bytes[..32]);
    nsk.copy_from_slice(&bytes[32..64]);
    ovk.copy_from_slice(&bytes[64..]);
    ExpandedSpendingKey { ask, nsk, ovk: OutgoingViewingKey(ovk) }
}

fn real_address(diversifier: [u8; 11]) -> sapling_crypto::PaymentAddress {
    real_key()
        .proof_generation_key()
        .to_viewing_key()
        .to_payment_address(sapling_crypto::Diversifier(diversifier))
        .unwrap()
}

fn address(diversifier: [u8; 11]) -> PaymentAddress {
    let bytes = real_address(diversifier).to_bytes();
    let mut pk_d = [0u8; 32];
    pk_d.copy_from_slice(&bytes[11..]);
    PaymentAddress { diversifier, pk_d }
}

#[test]
fn test_signatures() {
    let prover = MarkingProver;
    let verifier = MarkingVerifier;

    let expsk = key();
    let addr = address([0; 11]);

    let msg1 = "Foo bar";
    let msg2 = "Spam eggs";

    let sig1 = sign_message(&expsk, &addr, 1, msg1, &prover).unwrap();
    let sig2 = sign_message(&expsk, &addr, 1, msg2, &prover).unwrap();

    // The signatures are bound to the specific message they were created over
    assert!(verify_message(&addr, 1, msg1, &sig1, &verifier).is_ok());
    assert!(verify_message(&addr, 1, msg2, &sig2, &verifier).is_ok());
    assert!(verify_message(&addr, 1, msg1, &sig2, &verifier).is_err());
    assert!(verify_message(&addr, 1, msg2, &sig1, &verifier).is_err());

    // ... and the signatures are unique but trivially linkable by the nullifier
    assert_ne!(&sig1.to_bytes()[..], &sig2.to_bytes()[..]);
    assert_eq!(sig1.nullifier, sig2.nullifier);

    // Generate a signature with a diversified address
    let addr_b = address([5; 11]);
    let sig1_b = sign_message(&expsk, &addr_b, 1, msg1, &prover).unwrap();

    // The signatures are bound to the specific address they were created with
    assert!(verify_message(&addr_b, 1, msg1, &sig1_b, &verifier).is_ok());
    assert!(verify_message(&addr_b, 1, msg1, &sig1, &verifier).is_err());
    assert!(verify_message(&addr, 1, msg1, &sig1_b, &verifier).is_err());

    // ... and the signatures are unlinkable
    assert_ne!(&sig1.to_bytes()[..], &sig1_b.to_bytes()[..]);
    assert_ne!(sig1.nullifier, sig1_b.nullifier);
}

#[test]
fn signature_is_bound_to_the_coin_type() {
    let signature = sign_message(&key(), &address([0; 11]), 1, "Foo bar", &MarkingProver).unwrap();
    assert!(verify_message(&address([0; 11]), 133, "Foo bar", &signature, &MarkingVerifier).is_err());
    assert!(verify_message(&address([0; 11]), 1, "Foo bar", &signature, &MarkingVerifier).is_ok());
}

#[test]
fn parts_of_a_signature_are_those_of_the_note() {
    let signature = sign_message(&key(), &address([0; 11]), 1, "Foo bar", &MarkingProver).unwrap();

    // The nullifier of the note of one zatoshi with zero randomness at position 0.
    let note = real_address([0; 11]).create_note(
        NoteValue::from_raw(1),
        sapling_crypto::Rseed::BeforeZip212(jubjub::Fr::zero()),
    );
    let nk = real_key().proof_generation_key().to_viewing_key().nk().clone();
    assert_eq!(signature.nullifier, note.nf(&nk, 0).0);

    // The proof is for the tree that holds the note alone.
    let mut tree = incrementalmerkletree::frontier::CommitmentTree::<sapling_crypto::Node, 32>::empty();
    tree.append(sapling_crypto::Node::from_cmu(&note.cmu())).unwrap();
    assert_eq!(signature.zkproof, mark(&Node::new(tree.root().to_bytes())));

    // The signature is one of the key of the signature over the digest.
    let digest = digest_message(1, &signature.zkproof, b"Foo bar");
    let rk = VerificationKey::<SpendAuth>::try_from(signature.rk).unwrap();
    assert!(rk
        .verify(&digest, &redjubjub::Signature::<SpendAuth>::from(signature.spend_auth_sig))
        .is_ok());

    let mut personal = *b"ZIP304Signed\0\0\0\0";
    personal[12..].copy_from_slice(&1u32.to_le_bytes());
    let expected = blake2b_simd::Params::new()
        .hash_length(32)
        .personal(&personal)
        .to_state()
        .update(&signature.zkproof)
        .update(b"Foo bar")
        .finalize();
    assert_eq!(&digest[..], expected.as_bytes());

    // What is read back is what was made.
    assert_eq!(Signature::from_bytes(&signature.to_bytes()), Some(signature));
}

#[test]
fn no_signature_without_a_key_an_address_or_a_proof() {
    let good = address([0; 11]);
    assert!(sign_message(&key(), &good, 1, "Foo bar", &NoProver).is_none());

    let mut bad_key = key();
    bad_key.ask = [0xff; 32];
    assert!(sign_message(&bad_key, &good, 1, "Foo bar", &MarkingProver).is_none());
    let mut zero_key = key();
    zero_key.ask = [0; 32];
    assert!(sign_message(&zero_key, &good, 1, "Foo bar", &MarkingProver).is_none());
    let mut bad_nsk = key();
    bad_nsk.nsk = [0xff; 32];
    assert!(sign_message(&bad_nsk, &good, 1, "Foo bar", &MarkingProver).is_none());

    let mut bad_address = good;
    bad_address.pk_d = [0xff; 32];
    assert!(sign_message(&key(), &bad_address, 1, "Foo bar", &MarkingProver).is_none());
    let signature = sign_message(&key(), &good, 1, "Foo bar", &MarkingProver).unwrap();
    assert!(verify_message(&bad_address, 1, "Foo bar", &signature, &MarkingVerifier).is_err());
}

#[test]
fn verification_refuses_what_was_tampered_with() {
    let addr = address([0; 11]);
    let signature = sign_message(&key(), &addr, 1, "Foo bar", &MarkingProver).unwrap();

    let mut other_key = signature;
    other_key.rk = [0xff; 32];
    assert!(verify_message(&addr, 1, "Foo bar", &other_key, &MarkingVerifier).is_err());

    let mut other_signature = signature;
    other_signature.spend_auth_sig[0] ^= 1;
    assert!(verify_message(&addr, 1, "Foo bar", &other_signature, &MarkingVerifier).is_err());

    let mut other_proof = signature;
    other_proof.zkproof[100] ^= 1;
    assert!(verify_message(&addr, 1, "Foo bar", &other_proof, &MarkingVerifier).is_err());
}
