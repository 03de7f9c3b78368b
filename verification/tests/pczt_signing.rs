use redjubjub::{Signature, SpendAuth, VerificationKey};
use sapling_crypto::zip32::ExtendedSpendingKey;
use shielded_core::consensus::BranchId;
use shielded_core::pczt::codec::parse_from_bytes;
use shielded_core::pczt::proto::{PartiallyCreatedTransaction, PcztOutput, PcztSpend, Zip32Key};
use shielded_core::pczt::sign::{
    fill_signature, seed_fingerprint, sign_document, sign_pczt, signature_hash,
};
use shielded_core::pczt::PcztError;
use zip32::ChildIndex;

const PATH: [u32; 3] = [0x8000_0020, 0x8000_0085, 0x8000_0000];

fn alpha() -> [u8; 32] {
    jubjub::Fr::from(123_456_789).to_bytes()
}

fn slot(fingerprint: &[u8], path: &[u32], alpha: &[u8]) -> PcztSpend {
    PcztSpend {
        key: Zip32Key { master_fingerprint: fingerprint.to_vec(), derivation_path: path.to_vec() },
        alpha: alpha.to_vec(),
        spend_auth_sig: vec![],
    }
}

fn document(spends: Vec<PcztSpend>) -> PartiallyCreatedTransaction {
    let mut document = PartiallyCreatedTransaction::new();
    document.global.value_balance = 17;
    document.spends = spends;
    document.outputs.push(PcztOutput {
        cv: vec![1; 32],
        cmu: vec![2; 32],
        epk: vec![3; 32],
        enc_ciphertext: vec![4; 580],
        out_ciphertext: vec![5; 80],
        zkproof: vec![6; 192],
        value: 9,
        rcv: vec![7; 32],
    });
    document
}

fn randomized_key(seed: &[u8; 32], path: &[u32], alpha: &[u8; 32]) -> VerificationKey<SpendAuth> {
    let master = ExtendedSpendingKey::master(seed).unwrap();
    let indices: Vec<ChildIndex> =
        path.iter().map(|index| ChildIndex::from_index(*index).unwrap()).collect();
    let key = ExtendedSpendingKey::from_path(&master, &indices).unwrap();
    let ak = sapling_crypto::keys::SpendValidatingKey::from(key.expsk().ask());
    ak.randomize(&jubjub::Fr::from_bytes(alpha).unwrap())
}

fn verifies(key: &VerificationKey<SpendAuth>, digest: &[u8; 32], signature: &[u8]) -> bool {
    let mut bytes = [0u8; 64];
    bytes.copy_from_slice(signature);
    key.verify(digest, &Signature::<SpendAuth>::from(bytes)).is_ok()
}

#[test]
fn seed_fingerprint_is_the_personalised_hash() {
    let seed = [9u8; 32];
    let expected = blake2b_simd::Params::new()
        .hash_length(32)
        .personal(b"Zcash_HD_Seed_FP")
        .to_state()
        .update(&[32])
        .update(&seed)
        .finalize();
    assert_eq!(&seed_fingerprint(&seed)[..], expected.as_bytes());
    assert_ne!(seed_fingerprint(&seed), seed_fingerprint(&[8u8; 32]));
    assert_ne!(seed_fingerprint(&seed), seed);
}

#[test]
fn digest_covers_the_document_but_not_its_signatures() {
    let seed = [9u8; 32];
    let fingerprint = seed_fingerprint(&seed);
    let unsigned = document(vec![slot(&fingerprint, &PATH, &alpha())]);
    let digest = signature_hash(&unsigned, BranchId::Blossom);

    let mut personal = *b"ZcashSigHash\0\0\0\0";
    personal[12..].copy_from_slice(&0x2bb4_0e60u32.to_le_bytes());
    let expected = blake2b_simd::Params::new()
        .hash_length(32)
        .personal(&personal)
        .hash(&unsigned.write_to_bytes());
    assert_eq!(&digest[..], expected.as_bytes());

    let mut signed = document(vec![slot(&fingerprint, &PATH, &alpha())]);
    fill_signature(&mut signed.spends[0], [5; 64]);
    assert_eq!(signed.spends[0].spend_auth_sig, vec![5; 64]);
    assert_eq!(signature_hash(&signed, BranchId::Blossom), digest);

    assert_ne!(signature_hash(&unsigned, BranchId::Sapling), digest);
    let mut other = document(vec![slot(&fingerprint, &PATH, &alpha())]);
    other.outputs[0].value = 10;
    assert_ne!(signature_hash(&other, BranchId::Blossom), digest);
}

#[test]
fn branch_identifiers() {
    assert_eq!(BranchId::Sprout.id(), 0);
    assert_eq!(BranchId::Overwinter.id(), 0x5ba8_1b19);
    assert_eq!(BranchId::Sapling.id(), 0x76b8_09bb);
    assert_eq!(BranchId::Blossom.id(), 0x2bb4_0e60);
    assert_eq!(BranchId::Heartwood.id(), 0xf5b9_230b);
    assert_eq!(BranchId::Canopy.id(), 0xe9ff_75a6);
}

#[test]
fn own_slot_is_signed_and_the_signature_verifies() {
    let seed = [9u8; 32];
    let fingerprint = seed_fingerprint(&seed);
    let unsigned = document(vec![slot(&fingerprint, &PATH, &alpha())]);
    let digest = signature_hash(&unsigned, BranchId::Blossom);
    let bytes = unsigned.write_to_bytes();

    let signed = parse_from_bytes(&sign_pczt(&bytes, seed, BranchId::Blossom).unwrap()).unwrap();
    assert_eq!(signed.spends.len(), 1);
    assert_eq!(signed.spends[0].spend_auth_sig.len(), 64);
    assert_eq!(signed.spends[0].key, unsigned.spends[0].key);
    assert_eq!(signed.spends[0].alpha, unsigned.spends[0].alpha);
    assert_eq!(signed.global, unsigned.global);
    assert_eq!(signed.outputs, unsigned.outputs);

    let key = randomized_key(&seed, &PATH, &alpha());
    assert!(verifies(&key, &digest, &signed.spends[0].spend_auth_sig));
    assert!(!verifies(&key, &[0; 32], &signed.spends[0].spend_auth_sig));
    let other_key = randomized_key(&[8u8; 32], &PATH, &alpha());
    assert!(!verifies(&other_key, &digest, &signed.spends[0].spend_auth_sig));
}

#[test]
fn foreign_seed_leaves_the_slot_empty() {
    let seed = [9u8; 32];
    let fingerprint = seed_fingerprint(&seed);
    let bytes = document(vec![slot(&fingerprint, &PATH, &alpha())]).write_to_bytes();
    let signed = sign_pczt(&bytes, [8u8; 32], BranchId::Blossom).unwrap();
    assert_eq!(signed, bytes);
    assert!(parse_from_bytes(&signed).unwrap().spends[0].spend_auth_sig.is_empty());
}

#[test]
fn parties_sign_their_own_slots_in_any_order() {
    let first_seed = [1u8; 32];
    let second_seed = [2u8; 32];
    let other_path = [0x8000_0001u32];
    let unsigned = document(vec![
        slot(&seed_fingerprint(&first_seed), &PATH, &alpha()),
        slot(&seed_fingerprint(&second_seed), &other_path, &alpha()),
        slot(&seed_fingerprint(&first_seed), &other_path, &alpha()),
    ]);
    let digest = signature_hash(&unsigned, BranchId::Canopy);
    let bytes = unsigned.write_to_bytes();

    let after_first = sign_pczt(&bytes, first_seed, BranchId::Canopy).unwrap();
    let partly = parse_from_bytes(&after_first).unwrap();
    assert_eq!(partly.spends[0].spend_auth_sig.len(), 64);
    assert!(partly.spends[1].spend_auth_sig.is_empty());
    assert_eq!(partly.spends[2].spend_auth_sig.len(), 64);

    let both = parse_from_bytes(&sign_pczt(&after_first, second_seed, BranchId::Canopy).unwrap())
        .unwrap();
    assert_eq!(both.spends[0], partly.spends[0]);
    assert_eq!(both.spends[2], partly.spends[2]);
    assert!(verifies(&randomized_key(&first_seed, &PATH, &alpha()), &digest, &both.spends[0].spend_auth_sig));
    assert!(verifies(&randomized_key(&second_seed, &other_path, &alpha()), &digest, &both.spends[1].spend_auth_sig));
    assert!(verifies(&randomized_key(&first_seed, &other_path, &alpha()), &digest, &both.spends[2].spend_auth_sig));

    let other_order = sign_pczt(&bytes, second_seed, BranchId::Canopy).unwrap();
    let other_order =
        parse_from_bytes(&sign_pczt(&other_order, first_seed, BranchId::Canopy).unwrap()).unwrap();
    assert!(verifies(&randomized_key(&second_seed, &other_path, &alpha()), &digest, &other_order.spends[1].spend_auth_sig));
    assert!(verifies(&randomized_key(&first_seed, &PATH, &alpha()), &digest, &other_order.spends[0].spend_auth_sig));
}

#[test]
fn document_without_spends_is_signed_as_it_is() {
    let bytes = document(vec![]).write_to_bytes();
    assert_eq!(sign_pczt(&bytes, [9u8; 32], BranchId::Blossom), Ok(bytes));
}

#[test]
fn undecodable_document_is_refused() {
    assert_eq!(sign_pczt(&[1, 2, 3], [9u8; 32], BranchId::Blossom), Err(PcztError::Undecodable));
}

#[test]
fn unreadable_alpha_of_an_own_slot_is_fatal() {
    let seed = [9u8; 32];
    let fingerprint = seed_fingerprint(&seed);
    for bad in [vec![0xffu8; 32], vec![], vec![1; 31], vec![0; 33]] {
        let bytes = document(vec![slot(&fingerprint, &PATH, &bad)]).write_to_bytes();
        assert_eq!(sign_pczt(&bytes, seed, BranchId::Blossom), Err(PcztError::InvalidAlpha));
        // Someone else's slot is not looked into.
        assert_eq!(sign_pczt(&bytes, [8u8; 32], BranchId::Blossom), Ok(bytes));
    }
}

#[test]
fn path_that_is_not_hardened_is_fatal_for_an_own_slot() {
    let seed = [9u8; 32];
    let fingerprint = seed_fingerprint(&seed);
    let unsigned = document(vec![slot(&fingerprint, &[5], &[0xff; 32])]);
    assert_eq!(
        sign_document(unsigned, seed, BranchId::Blossom).unwrap_err(),
        PcztError::UnderivableKey
    );
}

#[test]
fn path_beyond_the_greatest_depth_is_fatal_for_an_own_slot() {
    let seed = [9u8; 32];
    let fingerprint = seed_fingerprint(&seed);
    let deepest = vec![0x8000_0000u32; 255];
    let unsigned = document(vec![slot(&fingerprint, &deepest, &alpha())]);
    let digest = signature_hash(&unsigned, BranchId::Blossom);
    let signed = sign_document(unsigned, seed, BranchId::Blossom).unwrap();
    assert!(verifies(
        &randomized_key(&seed, &deepest, &alpha()),
        &digest,
        &signed.spends[0].spend_auth_sig
    ));

    let too_deep = vec![0x8000_0000u32; 256];
    let unsigned = document(vec![slot(&fingerprint, &too_deep, &alpha())]);
    assert_eq!(
        sign_document(unsigned, seed, BranchId::Blossom).unwrap_err(),
        PcztError::UnderivableKey
    );
}

#[test]
fn first_refused_slot_gives_the_reason() {
    let seed = [9u8; 32];
    let fingerprint = seed_fingerprint(&seed);
    let unsigned = document(vec![
        slot(&fingerprint, &PATH, &alpha()),
        slot(&fingerprint, &PATH, &[0xff; 32]),
        slot(&fingerprint, &[5], &alpha()),
    ]);
    assert_eq!(
        sign_document(unsigned, seed, BranchId::Blossom).unwrap_err(),
        PcztError::InvalidAlpha
    );
}

#[test]
fn empty_path_signs_with_the_master_key() {
    let seed = [9u8; 32];
    let fingerprint = seed_fingerprint(&seed);
    let unsigned = document(vec![slot(&fingerprint, &[], &alpha())]);
    let digest = signature_hash(&unsigned, BranchId::Blossom);
    let signed = sign_document(unsigned, seed, BranchId::Blossom).unwrap();
    assert!(verifies(&randomized_key(&seed, &[], &alpha()), &digest, &signed.spends[0].spend_auth_sig));
}
