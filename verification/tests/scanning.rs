use sapling_crypto::keys::FullViewingKey as RealFullViewingKey;
use sapling_crypto::note_encryption::{sapling_note_encryption, SaplingDomain};
use sapling_crypto::value::NoteValue;
use sapling_crypto::zip32::ExtendedSpendingKey;
use shielded_core::keys::{FullViewingKey, OutgoingViewingKey, ViewingKey};
use shielded_core::merkle_tree::{CommitmentTree, IncrementalWitness};
use shielded_core::primitives::Rseed;
use shielded_core::proto::compact_formats::{CompactBlock, CompactOutput, CompactSpend, CompactTx};
use shielded_core::sapling::Node;
use shielded_core::proto::codec::parse_from_bytes;
use shielded_core::welding_rig::{has_room_for, scan_block, scan_block_from_bytes};
use shielded_core::zip32::ExtendedFullViewingKey;
use zcash_note_encryption::Domain;

fn spending_key(seed_byte: u8) -> ExtendedSpendingKey {
    ExtendedSpendingKey::master(&[seed_byte; 32]).unwrap()
}

fn viewing_key(extsk: &ExtendedSpendingKey) -> ExtendedFullViewingKey {
    let bytes = RealFullViewingKey::from_expanded_spending_key(extsk.expsk()).to_bytes();
    let mut ak = [0u8; 32];
    let mut nk = [0u8; 32];
    let mut ovk = [0u8; 32];
    ak.copy_from_slice(&bytes[..32]);
    nk.copy_from_slice(&bytes[32..64]);
    ovk.copy_from_slice(&bytes[64..]);
    ExtendedFullViewingKey {
        fvk: FullViewingKey { vk: ViewingKey { ak, nk }, ovk: OutgoingViewingKey(ovk) },
    }
}

/// An output of `value` zatoshis to the default address of `extsk`.
fn output_to(extsk: &ExtendedSpendingKey, value: u64, rseed: u8) -> CompactOutput {
    output_with(extsk, value, sapling_crypto::Rseed::AfterZip212([rseed; 32]))
}

fn output_with(extsk: &ExtendedSpendingKey, value: u64, rseed: sapling_crypto::Rseed) -> CompactOutput {
    let to = extsk.default_address().1;
    let note = to.create_note(NoteValue::from_raw(value), rseed);
    let cmu = note.cmu().to_bytes();
    let mut rng = rand::rng();
    let encryption = sapling_note_encryption(None, note, [0u8; 512], &mut rng);
    let epk = SaplingDomain::epk_bytes(encryption.epk()).0;
    let ciphertext = encryption.encrypt_note_plaintext();
    CompactOutput {
        cmu: cmu.to_vec(),
        epk: epk.to_vec(),
        ciphertext: ciphertext.as_ref()[..52].to_vec(),
    }
}

fn spend_of(nf: u8) -> CompactSpend {
    CompactSpend { nf: vec![nf; 32] }
}

fn tx(hash: u8, spends: Vec<CompactSpend>, outputs: Vec<CompactOutput>) -> CompactTx {
    CompactTx { hash: [hash; 32], spends, outputs }
}

fn node_of(output: &CompactOutput) -> Node {
    let mut repr = [0u8; 32];
    repr.copy_from_slice(&output.cmu[..32]);
    Node::new(repr)
}

#[test]
fn output_for_an_account_is_found_with_its_witness() {
    let extsk = spending_key(1);
    let other = spending_key(2);
    let output = output_to(&extsk, 5, 9);
    let block = CompactBlock { vtx: vec![tx(7, vec![], vec![output.clone()])] };

    let mut tree = CommitmentTree::empty();
    let found = scan_block(&block, &[viewing_key(&extsk)], &[], &mut tree, &mut []);
    assert_eq!(found.len(), 1);
    let (wtx, witnesses) = &found[0];
    assert_eq!(wtx.txid.0, [7; 32]);
    assert_eq!(wtx.num_spends, 0);
    assert_eq!(wtx.num_outputs, 1);
    assert!(wtx.shielded_spends.is_empty());
    assert_eq!(wtx.shielded_outputs.len(), 1);
    let note = &wtx.shielded_outputs[0];
    assert_eq!(note.index, 0);
    assert_eq!(note.account, 0);
    assert_eq!(note.note.value, 5);
    assert_eq!(note.note.rseed, Rseed::AfterZip212([9; 32]));
    assert_eq!(&note.cmu[..], &output.cmu[..]);
    assert_eq!(&note.epk[..], &output.epk[..]);
    assert!(!note.is_change);
    let address = extsk.default_address().1.to_bytes();
    assert_eq!(&note.to.diversifier[..], &address[..11]);
    assert_eq!(&note.to.pk_d[..], &address[11..]);
    assert_eq!(note.note.diversifier, note.to.diversifier);
    assert_eq!(note.note.pk_d, note.to.pk_d);

    assert_eq!(witnesses.len(), 1);
    assert_eq!(witnesses[0].position(), Some(0));
    assert_eq!(tree.size(), 1);
    assert_eq!(witnesses[0].path().unwrap().root(node_of(&output)), tree.root());

    let mut unrelated_tree = CommitmentTree::empty();
    let nothing = scan_block(&block, &[viewing_key(&other)], &[], &mut unrelated_tree, &mut []);
    assert!(nothing.is_empty());
    assert_eq!(unrelated_tree.size(), 1);
    assert_eq!(unrelated_tree.root(), tree.root());
}

#[test]
fn output_is_change_only_beside_a_spend_of_the_account() {
    let extsk = spending_key(1);
    let keys = [viewing_key(&extsk)];
    let nf = [3u8; 32];
    let nullifiers: Vec<(&[u8], usize)> = vec![(&nf[..], 0)];

    let with_spend = CompactBlock {
        vtx: vec![tx(1, vec![spend_of(8), spend_of(3)], vec![output_to(&extsk, 11, 1)])],
    };
    let mut tree = CommitmentTree::empty();
    let found = scan_block(&with_spend, &keys, &nullifiers, &mut tree, &mut []);
    assert_eq!(found.len(), 1);
    let wtx = &found[0].0;
    assert_eq!(wtx.num_spends, 2);
    assert_eq!(wtx.shielded_spends.len(), 1);
    assert_eq!(wtx.shielded_spends[0].index, 1);
    assert_eq!(wtx.shielded_spends[0].nf, vec![3u8; 32]);
    assert_eq!(wtx.shielded_spends[0].account, 0);
    assert!(wtx.shielded_outputs[0].is_change);

    let without_spend = CompactBlock {
        vtx: vec![tx(1, vec![spend_of(8)], vec![output_to(&extsk, 11, 1)])],
    };
    let mut tree = CommitmentTree::empty();
    let found = scan_block(&without_spend, &keys, &nullifiers, &mut tree, &mut []);
    assert_eq!(found.len(), 1);
    assert!(found[0].0.shielded_spends.is_empty());
    assert!(!found[0].0.shielded_outputs[0].is_change);
}

#[test]
fn spend_of_another_account_does_not_make_change() {
    let first = spending_key(1);
    let second = spending_key(2);
    let keys = [viewing_key(&first), viewing_key(&second)];
    let nf = [3u8; 32];
    let nullifiers: Vec<(&[u8], usize)> = vec![(&nf[..], 0)];
    let block = CompactBlock {
        vtx: vec![tx(1, vec![spend_of(3)], vec![output_to(&second, 4, 1), output_to(&first, 6, 2)])],
    };
    let mut tree = CommitmentTree::empty();
    let found = scan_block(&block, &keys, &nullifiers, &mut tree, &mut []);
    assert_eq!(found.len(), 1);
    let outputs = &found[0].0.shielded_outputs;
    assert_eq!(outputs.len(), 2);
    assert_eq!(outputs[0].account, 1);
    assert!(!outputs[0].is_change);
    assert_eq!(outputs[1].account, 0);
    assert!(outputs[1].is_change);
}

#[test]
fn first_matching_nullifier_names_the_account() {
    let a = [3u8; 32];
    let b = [3u8; 32];
    let nullifiers: Vec<(&[u8], usize)> = vec![(&a[..], 4), (&b[..], 9)];
    let block = CompactBlock { vtx: vec![tx(1, vec![spend_of(3)], vec![])] };
    let mut tree = CommitmentTree::empty();
    let found = scan_block(&block, &[], &nullifiers, &mut tree, &mut []);
    assert_eq!(found.len(), 1);
    assert_eq!(found[0].0.shielded_spends[0].account, 4);
    assert!(found[0].1.is_empty());
    assert_eq!(tree.size(), 0);
}

#[test]
fn every_witness_follows_every_leaf_of_the_block() {
    let extsk = spending_key(1);
    let stranger = spending_key(5);
    let keys = [viewing_key(&extsk)];

    let mut tree = CommitmentTree::empty();
    let earlier = output_to(&stranger, 1, 1);
    tree.append(node_of(&earlier)).unwrap();
    let mut existing = vec![IncrementalWitness::from_tree(&tree)];

    let mine_first = output_to(&extsk, 2, 2);
    let mine_second = output_to(&extsk, 3, 3);
    let block = CompactBlock {
        vtx: vec![
            tx(1, vec![], vec![output_to(&stranger, 9, 4), mine_first.clone()]),
            tx(2, vec![], vec![output_to(&stranger, 9, 5)]),
            tx(3, vec![], vec![mine_second.clone(), output_to(&stranger, 9, 6)]),
        ],
    };
    assert!(has_room_for(&block, &tree, &existing[..]));
    assert_eq!(existing[0].size(), 1);
    let found = scan_block(&block, &keys, &[], &mut tree, &mut existing[..]);
    assert_eq!(tree.size(), 6);
    assert_eq!(existing[0].size(), 6);
    assert_eq!(found.len(), 2);
    assert_eq!(found[0].0.txid.0, [1; 32]);
    assert_eq!(found[0].0.num_outputs, 2);
    assert_eq!(found[0].0.shielded_outputs[0].index, 1);
    assert_eq!(found[1].0.txid.0, [3; 32]);
    assert_eq!(found[1].0.shielded_outputs[0].index, 0);

    let root = tree.root();
    assert_eq!(existing[0].position(), Some(0));
    assert_eq!(existing[0].path().unwrap().root(node_of(&earlier)), root);
    assert_eq!(found[0].1[0].position(), Some(2));
    assert_eq!(found[0].1[0].path().unwrap().root(node_of(&mine_first)), root);
    assert_eq!(found[1].1[0].position(), Some(4));
    assert_eq!(found[1].1[0].path().unwrap().root(node_of(&mine_second)), root);
}

#[test]
fn malformed_outputs_are_skipped() {
    let extsk = spending_key(1);
    let keys = [viewing_key(&extsk)];
    let good = output_to(&extsk, 2, 2);

    let mut short_cmu = good.clone();
    short_cmu.cmu.truncate(31);
    let mut bad_cmu = good.clone();
    bad_cmu.cmu = vec![0xff; 32];
    let mut bad_epk = good.clone();
    bad_epk.epk = vec![0xff; 32];
    let mut short_epk = good.clone();
    short_epk.epk.truncate(5);
    let mut short_ciphertext = good.clone();
    short_ciphertext.ciphertext.truncate(51);
    let mut wrong_ciphertext = good.clone();
    wrong_ciphertext.ciphertext[10] ^= 1;

    let block = CompactBlock {
        vtx: vec![tx(
            1,
            vec![],
            vec![short_cmu, bad_cmu, bad_epk, short_epk, short_ciphertext, wrong_ciphertext],
        )],
    };
    let mut tree = CommitmentTree::empty();
    let found = scan_block(&block, &keys, &[], &mut tree, &mut []);
    assert!(found.is_empty());
    // The two outputs whose commitment and key can be read are leaves all the same.
    assert_eq!(tree.size(), 2);
}

#[test]
fn invalid_viewing_key_finds_nothing() {
    let extsk = spending_key(1);
    let mut key = viewing_key(&extsk);
    key.fvk.vk.ak = [0xff; 32];
    assert!(key.fvk.ivk().is_none());
    assert!(viewing_key(&extsk).fvk.ivk().is_some());
    let block = CompactBlock { vtx: vec![tx(1, vec![], vec![output_to(&extsk, 2, 2)])] };
    let mut tree = CommitmentTree::empty();
    let found = scan_block(&block, &[key, viewing_key(&extsk)], &[], &mut tree, &mut []);
    assert_eq!(found.len(), 1);
    assert_eq!(found[0].0.shielded_outputs[0].account, 1);
}

#[test]
fn derived_ivk_is_that_of_the_key() {
    let extsk = spending_key(1);
    let expected = RealFullViewingKey::from_expanded_spending_key(extsk.expsk()).vk.ivk().to_repr();
    assert_eq!(viewing_key(&extsk).fvk.ivk(), Some(expected));
    assert_ne!(viewing_key(&spending_key(2)).fvk.ivk(), Some(expected));
}

#[test]
fn note_with_its_commitment_randomness_is_found_as_such() {
    let extsk = spending_key(1);
    let rcm = jubjub::Fr::from(987_654_321);
    let output = output_with(&extsk, 77, sapling_crypto::Rseed::BeforeZip212(rcm));
    let block = CompactBlock { vtx: vec![tx(7, vec![], vec![output])] };
    let mut tree = CommitmentTree::empty();
    let found = scan_block(&block, &[viewing_key(&extsk)], &[], &mut tree, &mut []);
    assert_eq!(found.len(), 1);
    let note = &found[0].0.shielded_outputs[0].note;
    assert_eq!(note.value, 77);
    assert_eq!(note.rseed, Rseed::BeforeZip212(rcm.to_bytes()));
}

#[test]
fn compact_block_round_trips_through_its_encoding() {
    let extsk = spending_key(1);
    let block = CompactBlock {
        vtx: vec![
            tx(1, vec![spend_of(8), spend_of(3)], vec![output_to(&extsk, 11, 1)]),
            tx(2, vec![], vec![]),
            tx(3, vec![CompactSpend { nf: vec![] }], vec![CompactOutput {
                cmu: vec![1],
                epk: vec![],
                ciphertext: vec![2, 3],
            }]),
        ],
    };
    let bytes = block.write_to_bytes();
    assert_eq!(parse_from_bytes(&bytes), Some(block.clone()));
    assert_eq!(parse_from_bytes(&bytes).unwrap().write_to_bytes(), bytes);
    for cut in 1..bytes.len() {
        assert!(parse_from_bytes(&bytes[..cut]).is_none(), "prefix of {} bytes", cut);
    }
    let mut longer = bytes.clone();
    longer.push(0);
    assert!(parse_from_bytes(&longer).is_none());
}

#[test]
fn compact_block_encoding_is_length_prefixed() {
    let block = CompactBlock {
        vtx: vec![tx(9, vec![CompactSpend { nf: vec![0xaa] }], vec![CompactOutput {
            cmu: vec![0xbb, 0xcc],
            epk: vec![],
            ciphertext: vec![0xdd],
        }])],
    };
    let mut expected = vec![1u8, 0, 0, 0, 0, 0, 0, 0];
    expected.extend_from_slice(&[9; 32]);
    expected.extend_from_slice(&[1, 0, 0, 0, 0, 0, 0, 0]);
    expected.extend_from_slice(&[1, 0, 0, 0, 0, 0, 0, 0, 0xaa]);
    expected.extend_from_slice(&[1, 0, 0, 0, 0, 0, 0, 0]);
    expected.extend_from_slice(&[2, 0, 0, 0, 0, 0, 0, 0, 0xbb, 0xcc]);
    expected.extend_from_slice(&[0; 8]);
    expected.extend_from_slice(&[1, 0, 0, 0, 0, 0, 0, 0, 0xdd]);
    assert_eq!(block.write_to_bytes(), expected);
    assert_eq!(parse_from_bytes(&expected), Some(block));
}

#[test]
fn empty_byte_string_is_the_block_without_transactions() {
    let empty = CompactBlock { vtx: vec![] };
    assert_eq!(empty.write_to_bytes(), Vec::<u8>::new());
    assert_eq!(parse_from_bytes(&[]), Some(empty));
    // The number zero, written out, is no encoding of it.
    assert_eq!(parse_from_bytes(&[0u8; 8]), None);
    assert_eq!(parse_from_bytes(&[0xff; 8]), None);
}

#[test]
fn encoded_block_is_scanned_as_the_block_is() {
    let extsk = spending_key(1);
    let keys = [viewing_key(&extsk)];
    let output = output_to(&extsk, 5, 9);
    let block = CompactBlock {
        vtx: vec![tx(7, vec![], vec![output.clone(), output_to(&spending_key(2), 1, 1)])],
    };
    let bytes = block.write_to_bytes();

    let mut tree = CommitmentTree::empty();
    let found = scan_block_from_bytes(&bytes, &keys, &[], &mut tree, &mut []).unwrap();
    let mut other_tree = CommitmentTree::empty();
    let expected = scan_block(&block, &keys, &[], &mut other_tree, &mut []);
    assert_eq!(found.len(), 1);
    assert_eq!(found[0].0, expected[0].0);
    assert_eq!(tree.size(), 2);
    assert_eq!(tree.root(), other_tree.root());
    assert_eq!(found[0].1[0].position(), Some(0));
    assert_eq!(found[0].1[0].path().unwrap().root(node_of(&output)), tree.root());
}

#[test]
fn bytes_that_encode_no_block_are_not_scanned() {
    let extsk = spending_key(1);
    let keys = [viewing_key(&extsk)];
    let mut tree = CommitmentTree::empty();
    tree.append(node_of(&output_to(&extsk, 1, 1))).unwrap();
    let mut existing = vec![IncrementalWitness::from_tree(&tree)];
    let root = tree.root();
    assert!(scan_block_from_bytes(&[1, 2, 3], &keys, &[], &mut tree, &mut existing[..]).is_none());
    assert_eq!(tree.size(), 1);
    assert_eq!(tree.root(), root);
    assert_eq!(existing[0].size(), 1);
    let nothing = scan_block_from_bytes(&[], &keys, &[], &mut tree, &mut existing[..]).unwrap();
    assert!(nothing.is_empty());
    assert_eq!(tree.root(), root);
}
