use shielded_core::encoding::{bytes_equal, copy_bytes, leading_bytes};
use shielded_core::keys::{ExpandedSpendingKey, FullViewingKey, OutgoingViewingKey, ViewingKey};
use shielded_core::merkle_tree::tree::empty_roots;
use shielded_core::pczt::wire::{
    read_bytes, read_i64, read_u32, read_u64, write_bytes, write_i64, write_raw, write_u32,
    write_u64,
};
use shielded_core::primitives::PaymentAddress;
use shielded_core::sapling::Node;
use shielded_core::transaction::components::{OutPoint, TransactionData};

#[test]
fn leading_bytes_are_the_first() {
    let bytes = [1u8, 2, 3, 4, 5];
    let head: [u8; 3] = leading_bytes(&bytes);
    assert_eq!(head, [1, 2, 3]);
    let all: [u8; 5] = leading_bytes(&bytes);
    assert_eq!(all, bytes);
    let none: [u8; 0] = leading_bytes(&bytes);
    assert_eq!(none, []);
}

#[test]
fn byte_strings_compare_by_content() {
    assert!(bytes_equal(&[], &[]));
    assert!(bytes_equal(&[1, 2], &[1, 2]));
    assert!(!bytes_equal(&[1, 2], &[1, 3]));
    assert!(!bytes_equal(&[1, 2], &[1]));
    assert!(!bytes_equal(&[], &[0]));
    assert_eq!(copy_bytes(&[9, 8, 7]), vec![9, 8, 7]);
    assert_eq!(copy_bytes(&[]), Vec::<u8>::new());
}

#[test]
fn integers_are_written_least_significant_byte_first() {
    let mut out = vec![0xee];
    write_u64(&mut out, 0x0102_0304_0506_0708);
    write_u32(&mut out, 0x0a0b_0c0d);
    write_i64(&mut out, -1);
    write_i64(&mut out, i64::MIN);
    assert_eq!(
        out,
        vec![
            0xee, 8, 7, 6, 5, 4, 3, 2, 1, 0x0d, 0x0c, 0x0b, 0x0a, 0xff, 0xff, 0xff, 0xff, 0xff,
            0xff, 0xff, 0xff, 0, 0, 0, 0, 0, 0, 0, 0x80
        ]
    );
    assert_eq!(read_u64(&out, 1), Some((0x0102_0304_0506_0708, 9)));
    assert_eq!(read_u32(&out, 9), Some((0x0a0b_0c0d, 13)));
    assert_eq!(read_i64(&out, 13), Some((-1, 21)));
    assert_eq!(read_i64(&out, 21), Some((i64::MIN, 29)));
    assert_eq!(read_i64(&out, 22), None);
    assert_eq!(read_u64(&out, 29), None);
    assert_eq!(read_u64(&out, 30), None);
    assert_eq!(read_u32(&out, 26), None);
    assert_eq!(read_u32(&out, usize::MAX), None);
    assert_eq!(read_u64(&out, usize::MAX), None);
}

#[test]
fn byte_strings_stand_behind_their_length() {
    let mut out = vec![];
    write_bytes(&mut out, &[7, 8, 9]);
    write_bytes(&mut out, &[]);
    write_raw(&mut out, &[1]);
    assert_eq!(out, vec![3, 0, 0, 0, 0, 0, 0, 0, 7, 8, 9, 0, 0, 0, 0, 0, 0, 0, 0, 1]);
    assert_eq!(read_bytes(&out, 0), Some((vec![7, 8, 9], 11)));
    assert_eq!(read_bytes(&out, 11), Some((vec![], 19)));
    assert_eq!(read_bytes(&out, 12), None);
    assert_eq!(read_bytes(&out, 13), None);
    // A length that reaches beyond the end.
    assert_eq!(read_bytes(&[4, 0, 0, 0, 0, 0, 0, 0, 1, 2, 3], 0), None);
    assert_eq!(read_bytes(&[0xff; 8], 0), None);
}

#[test]
fn keys_and_addresses_are_encoded_part_by_part() {
    let fvk = FullViewingKey {
        vk: ViewingKey { ak: [1; 32], nk: [2; 32] },
        ovk: OutgoingViewingKey([3; 32]),
    };
    let bytes = fvk.to_bytes();
    assert_eq!(&bytes[..32], &[1; 32]);
    assert_eq!(&bytes[32..64], &[2; 32]);
    assert_eq!(&bytes[64..], &[3; 32]);

    let expsk = ExpandedSpendingKey { ask: [4; 32], nsk: [5; 32], ovk: OutgoingViewingKey([6; 32]) };
    let bytes = expsk.to_bytes();
    assert_eq!(&bytes[..32], &[4; 32]);
    assert_eq!(&bytes[32..64], &[5; 32]);
    assert_eq!(&bytes[64..], &[6; 32]);

    let address = PaymentAddress { diversifier: [7; 11], pk_d: [8; 32] };
    let bytes = address.to_bytes();
    assert_eq!(&bytes[..11], &[7; 11]);
    assert_eq!(&bytes[11..], &[8; 32]);
}

#[test]
fn empty_roots_grow_level_by_level() {
    let roots = empty_roots();
    assert_eq!(roots.len(), 33);
    assert_eq!(roots[0], Node::blank());
    for level in 0..32 {
        assert_eq!(roots[level + 1], Node::combine(level, &roots[level], &roots[level]));
    }
    assert_eq!(roots[32].repr, sapling_crypto::Anchor::empty_tree().to_bytes());
}

#[test]
fn new_transaction_holds_nothing() {
    let tx = TransactionData::new();
    assert!(tx.vin.is_empty());
    assert!(tx.vout.is_empty());
    assert!(tx.tze_inputs.is_empty());
    assert!(tx.tze_outputs.is_empty());
    assert!(tx.joinsplits.is_empty());
    assert!(tx.shielded_spends.is_empty());
    assert!(tx.shielded_outputs.is_empty());
    let outpoint = OutPoint::new([9; 32], 4);
    assert_eq!(outpoint.hash, [9; 32]);
    assert_eq!(outpoint.n, 4);
}
