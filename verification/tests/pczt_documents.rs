use group::Group;
use shielded_core::keys::OutgoingViewingKey;
use shielded_core::pczt::codec::parse_from_bytes;
use shielded_core::pczt::proto::{
    PartiallyCreatedTransaction, PcztGlobal, PcztOutput, PcztSpend, Zip32Key,
};
use shielded_core::pczt::{
    add_sapling_output, append_output, apply_output, open_for_output, Memo, PcztError,
    SaplingOutput, TxProver,
};
use shielded_core::primitives::PaymentAddress;
use shielded_core::MAX_MONEY;

fn point(n: u64) -> [u8; 32] {
    let p = jubjub::SubgroupPoint::generator() * jubjub::Fr::from(n);
    jubjub::AffinePoint::from(jubjub::ExtendedPoint::from(p)).to_bytes()
}

fn point_sum(a: u64, b: u64) -> [u8; 32] {
    point(a + b)
}

fn scalar(n: u64) -> [u8; 32] {
    jubjub::Fr::from(n).to_bytes()
}

fn built(cv: u64, rcv: u64) -> SaplingOutput {
    SaplingOutput {
        cv: point(cv),
        cmu: [3; 32],
        epk: [4; 32],
        enc_ciphertext: vec![5; 580],
        out_ciphertext: vec![6; 80],
        zkproof: vec![7; 192],
        rcv: scalar(rcv),
    }
}

struct FixedProver {
    cv: u64,
    rcv: u64,
}

impl TxProver for FixedProver {
    fn build_output(
        &self,
        _ovk: &OutgoingViewingKey,
        _to: &PaymentAddress,
        _value: u64,
        _memo: &Option<Memo>,
    ) -> SaplingOutput {
        built(self.cv, self.rcv)
    }
}

struct BrokenProver;

impl TxProver for BrokenProver {
    fn build_output(
        &self,
        _ovk: &OutgoingViewingKey,
        _to: &PaymentAddress,
        _value: u64,
        _memo: &Option<Memo>,
    ) -> SaplingOutput {
        let mut output = built(1, 1);
        output.cv = [0xff; 32];
        output
    }
}

fn recipient() -> PaymentAddress {
    PaymentAddress { diversifier: [1; 11], pk_d: [2; 32] }
}

fn add(pczt: &[u8], value: i64, cv: u64, rcv: u64) -> Result<Vec<u8>, PcztError> {
    add_sapling_output(
        pczt,
        OutgoingViewingKey([0; 32]),
        recipient(),
        value,
        None,
        &FixedProver { cv, rcv },
    )
}

fn sample_document() -> PartiallyCreatedTransaction {
    PartiallyCreatedTransaction {
        global: PcztGlobal { value_balance: -42, bsk: scalar(9).to_vec(), bvk: point(9).to_vec() },
        spends: vec![
            PcztSpend {
                key: Zip32Key {
                    master_fingerprint: vec![1; 32],
                    derivation_path: vec![0x8000_0020, 0x8000_0085, 0x8000_0000],
                },
                alpha: scalar(77).to_vec(),
                spend_auth_sig: vec![],
            },
            PcztSpend {
                key: Zip32Key { master_fingerprint: vec![], derivation_path: vec![] },
                alpha: vec![],
                spend_auth_sig: vec![8; 64],
            },
        ],
        outputs: vec![PcztOutput {
            cv: point(2).to_vec(),
            cmu: vec![3; 32],
            epk: vec![4; 32],
            enc_ciphertext: vec![5; 580],
            out_ciphertext: vec![],
            zkproof: vec![7; 192],
            value: 42,
            rcv: scalar(3).to_vec(),
        }],
    }
}

#[test]
fn empty_byte_string_is_the_empty_document() {
    let bytes = PartiallyCreatedTransaction::new().write_to_bytes();
    assert_eq!(bytes, Vec::<u8>::new());
    assert_eq!(parse_from_bytes(&[]), Some(PartiallyCreatedTransaction::new()));
    assert!(PartiallyCreatedTransaction::new().holds_nothing());
    assert!(!sample_document().holds_nothing());
    // The parts of the empty document, written out, are no encoding: the empty
    // document is written as no bytes at all.
    assert_eq!(parse_from_bytes(&[0u8; 40]), None);
}

#[test]
fn document_with_a_balance_alone_is_written_in_full() {
    let mut document = PartiallyCreatedTransaction::new();
    document.global.value_balance = 1;
    let bytes = document.write_to_bytes();
    let mut expected = vec![0u8; 40];
    expected[0] = 1;
    assert_eq!(bytes, expected);
    assert_eq!(parse_from_bytes(&bytes), Some(document));
}

#[test]
fn first_output_is_added_to_the_empty_byte_string() {
    let least = parse_from_bytes(&add(&[], 0, 5, 50).unwrap()).unwrap();
    assert_eq!(least.outputs.len(), 1);
    assert_eq!(least.outputs[0].value, 0);
    assert_eq!(least.global.value_balance, 0);
    assert_eq!(least.global.bvk, point(5).to_vec());
    assert_eq!(least.global.bsk, scalar(50).to_vec());
    assert!(least.spends.is_empty());

    let most = parse_from_bytes(&add(&[], MAX_MONEY, 5, 50).unwrap()).unwrap();
    assert_eq!(most.outputs.len(), 1);
    assert_eq!(most.outputs[0].value, 2_100_000_000_000_000);
    assert_eq!(most.global.value_balance, -2_100_000_000_000_000);

    assert_eq!(add(&[], MAX_MONEY + 1, 5, 50), Err(PcztError::InvalidAmount));
    assert_eq!(add(&[], -1, 5, 50), Err(PcztError::InvalidAmount));
}

#[test]
fn accumulators_keep_their_length_output_after_output() {
    let mut bytes = Vec::new();
    for (n, value) in [3i64, 0, 9, 1].iter().enumerate() {
        bytes = add(&bytes, *value, 2 + n as u64, 7).unwrap();
        let document = parse_from_bytes(&bytes).unwrap();
        assert_eq!(document.outputs.len(), n + 1);
        assert_eq!(document.global.bsk.len(), 32);
        assert_eq!(document.global.bvk.len(), 32);
    }
    let document = parse_from_bytes(&bytes).unwrap();
    assert_eq!(document.global.value_balance, -13);
    assert_eq!(document.global.bvk, point(2 + 3 + 4 + 5).to_vec());
    assert_eq!(document.global.bsk, scalar(28).to_vec());
}

#[test]
fn proof_of_another_length_is_refused() {
    for length in [0usize, 191, 193] {
        let mut output = built(1, 1);
        output.zkproof = vec![7; length];
        assert_eq!(apply_output(&[], 1, output), Err(PcztError::MalformedOutput));
    }
    assert!(apply_output(&[], 1, built(1, 1)).is_ok());
}

#[test]
fn encoding_is_little_endian_and_length_prefixed() {
    let document = PartiallyCreatedTransaction {
        global: PcztGlobal { value_balance: -2, bsk: vec![0xaa, 0xbb], bvk: vec![] },
        spends: vec![PcztSpend {
            key: Zip32Key { master_fingerprint: vec![0x11], derivation_path: vec![0x8000_0001] },
            alpha: vec![],
            spend_auth_sig: vec![0x22],
        }],
        outputs: vec![],
    };
    let mut expected = vec![];
    expected.extend_from_slice(&[0xfe, 0xff, 0xff, 0xff, 0xff, 0xff, 0xff, 0xff]);
    expected.extend_from_slice(&[2, 0, 0, 0, 0, 0, 0, 0, 0xaa, 0xbb]);
    expected.extend_from_slice(&[0; 8]);
    expected.extend_from_slice(&[1, 0, 0, 0, 0, 0, 0, 0]);
    expected.extend_from_slice(&[1, 0, 0, 0, 0, 0, 0, 0, 0x11]);
    expected.extend_from_slice(&[1, 0, 0, 0, 0, 0, 0, 0, 1, 0, 0, 0x80]);
    expected.extend_from_slice(&[0; 8]);
    expected.extend_from_slice(&[1, 0, 0, 0, 0, 0, 0, 0, 0x22]);
    expected.extend_from_slice(&[0; 8]);
    assert_eq!(document.write_to_bytes(), expected);
    assert_eq!(parse_from_bytes(&expected), Some(document));
}

#[test]
fn document_round_trips_through_its_encoding() {
    let document = sample_document();
    let bytes = document.write_to_bytes();
    let read = parse_from_bytes(&bytes).unwrap();
    assert_eq!(read, document);
    assert_eq!(read.write_to_bytes(), bytes);
}

#[test]
fn only_whole_encodings_are_read() {
    let bytes = sample_document().write_to_bytes();
    for cut in 1..bytes.len() {
        assert!(parse_from_bytes(&bytes[..cut]).is_none(), "prefix of {} bytes", cut);
    }
    let mut longer = bytes.clone();
    longer.push(0);
    assert!(parse_from_bytes(&longer).is_none());
    let mut huge_length = vec![0u8; 40];
    huge_length[0] = 1;
    huge_length[8..16].copy_from_slice(&u64::MAX.to_le_bytes());
    assert!(parse_from_bytes(&huge_length).is_none());
    let mut huge_count = vec![0u8; 40];
    huge_count[0] = 1;
    huge_count[24..32].copy_from_slice(&u64::MAX.to_le_bytes());
    assert!(parse_from_bytes(&huge_count).is_none());
}

#[test]
fn two_outputs_add_up() {
    let empty = PartiallyCreatedTransaction::new().write_to_bytes();
    let one = add(&empty, 10, 5, 50).unwrap();
    let first = parse_from_bytes(&one).unwrap();
    assert_eq!(first.global.value_balance, -10);
    assert_eq!(first.global.bvk, point(5).to_vec());
    assert_eq!(first.global.bsk, scalar(50).to_vec());

    let two = add(&one, 32, 6, 60).unwrap();
    let both = parse_from_bytes(&two).unwrap();
    assert_eq!(both.global.value_balance, -42);
    assert_eq!(both.global.bvk, point_sum(5, 6).to_vec());
    assert_eq!(both.global.bsk, scalar(110).to_vec());
    assert!(both.spends.is_empty());
    assert_eq!(both.outputs.len(), 2);
    assert_eq!(both.outputs[0].value, 10);
    assert_eq!(both.outputs[0].cv, point(5).to_vec());
    assert_eq!(both.outputs[0].rcv, scalar(50).to_vec());
    assert_eq!(both.outputs[1].value, 32);
    assert_eq!(both.outputs[1].cv, point(6).to_vec());
    assert_eq!(both.outputs[1].cmu, vec![3; 32]);
    assert_eq!(both.outputs[1].epk, vec![4; 32]);
    assert_eq!(both.outputs[1].enc_ciphertext, vec![5; 580]);
    assert_eq!(both.outputs[1].out_ciphertext, vec![6; 80]);
    assert_eq!(both.outputs[1].zkproof, vec![7; 192]);
    assert_eq!(both.outputs[1].rcv, scalar(60).to_vec());
}

#[test]
fn amounts_at_the_bounds() {
    let empty = PartiallyCreatedTransaction::new().write_to_bytes();
    assert!(add(&empty, 0, 1, 1).is_ok());
    assert!(add(&empty, MAX_MONEY, 1, 1).is_ok());
    assert_eq!(add(&empty, MAX_MONEY + 1, 1, 1), Err(PcztError::InvalidAmount));
    assert_eq!(add(&empty, -1, 1, 1), Err(PcztError::InvalidAmount));
    assert_eq!(add(&empty, i64::MIN, 1, 1), Err(PcztError::InvalidAmount));
    assert_eq!(MAX_MONEY, 2_100_000_000_000_000);
    let at_most = parse_from_bytes(&add(&empty, MAX_MONEY, 1, 1).unwrap()).unwrap();
    assert_eq!(at_most.global.value_balance, -MAX_MONEY);
}

#[test]
fn invalid_amount_is_reported_before_anything_else() {
    assert_eq!(add(&[1, 2, 3], -1, 1, 1), Err(PcztError::InvalidAmount));
    assert_eq!(add(&[1, 2, 3], 1, 1, 1), Err(PcztError::Undecodable));
    assert_eq!(open_for_output(&[1, 2, 3], 1).unwrap_err(), PcztError::Undecodable);
}

#[test]
fn unreadable_accumulators_make_the_document_corrupt() {
    for (bsk, bvk) in [
        (vec![0xff; 32], point(1).to_vec()),
        (scalar(1).to_vec(), vec![0xff; 32]),
        (vec![], point(1).to_vec()),
        (scalar(1).to_vec(), vec![]),
        (scalar(1)[..31].to_vec(), point(1).to_vec()),
        (scalar(1).to_vec(), [&point(1)[..], &[0u8][..]].concat()),
    ] {
        let mut document = PartiallyCreatedTransaction::new();
        document.global.bsk = bsk;
        document.global.bvk = bvk;
        let bytes = document.write_to_bytes();
        assert_eq!(add(&bytes, 1, 1, 1), Err(PcztError::DocumentCorrupt));
        assert_eq!(apply_output(&bytes, 1, built(1, 1)), Err(PcztError::DocumentCorrupt));
    }
}

#[test]
fn malformed_prover_output_is_refused() {
    let empty = PartiallyCreatedTransaction::new().write_to_bytes();
    let refused = add_sapling_output(
        &empty,
        OutgoingViewingKey([0; 32]),
        recipient(),
        1,
        None,
        &BrokenProver,
    );
    assert_eq!(refused, Err(PcztError::MalformedOutput));
    let mut bad_rcv = built(1, 1);
    bad_rcv.rcv = [0xff; 32];
    assert_eq!(apply_output(&empty, 1, bad_rcv), Err(PcztError::MalformedOutput));
}

#[test]
fn balance_that_leaves_its_range_is_refused() {
    let mut document = PartiallyCreatedTransaction::new();
    document.global.value_balance = i64::MIN + 5;
    assert_eq!(
        append_output(document, 6, built(1, 1)).unwrap_err(),
        PcztError::BalanceOverflow
    );
    let mut document = PartiallyCreatedTransaction::new();
    document.global.value_balance = i64::MIN + 5;
    let next = append_output(document, 5, built(1, 1)).unwrap();
    assert_eq!(next.global.value_balance, i64::MIN);
}

#[test]
fn adding_an_output_leaves_the_input_and_the_spends_alone() {
    let document = sample_document();
    let bytes = document.write_to_bytes();
    let copy = bytes.clone();
    let next = parse_from_bytes(&add(&bytes, 8, 1, 2).unwrap()).unwrap();
    assert_eq!(bytes, copy);
    assert_eq!(next.spends, document.spends);
    assert_eq!(next.outputs[0], document.outputs[0]);
    assert_eq!(next.outputs.len(), 2);
    assert_eq!(next.global.value_balance, -50);
    assert_eq!(next.global.bvk, point_sum(9, 1).to_vec());
    assert_eq!(next.global.bsk, scalar(11).to_vec());
}

#[test]
fn scalars_add_modulo_the_order() {
    let minus_one = (-jubjub::Fr::from(1)).to_bytes();
    let mut document = PartiallyCreatedTransaction::new();
    document.global.bsk = minus_one.to_vec();
    document.global.bvk = point(1).to_vec();
    let next = append_output(document, 1, built(1, 3)).unwrap();
    assert_eq!(next.global.bsk, scalar(2).to_vec());
}
