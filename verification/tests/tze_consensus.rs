use std::convert::TryInto;

use shielded_core::consensus::extensions::transparent::demo::{close, open, Predicate, Witness};
use shielded_core::extensions::transparent::ToPayload;

#[test]
fn demo_predicate_open_round_trip() {
    let data = vec![7; 32];
    let p: Predicate = (open::MODE, &data[..]).try_into().unwrap();
    assert_eq!(p, Predicate::Open(open::Predicate([7; 32])));
    assert_eq!(p.to_payload(), (open::MODE, data));
}

#[test]
fn demo_predicate_close_round_trip() {
    let data = vec![7; 32];
    let p: Predicate = (close::MODE, &data[..]).try_into().unwrap();
    assert_eq!(p, Predicate::Close(close::Predicate([7; 32])));
    assert_eq!(p.to_payload(), (close::MODE, data));
}

#[test]
fn demo_predicate_rejects_invalid_mode_or_length() {
    for mode in 0..3 {
        for len in &[31, 33] {
            let p: Result<Predicate, _> = (mode, &vec![7; *len]).try_into();
            assert!(p.is_err());
        }
    }
}

#[test]
fn demo_witness_open_round_trip() {
    let data = vec![7; 32];
    let w: Witness = (open::MODE, &data[..]).try_into().unwrap();
    assert_eq!(w, Witness::Open(open::Witness([7; 32])));
    assert_eq!(w.to_payload(), (open::MODE, data));
}

#[test]
fn demo_witness_close_round_trip() {
    let data = vec![7; 32];
    let p: Witness = (close::MODE, &data[..]).try_into().unwrap();
    assert_eq!(p, Witness::Close(close::Witness([7; 32])));
    assert_eq!(p.to_payload(), (close::MODE, data));
}

#[test]
fn demo_witness_rejects_invalid_mode_or_length() {
    for mode in 0..3 {
        for len in &[31, 33] {
            let p: Result<Witness, _> = (mode, &vec![7; *len]).try_into();
            assert!(p.is_err());
        }
    }
}
