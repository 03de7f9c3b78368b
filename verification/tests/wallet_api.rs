use group::Group;
use shielded_core::api::{
    sum_values, AndroidWalletBackend, BackendError, ClientCallbacks, NoteRef, PersistenceBackend,
    WalletBackend,
};
use shielded_core::primitives::{Note, Rseed};
use shielded_core::zip304::Signature;
use shielded_core::{amount_in_range, MAX_MONEY};

fn note(value: u64) -> Note {
    Note { value, diversifier: [0; 11], pk_d: [0; 32], rseed: Rseed::BeforeZip212([0; 32]) }
}

struct Memory {
    values: Vec<u64>,
}

impl PersistenceBackend for Memory {
    fn get_address(&self, account: u32) -> Result<String, BackendError> {
        if account == 0 {
            Ok(String::from("zs1example"))
        } else {
            Err(BackendError)
        }
    }

    fn get_note(&self, place: NoteRef) -> Result<Note, BackendError> {
        self.values.get(place.n).map(|value| note(*value)).ok_or(BackendError)
    }

    fn get_unspent_notes(&self) -> Result<Vec<NoteRef>, BackendError> {
        Ok((0..self.values.len()).map(|n| NoteRef { txid: [0; 32], n }).collect())
    }

    fn lock_notes(&mut self, _notes: &[NoteRef]) -> Result<(), BackendError> {
        Ok(())
    }
}

/// A store that lists a place at which it holds no note.
struct Gaps;

impl PersistenceBackend for Gaps {
    fn get_address(&self, _account: u32) -> Result<String, BackendError> {
        Err(BackendError)
    }

    fn get_note(&self, place: NoteRef) -> Result<Note, BackendError> {
        if place.n == 1 {
            Err(BackendError)
        } else {
            Ok(note(10))
        }
    }

    fn get_unspent_notes(&self) -> Result<Vec<NoteRef>, BackendError> {
        Ok((0..3).map(|n| NoteRef { txid: [0; 32], n }).collect())
    }

    fn lock_notes(&mut self, _notes: &[NoteRef]) -> Result<(), BackendError> {
        Ok(())
    }
}

/// A store that cannot list its notes.
struct Closed;

impl PersistenceBackend for Closed {
    fn get_address(&self, _account: u32) -> Result<String, BackendError> {
        Err(BackendError)
    }

    fn get_note(&self, _place: NoteRef) -> Result<Note, BackendError> {
        Ok(note(10))
    }

    fn get_unspent_notes(&self) -> Result<Vec<NoteRef>, BackendError> {
        Err(BackendError)
    }

    fn lock_notes(&mut self, _notes: &[NoteRef]) -> Result<(), BackendError> {
        Ok(())
    }
}

struct Silent;

impl ClientCallbacks for Silent {}

#[test]
fn balance_is_the_sum_of_unspent_notes() {
    let wallet = WalletBackend::init(Box::new(Memory { values: vec![5, 7, 30] }), Box::new(Silent));
    assert_eq!(wallet.get_balance(), Ok(42));
    assert_eq!(wallet.get_address(0), Ok(String::from("zs1example")));
    assert_eq!(wallet.get_address(1), Err(BackendError));
    assert_eq!(wallet.get_unspent_notes().unwrap().len(), 3);
    let empty = WalletBackend::init(Box::new(Memory { values: vec![] }), Box::new(Silent));
    assert_eq!(empty.get_balance(), Ok(0));
}

#[test]
fn notes_are_read_in_the_order_of_their_places() {
    let wallet = WalletBackend::init(Box::new(Memory { values: vec![5, 7, 30] }), Box::new(Silent));
    let notes = wallet.get_unspent_notes().unwrap();
    assert_eq!(notes, vec![note(5), note(7), note(30)]);
}

#[test]
fn error_of_the_store_ends_the_reading() {
    let gaps = WalletBackend::init(Box::new(Gaps), Box::new(Silent));
    assert_eq!(gaps.get_unspent_notes(), Err(BackendError));
    assert_eq!(gaps.get_balance(), Err(BackendError));
    assert_eq!(gaps.get_address(0), Err(BackendError));
    let closed = WalletBackend::init(Box::new(Closed), Box::new(Silent));
    assert_eq!(closed.get_unspent_notes(), Err(BackendError));
    assert_eq!(closed.get_balance(), Err(BackendError));
}

#[test]
fn wallet_holds_its_store_as_a_trait_object_too() {
    let store: Box<dyn PersistenceBackend> = Box::new(Memory { values: vec![1, 2] });
    let client: Box<dyn ClientCallbacks> = Box::new(Silent);
    let wallet: WalletBackend = WalletBackend::init(store, client);
    assert_eq!(wallet.get_balance(), Ok(3));
    assert_eq!(wallet.get_address(0), Ok(String::from("zs1example")));
    let android = AndroidWalletBackend(wallet);
    assert_eq!(android.0.get_balance(), Ok(3));
}

#[test]
fn sum_of_values_stays_within_the_largest_amount() {
    let most = MAX_MONEY as u64;
    assert_eq!(sum_values(&vec![]), Some(0));
    assert_eq!(sum_values(&vec![note(1), note(2)]), Some(3));
    assert_eq!(sum_values(&vec![note(most)]), Some(most));
    assert_eq!(sum_values(&vec![note(most), note(0)]), Some(most));
    assert_eq!(sum_values(&vec![note(most), note(1)]), None);
    assert_eq!(sum_values(&vec![note(most + 1)]), None);
    assert_eq!(sum_values(&vec![note(u64::MAX), note(u64::MAX)]), None);
    let beyond = WalletBackend::init(Box::new(Memory { values: vec![most, 1] }), Box::new(Silent));
    assert_eq!(beyond.get_balance(), Err(BackendError));
}

#[test]
fn amounts_in_range() {
    assert!(amount_in_range(0));
    assert!(amount_in_range(MAX_MONEY));
    assert!(!amount_in_range(MAX_MONEY + 1));
    assert!(!amount_in_range(-1));
}

fn encoded_point(n: u64) -> [u8; 32] {
    let p = jubjub::SubgroupPoint::generator() * jubjub::Fr::from(n);
    jubjub::AffinePoint::from(jubjub::ExtendedPoint::from(p)).to_bytes()
}

#[test]
fn message_signature_round_trips() {
    let mut bytes = [0u8; 320];
    for (i, byte) in bytes.iter_mut().enumerate() {
        *byte = i as u8;
    }
    bytes[32..64].copy_from_slice(&encoded_point(5));
    let signature = Signature::from_bytes(&bytes).unwrap();
    assert_eq!(signature.to_bytes(), bytes);
}

#[test]
fn message_signature_needs_a_key_of_large_order() {
    let mut bytes = [7u8; 320];
    // No point of the curve.
    bytes[32..64].copy_from_slice(&[0xff; 32]);
    assert!(Signature::from_bytes(&bytes).is_none());
    // The identity, which is of small order.
    let mut identity = [0u8; 32];
    identity[0] = 1;
    bytes[32..64].copy_from_slice(&identity);
    assert!(Signature::from_bytes(&bytes).is_none());
    // A point of order two.
    let order_two = jubjub::AffinePoint::from_raw_unchecked(
        bls12_381::Scalar::zero(),
        -bls12_381::Scalar::one(),
    )
    .to_bytes();
    bytes[32..64].copy_from_slice(&order_two);
    assert!(Signature::from_bytes(&bytes).is_none());
    bytes[32..64].copy_from_slice(&encoded_point(1));
    assert!(Signature::from_bytes(&bytes).is_some());
}
