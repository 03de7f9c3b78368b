use blake2b_simd::Params;
use shielded_core::consensus::extensions::transparent::demo::{self, Context, Program};
use shielded_core::consensus::extensions::transparent::{
    epoch_for_branch, ExtensionId, InvalidExtId, V1_EPOCH_ID,
};
use shielded_core::extensions::transparent::{self as tze, Epoch, Extension};
use shielded_core::transaction::components::{OutPoint, TransactionData, TzeIn, TzeOut};
use std::convert::{TryFrom, TryInto};

/// Dummy context
pub struct Ctx<'a> {
    pub tx: &'a TransactionData,
}

/// Implementation of required operations for the demo extension, as satisfied
/// by the context.
impl<'a> Context for Ctx<'a> {
    fn is_tze_only(&self) -> bool {
        self.tx.vin.is_empty()
            && self.tx.vout.is_empty()
            && self.tx.shielded_spends.is_empty()
            && self.tx.shielded_outputs.is_empty()
            && self.tx.joinsplits.is_empty()
    }

    fn tx_tze_outputs(&self) -> &[TzeOut] {
        &self.tx.tze_outputs
    }
}

fn hash_of(parts: &[&[u8]]) -> [u8; 32] {
    let mut state = Params::new().hash_length(32).to_state();
    for part in parts {
        state.update(part);
    }
    let mut hash = [0; 32];
    hash.copy_from_slice(state.finalize().as_bytes());
    hash
}

struct Chain {
    tx_a: TransactionData,
    tx_b: TransactionData,
    tx_c: TransactionData,
}

fn chain() -> Chain {
    let preimage_1 = [1; 32];
    let preimage_2 = [2; 32];
    let hash_2 = hash_of(&[&preimage_2]);
    let hash_1 = hash_of(&[&preimage_1, &hash_2]);

    let mut tx_a = TransactionData::new();
    tx_a.tze_outputs.push(TzeOut {
        value: 1,
        precondition: tze::Precondition::from(0, &demo::Predicate::open(hash_1)),
    });

    let mut tx_b = TransactionData::new();
    tx_b.tze_inputs.push(TzeIn {
        prevout: OutPoint::new([0xa; 32], 0),
        witness: tze::Witness::from(0, &demo::Witness::open(preimage_1)),
    });
    tx_b.tze_outputs.push(TzeOut {
        value: 1,
        precondition: tze::Precondition::from(0, &demo::Predicate::close(hash_2)),
    });

    let mut tx_c = TransactionData::new();
    tx_c.tze_inputs.push(TzeIn {
        prevout: OutPoint::new([0xb; 32], 0),
        witness: tze::Witness::from(0, &demo::Witness::close(preimage_2)),
    });
    Chain { tx_a, tx_b, tx_c }
}

#[test]
fn demo_program() {
    let Chain { tx_a, tx_b, tx_c } = chain();

    // Verify tx_b
    {
        let ctx = Ctx { tx: &tx_b };
        assert_eq!(
            Program.verify(&tx_a.tze_outputs[0].precondition, &tx_b.tze_inputs[0].witness, &ctx),
            Ok(())
        );
    }

    // Verify tx_c
    {
        let ctx = Ctx { tx: &tx_b };
        assert_eq!(
            Program.verify(&tx_b.tze_outputs[0].precondition, &tx_c.tze_inputs[0].witness, &ctx),
            Ok(())
        );
    }
}

#[test]
fn demo_program_refusals() {
    let Chain { tx_a, tx_b, tx_c } = chain();
    let lock_1 = &tx_a.tze_outputs[0].precondition;
    let lock_2 = &tx_b.tze_outputs[0].precondition;
    let key_1 = &tx_b.tze_inputs[0].witness;
    let key_2 = &tx_c.tze_inputs[0].witness;

    // Evidence of the other mode.
    assert_eq!(Program.verify(lock_1, key_2, &Ctx { tx: &tx_b }), Err(demo::Error::ModeMismatch));
    assert_eq!(Program.verify(lock_2, key_1, &Ctx { tx: &tx_b }), Err(demo::Error::ModeMismatch));

    // The wrong preimage.
    let wrong = tze::Witness::from(0, &demo::Witness::close([3; 32]));
    assert_eq!(Program.verify(lock_2, &wrong, &Ctx { tx: &tx_c }), Err(demo::Error::HashMismatch));
    let wrong = tze::Witness::from(0, &demo::Witness::open([3; 32]));
    assert_eq!(Program.verify(lock_1, &wrong, &Ctx { tx: &tx_b }), Err(demo::Error::HashMismatch));

    // No output, and two outputs.
    assert_eq!(
        Program.verify(lock_1, key_1, &Ctx { tx: &tx_c }),
        Err(demo::Error::InvalidOutputQty(0))
    );
    let mut two = chain().tx_b;
    two.tze_outputs.push(TzeOut {
        value: 1,
        precondition: tze::Precondition::from(0, &demo::Predicate::close([0; 32])),
    });
    assert_eq!(
        Program.verify(lock_1, key_1, &Ctx { tx: &two }),
        Err(demo::Error::InvalidOutputQty(2))
    );

    // The next lock must be of the second mode.
    assert_eq!(
        Program.verify(lock_1, key_1, &Ctx { tx: &tx_a }),
        Err(demo::Error::ExpectedClose)
    );

    // Other inputs or outputs beside those of the extension.
    let mut mixed = chain().tx_b;
    mixed.vout.push(vec![1]);
    assert_eq!(Program.verify(lock_1, key_1, &Ctx { tx: &mixed }), Err(demo::Error::NonTzeTxn));
    // The second mode does not look at the transaction.
    assert_eq!(Program.verify(lock_2, key_2, &Ctx { tx: &mixed }), Ok(()));

    // What cannot be read.
    let mut unreadable = chain().tx_b;
    unreadable.tze_outputs[0].precondition.payload.pop();
    assert_eq!(
        Program.verify(lock_1, key_1, &Ctx { tx: &unreadable }),
        Err(demo::Error::IllegalPayloadLength(31))
    );
    let mut bad_mode = chain().tx_a;
    bad_mode.tze_outputs[0].precondition.mode = 2;
    assert_eq!(
        Program.verify(&bad_mode.tze_outputs[0].precondition, key_1, &Ctx { tx: &tx_b }),
        Err(demo::Error::ModeInvalid(2))
    );
    let mut short = chain().tx_b;
    short.tze_inputs[0].witness.payload.push(0);
    assert_eq!(
        Program.verify(lock_1, &short.tze_inputs[0].witness, &Ctx { tx: &tx_b }),
        Err(demo::Error::IllegalPayloadLength(33))
    );
}

#[test]
fn epoch_runs_the_demo() {
    let Chain { tx_a, tx_b, tx_c } = chain();
    let epoch = epoch_for_branch(V1_EPOCH_ID).unwrap();
    assert!(epoch_for_branch(0).is_none());
    assert!(epoch_for_branch(V1_EPOCH_ID + 1).is_none());
    assert_eq!(V1_EPOCH_ID, 0x7473_6554);

    let context = tze::Context { tx: &tx_b };
    assert_eq!(
        epoch.verify(&tx_a.tze_outputs[0].precondition, &tx_b.tze_inputs[0].witness, &context),
        Ok(())
    );
    assert_eq!(
        epoch.verify(&tx_a.tze_outputs[0].precondition, &tx_c.tze_inputs[0].witness, &context),
        Err(tze::Error::ProgramError(demo::Error::ModeMismatch))
    );
    let mut unknown = chain().tx_a;
    unknown.tze_outputs[0].precondition.extension_id = 7;
    assert_eq!(
        epoch.verify(&unknown.tze_outputs[0].precondition, &tx_b.tze_inputs[0].witness, &context),
        Err(tze::Error::InvalidExtensionId(7))
    );
}

#[test]
fn extension_identifiers() {
    assert!(matches!(ExtensionId::try_from(0), Ok(ExtensionId::Demo)));
    assert!(matches!(ExtensionId::try_from(1), Err(InvalidExtId(1))));
    assert_eq!(usize::from(ExtensionId::Demo), 0);
}

#[test]
fn payload_with_the_wrong_mode_for_its_value() {
    let open = demo::Predicate::open([1; 32]);
    let kept: Result<demo::Predicate, _> = (0usize, open).try_into();
    assert_eq!(kept, Ok(demo::Predicate::open([1; 32])));
    let refused: Result<demo::Predicate, _> = (1usize, demo::Predicate::open([1; 32])).try_into();
    assert_eq!(refused, Err(demo::Error::ModeInvalid(1)));
    let refused: Result<demo::Witness, _> = (0usize, demo::Witness::close([1; 32])).try_into();
    assert_eq!(refused, Err(demo::Error::ModeInvalid(0)));
    let kept: Result<demo::Witness, _> = (1usize, demo::Witness::close([1; 32])).try_into();
    assert_eq!(kept, Ok(demo::Witness::close([1; 32])));
    let length: Result<demo::Witness, _> = (0usize, &[1u8; 4][..]).try_into();
    assert_eq!(length, Err(demo::Error::IllegalPayloadLength(4)));
    let mode: Result<demo::Predicate, _> = (9usize, &[1u8; 32][..]).try_into();
    assert_eq!(mode, Err(demo::Error::ModeInvalid(9)));
}
