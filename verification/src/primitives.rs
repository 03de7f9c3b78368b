//! Notes and the addresses that receive them, by their encodings.

use vstd::prelude::*;

verus! {

/// A shielded payment address: a diversifier and the diversified
/// transmission key that belongs to it.
#[derive(Clone, Copy, Debug, PartialEq, Eq)]
pub struct PaymentAddress {
    pub diversifier: [u8; 11],
    pub pk_d: [u8; 32],
}

impl PaymentAddress {
    /// The encoding of the address: the diversifier, then the key.
    pub open spec fn encoding(&self) -> Seq<u8> {
        self.diversifier@ + self.pk_d@
    }

    /// The encoding of the address.
    pub fn to_bytes(&self) -> (bytes: [u8; 43])
        ensures
            bytes@ == self.encoding(),
    {
        let mut bytes = [0u8; 43];
        let mut i: usize = 0;
        while i < 11
            invariant
                i <= 11,
                forall|j: int| 0 <= j < i ==> bytes@[j] == self.diversifier@[j],
            decreases 11 - i,
        {
            bytes[i] = self.diversifier[i];
            i += 1;
        }
        let mut k: usize = 0;
        while k < 32
            invariant
                k <= 32,
                forall|j: int| 0 <= j < 11 ==> bytes@[j] == self.diversifier@[j],
                forall|j: int| 0 <= j < k ==> bytes@[11 + j] == self.pk_d@[j],
            decreases 32 - k,
        {
            bytes[11 + k] = self.pk_d[k];
            k += 1;
        }
        assert(bytes@ =~= self.encoding());
        bytes
    }
}

/// What a payment address is in contracts.
pub struct PaymentAddressView {
    pub diversifier: Seq<u8>,
    pub pk_d: Seq<u8>,
}

impl View for PaymentAddress {
    type V = PaymentAddressView;

    open spec fn view(&self) -> PaymentAddressView {
        PaymentAddressView { diversifier: self.diversifier@, pk_d: self.pk_d@ }
    }
}

/// The randomness of a note's commitment: the commitment trapdoor itself, or
/// the seed that it is derived from.
#[derive(Clone, Copy, Debug, PartialEq, Eq)]
pub enum Rseed {
    BeforeZip212([u8; 32]),
    AfterZip212([u8; 32]),
}

/// What the randomness of a note is in contracts: whether it is a seed, and
/// its bytes.
pub struct RseedView {
    pub is_seed: bool,
    pub bytes: Seq<u8>,
}

impl View for Rseed {
    type V = RseedView;

    open spec fn view(&self) -> RseedView {
        match self {
            Rseed::BeforeZip212(rcm) => RseedView { is_seed: false, bytes: rcm@ },
            Rseed::AfterZip212(seed) => RseedView { is_seed: true, bytes: seed@ },
        }
    }
}

/// A shielded note.
#[derive(Clone, Copy, Debug, PartialEq, Eq)]
pub struct Note {
    /// The value of the note, in zatoshis.
    pub value: u64,
    /// The diversifier of the address that the note was sent to.
    pub diversifier: [u8; 11],
    /// The diversified transmission key of that address.
    pub pk_d: [u8; 32],
    /// The randomness of the note's commitment.
    pub rseed: Rseed,
}

/// What a note is in contracts.
pub struct NoteView {
    pub value: u64,
    pub diversifier: Seq<u8>,
    pub pk_d: Seq<u8>,
    pub rseed: RseedView,
}

impl View for Note {
    type V = NoteView;

    open spec fn view(&self) -> NoteView {
        NoteView {
            value: self.value,
            diversifier: self.diversifier@,
            pk_d: self.pk_d@,
            rseed: self.rseed@,
        }
    }
}

} // verus!
