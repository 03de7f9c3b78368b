//! How the conditions and the evidence of the demo extension are written
//! down: in both of its modes each is an array of 32 bytes.

use vstd::prelude::*;
use crate::encoding::{copy_bytes, leading_bytes};
use vstd::std_specs::convert::TryFromSpecImpl;
use crate::extensions::transparent::{FromPayload, ToPayload};

pub mod close;
pub mod open;

verus! {

/// A condition of the demo extension.
#[derive(Debug, PartialEq)]
pub enum Predicate {
    Open(open::Predicate),
    Close(close::Predicate),
}

/// Evidence for the demo extension.
#[derive(Debug, PartialEq)]
pub enum Witness {
    Open(open::Witness),
    Close(close::Witness),
}

/// Why the demo extension refuses a condition or a piece of evidence.
#[derive(Clone, Copy, Debug, PartialEq)]
pub enum Error {
    IllegalPayloadLength(usize),
    ModeInvalid(usize),
    NonTzeTxn,
    HashMismatch,
    ModeMismatch,
    ExpectedClose,
    InvalidOutputQty(usize),
}

/// The array that holds the first 32 bytes of a sequence.
pub open spec fn array_of(bytes: Seq<u8>) -> [u8; 32] {
    [
        bytes[0], bytes[1], bytes[2], bytes[3], bytes[4], bytes[5], bytes[6], bytes[7], bytes[8],
        bytes[9], bytes[10], bytes[11], bytes[12], bytes[13], bytes[14], bytes[15], bytes[16],
        bytes[17], bytes[18], bytes[19], bytes[20], bytes[21], bytes[22], bytes[23], bytes[24],
        bytes[25], bytes[26], bytes[27], bytes[28], bytes[29], bytes[30], bytes[31],
    ]
}

/// An array is the array that holds its bytes.
pub proof fn lemma_array_of(array: [u8; 32])
    ensures
        array_of(array@) == array,
{
    assert(array_of(array@) =~= array);
}

/// The array that holds 32 bytes holds those bytes.
pub proof fn lemma_array_of_view(bytes: Seq<u8>)
    requires
        bytes.len() == 32,
    ensures
        array_of(bytes)@ == bytes,
{
    assert(array_of(bytes)@ =~= bytes);
}

/// The array of bytes that a payload of 32 bytes holds.
fn payload_array(payload: &[u8]) -> (array: [u8; 32])
    requires
        payload@.len() == 32,
    ensures
        array == array_of(payload@),
        array@ == payload@,
{
    let array: [u8; 32] = leading_bytes(payload);
    assert(array@ =~= payload@);
    proof {
        lemma_array_of(array);
    }
    array
}

impl Predicate {
    /// The condition of the first mode with the given hash.
    pub fn open(hash: [u8; 32]) -> (predicate: Predicate)
        ensures
            predicate == Predicate::Open(open::Predicate(hash)),
    {
        Predicate::Open(open::Predicate(hash))
    }

    /// The condition of the second mode with the given hash.
    pub fn close(hash: [u8; 32]) -> (predicate: Predicate)
        ensures
            predicate == Predicate::Close(close::Predicate(hash)),
    {
        Predicate::Close(close::Predicate(hash))
    }

    /// The mode and the payload of the condition.
    pub open spec fn spec_payload(&self) -> (usize, Seq<u8>) {
        match self {
            Predicate::Open(p) => (open::MODE, p.0@),
            Predicate::Close(p) => (close::MODE, p.0@),
        }
    }

    /// The condition that a mode and a payload are read as: the mode must be
    /// one of the two and the payload must have 32 bytes.
    pub open spec fn spec_parse(mode: usize, payload: Seq<u8>) -> Result<Predicate, Error> {
        if mode == open::MODE {
            if payload.len() == 32 {
                Ok(Predicate::Open(open::Predicate(array_of(payload))))
            } else {
                Err(Error::IllegalPayloadLength(payload.len() as usize))
            }
        } else if mode == close::MODE {
            if payload.len() == 32 {
                Ok(Predicate::Close(close::Predicate(array_of(payload))))
            } else {
                Err(Error::IllegalPayloadLength(payload.len() as usize))
            }
        } else {
            Err(Error::ModeInvalid(mode))
        }
    }

    /// A condition that is written and read again is the same condition.
    pub proof fn lemma_round_trip(self)
        ensures
            Predicate::spec_parse(self.spec_payload().0, self.spec_payload().1) == Ok::<
                Predicate,
                Error,
            >(self),
    {
        match self {
            Predicate::Open(p) => {
                lemma_array_of(p.0);
            },
            Predicate::Close(p) => {
                lemma_array_of(p.0);
            },
        }
    }

    /// What is read as a condition is what the condition is written as.
    pub proof fn lemma_read_is_written(mode: usize, payload: Seq<u8>)
        requires
            Predicate::spec_parse(mode, payload) is Ok,
        ensures
            Predicate::spec_parse(mode, payload)->Ok_0.spec_payload() == (mode, payload),
    {
        lemma_array_of_view(payload);
    }
}

impl Witness {
    /// The evidence of the first mode with the given preimage.
    pub fn open(preimage: [u8; 32]) -> (witness: Witness)
        ensures
            witness == Witness::Open(open::Witness(preimage)),
    {
        Witness::Open(open::Witness(preimage))
    }

    /// The evidence of the second mode with the given preimage.
    pub fn close(preimage: [u8; 32]) -> (witness: Witness)
        ensures
            witness == Witness::Close(close::Witness(preimage)),
    {
        Witness::Close(close::Witness(preimage))
    }

    /// The mode and the payload of the evidence.
    pub open spec fn spec_payload(&self) -> (usize, Seq<u8>) {
        match self {
            Witness::Open(w) => (open::MODE, w.0@),
            Witness::Close(w) => (close::MODE, w.0@),
        }
    }

    /// The evidence that a mode and a payload are read as: the mode must be
    /// one of the two and the payload must have 32 bytes.
    pub open spec fn spec_parse(mode: usize, payload: Seq<u8>) -> Result<Witness, Error> {
        if mode == open::MODE {
            if payload.len() == 32 {
                Ok(Witness::Open(open::Witness(array_of(payload))))
            } else {
                Err(Error::IllegalPayloadLength(payload.len() as usize))
            }
        } else if mode == close::MODE {
            if payload.len() == 32 {
                Ok(Witness::Close(close::Witness(array_of(payload))))
            } else {
                Err(Error::IllegalPayloadLength(payload.len() as usize))
            }
        } else {
            Err(Error::ModeInvalid(mode))
        }
    }

    /// Evidence that is written and read again is the same evidence.
    pub proof fn lemma_round_trip(self)
        ensures
            Witness::spec_parse(self.spec_payload().0, self.spec_payload().1) == Ok::<
                Witness,
                Error,
            >(self),
    {
        match self {
            Witness::Open(w) => {
                lemma_array_of(w.0);
            },
            Witness::Close(w) => {
                lemma_array_of(w.0);
            },
        }
    }

    /// What is read as evidence is what the evidence is written as.
    pub proof fn lemma_read_is_written(mode: usize, payload: Seq<u8>)
        requires
            Witness::spec_parse(mode, payload) is Ok,
        ensures
            Witness::spec_parse(mode, payload)->Ok_0.spec_payload() == (mode, payload),
    {
        lemma_array_of_view(payload);
    }
}

impl Predicate {
    /// Reads a mode and a payload.
    pub fn parse(mode: usize, payload: &[u8]) -> (read: Result<Predicate, Error>)
        ensures
            read == Predicate::spec_parse(mode, payload@),
    {
        if mode == open::MODE {
            if payload.len() == 32 {
                Ok(Predicate::Open(open::Predicate(payload_array(payload))))
            } else {
                Err(Error::IllegalPayloadLength(payload.len()))
            }
        } else if mode == close::MODE {
            if payload.len() == 32 {
                Ok(Predicate::Close(close::Predicate(payload_array(payload))))
            } else {
                Err(Error::IllegalPayloadLength(payload.len()))
            }
        } else {
            Err(Error::ModeInvalid(mode))
        }
    }
}

impl TryFrom<(usize, &[u8])> for Predicate {
    type Error = Error;

    fn try_from(from: (usize, &[u8])) -> (read: Result<Self, Error>) {
        Predicate::parse(from.0, from.1)
    }
}

impl TryFromSpecImpl<(usize, &[u8])> for Predicate {
    open spec fn obeys_try_from_spec() -> bool {
        true
    }

    open spec fn try_from_spec(from: (usize, &[u8])) -> Result<Self, Error> {
        Predicate::spec_parse(from.0, from.1@)
    }
}

impl TryFrom<(usize, &Vec<u8>)> for Predicate {
    type Error = Error;

    fn try_from(from: (usize, &Vec<u8>)) -> (read: Result<Self, Error>) {
        Predicate::parse(from.0, from.1.as_slice())
    }
}

impl TryFromSpecImpl<(usize, &Vec<u8>)> for Predicate {
    open spec fn obeys_try_from_spec() -> bool {
        true
    }

    open spec fn try_from_spec(from: (usize, &Vec<u8>)) -> Result<Self, Error> {
        Predicate::spec_parse(from.0, from.1@)
    }
}

impl TryFrom<(usize, Predicate)> for Predicate {
    type Error = Error;

    fn try_from(from: (usize, Predicate)) -> (read: Result<Self, Error>) {
        let (mode, predicate) = from;
        match predicate {
            Predicate::Open(p) => if mode == open::MODE {
                Ok(Predicate::Open(p))
            } else {
                Err(Error::ModeInvalid(mode))
            },
            Predicate::Close(p) => if mode == close::MODE {
                Ok(Predicate::Close(p))
            } else {
                Err(Error::ModeInvalid(mode))
            },
        }
    }
}

impl TryFromSpecImpl<(usize, Predicate)> for Predicate {
    open spec fn obeys_try_from_spec() -> bool {
        true
    }

    open spec fn try_from_spec(from: (usize, Predicate)) -> Result<Self, Error> {
        if from.0 == from.1.spec_payload().0 {
            Ok(from.1)
        } else {
            Err(Error::ModeInvalid(from.0))
        }
    }
}

impl FromPayload<Error> for Predicate {
    fn from_payload(mode: usize, payload: &[u8]) -> (read: Result<Self, Error>)
        ensures
            read == Predicate::spec_parse(mode, payload@),
    {
        Predicate::parse(mode, payload)
    }
}

impl ToPayload for Predicate {
    fn to_payload(&self) -> (written: (usize, Vec<u8>))
        ensures
            written.0 == self.spec_payload().0,
            written.1@ == self.spec_payload().1,
    {
        match self {
            Predicate::Open(p) => (open::MODE, copy_bytes(p.0.as_slice())),
            Predicate::Close(p) => (close::MODE, copy_bytes(p.0.as_slice())),
        }
    }
}

impl Witness {
    /// Reads a mode and a payload.
    pub fn parse(mode: usize, payload: &[u8]) -> (read: Result<Witness, Error>)
        ensures
            read == Witness::spec_parse(mode, payload@),
    {
        if mode == open::MODE {
            if payload.len() == 32 {
                Ok(Witness::Open(open::Witness(payload_array(payload))))
            } else {
                Err(Error::IllegalPayloadLength(payload.len()))
            }
        } else if mode == close::MODE {
            if payload.len() == 32 {
                Ok(Witness::Close(close::Witness(payload_array(payload))))
            } else {
                Err(Error::IllegalPayloadLength(payload.len()))
            }
        } else {
            Err(Error::ModeInvalid(mode))
        }
    }
}

impl TryFrom<(usize, &[u8])> for Witness {
    type Error = Error;

    fn try_from(from: (usize, &[u8])) -> (read: Result<Self, Error>) {
        Witness::parse(from.0, from.1)
    }
}

impl TryFromSpecImpl<(usize, &[u8])> for Witness {
    open spec fn obeys_try_from_spec() -> bool {
        true
    }

    open spec fn try_from_spec(from: (usize, &[u8])) -> Result<Self, Error> {
        Witness::spec_parse(from.0, from.1@)
    }
}

impl TryFrom<(usize, &Vec<u8>)> for Witness {
    type Error = Error;

    fn try_from(from: (usize, &Vec<u8>)) -> (read: Result<Self, Error>) {
        Witness::parse(from.0, from.1.as_slice())
    }
}

impl TryFromSpecImpl<(usize, &Vec<u8>)> for Witness {
    open spec fn obeys_try_from_spec() -> bool {
        true
    }

    open spec fn try_from_spec(from: (usize, &Vec<u8>)) -> Result<Self, Error> {
        Witness::spec_parse(from.0, from.1@)
    }
}

impl TryFrom<(usize, Witness)> for Witness {
    type Error = Error;

    fn try_from(from: (usize, Witness)) -> (read: Result<Self, Error>) {
        let (mode, witness) = from;
        match witness {
            Witness::Open(w) => if mode == open::MODE {
                Ok(Witness::Open(w))
            } else {
                Err(Error::ModeInvalid(mode))
            },
            Witness::Close(w) => if mode == close::MODE {
                Ok(Witness::Close(w))
            } else {
                Err(Error::ModeInvalid(mode))
            },
        }
    }
}

impl TryFromSpecImpl<(usize, Witness)> for Witness {
    open spec fn obeys_try_from_spec() -> bool {
        true
    }

    open spec fn try_from_spec(from: (usize, Witness)) -> Result<Self, Error> {
        if from.0 == from.1.spec_payload().0 {
            Ok(from.1)
        } else {
            Err(Error::ModeInvalid(from.0))
        }
    }
}

impl FromPayload<Error> for Witness {
    fn from_payload(mode: usize, payload: &[u8]) -> (read: Result<Self, Error>)
        ensures
            read == Witness::spec_parse(mode, payload@),
    {
        Witness::parse(mode, payload)
    }
}

impl ToPayload for Witness {
    fn to_payload(&self) -> (written: (usize, Vec<u8>))
        ensures
            written.0 == self.spec_payload().0,
            written.1@ == self.spec_payload().1,
    {
        match self {
            Witness::Open(w) => (open::MODE, copy_bytes(w.0.as_slice())),
            Witness::Close(w) => (close::MODE, copy_bytes(w.0.as_slice())),
        }
    }
}

} // verus!
