//! Sapling viewing keys, by their encodings.

use vstd::prelude::*;
use crate::encoding::{decodes_to_point, point_decodes};

verus! {

/// The incoming viewing key that `sapling_crypto` derives from the 96-byte
/// encoding of a full viewing key (`ak`, `nk` and `ovk`, 32 bytes each):
/// `None` where `FullViewingKey::read` rejects the encoding.
pub uninterp spec fn full_viewing_key_ivk(encoding: Seq<u8>) -> Option<Seq<u8>>;

/// Reads a full viewing key with `sapling_crypto::keys::FullViewingKey::read`
/// and derives its incoming viewing key with `ViewingKey::ivk`. The first 32
/// bytes must encode a point of the curve: on others the reader panics.
#[verifier::external_body]
pub(crate) fn derive_ivk(encoding: &[u8; 96]) -> (ivk: Option<[u8; 32]>)
    requires
        point_decodes(encoding@.subrange(0, 32)),
    ensures
        match ivk {
            Some(key) => full_viewing_key_ivk(encoding@) == Some(key@),
            None => full_viewing_key_ivk(encoding@) is None,
        },
{
    let fvk = sapling_crypto::keys::FullViewingKey::read(&encoding[..]).ok()?;
    Some(fvk.vk.ivk().to_repr())
}

/// A key that lets a sender decrypt what it has sent.
#[derive(Clone, Copy, Debug, PartialEq, Eq)]
pub struct OutgoingViewingKey(pub [u8; 32]);

/// A spending key, expanded into the key that authorizes spends, the key
/// that nullifiers are derived with, and the outgoing viewing key.
#[derive(Clone, Copy, Debug, PartialEq, Eq)]
pub struct ExpandedSpendingKey {
    pub ask: [u8; 32],
    pub nsk: [u8; 32],
    pub ovk: OutgoingViewingKey,
}

impl ExpandedSpendingKey {
    /// The encoding of the key: `ask`, `nsk` and `ovk` in this order.
    pub open spec fn encoding(&self) -> Seq<u8> {
        self.ask@ + self.nsk@ + self.ovk.0@
    }

    /// The encoding of the key.
    pub fn to_bytes(&self) -> (bytes: [u8; 96])
        ensures
            bytes@ == self.encoding(),
    {
        let mut bytes = [0u8; 96];
        let mut i: usize = 0;
        while i < 32
            invariant
                i <= 32,
                forall|j: int| 0 <= j < i ==> bytes@[j] == self.ask@[j],
                forall|j: int| 0 <= j < i ==> bytes@[32 + j] == self.nsk@[j],
                forall|j: int| 0 <= j < i ==> bytes@[64 + j] == self.ovk.0@[j],
            decreases 32 - i,
        {
            bytes[i] = self.ask[i];
            bytes[32 + i] = self.nsk[i];
            bytes[64 + i] = self.ovk.0[i];
            i += 1;
        }
        assert(bytes@ =~= self.encoding());
        bytes
    }
}

/// The spend validating key `ak` and the nullifier deriving key `nk`.
#[derive(Clone, Copy, Debug, PartialEq, Eq)]
pub struct ViewingKey {
    pub ak: [u8; 32],
    pub nk: [u8; 32],
}

/// A key that gives sight of incoming and outgoing transactions.
#[derive(Clone, Copy, Debug, PartialEq, Eq)]
pub struct FullViewingKey {
    pub vk: ViewingKey,
    pub ovk: OutgoingViewingKey,
}

impl FullViewingKey {
    /// The encoding of the key: `ak`, `nk` and `ovk` in this order.
    pub open spec fn encoding(&self) -> Seq<u8> {
        self.vk.ak@ + self.vk.nk@ + self.ovk.0@
    }

    /// The encoding of the key.
    pub fn to_bytes(&self) -> (bytes: [u8; 96])
        ensures
            bytes@ == self.encoding(),
    {
        let mut bytes = [0u8; 96];
        let mut i: usize = 0;
        while i < 32
            invariant
                i <= 32,
                forall|j: int| 0 <= j < i ==> bytes@[j] == self.vk.ak@[j],
                forall|j: int| 0 <= j < i ==> bytes@[32 + j] == self.vk.nk@[j],
                forall|j: int| 0 <= j < i ==> bytes@[64 + j] == self.ovk.0@[j],
            decreases 32 - i,
        {
            bytes[i] = self.vk.ak[i];
            bytes[32 + i] = self.vk.nk[i];
            bytes[64 + i] = self.ovk.0[i];
            i += 1;
        }
        assert(bytes@ =~= self.encoding());
        bytes
    }

    /// The incoming viewing key of this key, in contracts: there is none
    /// where `ak` encodes no point of the curve.
    pub open spec fn spec_ivk(&self) -> Option<Seq<u8>> {
        if point_decodes(self.vk.ak@) {
            full_viewing_key_ivk(self.encoding())
        } else {
            None
        }
    }

    /// The incoming viewing key, which decrypts what is sent to the addresses
    /// of this key; `None` where the key's parts are no valid encodings.
    pub fn ivk(&self) -> (ivk: Option<[u8; 32]>)
        ensures
            match ivk {
                Some(key) => self.spec_ivk() == Some(key@),
                None => self.spec_ivk() is None,
            },
    {
        if !decodes_to_point(&self.vk.ak) {
            return None;
        }
        let encoding = self.to_bytes();
        assert(encoding@.subrange(0, 32) =~= self.vk.ak@);
        derive_ivk(&encoding)
    }
}

} // verus!
