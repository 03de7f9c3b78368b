//! Sapling primitives that the wallet logic builds on.

use vstd::prelude::*;
use crate::encoding::is_canonical_scalar;
use redjubjub::{Signature, SigningKey, SpendAuth, VerificationKey};

verus! {

/// Depth of the Sapling note commitment tree.
pub const SAPLING_COMMITMENT_TREE_DEPTH: usize = 32;

/// The number of depths that the Merkle hash is defined for: the depth is a
/// part of what is hashed, and has six bits less one pattern there.
pub const MERKLE_HASH_DEPTHS: usize = 63;

/// The Sapling Merkle hash of two 32-byte children at the given depth, as
/// `sapling_crypto::merkle_hash` computes it: a Pedersen hash personalised by
/// `depth` over the first 255 bits of each child.
pub uninterp spec fn merkle_hash_spec(depth: nat, lhs: Seq<u8>, rhs: Seq<u8>) -> Seq<u8>;

/// Calls `sapling_crypto::merkle_hash`. The result is a function of the three
/// arguments alone; the hash rejects depths of 63 and above by panicking.
#[verifier::external_body]
pub(crate) fn merkle_hash(depth: usize, lhs: &[u8; 32], rhs: &[u8; 32]) -> (parent: [u8; 32])
    requires
        depth < MERKLE_HASH_DEPTHS,
    ensures
        parent@ == merkle_hash_spec(depth as nat, lhs@, rhs@),
{
    sapling_crypto::merkle_hash(depth, lhs, rhs)
}

/// The encoding of the key under which signatures of the spend authorizing
/// key `ask`, re-randomised by `alpha`, verify: that of the verification key
/// of `redjubjub` for the signing key `ask` randomised by `alpha`.
pub uninterp spec fn randomized_key(ask: Seq<u8>, alpha: Seq<u8>) -> Seq<u8>;

/// Whether `redjubjub::VerificationKey::verify` accepts the signature over
/// the message under the key with the encoding `rk`; a key that cannot be
/// read accepts nothing.
pub uninterp spec fn signature_verifies(rk: Seq<u8>, message: Seq<u8>, signature: Seq<u8>) -> bool;

/// The key under which the signatures of `spend_sig` for `ask` and `alpha`
/// verify: `redjubjub::SigningKey::from_bytes`, `randomize`, and the
/// verification key of the result. The two scalars must be canonical
/// encodings: others are refused with a panic.
#[verifier::external_body]
pub(crate) fn spend_randomized_key(ask: &[u8; 32], alpha: &[u8; 32]) -> (rk: [u8; 32])
    requires
        is_canonical_scalar(ask@),
        is_canonical_scalar(alpha@),
    ensures
        rk@ == randomized_key(ask@, alpha@),
{
    let key = SigningKey::<SpendAuth>::from_bytes(ask).unwrap();
    let randomizer = jubjub::Fr::from_bytes(alpha).unwrap();
    VerificationKey::from(&key.randomize(&randomizer)).into()
}

/// Signs `digest` with the spend authorizing key `ask`, re-randomised by
/// `alpha`: `redjubjub::SigningKey::from_bytes`, `randomize` and `sign`, with
/// randomness of the operating system. The signature differs from call to
/// call; each verifies under the randomised key. The two scalars must be
/// canonical encodings: others are refused with a panic.
#[verifier::external_body]
pub(crate) fn spend_sig(ask: &[u8; 32], alpha: &[u8; 32], digest: &[u8; 32]) -> (signature: [u8; 64])
    requires
        is_canonical_scalar(ask@),
        is_canonical_scalar(alpha@),
    ensures
        signature_verifies(randomized_key(ask@, alpha@), digest@, signature@),
{
    let key = SigningKey::<SpendAuth>::from_bytes(ask).unwrap();
    let randomizer = jubjub::Fr::from_bytes(alpha).unwrap();
    key.randomize(&randomizer).sign(rand::rng(), digest).into()
}

/// Verifies a spend authorization signature: `redjubjub::VerificationKey`
/// is read from `rk` and its `verify` is called.
#[verifier::external_body]
pub(crate) fn verify_spend_sig(rk: &[u8; 32], message: &[u8], signature: &[u8; 64]) -> (ok: bool)
    ensures
        ok == signature_verifies(rk@, message@, signature@),
{
    match VerificationKey::<SpendAuth>::try_from(*rk) {
        Ok(key) => key.verify(message, &Signature::from(*signature)).is_ok(),
        Err(_) => false,
    }
}

/// The encoding of the leaf that stands for "no commitment here".
pub open spec fn uncommitted() -> Seq<u8> {
    Seq::new(32, |i: int| if i == 0 { 1u8 } else { 0u8 })
}

/// A node of the Sapling note commitment tree, by its 32-byte encoding.
#[derive(Clone, Copy, Debug, PartialEq, Eq)]
pub struct Node {
    pub repr: [u8; 32],
}

impl View for Node {
    type V = Seq<u8>;

    open spec fn view(&self) -> Seq<u8> {
        self.repr@
    }
}

impl Node {
    /// A node with the given encoding.
    pub fn new(repr: [u8; 32]) -> (node: Node)
        ensures
            node.repr == repr,
            node@ == repr@,
    {
        Node { repr }
    }

    /// The leaf of a position that holds no commitment.
    pub fn blank() -> (node: Node)
        ensures
            node@ == uncommitted(),
    {
        let mut repr = [0u8; 32];
        repr[0] = 1;
        assert(repr@ =~= uncommitted());
        Node { repr }
    }

    /// The parent of `lhs` and `rhs`, which stand at height `depth`.
    pub fn combine(depth: usize, lhs: &Node, rhs: &Node) -> (parent: Node)
        requires
            depth < MERKLE_HASH_DEPTHS,
        ensures
            parent@ == merkle_hash_spec(depth as nat, lhs@, rhs@),
    {
        Node { repr: merkle_hash(depth, &lhs.repr, &rhs.repr) }
    }
}

} // verus!
