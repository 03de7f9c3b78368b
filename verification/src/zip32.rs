//! Hierarchical deterministic keys.

use vstd::prelude::*;
use crate::encoding::is_canonical_scalar;
use crate::keys::FullViewingKey;
use sapling_crypto::zip32::ExtendedSpendingKey;
use zip32::ChildIndex;

verus! {

/// The spend authorizing key `ask` of the key that stands at `path` below
/// the master key of `seed`, as `sapling_crypto::zip32` derives it: `None`
/// where the seed yields no master key, an index of the path is not
/// hardened, or a step of the path yields no key.
pub uninterp spec fn spend_authorizing_key(seed: Seq<u8>, path: Seq<u32>) -> Option<Seq<u8>>;

/// The greatest depth of a key below its master key: the depth of a key is
/// counted in a byte.
pub const MAX_DEPTH: usize = 255;

/// Walks `path` from the master key of `seed` with
/// `ExtendedSpendingKey::master` and `ExtendedSpendingKey::from_path`, and
/// hands out the encoding of `ask`, which is that of a Jubjub scalar. The
/// path must not be longer than the greatest depth, beyond which the count
/// of the depth overflows.
#[verifier::external_body]
pub(crate) fn derive_spend_authorizing_key(seed: &[u8; 32], path: &[u32]) -> (ask: Option<
    [u8; 32],
>)
    requires
        path@.len() <= MAX_DEPTH,
    ensures
        match ask {
            Some(key) => spend_authorizing_key(seed@, path@) == Some(key@) && is_canonical_scalar(
                key@,
            ),
            None => spend_authorizing_key(seed@, path@) is None,
        },
{
    let master = ExtendedSpendingKey::master(seed)?;
    let indices: Option<Vec<ChildIndex>> =
        path.iter().map(|index| ChildIndex::from_index(*index)).collect();
    let key = ExtendedSpendingKey::from_path(&master, &indices?)?;
    Some(key.expsk().ask().to_bytes())
}

/// A full viewing key in the key tree of a seed.
#[derive(Clone, Copy, Debug, PartialEq, Eq)]
pub struct ExtendedFullViewingKey {
    pub fvk: FullViewingKey,
}

} // verus!
