//! The hash function that fingerprints and digests are made with.

use vstd::prelude::*;

verus! {

/// The BLAKE2b hash of `data` with a 32-byte digest and the 16 bytes of
/// `personal` as its personalisation, as `blake2b_simd` computes it.
pub uninterp spec fn blake2b_256(personal: Seq<u8>, data: Seq<u8>) -> Seq<u8>;

/// Calls `blake2b_simd::Params::hash` with a digest length of 32 and the
/// given personalisation. A personalisation of zeros is the same as none.
#[verifier::external_body]
pub(crate) fn blake2b_256_hash(personal: &[u8; 16], data: &[u8]) -> (digest: [u8; 32])
    ensures
        digest@ == blake2b_256(personal@, data@),
{
    let hash = blake2b_simd::Params::new().hash_length(32).personal(personal).hash(data);
    let mut digest = [0u8; 32];
    digest.copy_from_slice(hash.as_bytes());
    digest
}

} // verus!
