//! Trial decryption of compact outputs.

use vstd::prelude::*;
use sapling_crypto::keys::PreparedIncomingViewingKey;
use sapling_crypto::note::ExtractedNoteCommitment;
use sapling_crypto::note_encryption::{
    try_sapling_compact_note_decryption, CompactOutputDescription,
};
use sapling_crypto::{Rseed, SaplingIvk};
use zcash_note_encryption::EphemeralKeyBytes;

verus! {

/// The length of what a compact output keeps of its ciphertext.
pub const COMPACT_NOTE_SIZE: usize = 52;

/// Which forms of note plaintext trial decryption admits: the first form,
/// which carries the commitment randomness itself; both; or the second
/// alone, which carries the seed of it.
#[derive(Clone, Copy, Debug, PartialEq, Eq)]
pub enum Zip212Enforcement {
    Off,
    GracePeriod,
    On,
}

/// What trial decryption of a compact output finds under an incoming viewing
/// key, with the given forms of plaintext admitted: the value of the note,
/// the 43-byte encoding of the address it was sent to, whether its randomness
/// is a seed, and that randomness. `None` where the key does not decrypt the
/// output, the plaintext is of a form that is not admitted, the note does not
/// match the commitment, or one of the key, the ephemeral key and the
/// commitment is no valid encoding.
pub uninterp spec fn compact_decryption(
    ivk: Seq<u8>,
    epk: Seq<u8>,
    cmu: Seq<u8>,
    ciphertext: Seq<u8>,
    enforcement: Zip212Enforcement,
) -> Option<(u64, Seq<u8>, bool, Seq<u8>)>;

/// Calls `sapling_crypto::note_encryption::try_sapling_compact_note_decryption`
/// with the forms of plaintext that `enforcement` names, and hands out the
/// note it finds by its parts. Decryption is a function of the four byte
/// strings and of the forms admitted.
#[verifier::external_body]
pub(crate) fn try_compact_decryption(
    ivk: &[u8; 32],
    epk: &[u8; 32],
    cmu: &[u8; 32],
    ciphertext: &[u8; 52],
    enforcement: Zip212Enforcement,
) -> (found: Option<(u64, [u8; 43], bool, [u8; 32])>)
    ensures
        match found {
            Some(note) => compact_decryption(ivk@, epk@, cmu@, ciphertext@, enforcement) == Some(
                (note.0, note.1@, note.2, note.3@),
            ),
            None => compact_decryption(ivk@, epk@, cmu@, ciphertext@, enforcement) is None,
        },
{
    let ivk = PreparedIncomingViewingKey::new(&SaplingIvk::from_bytes(ivk).into_option()?);
    let cmu = ExtractedNoteCommitment::from_bytes(cmu).into_option()?;
    let output =
        CompactOutputDescription { ephemeral_key: EphemeralKeyBytes(*epk), cmu, enc_ciphertext: *ciphertext };
    let admitted = match enforcement {
        Zip212Enforcement::Off => sapling_crypto::note_encryption::Zip212Enforcement::Off,
        Zip212Enforcement::GracePeriod => sapling_crypto::note_encryption::Zip212Enforcement::GracePeriod,
        Zip212Enforcement::On => sapling_crypto::note_encryption::Zip212Enforcement::On,
    };
    let (note, to) = try_sapling_compact_note_decryption(&ivk, &output, admitted)?;
    match note.rseed() {
        Rseed::BeforeZip212(rcm) => Some((note.value().inner(), to.to_bytes(), false, rcm.to_bytes())),
        Rseed::AfterZip212(seed) => Some((note.value().inner(), to.to_bytes(), true, *seed)),
    }
}

} // verus!
