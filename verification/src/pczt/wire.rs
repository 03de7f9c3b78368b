//! The elements of the document's wire format: integers in little-endian
//! byte order, and byte strings behind their length.

use vstd::prelude::*;
use vstd::bytes::{
    lemma_auto_spec_u32_to_from_le_bytes, lemma_auto_spec_u64_to_from_le_bytes,
    spec_u32_from_le_bytes, spec_u32_to_le_bytes, spec_u64_from_le_bytes, spec_u64_to_le_bytes,
    u32_from_le_bytes, u32_to_le_bytes, u64_from_le_bytes, u64_to_le_bytes,
};

verus! {

/// The encoding of an unsigned 64-bit integer: 8 bytes.
pub open spec fn enc_u64(value: u64) -> Seq<u8> {
    spec_u64_to_le_bytes(value)
}

/// The encoding of an unsigned 32-bit integer: 4 bytes.
pub open spec fn enc_u32(value: u32) -> Seq<u8> {
    spec_u32_to_le_bytes(value)
}

/// The encoding of a signed 64-bit integer: 8 bytes, in two's complement.
pub open spec fn enc_i64(value: i64) -> Seq<u8> {
    spec_u64_to_le_bytes(value as u64)
}

/// The encoding of a byte string: its length as an unsigned 64-bit integer,
/// then its bytes.
pub open spec fn enc_bytes(bytes: Seq<u8>) -> Seq<u8> {
    enc_u64(bytes.len() as u64) + bytes
}

/// The unsigned 64-bit integer that stands at `pos`, and where it ends.
pub open spec fn dec_u64(input: Seq<u8>, pos: int) -> Option<(u64, int)> {
    if 0 <= pos && pos + 8 <= input.len() {
        Some((spec_u64_from_le_bytes(input.subrange(pos, pos + 8)), pos + 8))
    } else {
        None
    }
}

/// The unsigned 32-bit integer that stands at `pos`, and where it ends.
pub open spec fn dec_u32(input: Seq<u8>, pos: int) -> Option<(u32, int)> {
    if 0 <= pos && pos + 4 <= input.len() {
        Some((spec_u32_from_le_bytes(input.subrange(pos, pos + 4)), pos + 4))
    } else {
        None
    }
}

/// The signed 64-bit integer that stands at `pos`, and where it ends.
pub open spec fn dec_i64(input: Seq<u8>, pos: int) -> Option<(i64, int)> {
    match dec_u64(input, pos) {
        Some((value, end)) => Some((value as i64, end)),
        None => None,
    }
}

/// The byte string that stands at `pos`, and where it ends.
pub open spec fn dec_bytes(input: Seq<u8>, pos: int) -> Option<(Seq<u8>, int)> {
    match dec_u64(input, pos) {
        Some((len, start)) => if start + len <= input.len() {
            Some((input.subrange(start, start + len), start + len))
        } else {
            None
        },
        None => None,
    }
}

/// A signed integer and the unsigned integer of the same bits stand for each
/// other.
pub proof fn lemma_i64_bits(value: i64, bits: u64)
    ensures
        ((value as u64) as i64) == value,
        ((bits as i64) as u64) == bits,
{
    assert(((value as u64) as i64) == value) by (bit_vector);
    assert(((bits as i64) as u64) == bits) by (bit_vector);
}

/// What is read at a place is what stands there encoded.
pub proof fn lemma_dec_u64_sound(input: Seq<u8>, pos: int)
    requires
        dec_u64(input, pos) is Some,
    ensures
        (dec_u64(input, pos)->0).1 == pos + 8,
        pos + 8 <= input.len(),
        input.subrange(pos, pos + 8) == enc_u64((dec_u64(input, pos)->0).0),
{
    lemma_auto_spec_u64_to_from_le_bytes();
}

/// What stands encoded at a place is what is read there.
pub proof fn lemma_dec_u64_complete(input: Seq<u8>, pos: int, value: u64)
    requires
        0 <= pos,
        pos + 8 <= input.len(),
        input.subrange(pos, pos + 8) == enc_u64(value),
    ensures
        dec_u64(input, pos) == Some((value, pos + 8)),
{
    lemma_auto_spec_u64_to_from_le_bytes();
}

/// What is read at a place is what stands there encoded.
pub proof fn lemma_dec_u32_sound(input: Seq<u8>, pos: int)
    requires
        dec_u32(input, pos) is Some,
    ensures
        (dec_u32(input, pos)->0).1 == pos + 4,
        pos + 4 <= input.len(),
        input.subrange(pos, pos + 4) == enc_u32((dec_u32(input, pos)->0).0),
{
    lemma_auto_spec_u32_to_from_le_bytes();
}

/// What stands encoded at a place is what is read there.
pub proof fn lemma_dec_u32_complete(input: Seq<u8>, pos: int, value: u32)
    requires
        0 <= pos,
        pos + 4 <= input.len(),
        input.subrange(pos, pos + 4) == enc_u32(value),
    ensures
        dec_u32(input, pos) == Some((value, pos + 4)),
{
    lemma_auto_spec_u32_to_from_le_bytes();
    assert(spec_u32_to_le_bytes(value).len() == 4);
}

/// What is read at a place is what stands there encoded.
pub proof fn lemma_dec_i64_sound(input: Seq<u8>, pos: int)
    requires
        dec_i64(input, pos) is Some,
    ensures
        (dec_i64(input, pos)->0).1 == pos + 8,
        pos + 8 <= input.len(),
        input.subrange(pos, pos + 8) == enc_i64((dec_i64(input, pos)->0).0),
{
    lemma_dec_u64_sound(input, pos);
    lemma_i64_bits(0, (dec_u64(input, pos)->0).0);
}

/// What stands encoded at a place is what is read there.
pub proof fn lemma_dec_i64_complete(input: Seq<u8>, pos: int, value: i64)
    requires
        0 <= pos,
        pos + 8 <= input.len(),
        input.subrange(pos, pos + 8) == enc_i64(value),
    ensures
        dec_i64(input, pos) == Some((value, pos + 8)),
{
    lemma_dec_u64_complete(input, pos, value as u64);
    lemma_i64_bits(value, 0);
}

/// What is read at a place is what stands there encoded.
pub proof fn lemma_dec_bytes_sound(input: Seq<u8>, pos: int)
    requires
        dec_bytes(input, pos) is Some,
    ensures
        pos <= (dec_bytes(input, pos)->0).1 <= input.len(),
        input.subrange(pos, (dec_bytes(input, pos)->0).1) == enc_bytes(
            (dec_bytes(input, pos)->0).0,
        ),
{
    lemma_dec_u64_sound(input, pos);
    let len = (dec_u64(input, pos)->0).0;
    let start = pos + 8;
    assert(input.subrange(pos, start + len) =~= input.subrange(pos, start)
        + input.subrange(start, start + len));
}

/// What stands encoded at a place is what is read there.
pub proof fn lemma_dec_bytes_complete(input: Seq<u8>, pos: int, bytes: Seq<u8>)
    requires
        bytes.len() <= u64::MAX,
        0 <= pos,
        pos + enc_bytes(bytes).len() <= input.len(),
        input.subrange(pos, pos + enc_bytes(bytes).len()) == enc_bytes(bytes),
    ensures
        enc_bytes(bytes).len() == 8 + bytes.len(),
        dec_bytes(input, pos) == Some((bytes, pos + 8 + bytes.len())),
{
    lemma_auto_spec_u64_to_from_le_bytes();
    let whole = enc_bytes(bytes);
    let end = pos + whole.len();
    assert(whole.len() == 8 + bytes.len());
    assert(input.subrange(pos, pos + 8) =~= whole.subrange(0, 8));
    assert(whole.subrange(0, 8) =~= enc_u64(bytes.len() as u64));
    lemma_dec_u64_complete(input, pos, bytes.len() as u64);
    assert(input.subrange(pos + 8, pos + 8 + bytes.len()) =~= whole.subrange(8, whole.len() as int));
    assert(whole.subrange(8, whole.len() as int) =~= bytes);
}

/// Reads the unsigned 64-bit integer at `pos`.
pub fn read_u64(input: &[u8], pos: usize) -> (found: Option<(u64, usize)>)
    ensures
        match found {
            Some((value, end)) => dec_u64(input@, pos as int) == Some((value, end as int)),
            None => dec_u64(input@, pos as int) is None,
        },
{
    if pos > input.len() || input.len() - pos < 8 {
        return None;
    }
    let mut field: Vec<u8> = Vec::new();
    let mut i: usize = 0;
    while i < 8
        invariant
            i <= 8,
            pos + 8 <= input@.len() <= usize::MAX,
            field@ == input@.subrange(pos as int, pos + i),
        decreases 8 - i,
    {
        field.push(input[pos + i]);
        assert(input@.subrange(pos as int, pos + i + 1) =~= input@.subrange(
            pos as int,
            pos + i,
        ).push(input@[pos + i]));
        i += 1;
    }
    Some((u64_from_le_bytes(field.as_slice()), pos + 8))
}

/// Reads the unsigned 32-bit integer at `pos`.
pub fn read_u32(input: &[u8], pos: usize) -> (found: Option<(u32, usize)>)
    ensures
        match found {
            Some((value, end)) => dec_u32(input@, pos as int) == Some((value, end as int)),
            None => dec_u32(input@, pos as int) is None,
        },
{
    if pos > input.len() || input.len() - pos < 4 {
        return None;
    }
    let mut field: Vec<u8> = Vec::new();
    let mut i: usize = 0;
    while i < 4
        invariant
            i <= 4,
            pos + 4 <= input@.len() <= usize::MAX,
            field@ == input@.subrange(pos as int, pos + i),
        decreases 4 - i,
    {
        field.push(input[pos + i]);
        assert(input@.subrange(pos as int, pos + i + 1) =~= input@.subrange(
            pos as int,
            pos + i,
        ).push(input@[pos + i]));
        i += 1;
    }
    Some((u32_from_le_bytes(field.as_slice()), pos + 4))
}

/// Reads the signed 64-bit integer at `pos`.
pub fn read_i64(input: &[u8], pos: usize) -> (found: Option<(i64, usize)>)
    ensures
        match found {
            Some((value, end)) => dec_i64(input@, pos as int) == Some((value, end as int)),
            None => dec_i64(input@, pos as int) is None,
        },
{
    match read_u64(input, pos) {
        Some((bits, end)) => Some((bits as i64, end)),
        None => None,
    }
}

/// Reads the byte string at `pos`.
pub fn read_bytes(input: &[u8], pos: usize) -> (found: Option<(Vec<u8>, usize)>)
    ensures
        match found {
            Some((bytes, end)) => dec_bytes(input@, pos as int) == Some((bytes@, end as int)),
            None => dec_bytes(input@, pos as int) is None,
        },
{
    match read_u64(input, pos) {
        Some((len, start)) => {
            if len > (input.len() - start) as u64 {
                return None;
            }
            let len = len as usize;
            let mut bytes: Vec<u8> = Vec::new();
            let mut i: usize = 0;
            while i < len
                invariant
                    i <= len,
                    start + len <= input@.len() <= usize::MAX,
                    bytes@ == input@.subrange(start as int, start + i),
                decreases len - i,
            {
                bytes.push(input[start + i]);
                assert(input@.subrange(start as int, start + i + 1) =~= input@.subrange(
                    start as int,
                    start + i,
                ).push(input@[start + i]));
                i += 1;
            }
            Some((bytes, start + len))
        },
        None => None,
    }
}

/// Appends the bytes of `tail` to `out`.
pub fn write_raw(out: &mut Vec<u8>, tail: &[u8])
    ensures
        final(out)@ == old(out)@ + tail@,
{
    let mut i: usize = 0;
    while i < tail.len()
        invariant
            i <= tail@.len(),
            out@ == old(out)@ + tail@.take(i as int),
        decreases tail@.len() - i,
    {
        out.push(tail[i]);
        assert(tail@.take(i + 1) =~= tail@.take(i as int).push(tail@[i as int]));
        assert(old(out)@ + tail@.take(i + 1) =~= (old(out)@ + tail@.take(i as int)).push(
            tail@[i as int],
        ));
        i += 1;
    }
    assert(tail@.take(i as int) =~= tail@);
}

/// Appends the encoding of an unsigned 64-bit integer.
pub fn write_u64(out: &mut Vec<u8>, value: u64)
    ensures
        final(out)@ == old(out)@ + enc_u64(value),
{
    let field = u64_to_le_bytes(value);
    write_raw(out, field.as_slice());
}

/// Appends the encoding of an unsigned 32-bit integer.
pub fn write_u32(out: &mut Vec<u8>, value: u32)
    ensures
        final(out)@ == old(out)@ + enc_u32(value),
{
    let field = u32_to_le_bytes(value);
    write_raw(out, field.as_slice());
}

/// Appends the encoding of a signed 64-bit integer.
pub fn write_i64(out: &mut Vec<u8>, value: i64)
    ensures
        final(out)@ == old(out)@ + enc_i64(value),
{
    write_u64(out, value as u64);
}

/// Appends the encoding of a byte string.
pub fn write_bytes(out: &mut Vec<u8>, bytes: &[u8])
    ensures
        final(out)@ == old(out)@ + enc_bytes(bytes@),
{
    write_u64(out, bytes.len() as u64);
    write_raw(out, bytes);
    assert(final(out)@ =~= old(out)@ + enc_bytes(bytes@));
}

} // verus!
