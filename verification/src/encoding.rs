//! Encodings of field elements and curve points, and the arithmetic that the
//! wallet needs on them.

use vstd::prelude::*;
use group::GroupEncoding;

verus! {

/// The number that a sequence of bytes encodes, least significant byte first.
pub open spec fn le_value(bytes: Seq<u8>) -> nat
    decreases bytes.len(),
{
    if bytes.len() == 0 {
        0
    } else {
        bytes[0] as nat + 256 * le_value(bytes.drop_first())
    }
}

/// The order of the scalar field of BLS12-381, which is the base field of
/// Jubjub: note commitments are elements of it.
pub open spec fn base_field_modulus() -> nat {
    0x73eda753299d7d483339d80809a1d80553bda402fffe5bfeffffffff00000001nat
}

/// The order of the prime-order subgroup of Jubjub: its scalars are counted
/// modulo this number.
pub open spec fn scalar_field_modulus() -> nat {
    0x0e7db4ea6533afa906673b0101343b00a6682093ccc81082d0970e5ed6f72cb7nat
}

/// Whether 32 bytes are the canonical encoding of an element of the base
/// field.
pub open spec fn is_canonical_base(bytes: Seq<u8>) -> bool {
    bytes.len() == 32 && le_value(bytes) < base_field_modulus()
}

/// Whether 32 bytes are the canonical encoding of a Jubjub scalar.
pub open spec fn is_canonical_scalar(bytes: Seq<u8>) -> bool {
    bytes.len() == 32 && le_value(bytes) < scalar_field_modulus()
}

/// The `len` bytes that encode `value`, least significant byte first.
pub open spec fn le_encoding(value: nat, len: nat) -> Seq<u8>
    decreases len,
{
    if len == 0 {
        Seq::empty()
    } else {
        seq![(value % 256) as u8] + le_encoding(value / 256, (len - 1) as nat)
    }
}

/// The number of values that `len` bytes can encode.
pub open spec fn radix(len: nat) -> nat
    decreases len,
{
    if len == 0 {
        1
    } else {
        256 * radix((len - 1) as nat)
    }
}

/// The bytes that encode a number encode that number, where they are
/// enough bytes for it.
pub proof fn lemma_le_value_of_encoding(value: nat, len: nat)
    requires
        value < radix(len),
    ensures
        le_encoding(value, len).len() == len,
        le_value(le_encoding(value, len)) == value,
    decreases len,
{
    if len > 0 {
        let below = (len - 1) as nat;
        let high = value / 256;
        let bound = radix(below);
        assert(high < bound) by (nonlinear_arith)
            requires
                value < 256 * bound,
                high == value / 256,
        ;
        lemma_le_value_of_encoding(high, below);
        let whole = le_encoding(value, len);
        assert(whole.drop_first() =~= le_encoding(high, below));
        assert(whole[0] == (value % 256) as u8);
        assert(value == value % 256 + 256 * high);
    }
}

/// The sum of two scalars is written as the canonical encoding of a scalar.
pub proof fn lemma_scalar_sum_is_canonical(lhs: Seq<u8>, rhs: Seq<u8>)
    ensures
        is_canonical_scalar(scalar_sum(lhs, rhs)),
{
    let sum = (le_value(lhs) + le_value(rhs)) % scalar_field_modulus();
    assert(radix(32) == 0x1_0000_0000_0000_0000_0000_0000_0000_0000_0000_0000_0000_0000_0000_0000_0000_0000nat) by {
        reveal_with_fuel(radix, 33);
    }
    lemma_le_value_of_encoding(sum, 32);
}

/// Whether `jubjub::AffinePoint::from_bytes` accepts the 32 bytes: they are
/// the canonical encoding of a point of the curve.
pub uninterp spec fn point_decodes(bytes: Seq<u8>) -> bool;

/// Whether the point that 32 bytes encode is of small order, as
/// `jubjub::AffinePoint::is_small_order` says.
pub uninterp spec fn point_is_small_order(bytes: Seq<u8>) -> bool;

/// Whether `jubjub::SubgroupPoint::from_bytes` accepts the 32 bytes: they
/// encode a point of the curve, canonically, that lies in the prime-order
/// subgroup.
pub uninterp spec fn subgroup_point_decodes(bytes: Seq<u8>) -> bool;

/// The encoding of the sum of two points of Jubjub that are given by their
/// encodings, as `jubjub` computes it.
pub uninterp spec fn point_sum(lhs: Seq<u8>, rhs: Seq<u8>) -> Seq<u8>;

/// The encoding of the sum of two Jubjub scalars that are given by their
/// canonical encodings.
pub open spec fn scalar_sum(lhs: Seq<u8>, rhs: Seq<u8>) -> Seq<u8> {
    le_encoding((le_value(lhs) + le_value(rhs)) % scalar_field_modulus(), 32)
}

/// Calls `bls12_381::Scalar::from_bytes`, which accepts exactly the
/// little-endian encodings of the numbers below the field's modulus.
#[verifier::external_body]
pub(crate) fn decodes_to_base(bytes: &[u8; 32]) -> (ok: bool)
    ensures
        ok == is_canonical_base(bytes@),
{
    bool::from(bls12_381::Scalar::from_bytes(bytes).is_some())
}

/// Calls `jubjub::SubgroupPoint::from_bytes` and says whether it accepted.
#[verifier::external_body]
pub(crate) fn decodes_to_subgroup_point(bytes: &[u8; 32]) -> (ok: bool)
    ensures
        ok == subgroup_point_decodes(bytes@),
{
    bool::from(jubjub::SubgroupPoint::from_bytes(bytes).is_some())
}

/// Calls `jubjub::Fr::from_bytes`, which accepts exactly the little-endian
/// encodings of the numbers below the order of the scalar field.
#[verifier::external_body]
pub(crate) fn decodes_to_scalar(bytes: &[u8; 32]) -> (ok: bool)
    ensures
        ok == is_canonical_scalar(bytes@),
{
    bool::from(jubjub::Fr::from_bytes(bytes).is_some())
}

/// Calls `jubjub::AffinePoint::from_bytes` and says whether it accepted.
#[verifier::external_body]
pub(crate) fn decodes_to_point(bytes: &[u8; 32]) -> (ok: bool)
    ensures
        ok == point_decodes(bytes@),
{
    bool::from(jubjub::AffinePoint::from_bytes(*bytes).is_some())
}

/// Calls `jubjub::AffinePoint::is_small_order` on the point that the bytes
/// encode. The bytes must encode a point: others are refused with a panic.
#[verifier::external_body]
pub(crate) fn has_small_order(bytes: &[u8; 32]) -> (small: bool)
    requires
        point_decodes(bytes@),
    ensures
        small == point_is_small_order(bytes@),
{
    bool::from(jubjub::AffinePoint::from_bytes(*bytes).unwrap().is_small_order())
}

/// Adds two Jubjub scalars by `jubjub::Fr::from_bytes`, `+` and `to_bytes`.
/// Decoding accepts exactly the canonical encodings; the sum is taken modulo
/// the order of the scalar field and encoded canonically.
#[verifier::external_body]
pub(crate) fn add_scalars(lhs: &[u8; 32], rhs: &[u8; 32]) -> (sum: Option<[u8; 32]>)
    ensures
        match sum {
            Some(s) => is_canonical_scalar(lhs@) && is_canonical_scalar(rhs@) && s@ == scalar_sum(
                lhs@,
                rhs@,
            ),
            None => !(is_canonical_scalar(lhs@) && is_canonical_scalar(rhs@)),
        },
{
    let a = jubjub::Fr::from_bytes(lhs).into_option()?;
    let b = jubjub::Fr::from_bytes(rhs).into_option()?;
    Some((a + b).to_bytes())
}

/// Adds two points of Jubjub by `jubjub::AffinePoint::from_bytes`, `+` and
/// `to_bytes`. The sum is there exactly where both encodings are accepted,
/// and is written as `from_bytes` accepts it again.
#[verifier::external_body]
pub(crate) fn add_points(lhs: &[u8; 32], rhs: &[u8; 32]) -> (sum: Option<[u8; 32]>)
    ensures
        match sum {
            Some(s) => point_decodes(lhs@) && point_decodes(rhs@) && s@ == point_sum(lhs@, rhs@)
                && point_decodes(s@),
            None => !(point_decodes(lhs@) && point_decodes(rhs@)),
        },
{
    let a = jubjub::AffinePoint::from_bytes(*lhs).into_option()?;
    let b = jubjub::AffinePoint::from_bytes(*rhs).into_option()?;
    Some(jubjub::AffinePoint::from(a.to_extended() + b).to_bytes())
}

/// The first `N` bytes of a sequence that has at least that many.
pub fn leading_bytes<const N: usize>(bytes: &[u8]) -> (head: [u8; N])
    requires
        bytes@.len() >= N,
    ensures
        head@ == bytes@.take(N as int),
{
    let mut head = [0u8; N];
    let mut i: usize = 0;
    while i < N
        invariant
            i <= N,
            bytes@.len() >= N,
            head@.len() == N,
            forall|j: int| 0 <= j < i ==> head@[j] == bytes@[j],
        decreases N - i,
    {
        head[i] = bytes[i];
        i += 1;
    }
    assert(head@ =~= bytes@.take(N as int));
    head
}

/// Whether two byte strings are the same.
pub fn bytes_equal(a: &[u8], b: &[u8]) -> (same: bool)
    ensures
        same == (a@ == b@),
{
    if a.len() != b.len() {
        return false;
    }
    let mut i: usize = 0;
    while i < a.len()
        invariant
            i <= a@.len(),
            a@.len() == b@.len(),
            forall|j: int| 0 <= j < i ==> a@[j] == b@[j],
        decreases a@.len() - i,
    {
        if a[i] != b[i] {
            return false;
        }
        i += 1;
    }
    assert(a@ =~= b@);
    true
}

/// A copy of a byte string.
pub fn copy_bytes(bytes: &[u8]) -> (copy: Vec<u8>)
    ensures
        copy@ == bytes@,
{
    let mut copy: Vec<u8> = Vec::new();
    let mut i: usize = 0;
    while i < bytes.len()
        invariant
            i <= bytes@.len(),
            copy@ == bytes@.take(i as int),
        decreases bytes@.len() - i,
    {
        copy.push(bytes[i]);
        assert(bytes@.take(i + 1) =~= bytes@.take(i as int).push(bytes@[i as int]));
        i += 1;
    }
    assert(bytes@.take(i as int) =~= bytes@);
    copy
}

} // verus!
