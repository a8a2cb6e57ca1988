//! Coordinate codec: raw 128-bit signed inputs become fixed-point numbers with
//! 64 integer and 64 fractional bits by reinterpreting their big-endian bytes.

use substrate_fixed::types::I64F64;
use vstd::prelude::*;

verus! {

/// A signed fixed-point number with 64 integer and 64 fractional bits, held as
/// its bit pattern: the number it stands for is `bits / 2^64`.
#[derive(Clone, Copy, Debug, PartialEq, Eq, Structural)]
pub struct Fixed128 {
    pub bits: i128,
}

/// The unsigned reading of the 128 bits of `x` in two's complement.
pub open spec fn twos_complement(x: i128) -> u128 {
    if x >= 0 {
        x as u128
    } else {
        (x + 0x1_0000_0000_0000_0000_0000_0000_0000_0000) as u128
    }
}

/// The signed reading of 128 bits in two's complement.
pub open spec fn from_twos_complement(u: u128) -> i128 {
    if u < 0x8000_0000_0000_0000_0000_0000_0000_0000 {
        u as i128
    } else {
        (u - 0x1_0000_0000_0000_0000_0000_0000_0000_0000) as i128
    }
}

/// The sixteen bytes of `u`, most significant first.
pub open spec fn be_bytes_of_u128(u: u128) -> Seq<u8> {
    seq![
        ((u >> 120) & 0xff) as u8,
        ((u >> 112) & 0xff) as u8,
        ((u >> 104) & 0xff) as u8,
        ((u >> 96) & 0xff) as u8,
        ((u >> 88) & 0xff) as u8,
        ((u >> 80) & 0xff) as u8,
        ((u >> 72) & 0xff) as u8,
        ((u >> 64) & 0xff) as u8,
        ((u >> 56) & 0xff) as u8,
        ((u >> 48) & 0xff) as u8,
        ((u >> 40) & 0xff) as u8,
        ((u >> 32) & 0xff) as u8,
        ((u >> 24) & 0xff) as u8,
        ((u >> 16) & 0xff) as u8,
        ((u >> 8) & 0xff) as u8,
        (u & 0xff) as u8,
    ]
}

/// The number whose sixteen bytes, most significant first, are `b`.
pub open spec fn u128_of_be_bytes(b: Seq<u8>) -> u128 {
    (b[0] as u128) << 120 | (b[1] as u128) << 112 | (b[2] as u128) << 104 | (b[3] as u128) << 96
        | (b[4] as u128) << 88 | (b[5] as u128) << 80 | (b[6] as u128) << 72 | (b[7] as u128) << 64
        | (b[8] as u128) << 56 | (b[9] as u128) << 48 | (b[10] as u128) << 40 | (b[11] as u128)
        << 32 | (b[12] as u128) << 24 | (b[13] as u128) << 16 | (b[14] as u128) << 8 | (
    b[15] as u128)
}

/// The big-endian two's-complement byte representation of `x`.
pub open spec fn be_bytes(x: i128) -> Seq<u8> {
    be_bytes_of_u128(twos_complement(x))
}

/// The signed integer whose big-endian two's-complement bytes are `b`.
pub open spec fn from_be_bytes(b: Seq<u8>) -> i128 {
    from_twos_complement(u128_of_be_bytes(b))
}

/// Reading back the bytes of an integer gives the integer.
pub proof fn lemma_from_be_bytes_of_be_bytes(x: i128)
    ensures
        from_be_bytes(be_bytes(x)) == x,
{
    let u = twos_complement(x);
    let b = be_bytes_of_u128(u);
    assert(u128_of_be_bytes(b) == u) by {
        assert((((u >> 120) & 0xff) as u8 as u128) << 120 | (((u >> 112) & 0xff) as u8 as u128)
            << 112 | (((u >> 104) & 0xff) as u8 as u128) << 104 | (((u >> 96) & 0xff) as u8 as u128)
            << 96 | (((u >> 88) & 0xff) as u8 as u128) << 88 | (((u >> 80) & 0xff) as u8 as u128)
            << 80 | (((u >> 72) & 0xff) as u8 as u128) << 72 | (((u >> 64) & 0xff) as u8 as u128)
            << 64 | (((u >> 56) & 0xff) as u8 as u128) << 56 | (((u >> 48) & 0xff) as u8 as u128)
            << 48 | (((u >> 40) & 0xff) as u8 as u128) << 40 | (((u >> 32) & 0xff) as u8 as u128)
            << 32 | (((u >> 24) & 0xff) as u8 as u128) << 24 | (((u >> 16) & 0xff) as u8 as u128)
            << 16 | (((u >> 8) & 0xff) as u8 as u128) << 8 | ((u & 0xff) as u8 as u128) == u)
            by (bit_vector);
    }
}

/// Writing out the integer read from sixteen bytes gives the bytes.
pub proof fn lemma_be_bytes_of_from_be_bytes(b: Seq<u8>)
    requires
        b.len() == 16,
    ensures
        be_bytes(from_be_bytes(b)) == b,
{
    let u = u128_of_be_bytes(b);
    assert(twos_complement(from_twos_complement(u)) == u);
    let (b0, b1, b2, b3) = (b[0], b[1], b[2], b[3]);
    let (b4, b5, b6, b7) = (b[4], b[5], b[6], b[7]);
    let (b8, b9, b10, b11) = (b[8], b[9], b[10], b[11]);
    let (b12, b13, b14, b15) = (b[12], b[13], b[14], b[15]);
    assert({
        let v = (b0 as u128) << 120 | (b1 as u128) << 112 | (b2 as u128) << 104 | (b3 as u128)
            << 96 | (b4 as u128) << 88 | (b5 as u128) << 80 | (b6 as u128) << 72 | (b7 as u128)
            << 64 | (b8 as u128) << 56 | (b9 as u128) << 48 | (b10 as u128) << 40 | (b11 as u128)
            << 32 | (b12 as u128) << 24 | (b13 as u128) << 16 | (b14 as u128) << 8 | (b15 as u128);
        &&& ((v >> 120) & 0xff) as u8 == b0
        &&& ((v >> 112) & 0xff) as u8 == b1
        &&& ((v >> 104) & 0xff) as u8 == b2
        &&& ((v >> 96) & 0xff) as u8 == b3
        &&& ((v >> 88) & 0xff) as u8 == b4
        &&& ((v >> 80) & 0xff) as u8 == b5
        &&& ((v >> 72) & 0xff) as u8 == b6
        &&& ((v >> 64) & 0xff) as u8 == b7
        &&& ((v >> 56) & 0xff) as u8 == b8
        &&& ((v >> 48) & 0xff) as u8 == b9
        &&& ((v >> 40) & 0xff) as u8 == b10
        &&& ((v >> 32) & 0xff) as u8 == b11
        &&& ((v >> 24) & 0xff) as u8 == b12
        &&& ((v >> 16) & 0xff) as u8 == b13
        &&& ((v >> 8) & 0xff) as u8 == b14
        &&& (v & 0xff) as u8 == b15
    }) by (bit_vector);
    assert(be_bytes_of_u128(u) =~= b);
}

/// `i128::to_be_bytes` of std: the result is the big-endian two's-complement
/// representation of the argument, sixteen bytes with the most significant
/// first.
#[verifier::external_body]
fn i128_to_be_bytes(x: i128) -> (bytes: [u8; 16])
    ensures
        bytes@ == be_bytes(x),
{
    x.to_be_bytes()
}

/// `i128::from_be_bytes` of std: the result is the integer whose big-endian
/// two's-complement representation is the argument.
#[verifier::external_body]
fn i128_from_be_bytes(bytes: [u8; 16]) -> (x: i128)
    ensures
        x == from_be_bytes(bytes@),
{
    i128::from_be_bytes(bytes)
}

/// `FixedI128::from_be_bytes` of substrate_fixed, followed by `to_bits`: the
/// fixed-point number made from sixteen big-endian bytes has the bit pattern
/// of the integer that those bytes spell.
#[verifier::external_body]
fn fixed_from_be_bytes(bytes: [u8; 16]) -> (fixed: Fixed128)
    ensures
        fixed.bits == from_be_bytes(bytes@),
{
    Fixed128 { bits: I64F64::from_be_bytes(bytes).to_bits() }
}

/// `FixedI128::from_bits` of substrate_fixed, followed by `to_be_bytes`: the
/// bytes of a fixed-point number are the big-endian bytes of its bit pattern.
#[verifier::external_body]
fn fixed_to_be_bytes(fixed: Fixed128) -> (bytes: [u8; 16])
    ensures
        bytes@ == be_bytes(fixed.bits),
{
    I64F64::from_bits(fixed.bits).to_be_bytes()
}

impl Fixed128 {
    /// The fixed-point number whose big-endian bytes are `bytes`.
    pub fn from_be_bytes(bytes: [u8; 16]) -> (fixed: Fixed128)
        ensures
            fixed.bits == from_be_bytes(bytes@),
    {
        fixed_from_be_bytes(bytes)
    }

    /// The big-endian bytes of the number.
    pub fn to_be_bytes(self) -> (bytes: [u8; 16])
        ensures
            bytes@ == be_bytes(self.bits),
    {
        fixed_to_be_bytes(self)
    }
}

/// The fixed-point number that encodes the raw coordinate `x`: the one whose
/// big-endian bytes are those of `x`.
pub open spec fn encoded(x: i128) -> Fixed128 {
    Fixed128 { bits: from_be_bytes(be_bytes(x)) }
}

/// The raw coordinate that `fixed` encodes: the integer whose big-endian
/// bytes are those of `fixed`.
pub open spec fn decoded(fixed: Fixed128) -> i128 {
    from_be_bytes(be_bytes(fixed.bits))
}

/// Encoding is a bijection that keeps the bit pattern: decoding undoes
/// encoding, encoding undoes decoding, and neither changes a bit.
pub proof fn lemma_codec_is_a_bijection(x: i128, fixed: Fixed128)
    ensures
        decoded(encoded(x)) == x,
        encoded(decoded(fixed)) == fixed,
        encoded(x).bits == x,
        decoded(fixed) == fixed.bits,
{
    lemma_from_be_bytes_of_be_bytes(x);
    lemma_from_be_bytes_of_be_bytes(fixed.bits);
}

/// Encodes a raw coordinate: the fixed-point number whose big-endian bytes are
/// those of `x`. Its bit pattern is that of `x`; no scaling takes place.
pub fn to_fixed(x: i128) -> (fixed: Fixed128)
    ensures
        fixed == encoded(x),
        fixed.bits == x,
{
    proof {
        lemma_from_be_bytes_of_be_bytes(x);
    }
    Fixed128::from_be_bytes(i128_to_be_bytes(x))
}

/// Decodes a fixed-point number: the raw integer whose big-endian bytes are
/// those of `fixed`.
pub fn from_fixed(fixed: Fixed128) -> (x: i128)
    ensures
        x == decoded(fixed),
        x == fixed.bits,
{
    proof {
        lemma_from_be_bytes_of_be_bytes(fixed.bits);
    }
    i128_from_be_bytes(fixed.to_be_bytes())
}

} // verus!
