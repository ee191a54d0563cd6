//! Big-endian encoding of 64-bit integers.
//!
//! Every persistent key and record in this crate stores its integers as eight
//! bytes, most significant first, so that unsigned numeric order agrees with
//! byte-lexicographic order of the encodings.

use vstd::prelude::*;

verus! {

/// The eight big-endian bytes of `x`, most significant first.
pub open spec fn spec_u64_to_be_bytes(x: u64) -> Seq<u8> {
    seq![
        ((x >> 56) & 0xff) as u8,
        ((x >> 48) & 0xff) as u8,
        ((x >> 40) & 0xff) as u8,
        ((x >> 32) & 0xff) as u8,
        ((x >> 24) & 0xff) as u8,
        ((x >> 16) & 0xff) as u8,
        ((x >> 8) & 0xff) as u8,
        (x & 0xff) as u8,
    ]
}

/// The integer read back from eight big-endian bytes.
pub open spec fn spec_u64_from_be_bytes(s: Seq<u8>) -> u64
    recommends
        s.len() == 8,
{
    (((s[0] as u64) << 56) | ((s[1] as u64) << 48) | ((s[2] as u64) << 40) | ((s[3] as u64) << 32)
        | ((s[4] as u64) << 24) | ((s[5] as u64) << 16) | ((s[6] as u64) << 8) | (s[7] as u64)) as u64
}

/// Decoding inverts encoding, so the encoding is injective.
pub proof fn lemma_u64_be_bytes_round_trip(x: u64)
    ensures
        spec_u64_from_be_bytes(spec_u64_to_be_bytes(x)) == x,
{
    assert((((((x >> 56) & 0xff) as u8) as u64) << 56 | ((((x >> 48) & 0xff) as u8) as u64) << 48
        | ((((x >> 40) & 0xff) as u8) as u64) << 40 | ((((x >> 32) & 0xff) as u8) as u64) << 32
        | ((((x >> 24) & 0xff) as u8) as u64) << 24 | ((((x >> 16) & 0xff) as u8) as u64) << 16
        | ((((x >> 8) & 0xff) as u8) as u64) << 8 | (((x & 0xff) as u8) as u64)) == x)
        by (bit_vector);
}

/// Two integers with the same encoding are equal.
pub proof fn lemma_u64_be_bytes_injective(x: u64, y: u64)
    requires
        spec_u64_to_be_bytes(x) == spec_u64_to_be_bytes(y),
    ensures
        x == y,
{
    lemma_u64_be_bytes_round_trip(x);
    lemma_u64_be_bytes_round_trip(y);
}

/// Re-encoding the integer read from any eight bytes gives those bytes
/// back.
pub proof fn lemma_u64_be_bytes_complete(s: Seq<u8>)
    requires
        s.len() == 8,
    ensures
        spec_u64_to_be_bytes(spec_u64_from_be_bytes(s)) == s,
{
    let b0 = s[0];
    let b1 = s[1];
    let b2 = s[2];
    let b3 = s[3];
    let b4 = s[4];
    let b5 = s[5];
    let b6 = s[6];
    let b7 = s[7];
    let x = spec_u64_from_be_bytes(s);
    assert({
        let y = (((b0 as u64) << 56) | ((b1 as u64) << 48) | ((b2 as u64) << 40) | ((b3 as u64)
            << 32) | ((b4 as u64) << 24) | ((b5 as u64) << 16) | ((b6 as u64) << 8) | (
        b7 as u64)) as u64;
        ((y >> 56) & 0xff) as u8 == b0 && ((y >> 48) & 0xff) as u8 == b1 && ((y >> 40) & 0xff) as u8
            == b2 && ((y >> 32) & 0xff) as u8 == b3 && ((y >> 24) & 0xff) as u8 == b4 && ((y >> 16)
            & 0xff) as u8 == b5 && ((y >> 8) & 0xff) as u8 == b6 && (y & 0xff) as u8 == b7
    }) by (bit_vector);
    assert(spec_u64_to_be_bytes(x) =~= s);
}

/// Appends the eight big-endian bytes of `x` to `buff`.
pub fn write_u64_be(buff: &mut Vec<u8>, x: u64)
    ensures
        final(buff)@ == old(buff)@ + spec_u64_to_be_bytes(x),
{
    buff.push(((x >> 56) & 0xff) as u8);
    buff.push(((x >> 48) & 0xff) as u8);
    buff.push(((x >> 40) & 0xff) as u8);
    buff.push(((x >> 32) & 0xff) as u8);
    buff.push(((x >> 24) & 0xff) as u8);
    buff.push(((x >> 16) & 0xff) as u8);
    buff.push(((x >> 8) & 0xff) as u8);
    buff.push((x & 0xff) as u8);
    assert(buff@ =~= old(buff)@ + spec_u64_to_be_bytes(x)) by {
        assert(buff@.len() == old(buff)@.len() + 8);
    }
}

/// The eight big-endian bytes of `x` as a fresh vector.
pub fn u64_to_be_vec(x: u64) -> (r: Vec<u8>)
    ensures
        r@ == spec_u64_to_be_bytes(x),
{
    let mut v: Vec<u8> = Vec::new();
    write_u64_be(&mut v, x);
    assert(v@ =~= spec_u64_to_be_bytes(x));
    v
}

/// Reads the integer stored big-endian in `bytes[at .. at + 8]`.
pub fn read_u64_be(bytes: &[u8], at: usize) -> (r: u64)
    requires
        at + 8 <= bytes@.len(),
    ensures
        r == spec_u64_from_be_bytes(bytes@.subrange(at as int, at + 8)),
{
    let r = ((bytes[at] as u64) << 56) | ((bytes[at + 1] as u64) << 48)
        | ((bytes[at + 2] as u64) << 40) | ((bytes[at + 3] as u64) << 32)
        | ((bytes[at + 4] as u64) << 24) | ((bytes[at + 5] as u64) << 16)
        | ((bytes[at + 6] as u64) << 8) | (bytes[at + 7] as u64);
    let ghost s = bytes@.subrange(at as int, at + 8);
    assert(s[0] == bytes@[at as int] && s[1] == bytes@[at + 1] && s[2] == bytes@[at + 2] && s[3]
        == bytes@[at + 3] && s[4] == bytes@[at + 4] && s[5] == bytes@[at + 5] && s[6] == bytes@[at
        + 6] && s[7] == bytes@[at + 7]);
    r
}

} // verus!
