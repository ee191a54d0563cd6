//! The byte layout of the single ordered keyspace.
//!
//! Every key starts with a one-byte family prefix. Primitive records come
//! first so a scan from the start of the keyspace walks them before anything
//! else; big-endian bodies make numeric order agree with byte order.

use vstd::prelude::*;
use crate::bytes_be::{spec_u64_to_be_bytes, spec_u64_from_be_bytes, write_u64_be, read_u64_be};
use crate::bytes_be::{lemma_u64_be_bytes_round_trip, u64_to_be_vec};
use crate::quad::Direction;

verus! {

/// Family prefix of primitive records.
pub const PRIMITIVE_KEY_PREFIX: u8 = 0;

/// Family prefix of hash-index entries.
pub const ID_HASH_INDEX_PREFIX: u8 = 1;

/// Family prefix of direction-index entries.
pub const QUAD_DIRECTION_KEY_PREFIX: u8 = 2;

/// The single-byte key of the counter record.
pub const PRIMITIVE_COUNT_KEY: u8 = 255;

/// The key of the primitive record with the given identifier.
pub open spec fn spec_primitive_key(id: u64) -> Seq<u8> {
    seq![PRIMITIVE_KEY_PREFIX] + spec_u64_to_be_bytes(id)
}

/// The key of the hash-index entry for the given content hash.
pub open spec fn spec_id_hash_key(hash: u64) -> Seq<u8> {
    seq![ID_HASH_INDEX_PREFIX] + spec_u64_to_be_bytes(hash)
}

/// The key of the direction-index entry binding a value to a quad in a
/// direction.
pub open spec fn spec_quad_direction_key(value_id: u64, d: Direction, quad_id: u64) -> Seq<u8> {
    seq![QUAD_DIRECTION_KEY_PREFIX, d.spec_to_byte()] + spec_u64_to_be_bytes(value_id)
        + spec_u64_to_be_bytes(quad_id)
}

/// The key of the counter record.
pub open spec fn spec_primitive_count_key() -> Seq<u8> {
    seq![PRIMITIVE_COUNT_KEY]
}

/// The key of the primitive record with the given identifier.
pub fn primitive_key(id: u64) -> (r: Vec<u8>)
    ensures
        r@ == spec_primitive_key(id),
{
    let mut v: Vec<u8> = Vec::new();
    v.push(PRIMITIVE_KEY_PREFIX);
    write_u64_be(&mut v, id);
    assert(v@ =~= spec_primitive_key(id));
    v
}

/// The key of the hash-index entry for the given content hash.
pub fn id_hash_key(hash: u64) -> (r: Vec<u8>)
    ensures
        r@ == spec_id_hash_key(hash),
{
    let mut v: Vec<u8> = Vec::new();
    v.push(ID_HASH_INDEX_PREFIX);
    write_u64_be(&mut v, hash);
    assert(v@ =~= spec_id_hash_key(hash));
    v
}

/// The key of the direction-index entry binding a value to a quad in a
/// direction.
pub fn quad_direction_key(value_id: u64, direction: &Direction, quad_id: u64) -> (r: Vec<u8>)
    ensures
        r@ == spec_quad_direction_key(value_id, *direction, quad_id),
{
    let mut v: Vec<u8> = Vec::new();
    v.push(QUAD_DIRECTION_KEY_PREFIX);
    v.push(direction.to_byte());
    write_u64_be(&mut v, value_id);
    write_u64_be(&mut v, quad_id);
    assert(v@ =~= spec_quad_direction_key(value_id, *direction, quad_id));
    v
}

/// The key of the counter record.
pub fn primitive_count_key() -> (r: Vec<u8>)
    ensures
        r@ == spec_primitive_count_key(),
{
    let mut v: Vec<u8> = Vec::new();
    v.push(PRIMITIVE_COUNT_KEY);
    assert(v@ =~= spec_primitive_count_key());
    v
}

/// The fields read back from a direction-index key.
pub open spec fn spec_decode_quad_direction_key(bytes: Seq<u8>) -> (u64, Direction, u64)
    recommends
        bytes.len() == 18,
{
    let d = if bytes[1] == 1 {
        Direction::Subject
    } else if bytes[1] == 2 {
        Direction::Predicate
    } else if bytes[1] == 3 {
        Direction::Object
    } else {
        Direction::Label
    };
    (spec_u64_from_be_bytes(bytes.subrange(2, 10)), d, spec_u64_from_be_bytes(bytes.subrange(10, 18)))
}

/// Reads the fields back from a well-shaped direction-index key.
pub fn decode_quad_direction_key(bytes: &[u8]) -> (r: (u64, Direction, u64))
    requires
        bytes@.len() == 18,
        bytes@[0] == QUAD_DIRECTION_KEY_PREFIX,
        1 <= bytes@[1] <= 4,
    ensures
        r == spec_decode_quad_direction_key(bytes@),
{
    let direction = match Direction::from_byte(bytes[1]) {
        Some(d) => d,
        None => unreached(),
    };
    let value_id = read_u64_be(bytes, 2);
    let quad_id = read_u64_be(bytes, 10);
    (value_id, direction, quad_id)
}

/// Decoding a direction-index key inverts encoding it, for every value
/// identifier, direction, and quad identifier.
pub proof fn lemma_quad_direction_key_round_trip(value_id: u64, d: Direction, quad_id: u64)
    ensures
        spec_decode_quad_direction_key(spec_quad_direction_key(value_id, d, quad_id)) == (
        value_id,
        d,
        quad_id,
        ),
{
    let b = spec_quad_direction_key(value_id, d, quad_id);
    assert(b.subrange(2, 10) =~= spec_u64_to_be_bytes(value_id));
    assert(b.subrange(10, 18) =~= spec_u64_to_be_bytes(quad_id));
    lemma_u64_be_bytes_round_trip(value_id);
    lemma_u64_be_bytes_round_trip(quad_id);
}

/// Big-endian encoding keeps numeric order: the encodings of two integers
/// compare byte-lexicographically as the integers compare.
pub proof fn lemma_be_bytes_order(a: u64, b: u64)
    requires
        a < b,
    ensures
        crate::kv::lex_lt(spec_u64_to_be_bytes(a), spec_u64_to_be_bytes(b)),
{
    let x = spec_u64_to_be_bytes(a);
    let y = spec_u64_to_be_bytes(b);
    assert(a < b ==> {
        ||| ((a >> 56) & 0xff) < ((b >> 56) & 0xff)
        ||| (((a >> 56) & 0xff) == ((b >> 56) & 0xff) && {
            ||| ((a >> 48) & 0xff) < ((b >> 48) & 0xff)
            ||| (((a >> 48) & 0xff) == ((b >> 48) & 0xff) && {
                ||| ((a >> 40) & 0xff) < ((b >> 40) & 0xff)
                ||| (((a >> 40) & 0xff) == ((b >> 40) & 0xff) && {
                    ||| ((a >> 32) & 0xff) < ((b >> 32) & 0xff)
                    ||| (((a >> 32) & 0xff) == ((b >> 32) & 0xff) && {
                        ||| ((a >> 24) & 0xff) < ((b >> 24) & 0xff)
                        ||| (((a >> 24) & 0xff) == ((b >> 24) & 0xff) && {
                            ||| ((a >> 16) & 0xff) < ((b >> 16) & 0xff)
                            ||| (((a >> 16) & 0xff) == ((b >> 16) & 0xff) && {
                                ||| ((a >> 8) & 0xff) < ((b >> 8) & 0xff)
                                ||| (((a >> 8) & 0xff) == ((b >> 8) & 0xff) && (a & 0xff) < (b
                                    & 0xff))
                            })
                        })
                    })
                })
            })
        })
    }) by (bit_vector);
    assert((a >> 56) & 0xff <= 0xff && (a >> 48) & 0xff <= 0xff && (a >> 40) & 0xff <= 0xff && (a
        >> 32) & 0xff <= 0xff && (a >> 24) & 0xff <= 0xff && (a >> 16) & 0xff <= 0xff && (a >> 8)
        & 0xff <= 0xff && a & 0xff <= 0xff) by (bit_vector);
    assert((b >> 56) & 0xff <= 0xff && (b >> 48) & 0xff <= 0xff && (b >> 40) & 0xff <= 0xff && (b
        >> 32) & 0xff <= 0xff && (b >> 24) & 0xff <= 0xff && (b >> 16) & 0xff <= 0xff && (b >> 8)
        & 0xff <= 0xff && b & 0xff <= 0xff) by (bit_vector);
    if x[0] != y[0] {
        crate::kv::lemma_lex_from_prefix(x, y, 0);
    } else if x[1] != y[1] {
        crate::kv::lemma_lex_from_prefix(x, y, 1);
    } else if x[2] != y[2] {
        crate::kv::lemma_lex_from_prefix(x, y, 2);
    } else if x[3] != y[3] {
        crate::kv::lemma_lex_from_prefix(x, y, 3);
    } else if x[4] != y[4] {
        crate::kv::lemma_lex_from_prefix(x, y, 4);
    } else if x[5] != y[5] {
        crate::kv::lemma_lex_from_prefix(x, y, 5);
    } else if x[6] != y[6] {
        crate::kv::lemma_lex_from_prefix(x, y, 6);
    } else if x[7] != y[7] {
        crate::kv::lemma_lex_from_prefix(x, y, 7);
    } else {
        assert(x =~= y);
        lemma_u64_be_bytes_round_trip(a);
        lemma_u64_be_bytes_round_trip(b);
    }
}

/// Direction-index keys with one value and direction compare as their quad
/// identifiers compare.
pub proof fn lemma_dir_key_order(value_id: u64, d: Direction, q1: u64, q2: u64)
    requires
        q1 < q2,
    ensures
        crate::kv::lex_lt(
            spec_quad_direction_key(value_id, d, q1),
            spec_quad_direction_key(value_id, d, q2),
        ),
{
    let p = seq![QUAD_DIRECTION_KEY_PREFIX, d.spec_to_byte()] + spec_u64_to_be_bytes(value_id);
    assert(spec_quad_direction_key(value_id, d, q1) =~= p + spec_u64_to_be_bytes(q1));
    assert(spec_quad_direction_key(value_id, d, q2) =~= p + spec_u64_to_be_bytes(q2));
    lemma_be_bytes_order(q1, q2);
    crate::kv::lemma_lex_concat(p, spec_u64_to_be_bytes(q1), spec_u64_to_be_bytes(q2));
}

/// Primitive keys compare as their identifiers compare.
pub proof fn lemma_primitive_key_order(id1: u64, id2: u64)
    requires
        id1 < id2,
    ensures
        crate::kv::lex_lt(spec_primitive_key(id1), spec_primitive_key(id2)),
{
    let p = seq![PRIMITIVE_KEY_PREFIX];
    assert(spec_primitive_key(id1) =~= p + spec_u64_to_be_bytes(id1));
    assert(spec_primitive_key(id2) =~= p + spec_u64_to_be_bytes(id2));
    lemma_be_bytes_order(id1, id2);
    crate::kv::lemma_lex_concat(p, spec_u64_to_be_bytes(id1), spec_u64_to_be_bytes(id2));
}

/// Equal primitive keys name equal identifiers.
pub proof fn lemma_primitive_key_injective(a: u64, b: u64)
    requires
        spec_primitive_key(a) == spec_primitive_key(b),
    ensures
        a == b,
{
    assert(spec_primitive_key(a).skip(1) =~= spec_u64_to_be_bytes(a));
    assert(spec_primitive_key(b).skip(1) =~= spec_u64_to_be_bytes(b));
    lemma_u64_be_bytes_round_trip(a);
    lemma_u64_be_bytes_round_trip(b);
}

/// Equal hash-index keys name equal hashes.
pub proof fn lemma_id_hash_key_injective(a: u64, b: u64)
    requires
        spec_id_hash_key(a) == spec_id_hash_key(b),
    ensures
        a == b,
{
    assert(spec_id_hash_key(a).skip(1) =~= spec_u64_to_be_bytes(a));
    assert(spec_id_hash_key(b).skip(1) =~= spec_u64_to_be_bytes(b));
    lemma_u64_be_bytes_round_trip(a);
    lemma_u64_be_bytes_round_trip(b);
}

/// Equal direction-index keys name equal bindings.
pub proof fn lemma_quad_direction_key_injective(
    v1: u64,
    d1: Direction,
    q1: u64,
    v2: u64,
    d2: Direction,
    q2: u64,
)
    requires
        spec_quad_direction_key(v1, d1, q1) == spec_quad_direction_key(v2, d2, q2),
    ensures
        v1 == v2 && d1 == d2 && q1 == q2,
{
    lemma_quad_direction_key_round_trip(v1, d1, q1);
    lemma_quad_direction_key_round_trip(v2, d2, q2);
}

} // verus!
