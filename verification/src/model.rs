//! The mathematical state of the store, read off the byte keyspace.
//!
//! Every store operation's contract speaks of this model: the map of
//! primitive records by identifier, the hash index, the direction index, and
//! the counter. Each lemma here says how one write to the keyspace moves the
//! model: the written family changes pointwise and the other three stand
//! still.

use vstd::prelude::*;
use crate::bytes_be::spec_u64_from_be_bytes;
use crate::keys::{spec_primitive_key, spec_id_hash_key, spec_quad_direction_key};
use crate::keys::{spec_primitive_count_key, lemma_primitive_key_injective};
use crate::keys::{lemma_id_hash_key_injective, lemma_quad_direction_key_injective};
use crate::primitive::{PrimitiveContentView, PrimitiveCount, PrimitiveView};
use crate::primitive::{spec_primitive_decode, spec_count_decode, spec_content_hash};
use crate::quad::Direction;

verus! {

/// A live record in the model: its reference count and content.
#[verifier::ext_equal]
pub struct PrimEntry {
    pub refs: u64,
    pub content: PrimitiveContentView,
}

/// The abstract state of the store.
#[verifier::ext_equal]
pub struct StoreModel {
    /// Live records by identifier.
    pub prims: Map<u64, PrimEntry>,
    /// Content hash to identifier.
    pub hidx: Map<u64, u64>,
    /// Direction-index entries: (direction, value identifier, quad
    /// identifier).
    pub dirs: Set<(Direction, u64, u64)>,
    /// How many value and quad records are live.
    pub counts: PrimitiveCount,
}

/// The records held by the keyspace: an identifier is live when its record
/// key is present and the record decodes.
pub open spec fn abs_prims(m: Map<Seq<u8>, Seq<u8>>) -> Map<u64, PrimEntry> {
    Map::new(
        |id: u64|
            m.contains_key(spec_primitive_key(id)) && spec_primitive_decode(
                m[spec_primitive_key(id)],
            ) is Some && spec_primitive_decode(m[spec_primitive_key(id)])->Some_0.id == id,
        |id: u64|
            {
                let p = spec_primitive_decode(m[spec_primitive_key(id)])->Some_0;
                PrimEntry { refs: p.refs, content: p.content }
            },
    )
}

/// The hash index held by the keyspace.
pub open spec fn abs_hidx(m: Map<Seq<u8>, Seq<u8>>) -> Map<u64, u64> {
    Map::new(
        |h: u64| m.contains_key(spec_id_hash_key(h)) && m[spec_id_hash_key(h)].len() == 8,
        |h: u64| spec_u64_from_be_bytes(m[spec_id_hash_key(h)]),
    )
}

/// The direction index held by the keyspace.
pub open spec fn abs_dirs(m: Map<Seq<u8>, Seq<u8>>) -> Set<(Direction, u64, u64)> {
    Set::new(|t: (Direction, u64, u64)| m.contains_key(spec_quad_direction_key(t.1, t.0, t.2)))
}

/// The counter held by the keyspace; an absent or corrupt record counts as
/// zero.
pub open spec fn abs_counts(m: Map<Seq<u8>, Seq<u8>>) -> PrimitiveCount {
    if m.contains_key(spec_primitive_count_key()) && spec_count_decode(
        m[spec_primitive_count_key()],
    ) is Some {
        spec_count_decode(m[spec_primitive_count_key()])->Some_0
    } else {
        PrimitiveCount { values: 0, quads: 0 }
    }
}

/// The whole model of a keyspace.
pub open spec fn abs_model(m: Map<Seq<u8>, Seq<u8>>) -> StoreModel {
    StoreModel { prims: abs_prims(m), hidx: abs_hidx(m), dirs: abs_dirs(m), counts: abs_counts(m) }
}

/// The four key families never collide: their first bytes differ.
pub proof fn lemma_key_families_distinct()
    ensures
        forall|id: u64, h: u64| spec_primitive_key(id) != spec_id_hash_key(h),
        forall|id: u64, v: u64, d: Direction, q: u64|
            spec_primitive_key(id) != spec_quad_direction_key(v, d, q),
        forall|id: u64| spec_primitive_key(id) != spec_primitive_count_key(),
        forall|h: u64, v: u64, d: Direction, q: u64|
            spec_id_hash_key(h) != spec_quad_direction_key(v, d, q),
        forall|h: u64| spec_id_hash_key(h) != spec_primitive_count_key(),
        forall|v: u64, d: Direction, q: u64|
            spec_quad_direction_key(v, d, q) != spec_primitive_count_key(),
{
    assert forall|id: u64, h: u64| spec_primitive_key(id) != spec_id_hash_key(h) by {
        assert(spec_primitive_key(id)[0] == 0 && spec_id_hash_key(h)[0] == 1);
    }
    assert forall|id: u64, v: u64, d: Direction, q: u64|
        spec_primitive_key(id) != spec_quad_direction_key(v, d, q) by {
        assert(spec_primitive_key(id)[0] == 0 && spec_quad_direction_key(v, d, q)[0] == 2);
    }
    assert forall|id: u64| spec_primitive_key(id) != spec_primitive_count_key() by {
        assert(spec_primitive_key(id)[0] == 0 && spec_primitive_count_key()[0] == 255);
    }
    assert forall|h: u64, v: u64, d: Direction, q: u64|
        spec_id_hash_key(h) != spec_quad_direction_key(v, d, q) by {
        assert(spec_id_hash_key(h)[0] == 1 && spec_quad_direction_key(v, d, q)[0] == 2);
    }
    assert forall|h: u64| spec_id_hash_key(h) != spec_primitive_count_key() by {
        assert(spec_id_hash_key(h)[0] == 1 && spec_primitive_count_key()[0] == 255);
    }
    assert forall|v: u64, d: Direction, q: u64|
        spec_quad_direction_key(v, d, q) != spec_primitive_count_key() by {
        assert(spec_quad_direction_key(v, d, q)[0] == 2 && spec_primitive_count_key()[0] == 255);
    }
}

/// Writing a decodable record at a primitive key inserts that record into
/// the model's record map and moves nothing else.
pub proof fn lemma_model_put_prim(m: Map<Seq<u8>, Seq<u8>>, id: u64, bytes: Seq<u8>)
    requires
        spec_primitive_decode(bytes) is Some,
        spec_primitive_decode(bytes)->Some_0.id == id,
    ensures
        abs_model(m.insert(spec_primitive_key(id), bytes)) == (StoreModel {
            prims: abs_prims(m).insert(
                id,
                PrimEntry {
                    refs: spec_primitive_decode(bytes)->Some_0.refs,
                    content: spec_primitive_decode(bytes)->Some_0.content,
                },
            ),
            ..abs_model(m)
        }),
        kv_wf(m) ==> kv_wf(m.insert(spec_primitive_key(id), bytes)),
{
    let m2 = m.insert(spec_primitive_key(id), bytes);
    lemma_key_families_distinct();
    lemma_kv_wf_step(m, spec_primitive_key(id), bytes, true);
    let p = spec_primitive_decode(bytes)->Some_0;
    let entry = PrimEntry { refs: p.refs, content: p.content };
    assert forall|id2: u64| true implies #[trigger] m2.contains_key(spec_primitive_key(id2))
        == if id2 == id {
        true
    } else {
        m.contains_key(spec_primitive_key(id2))
    } && (m2.contains_key(spec_primitive_key(id2)) ==> m2[spec_primitive_key(id2)] == if id2 == id {
        bytes
    } else {
        m[spec_primitive_key(id2)]
    }) by {
        if id2 != id {
            lemma_prim_key_distinct(id, id2);
        }
    }
    let a2 = abs_prims(m2);
    let a1 = abs_prims(m).insert(id, entry);
    assert forall|x: u64|
        #![all_triggers]
        (a2.contains_key(x) <==> a1.contains_key(x)) && (a2.contains_key(x) ==> a2[x] == a1[x]) by {
        if x != id {
            lemma_prim_key_distinct(id, x);
        }
    }
    assert(abs_prims(m2) =~= abs_prims(m).insert(id, entry));
    assert(abs_hidx(m2) =~= abs_hidx(m));
    assert(abs_dirs(m2) =~= abs_dirs(m));
    assert(abs_counts(m2) == abs_counts(m));
    assert(abs_model(m2) =~= StoreModel { prims: abs_prims(m).insert(id, entry), ..abs_model(m) });
}

/// Distinct identifiers have distinct record keys.
pub proof fn lemma_prim_key_distinct(a: u64, b: u64)
    requires
        a != b,
    ensures
        spec_primitive_key(a) != spec_primitive_key(b),
{
    if spec_primitive_key(a) == spec_primitive_key(b) {
        lemma_primitive_key_injective(a, b);
    }
}

/// Distinct hashes have distinct hash-index keys.
pub proof fn lemma_hash_key_distinct(a: u64, b: u64)
    requires
        a != b,
    ensures
        spec_id_hash_key(a) != spec_id_hash_key(b),
{
    if spec_id_hash_key(a) == spec_id_hash_key(b) {
        lemma_id_hash_key_injective(a, b);
    }
}

/// Distinct direction-index bindings have distinct keys.
pub proof fn lemma_dir_key_distinct(v1: u64, d1: Direction, q1: u64, v2: u64, d2: Direction, q2: u64)
    requires
        !(v1 == v2 && d1 == d2 && q1 == q2),
    ensures
        spec_quad_direction_key(v1, d1, q1) != spec_quad_direction_key(v2, d2, q2),
{
    if spec_quad_direction_key(v1, d1, q1) == spec_quad_direction_key(v2, d2, q2) {
        lemma_quad_direction_key_injective(v1, d1, q1, v2, d2, q2);
    }
}

/// Deleting a primitive key removes its identifier from the model's record
/// map and moves nothing else.
pub proof fn lemma_model_del_prim(m: Map<Seq<u8>, Seq<u8>>, id: u64)
    ensures
        abs_model(m.remove(spec_primitive_key(id))) == (StoreModel {
            prims: abs_prims(m).remove(id),
            ..abs_model(m)
        }),
        kv_wf(m) ==> kv_wf(m.remove(spec_primitive_key(id))),
{
    let m2 = m.remove(spec_primitive_key(id));
    lemma_key_families_distinct();
    lemma_kv_wf_step(m, spec_primitive_key(id), Seq::empty(), false);
    assert forall|id2: u64|
        id2 != id implies #[trigger] spec_primitive_key(id2) != spec_primitive_key(id) by {
        lemma_prim_key_distinct(id, id2);
    }
    assert(abs_prims(m2) =~= abs_prims(m).remove(id));
    assert(abs_hidx(m2) =~= abs_hidx(m));
    assert(abs_dirs(m2) =~= abs_dirs(m));
    assert(abs_counts(m2) == abs_counts(m));
    assert(abs_model(m2) =~= StoreModel { prims: abs_prims(m).remove(id), ..abs_model(m) });
}

/// Writing an identifier at a hash-index key inserts that binding into the
/// model's hash index and moves nothing else.
pub proof fn lemma_model_put_hash(m: Map<Seq<u8>, Seq<u8>>, h: u64, bytes: Seq<u8>)
    requires
        bytes.len() == 8,
    ensures
        abs_model(m.insert(spec_id_hash_key(h), bytes)) == (StoreModel {
            hidx: abs_hidx(m).insert(h, spec_u64_from_be_bytes(bytes)),
            ..abs_model(m)
        }),
        kv_wf(m) ==> kv_wf(m.insert(spec_id_hash_key(h), bytes)),
{
    let m2 = m.insert(spec_id_hash_key(h), bytes);
    lemma_key_families_distinct();
    lemma_kv_wf_step(m, spec_id_hash_key(h), bytes, true);
    assert forall|h2: u64| h2 != h implies #[trigger] spec_id_hash_key(h2) != spec_id_hash_key(
        h,
    ) by {
        lemma_hash_key_distinct(h, h2);
    }
    assert(abs_prims(m2) =~= abs_prims(m));
    assert(abs_hidx(m2) =~= abs_hidx(m).insert(h, spec_u64_from_be_bytes(bytes)));
    assert(abs_dirs(m2) =~= abs_dirs(m));
    assert(abs_counts(m2) == abs_counts(m));
    assert(abs_model(m2) =~= StoreModel {
        hidx: abs_hidx(m).insert(h, spec_u64_from_be_bytes(bytes)),
        ..abs_model(m)
    });
}

/// Deleting a hash-index key removes its binding from the model's hash
/// index and moves nothing else.
pub proof fn lemma_model_del_hash(m: Map<Seq<u8>, Seq<u8>>, h: u64)
    ensures
        abs_model(m.remove(spec_id_hash_key(h))) == (StoreModel {
            hidx: abs_hidx(m).remove(h),
            ..abs_model(m)
        }),
        kv_wf(m) ==> kv_wf(m.remove(spec_id_hash_key(h))),
{
    let m2 = m.remove(spec_id_hash_key(h));
    lemma_key_families_distinct();
    lemma_kv_wf_step(m, spec_id_hash_key(h), Seq::empty(), false);
    assert forall|h2: u64| h2 != h implies #[trigger] spec_id_hash_key(h2) != spec_id_hash_key(
        h,
    ) by {
        lemma_hash_key_distinct(h, h2);
    }
    assert(abs_prims(m2) =~= abs_prims(m));
    assert(abs_hidx(m2) =~= abs_hidx(m).remove(h));
    assert(abs_dirs(m2) =~= abs_dirs(m));
    assert(abs_counts(m2) == abs_counts(m));
    assert(abs_model(m2) =~= StoreModel { hidx: abs_hidx(m).remove(h), ..abs_model(m) });
}

/// Writing a direction-index key inserts its binding into the model's
/// direction index and moves nothing else.
pub proof fn lemma_model_put_dir(
    m: Map<Seq<u8>, Seq<u8>>,
    v: u64,
    d: Direction,
    q: u64,
    bytes: Seq<u8>,
)
    ensures
        abs_model(m.insert(spec_quad_direction_key(v, d, q), bytes)) == (StoreModel {
            dirs: abs_dirs(m).insert((d, v, q)),
            ..abs_model(m)
        }),
        kv_wf(m) ==> kv_wf(m.insert(spec_quad_direction_key(v, d, q), bytes)),
{
    let m2 = m.insert(spec_quad_direction_key(v, d, q), bytes);
    lemma_key_families_distinct();
    lemma_kv_wf_step(m, spec_quad_direction_key(v, d, q), bytes, true);
    assert forall|t: (Direction, u64, u64)|
        t != (d, v, q) implies #[trigger] spec_quad_direction_key(t.1, t.0, t.2)
        != spec_quad_direction_key(v, d, q) by {
        lemma_dir_key_distinct(t.1, t.0, t.2, v, d, q);
    }
    assert(abs_prims(m2) =~= abs_prims(m));
    assert(abs_hidx(m2) =~= abs_hidx(m));
    assert(abs_dirs(m2) =~= abs_dirs(m).insert((d, v, q)));
    assert(abs_counts(m2) == abs_counts(m));
    assert(abs_model(m2) =~= StoreModel { dirs: abs_dirs(m).insert((d, v, q)), ..abs_model(m) });
}

/// Deleting a direction-index key removes its binding from the model's
/// direction index and moves nothing else.
pub proof fn lemma_model_del_dir(m: Map<Seq<u8>, Seq<u8>>, v: u64, d: Direction, q: u64)
    ensures
        abs_model(m.remove(spec_quad_direction_key(v, d, q))) == (StoreModel {
            dirs: abs_dirs(m).remove((d, v, q)),
            ..abs_model(m)
        }),
        kv_wf(m) ==> kv_wf(m.remove(spec_quad_direction_key(v, d, q))),
{
    let m2 = m.remove(spec_quad_direction_key(v, d, q));
    lemma_key_families_distinct();
    lemma_kv_wf_step(m, spec_quad_direction_key(v, d, q), Seq::empty(), false);
    assert forall|t: (Direction, u64, u64)|
        t != (d, v, q) implies #[trigger] spec_quad_direction_key(t.1, t.0, t.2)
        != spec_quad_direction_key(v, d, q) by {
        lemma_dir_key_distinct(t.1, t.0, t.2, v, d, q);
    }
    assert(abs_prims(m2) =~= abs_prims(m));
    assert(abs_hidx(m2) =~= abs_hidx(m));
    assert(abs_dirs(m2) =~= abs_dirs(m).remove((d, v, q)));
    assert(abs_counts(m2) == abs_counts(m));
    assert(abs_model(m2) =~= StoreModel { dirs: abs_dirs(m).remove((d, v, q)), ..abs_model(m) });
}

/// Writing a decodable counter record sets the model's counter and moves
/// nothing else.
pub proof fn lemma_model_put_count(m: Map<Seq<u8>, Seq<u8>>, bytes: Seq<u8>)
    requires
        spec_count_decode(bytes) is Some,
    ensures
        abs_model(m.insert(spec_primitive_count_key(), bytes)) == (StoreModel {
            counts: spec_count_decode(bytes)->Some_0,
            ..abs_model(m)
        }),
        kv_wf(m) ==> kv_wf(m.insert(spec_primitive_count_key(), bytes)),
{
    let m2 = m.insert(spec_primitive_count_key(), bytes);
    lemma_key_families_distinct();
    lemma_kv_wf_step(m, spec_primitive_count_key(), bytes, true);
    assert(abs_prims(m2) =~= abs_prims(m));
    assert(abs_hidx(m2) =~= abs_hidx(m));
    assert(abs_dirs(m2) =~= abs_dirs(m));
    assert(abs_counts(m2) == spec_count_decode(bytes)->Some_0);
    assert(abs_model(m2) =~= StoreModel {
        counts: spec_count_decode(bytes)->Some_0,
        ..abs_model(m)
    });
}

/// The identifier a record's content hash resolves to, when the hash index
/// binds it.
pub open spec fn model_hash_lookup(s: StoreModel, h: u64) -> Option<u64> {
    if s.hidx.contains_key(h) {
        Some(s.hidx[h])
    } else {
        None
    }
}

/// One write or delete preserves the structural well-formedness, provided
/// an inserted entry satisfies its own family's conditions.
pub proof fn lemma_kv_wf_step(m: Map<Seq<u8>, Seq<u8>>, key: Seq<u8>, bytes: Seq<u8>, ins: bool)
    requires
        ins ==> (exists|id: u64|
            key == spec_primitive_key(id) && (spec_primitive_decode(bytes) matches Some(p) && p.id
                == id)) || (exists|h: u64| key == spec_id_hash_key(h) && bytes.len() == 8) || (
        exists|v: u64, d: Direction, q: u64| key == spec_quad_direction_key(v, d, q)) || (key
            == spec_primitive_count_key() && spec_count_decode(bytes) is Some),
    ensures
        ins && kv_wf(m) ==> kv_wf(m.insert(key, bytes)),
        !ins && kv_wf(m) ==> kv_wf(m.remove(key)),
{
    lemma_key_families_distinct();
    if kv_wf(m) {
        if ins {
            let m2 = m.insert(key, bytes);
            assert forall|id: u64| #[trigger]
                m2.contains_key(spec_primitive_key(id)) implies spec_primitive_decode(
                m2[spec_primitive_key(id)],
            ) is Some && spec_primitive_decode(m2[spec_primitive_key(id)])->Some_0.id == id by {
                if spec_primitive_key(id) != key {
                    assert(m.contains_key(spec_primitive_key(id)));
                } else {
                    let id0 = choose|id0: u64| key == spec_primitive_key(id0) && (
                    spec_primitive_decode(bytes) matches Some(p) && p.id == id0);
                    lemma_primitive_key_injective(id, id0);
                }
            }
            assert forall|h: u64| #[trigger]
                m2.contains_key(spec_id_hash_key(h)) implies m2[spec_id_hash_key(h)].len() == 8 by {
                if spec_id_hash_key(h) != key {
                    assert(m.contains_key(spec_id_hash_key(h)));
                } else {
                    let h0 = choose|h0: u64| key == spec_id_hash_key(h0) && bytes.len() == 8;
                    lemma_id_hash_key_injective(h, h0);
                }
            }
            assert(kv_keys_wf(m2));
            assert(kv_wf(m2));
        } else {
            let m2 = m.remove(key);
            assert forall|id: u64| #[trigger]
                m2.contains_key(spec_primitive_key(id)) implies spec_primitive_decode(
                m2[spec_primitive_key(id)],
            ) is Some && spec_primitive_decode(m2[spec_primitive_key(id)])->Some_0.id == id by {
                assert(m.contains_key(spec_primitive_key(id)));
            }
            assert(kv_wf(m2));
        }
    }
}

/// The structural well-formedness the store maintains over the keyspace:
/// every present key is one of the four families, every primitive record
/// decodes and names its own key's identifier, every hash entry is eight
/// bytes, and the counter record decodes.
pub open spec fn kv_wf(m: Map<Seq<u8>, Seq<u8>>) -> bool {
    &&& kv_keys_wf(m)
    &&& forall|id: u64| #[trigger]
        m.contains_key(spec_primitive_key(id)) ==> spec_primitive_decode(m[spec_primitive_key(id)])
            is Some && spec_primitive_decode(m[spec_primitive_key(id)])->Some_0.id == id
    &&& forall|h: u64| #[trigger]
        m.contains_key(spec_id_hash_key(h)) ==> m[spec_id_hash_key(h)].len() == 8
    &&& m.contains_key(spec_primitive_count_key()) ==> spec_count_decode(
        m[spec_primitive_count_key()],
    ) is Some
}

/// Every present key is one of the four families in its exact shape.
pub open spec fn kv_keys_wf(m: Map<Seq<u8>, Seq<u8>>) -> bool {
    forall|k: Seq<u8>| #[trigger]
        m.contains_key(k) ==> (exists|id: u64| k == spec_primitive_key(id)) || (exists|h: u64|
            k == spec_id_hash_key(h)) || (exists|v: u64, d: Direction, q: u64|
            k == spec_quad_direction_key(v, d, q)) || k == spec_primitive_count_key()
}

} // verus!
