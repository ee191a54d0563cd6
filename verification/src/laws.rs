//! The store's global invariants and the laws that follow from them.

use vstd::prelude::*;
use crate::all_iterator::kind_matches;
use crate::model::{StoreModel, PrimEntry};
use crate::primitive::{PrimitiveContentView, PrimitiveCount, spec_content_hash};
use crate::quad::{Direction, QuadView, InternalQuad};
use crate::value::{ValueView, spec_value_hash};
use crate::quadstore::{spec_resolve_val_add, spec_resolve_dir_add, spec_resolve_quad_add};
use crate::quadstore::{spec_add_primitive, spec_resolve_quad_ro, spec_resolve_val_ro};
use crate::quadstore::{spec_add_quad, spec_resolve_quad_ro_default, spec_find_quad};
use crate::quadstore::{spec_delete, spec_remove_primitive, spec_delete_node_step};
use crate::quadstore::spec_delete_quad_nodes;

verus! {

/// The invariants of a well-formed store state: identifiers are assigned
/// from one and never exceed the counter total; the hash index and the
/// record map name each other exactly; every live record carries at least
/// one reference and a quad record exactly one; the direction index holds
/// exactly the assigned slots of live quad records; and every assigned
/// slot names a live value record.
pub open spec fn model_wf(s: StoreModel) -> bool {
    &&& s.counts.values + s.counts.quads <= u64::MAX
    &&& forall|id: u64| #[trigger]
        s.prims.contains_key(id) ==> 1 <= id <= s.counts.values + s.counts.quads
    &&& forall|id: u64| #[trigger]
        s.prims.contains_key(id) ==> s.hidx.contains_key(spec_content_hash(s.prims[id].content))
            && s.hidx[spec_content_hash(s.prims[id].content)] == id
    &&& forall|h: u64| #[trigger]
        s.hidx.contains_key(h) ==> s.prims.contains_key(s.hidx[h]) && spec_content_hash(
            s.prims[s.hidx[h]].content,
        ) == h
    &&& forall|id: u64| #[trigger] s.prims.contains_key(id) ==> s.prims[id].refs >= 1
    &&& forall|id: u64|
        s.prims.contains_key(id) && (#[trigger] s.prims[id].content) is InternalQuad
            ==> s.prims[id].refs == 1
    &&& forall|t: (Direction, u64, u64)| #[trigger]
        s.dirs.contains(t) ==> t.1 != 0 && s.prims.contains_key(t.2) && s.prims[t.2].content
            is InternalQuad && s.prims[t.2].content->InternalQuad_0.spec_dir(&t.0) == t.1
    &&& forall|id: u64, d: Direction|
        s.prims.contains_key(id) && (#[trigger] s.prims[id].content) is InternalQuad && (
        #[trigger] s.prims[id].content->InternalQuad_0.spec_dir(&d)) != 0 ==> s.dirs.contains(
            (d, s.prims[id].content->InternalQuad_0.spec_dir(&d), id),
        )
    &&& forall|id: u64, d: Direction|
        s.prims.contains_key(id) && (#[trigger] s.prims[id].content) is InternalQuad && (
        #[trigger] s.prims[id].content->InternalQuad_0.spec_dir(&d)) != 0 ==> s.prims.contains_key(
            s.prims[id].content->InternalQuad_0.spec_dir(&d),
        ) && s.prims[s.prims[id].content->InternalQuad_0.spec_dir(&d)].content is Value
}

/// Scan completeness: in a well-formed store, the direction index binds a
/// value and direction to exactly the identifiers of the live quad records
/// holding that value in that direction. The direction scan and the
/// `QuadIds` shape built from it therefore enumerate exactly that set,
/// ascending and without duplicates.
pub proof fn lemma_scan_completeness(s: StoreModel, d: Direction, v: u64)
    requires
        model_wf(s),
        v != 0,
    ensures
        forall|q: u64| #[trigger]
            s.dirs.contains((d, v, q)) <==> s.prims.contains_key(q) && s.prims[q].content
                is InternalQuad && s.prims[q].content->InternalQuad_0.spec_dir(&d) == v,
{
    assert forall|q: u64|
        s.prims.contains_key(q) && s.prims[q].content is InternalQuad
            && s.prims[q].content->InternalQuad_0.spec_dir(&d) == v implies #[trigger] s.dirs.contains(
        (d, v, q),
    ) by {
        assert(s.prims[q].content->InternalQuad_0.spec_dir(&d) != 0);
    }
}

/// What resolving one direction with interning does to a well-formed
/// state: well-formedness is kept, nothing is removed or rebound, the
/// direction index and every record's content stand still, and afterwards
/// the hash index binds the value's hash to the identifier handed back.
pub proof fn lemma_dir_add_effects(s: StoreModel, v: ValueView)
    requires
        model_wf(s),
        v.wf(),
        spec_resolve_dir_add(s, v) is Ok,
    ensures
        model_wf(spec_resolve_dir_add(s, v)->Ok_0.0),
        ({
            let (s2, i) = spec_resolve_dir_add(s, v)->Ok_0;
            &&& forall|h0: u64| #[trigger]
                s.hidx.contains_key(h0) ==> s2.hidx.contains_key(h0) && s2.hidx[h0] == s.hidx[h0]
            &&& forall|id0: u64| #[trigger]
                s.prims.contains_key(id0) ==> s2.prims.contains_key(id0) && s2.prims[id0].content
                    == s.prims[id0].content
            &&& s2.dirs == s.dirs
            &&& s.counts.values + s.counts.quads <= s2.counts.values + s2.counts.quads
            &&& (!(v is Undefined) ==> s2.hidx.contains_key(spec_value_hash(v))
                && s2.hidx[spec_value_hash(v)] == i && s2.prims.contains_key(i)
                && s2.prims[i].content is Value)
            &&& (v is Undefined ==> s2 == s && i == 0)
        }),
{
    reveal(spec_resolve_val_add);
    reveal(spec_add_primitive);
    if v is Undefined {
    } else {
        let h = spec_value_hash(v);
        let (s2, i) = spec_resolve_dir_add(s, v)->Ok_0;
        if s.hidx.contains_key(h) && s.prims.contains_key(s.hidx[h]) {
            let id = s.hidx[h];
            assert(spec_content_hash(s.prims[id].content) == h);
            assert(model_wf(s2)) by {
                assert(forall|id0: u64| #[trigger]
                    s2.prims.contains_key(id0) ==> s.prims.contains_key(id0));
            }
        } else {
            let total2 = (s.counts.values + s.counts.quads + 1) as u64;
            assert(i == total2);
            assert(!s.prims.contains_key(i));
            assert(spec_content_hash(PrimitiveContentView::Value(v)) == h);
            assert(model_wf(s2)) by {
                assert(forall|id0: u64| #[trigger]
                    s2.prims.contains_key(id0) ==> id0 == i || s.prims.contains_key(id0));
                assert(forall|h0: u64| #[trigger]
                    s2.hidx.contains_key(h0) ==> h0 == h || s.hidx.contains_key(h0));
            }
        }
    }
}

/// What resolving a whole quad with interning does to a well-formed state,
/// direction by direction: well-formedness is kept, nothing is removed or
/// rebound, and afterwards the quad resolves without interning to exactly
/// the tuple handed back.
pub proof fn lemma_resolve_quad_add_effects(s: StoreModel, q: QuadView)
    requires
        model_wf(s),
        q.wf(),
        spec_resolve_quad_add(s, q) is Ok,
    ensures
        model_wf(spec_resolve_quad_add(s, q)->Ok_0.0),
        ({
            let (s4, p) = spec_resolve_quad_add(s, q)->Ok_0;
            &&& forall|h0: u64| #[trigger]
                s.hidx.contains_key(h0) ==> s4.hidx.contains_key(h0) && s4.hidx[h0] == s.hidx[h0]
            &&& forall|id0: u64| #[trigger]
                s.prims.contains_key(id0) ==> s4.prims.contains_key(id0) && s4.prims[id0].content
                    == s.prims[id0].content
            &&& s4.dirs == s.dirs
            &&& spec_resolve_quad_ro(s4, q) == Some(p)
            &&& forall|d: Direction| #[trigger]
                p.spec_dir(&d) != 0 ==> s4.prims.contains_key(p.spec_dir(&d))
                    && s4.prims[p.spec_dir(&d)].content is Value
            &&& forall|d: Direction| (#[trigger] p.spec_dir(&d) == 0) <==> q.dir(d) is Undefined
        }),
{
    reveal(spec_resolve_val_ro);
    reveal(spec_resolve_quad_ro);
    let (s1, i1) = spec_resolve_dir_add(s, q.subject)->Ok_0;
    lemma_dir_add_effects(s, q.subject);
    let (s2, i2) = spec_resolve_dir_add(s1, q.predicate)->Ok_0;
    lemma_dir_add_effects(s1, q.predicate);
    let (s3, i3) = spec_resolve_dir_add(s2, q.object)->Ok_0;
    lemma_dir_add_effects(s2, q.object);
    let (s4, i4) = spec_resolve_dir_add(s3, q.label)->Ok_0;
    lemma_dir_add_effects(s3, q.label);
    let p = spec_resolve_quad_add(s, q)->Ok_0.1;
    assert(p == InternalQuad { s: i1, p: i2, o: i3, l: i4 });
    assert(!(q.subject is Undefined) ==> s4.hidx.contains_key(spec_value_hash(q.subject))
        && s4.hidx[spec_value_hash(q.subject)] == i1 && s4.prims.contains_key(i1));
    assert(!(q.subject is Undefined) ==> i1 != 0 && s4.prims[i1].content is Value);
    assert(!(q.predicate is Undefined) ==> i2 != 0 && s4.prims[i2].content is Value);
    assert(!(q.object is Undefined) ==> i3 != 0 && s4.prims[i3].content is Value);
    assert(!(q.label is Undefined) ==> i4 != 0 && s4.prims[i4].content is Value);
    assert(spec_resolve_quad_ro(s4, q) == Some(p));
    assert forall|d: Direction| (#[trigger] p.spec_dir(&d) == 0) <==> q.dir(d) is Undefined by {
        match d {
            Direction::Subject => {},
            Direction::Predicate => {},
            Direction::Object => {},
            Direction::Label => {},
        }
    }
    assert forall|d: Direction| #[trigger]
        p.spec_dir(&d) != 0 implies s4.prims.contains_key(p.spec_dir(&d)) && s4.prims[p.spec_dir(
        &d,
    )].content is Value by {
        match d {
            Direction::Subject => {},
            Direction::Predicate => {},
            Direction::Object => {},
            Direction::Label => {},
        }
    }
}

/// Insertion idempotence: adding a quad a second time to the state the
/// first add produced answers the same identifier and moves nothing: no
/// record, no reference count, no index entry, and no counter.
pub proof fn lemma_add_idempotent(s: StoreModel, q: QuadView)
    requires
        model_wf(s),
        q.wf(),
        spec_add_quad(s, q) is Ok,
    ensures
        ({
            let (s1, id) = spec_add_quad(s, q)->Ok_0;
            spec_add_quad(s1, q) == Ok::<_, StoreModel>((s1, id))
        }),
{
    reveal(spec_add_quad);
    reveal(spec_resolve_val_ro);
    reveal(spec_resolve_quad_ro);
    reveal(spec_add_primitive);
    let (s1, id) = spec_add_quad(s, q)->Ok_0;
    let p0 = spec_resolve_quad_ro_default(s, q);
    let h0 = p0.spec_hash();
    if s.hidx.contains_key(h0) && s.prims.contains_key(s.hidx[h0]) {
        assert(s1 == s && id == s.hidx[h0]);
    } else {
        let (sr, p) = spec_resolve_quad_add(s, q)->Ok_0;
        lemma_resolve_quad_add_effects(s, q);
        let hq = spec_content_hash(PrimitiveContentView::InternalQuad(p));
        let (s2, id2) = spec_add_primitive(sr, PrimitiveContentView::InternalQuad(p))->Ok_0;
        assert(id == id2);
        assert(!sr.hidx.contains_key(hq));
        assert(!sr.prims.contains_key(id2)) by {
            assert(model_wf(sr));
        }
        // the quad record and its hash entry are fresh, so the values'
        // bindings survive into the final state
        assert(forall|h3: u64| #[trigger]
            sr.hidx.contains_key(h3) ==> s2.hidx.contains_key(h3) && s2.hidx[h3] == sr.hidx[h3]);
        assert(forall|id3: u64| #[trigger]
            sr.prims.contains_key(id3) ==> s2.prims.contains_key(id3) && s2.prims[id3].content
                == sr.prims[id3].content);
        assert(s1.hidx == s2.hidx && s1.prims == s2.prims);
        assert(spec_resolve_quad_ro(s1, q) == Some(p)) by {
            assert(spec_resolve_quad_ro(sr, q) == Some(p));
        }
        assert(spec_resolve_quad_ro_default(s1, q) == p);
        assert(p.spec_hash() == hq);
        assert(s1.hidx.contains_key(hq) && s1.hidx[hq] == id && s1.prims.contains_key(id));
        assert(spec_add_quad(s1, q) == Ok::<_, StoreModel>((s1, id)));
    }
}

/// What one interning step looks like exactly: the absent value changes
/// nothing, a hit bumps one reference, and a miss interns a fresh record
/// under the next identifier.
proof fn lemma_dir_add_exact(s: StoreModel, v: ValueView)
    requires
        spec_resolve_dir_add(s, v) is Ok,
    ensures
        ({
            let (s2, i) = spec_resolve_dir_add(s, v)->Ok_0;
            if v is Undefined {
                s2 == s && i == 0
            } else {
                let h = spec_value_hash(v);
                if s.hidx.contains_key(h) && s.prims.contains_key(s.hidx[h]) {
                    &&& i == s.hidx[h]
                    &&& s.prims[i].content is Value
                    &&& s.prims[i].refs < u64::MAX
                    &&& s2 == (StoreModel {
                        prims: s.prims.insert(
                            i,
                            PrimEntry {
                                refs: (s.prims[i].refs + 1) as u64,
                                content: s.prims[i].content,
                            },
                        ),
                        ..s
                    })
                } else {
                    &&& !s.hidx.contains_key(h)
                    &&& s.counts.values + s.counts.quads < u64::MAX
                    &&& i == s.counts.values + s.counts.quads + 1
                    &&& s2 == (StoreModel {
                        prims: s.prims.insert(
                            i,
                            PrimEntry { refs: 1, content: PrimitiveContentView::Value(v) },
                        ),
                        hidx: s.hidx.insert(h, i),
                        dirs: s.dirs,
                        counts: PrimitiveCount {
                            values: (s.counts.values + 1) as u64,
                            quads: s.counts.quads,
                        },
                    })
                }
            }
        }),
{
    reveal(spec_resolve_val_add);
    reveal(spec_add_primitive);
}

/// Whether a quad's assigned values are pairwise distinct in content
/// hash: each direction then resolves independently of the others.
pub open spec fn distinct_value_hashes(q: QuadView) -> bool {
    forall|d1: Direction, d2: Direction|
        d1 != d2 && !(q.dir(d1) is Undefined) && !(q.dir(d2) is Undefined) ==> spec_value_hash(
            #[trigger] q.dir(d1),
        ) != spec_value_hash(#[trigger] q.dir(d2))
}

/// Deleting a quad that was just added undoes the add exactly: the state
/// after `add(Q); delete(Q)` is the state before, record for record,
/// index entry for index entry, and count for count. Two provisos: the
/// add was not a duplicate (re-adding a stored quad changes nothing, so
/// the delete that follows removes it outright), and the quad's assigned
/// values carry pairwise distinct content hashes (a value repeated across
/// directions has its references moved twice in each pass; the passes
/// still cancel, but that case is not covered here).
#[verifier::rlimit(100)]
#[verifier::spinoff_prover]
pub proof fn lemma_delete_inverts_add(s: StoreModel, q: QuadView)
    requires
        model_wf(s),
        q.wf(),
        distinct_value_hashes(q),
        spec_add_quad(s, q) is Ok,
        !({
            let p0 = spec_resolve_quad_ro_default(s, q);
            s.hidx.contains_key(p0.spec_hash()) && s.prims.contains_key(s.hidx[p0.spec_hash()])
        }),
    ensures
        ({
            let (s1, id) = spec_add_quad(s, q)->Ok_0;
            &&& spec_find_quad(s1, q) == Some(id)
            &&& spec_delete(s1, id) == Ok::<_, StoreModel>((s, true))
        }),
{
    reveal(spec_add_quad);
    reveal(spec_resolve_val_ro);
    reveal(spec_resolve_quad_ro);
    reveal(spec_find_quad);
    reveal(spec_add_primitive);
    reveal(spec_remove_primitive);
    reveal(spec_delete);
    let (s1, id) = spec_add_quad(s, q)->Ok_0;
    let (sr, p) = spec_resolve_quad_add(s, q)->Ok_0;
    lemma_resolve_quad_add_effects(s, q);
    let (a1, i1) = spec_resolve_dir_add(s, q.subject)->Ok_0;
    let (a2, i2) = spec_resolve_dir_add(a1, q.predicate)->Ok_0;
    let (a3, i3) = spec_resolve_dir_add(a2, q.object)->Ok_0;
    let (a4, i4) = spec_resolve_dir_add(a3, q.label)->Ok_0;
    lemma_dir_add_effects(s, q.subject);
    lemma_dir_add_effects(a1, q.predicate);
    lemma_dir_add_effects(a2, q.object);
    lemma_dir_add_effects(a3, q.label);
    lemma_dir_add_exact(s, q.subject);
    lemma_dir_add_exact(a1, q.predicate);
    lemma_dir_add_exact(a2, q.object);
    lemma_dir_add_exact(a3, q.label);
    assert(a4 == sr && p == InternalQuad { s: i1, p: i2, o: i3, l: i4 });
    let hq = spec_content_hash(PrimitiveContentView::InternalQuad(p));
    let (s2, id2) = spec_add_primitive(sr, PrimitiveContentView::InternalQuad(p))->Ok_0;
    assert(id == id2);
    assert(id == sr.counts.values + sr.counts.quads + 1);
    assert(!sr.prims.contains_key(id)) by {
        assert(model_wf(sr));
    }
    assert(!s.prims.contains_key(id)) by {
        assert(s.counts.values + s.counts.quads <= sr.counts.values + sr.counts.quads);
    }
    // the stored quad is found again
    assert(spec_resolve_quad_ro(s1, q) == Some(p)) by {
        assert(spec_resolve_quad_ro(sr, q) == Some(p));
        assert(forall|h3: u64| #[trigger]
            sr.hidx.contains_key(h3) ==> s1.hidx.contains_key(h3) && s1.hidx[h3] == sr.hidx[h3]);
        assert(forall|id3: u64| #[trigger]
            sr.prims.contains_key(id3) ==> s1.prims.contains_key(id3));
    }
    assert(spec_find_quad(s1, q) == Some(id));
    // the delete walks the record the add wrote
    assert(s1.prims.contains_key(id) && s1.prims[id] == PrimEntry {
        refs: 1u64,
        content: PrimitiveContentView::InternalQuad(p),
    });
    let sd = spec_remove_primitive(s1, id, PrimitiveContentView::InternalQuad(p));
    assert(sd.prims =~= sr.prims) by {
        assert(!sr.prims.contains_key(id));
    }
    assert(sd.hidx =~= sr.hidx) by {
        assert(!sr.hidx.contains_key(hq));
    }
    assert(sd.counts == sr.counts);
    let d2 = StoreModel {
        dirs: sd.dirs.remove((Direction::Subject, p.s, id)).remove(
            (Direction::Predicate, p.p, id),
        ).remove((Direction::Object, p.o, id)).remove((Direction::Label, p.l, id)),
        ..sd
    };
    // the removed direction entries are exactly the added ones: nothing in
    // the starting state names the fresh identifier
    assert(d2.dirs =~= s.dirs) by {
        assert(forall|d: Direction, v: u64| !(#[trigger] s.dirs.contains(((d, v, id)))));
        assert(sr.dirs == s.dirs);
    }
    let e0 = StoreModel { dirs: s.dirs, prims: sd.prims, hidx: sd.hidx, counts: sd.counts };
    assert(d2 =~= e0);
    // with pairwise distinct hashes the four directions touch four
    // different records, so each reference drop undoes its own interning
    let hs = spec_value_hash(q.subject);
    let hp = spec_value_hash(q.predicate);
    let ho = spec_value_hash(q.object);
    let hl = spec_value_hash(q.label);
    assert(!(q.subject is Undefined) && !(q.predicate is Undefined) ==> hs != hp) by {
        assert(q.dir(Direction::Subject) == q.subject && q.dir(Direction::Predicate)
            == q.predicate);
    }
    assert(!(q.subject is Undefined) && !(q.object is Undefined) ==> hs != ho) by {
        assert(q.dir(Direction::Subject) == q.subject && q.dir(Direction::Object) == q.object);
    }
    assert(!(q.subject is Undefined) && !(q.label is Undefined) ==> hs != hl) by {
        assert(q.dir(Direction::Subject) == q.subject && q.dir(Direction::Label) == q.label);
    }
    assert(!(q.predicate is Undefined) && !(q.object is Undefined) ==> hp != ho) by {
        assert(q.dir(Direction::Predicate) == q.predicate && q.dir(Direction::Object) == q.object);
    }
    assert(!(q.predicate is Undefined) && !(q.label is Undefined) ==> hp != hl) by {
        assert(q.dir(Direction::Predicate) == q.predicate && q.dir(Direction::Label) == q.label);
    }
    assert(!(q.object is Undefined) && !(q.label is Undefined) ==> ho != hl) by {
        assert(q.dir(Direction::Object) == q.object && q.dir(Direction::Label) == q.label);
    }
    // distinct hashes keep the four resolved identifiers distinct
    lemma_slots_distinct(s, q);
    let e1r = spec_delete_node_step(e0, i1);
    assert(e1r is Ok);
    let e1 = e1r->Ok_0;
    let e2r = spec_delete_node_step(e1, i2);
    assert(e2r is Ok);
    let e2 = e2r->Ok_0;
    let e3r = spec_delete_node_step(e2, i3);
    assert(e3r is Ok);
    let e3 = e3r->Ok_0;
    let e4r = spec_delete_node_step(e3, i4);
    assert(e4r is Ok);
    let e4 = e4r->Ok_0;
    assert(e4.prims =~= s.prims);
    assert(e4.hidx =~= s.hidx);
    assert(e4.counts == s.counts);
    assert(e4.dirs == s.dirs);
    assert(e4 =~= s);
    assert(spec_delete_quad_nodes(d2, p) == Ok::<_, StoreModel>(s));
    assert(spec_delete(s1, id) == Ok::<_, StoreModel>((s, true)));
}

/// Under pairwise distinct hashes, the four resolved identifiers of a
/// quad's directions are pairwise distinct where assigned.
proof fn lemma_slots_distinct(s: StoreModel, q: QuadView)
    requires
        model_wf(s),
        q.wf(),
        distinct_value_hashes(q),
        spec_resolve_quad_add(s, q) is Ok,
    ensures
        ({
            let (sr, p) = spec_resolve_quad_add(s, q)->Ok_0;
            &&& forall|d1: Direction, d2: Direction|
                d1 != d2 && p.spec_dir(&d1) != 0 && p.spec_dir(&d2) != 0 ==> #[trigger] p.spec_dir(
                    &d1,
                ) != #[trigger] p.spec_dir(&d2)
        }),
{
    reveal(spec_resolve_val_add);
    reveal(spec_add_primitive);
    let (sr, p) = spec_resolve_quad_add(s, q)->Ok_0;
    lemma_resolve_quad_add_effects(s, q);
    let (a1, i1) = spec_resolve_dir_add(s, q.subject)->Ok_0;
    let (a2, i2) = spec_resolve_dir_add(a1, q.predicate)->Ok_0;
    let (a3, i3) = spec_resolve_dir_add(a2, q.object)->Ok_0;
    let (a4, i4) = spec_resolve_dir_add(a3, q.label)->Ok_0;
    lemma_dir_add_effects(s, q.subject);
    lemma_dir_add_effects(a1, q.predicate);
    lemma_dir_add_effects(a2, q.object);
    lemma_dir_add_effects(a3, q.label);
    assert forall|d1: Direction, d2: Direction|
        d1 != d2 && p.spec_dir(&d1) != 0 && p.spec_dir(&d2) != 0 implies #[trigger] p.spec_dir(
        &d1,
    ) != #[trigger] p.spec_dir(&d2) by {
        // each assigned identifier is bound in the final hash index under
        // its own value's hash, and a map binds one identifier per hash
        let v1 = q.dir(d1);
        let v2 = q.dir(d2);
        assert(!(v1 is Undefined) && !(v2 is Undefined));
        assert(spec_value_hash(v1) != spec_value_hash(v2));
        assert(sr.hidx.contains_key(spec_value_hash(v1)) && sr.hidx[spec_value_hash(v1)]
            == p.spec_dir(&d1));
        assert(sr.hidx.contains_key(spec_value_hash(v2)) && sr.hidx[spec_value_hash(v2)]
            == p.spec_dir(&d2));
        assert(model_wf(sr));
        assert(spec_content_hash(sr.prims[p.spec_dir(&d1)].content) == spec_value_hash(v1));
        assert(spec_content_hash(sr.prims[p.spec_dir(&d2)].content) == spec_value_hash(v2));
    }
}

/// Reference counting under one add: when a fresh quad with pairwise
/// distinct value hashes is added, each assigned direction's value record
/// ends with exactly one reference more than it had, counting an absent
/// record as zero; records of values the quad does not hold stand still.
#[verifier::rlimit(100)]
#[verifier::spinoff_prover]
pub proof fn lemma_add_quad_refcounts(s: StoreModel, q: QuadView)
    requires
        model_wf(s),
        q.wf(),
        distinct_value_hashes(q),
        spec_add_quad(s, q) is Ok,
        !({
            let p0 = spec_resolve_quad_ro_default(s, q);
            s.hidx.contains_key(p0.spec_hash()) && s.prims.contains_key(s.hidx[p0.spec_hash()])
        }),
    ensures
        ({
            let (s1, id) = spec_add_quad(s, q)->Ok_0;
            let p = s1.prims[id].content->InternalQuad_0;
            &&& s1.prims.contains_key(id) && s1.prims[id].content is InternalQuad
            &&& forall|d: Direction| #[trigger]
                p.spec_dir(&d) != 0 ==> s1.prims.contains_key(p.spec_dir(&d))
                    && s1.prims[p.spec_dir(&d)].refs == (if s.prims.contains_key(p.spec_dir(&d)) {
                    s.prims[p.spec_dir(&d)].refs + 1
                } else {
                    1int
                })
        }),
{
    reveal(spec_add_quad);
    reveal(spec_resolve_val_ro);
    reveal(spec_resolve_quad_ro);
    reveal(spec_add_primitive);
    let (s1, id) = spec_add_quad(s, q)->Ok_0;
    let (sr, p) = spec_resolve_quad_add(s, q)->Ok_0;
    lemma_resolve_quad_add_effects(s, q);
    let (a1, i1) = spec_resolve_dir_add(s, q.subject)->Ok_0;
    let (a2, i2) = spec_resolve_dir_add(a1, q.predicate)->Ok_0;
    let (a3, i3) = spec_resolve_dir_add(a2, q.object)->Ok_0;
    let (a4, i4) = spec_resolve_dir_add(a3, q.label)->Ok_0;
    lemma_dir_add_effects(s, q.subject);
    lemma_dir_add_effects(a1, q.predicate);
    lemma_dir_add_effects(a2, q.object);
    lemma_dir_add_effects(a3, q.label);
    lemma_dir_add_exact(s, q.subject);
    lemma_dir_add_exact(a1, q.predicate);
    lemma_dir_add_exact(a2, q.object);
    lemma_dir_add_exact(a3, q.label);
    lemma_slots_distinct(s, q);
    assert(a4 == sr && p == InternalQuad { s: i1, p: i2, o: i3, l: i4 });
    let hs = spec_value_hash(q.subject);
    let hp = spec_value_hash(q.predicate);
    let ho = spec_value_hash(q.object);
    let hl = spec_value_hash(q.label);
    assert(!(q.subject is Undefined) && !(q.predicate is Undefined) ==> hs != hp) by {
        assert(q.dir(Direction::Subject) == q.subject && q.dir(Direction::Predicate)
            == q.predicate);
    }
    assert(!(q.subject is Undefined) && !(q.object is Undefined) ==> hs != ho) by {
        assert(q.dir(Direction::Subject) == q.subject && q.dir(Direction::Object) == q.object);
    }
    assert(!(q.subject is Undefined) && !(q.label is Undefined) ==> hs != hl) by {
        assert(q.dir(Direction::Subject) == q.subject && q.dir(Direction::Label) == q.label);
    }
    assert(!(q.predicate is Undefined) && !(q.object is Undefined) ==> hp != ho) by {
        assert(q.dir(Direction::Predicate) == q.predicate && q.dir(Direction::Object) == q.object);
    }
    assert(!(q.predicate is Undefined) && !(q.label is Undefined) ==> hp != hl) by {
        assert(q.dir(Direction::Predicate) == q.predicate && q.dir(Direction::Label) == q.label);
    }
    assert(!(q.object is Undefined) && !(q.label is Undefined) ==> ho != hl) by {
        assert(q.dir(Direction::Object) == q.object && q.dir(Direction::Label) == q.label);
    }
    assert(!sr.prims.contains_key(id)) by {
        assert(model_wf(sr));
    }
    assert(s1.prims.contains_key(id) && s1.prims[id].content
        == PrimitiveContentView::InternalQuad(p));
    assert forall|d: Direction| #[trigger]
        p.spec_dir(&d) != 0 implies s1.prims.contains_key(p.spec_dir(&d)) && s1.prims[p.spec_dir(
        &d,
    )].refs == (if s.prims.contains_key(p.spec_dir(&d)) {
        s.prims[p.spec_dir(&d)].refs + 1
    } else {
        1int
    }) by {
        match d {
            Direction::Subject => {},
            Direction::Predicate => {},
            Direction::Object => {},
            Direction::Label => {},
        }
    }
}

/// Partitioning: the value records and the quad records of any store state
/// are disjoint sets whose union is every live record. The two full-store
/// shapes therefore yield disjoint identifier sets covering the store.
pub proof fn lemma_all_iterator_partition(s: StoreModel)
    ensures
        forall|id: u64| !(kind_matches(s, id, true) && kind_matches(s, id, false)),
        forall|id: u64| #[trigger]
            s.prims.contains_key(id) <==> kind_matches(s, id, true) || kind_matches(s, id, false),
{
}

} // verus!
