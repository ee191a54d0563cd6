//! The primitive store: refcounted records, the hash index, and the
//! direction index, all over one ordered byte keyspace.
//!
//! Every operation's contract says exactly how it moves the abstract model.
//! Identifiers are assigned from the counter: the next identifier is one
//! more than the number of live records, so identifier `0` never names a
//! record and can stand for "no value".

use vstd::prelude::*;
use crate::bytes_be::{spec_u64_to_be_bytes, lemma_u64_be_bytes_round_trip, u64_to_be_vec};
use crate::bytes_be::{read_u64_be, spec_u64_from_be_bytes};
use crate::keys::{primitive_key, id_hash_key, quad_direction_key, primitive_count_key};
use crate::keys::{spec_primitive_key, spec_id_hash_key, spec_quad_direction_key};
use crate::keys::spec_primitive_count_key;
use crate::kv::KvStore;
use crate::model::{StoreModel, PrimEntry, abs_model, abs_prims, abs_hidx, abs_dirs};
use crate::model::{kv_wf, lemma_model_put_prim, lemma_model_del_prim, lemma_model_put_hash};
use crate::model::{lemma_model_del_hash, lemma_model_put_dir, lemma_model_del_dir};
use crate::model::lemma_model_put_count;
use crate::primitive::{Primitive, PrimitiveContent, PrimitiveContentView, PrimitiveCount};
use crate::primitive::{spec_primitive_decode, spec_content_hash};
use crate::primitive::{spec_count_decode, lemma_primitive_codec_round_trip};
use crate::primitive::{PrimitiveView, lemma_primitive_decode_wf};
use crate::quad::{Direction, InternalQuad, Quad, QuadView, Delta, Procedure, IgnoreOptions};
use crate::value::{Value, ValueView, spec_value_hash};
use crate::refs::{Ref, Content, Size, Stats};
use crate::model::model_hash_lookup;

verus! {

/// The model after a fresh record is interned: the record appears under the
/// next identifier with one reference, its hash is indexed, and its kind's
/// counter grows by one. The step is refused when the content hash is
/// already indexed or the identifier space is exhausted, and then changes
/// nothing.
#[verifier::opaque]
pub open spec fn spec_add_primitive(s: StoreModel, c: PrimitiveContentView) -> Result<
    (StoreModel, u64),
    (),
> {
    let h = spec_content_hash(c);
    if s.hidx.contains_key(h) {
        Err(())
    } else if s.counts.values + s.counts.quads >= u64::MAX {
        Err(())
    } else {
        let counts2 = if c is Value {
            PrimitiveCount { values: (s.counts.values + 1) as u64, quads: s.counts.quads }
        } else {
            PrimitiveCount { values: s.counts.values, quads: (s.counts.quads + 1) as u64 }
        };
        let id = (counts2.values + counts2.quads) as u64;
        Ok(
            (
                StoreModel {
                    prims: s.prims.insert(id, PrimEntry { refs: 1, content: c }),
                    hidx: s.hidx.insert(h, id),
                    dirs: s.dirs,
                    counts: counts2,
                },
                id,
            ),
        )
    }
}

/// The model after a record is removed: it leaves the record map and the
/// hash index, and its kind's counter shrinks by one (staying at zero if it
/// already was zero).
#[verifier::opaque]
pub open spec fn spec_remove_primitive(s: StoreModel, id: u64, c: PrimitiveContentView) -> StoreModel {
    let h = spec_content_hash(c);
    let counts2 = if c is Value {
        PrimitiveCount {
            values: if s.counts.values == 0 {
                0u64
            } else {
                (s.counts.values - 1) as u64
            },
            quads: s.counts.quads,
        }
    } else {
        PrimitiveCount {
            values: s.counts.values,
            quads: if s.counts.quads == 0 {
                0u64
            } else {
                (s.counts.quads - 1) as u64
            },
        }
    };
    StoreModel {
        prims: s.prims.remove(id),
        hidx: s.hidx.remove(h),
        dirs: s.dirs,
        counts: counts2,
    }
}

/// The primitive store over the ordered keyspace.
pub struct InternalRocksDB {
    db: KvStore,
}

impl InternalRocksDB {
    /// The abstract state this store holds.
    pub closed spec fn model(&self) -> StoreModel {
        abs_model(self.db@)
    }

    /// The keyspace is sorted and every record is well shaped.
    pub closed spec fn inv(&self) -> bool {
        self.db.wf() && kv_wf(self.db@)
    }

    /// An empty store. The path is accepted for interface compatibility with
    /// engines that place their files there; this store keeps its table in
    /// memory.
    pub fn open(_path: &str) -> (r: Result<InternalRocksDB, String>)
        ensures
            r matches Ok(s) && s.inv() && s.model() == (StoreModel {
                prims: Map::<u64, PrimEntry>::empty(),
                hidx: Map::<u64, u64>::empty(),
                dirs: Set::<(Direction, u64, u64)>::empty(),
                counts: PrimitiveCount { values: 0, quads: 0 },
            }),
    {
        let store = InternalRocksDB { db: KvStore::new() };
        proof {
            let m = store.db@;
            assert(abs_prims(m) =~= Map::<u64, PrimEntry>::empty());
            assert(abs_hidx(m) =~= Map::<u64, u64>::empty());
            assert(abs_dirs(m) =~= Set::<(Direction, u64, u64)>::empty());
            assert(store.model() =~= StoreModel {
                prims: Map::<u64, PrimEntry>::empty(),
                hidx: Map::<u64, u64>::empty(),
                dirs: Set::<(Direction, u64, u64)>::empty(),
                counts: PrimitiveCount { values: 0, quads: 0 },
            });
        }
        Ok(store)
    }

    /// Reads the live-record counter.
    pub fn get_count(&self) -> (r: Result<PrimitiveCount, String>)
        requires
            self.inv(),
        ensures
            r == Ok::<PrimitiveCount, String>(self.model().counts),
    {
        let key = primitive_count_key();
        match self.db.get(&key) {
            Some(bytes) => match PrimitiveCount::decode(bytes.as_slice()) {
                Some(c) => Ok(c),
                None => {
                    proof {
                        assert(false);
                    }
                    Err("read/write error encountered".to_owned())
                },
            },
            None => Ok(PrimitiveCount::zero()),
        }
    }

    /// Reads the record with the given identifier, when it is live.
    pub fn get_primitive(&self, id: u64) -> (r: Result<Option<Primitive>, String>)
        requires
            self.inv(),
        ensures
            r matches Ok(opt) && match opt {
                Some(p) => {
                    &&& self.model().prims.contains_key(id)
                    &&& p@.id == id
                    &&& p@.refs == self.model().prims[id].refs
                    &&& p@.content == self.model().prims[id].content
                    &&& p@.content.wf()
                },
                None => !self.model().prims.contains_key(id),
            },
    {
        let key = primitive_key(id);
        match self.db.get(&key) {
            Some(bytes) => match Primitive::decode(bytes.as_slice()) {
                Ok(p) => {
                    proof {
                        lemma_primitive_decode_wf(bytes@);
                    }
                    Ok(Some(p))
                },
                Err(_) => {
                    proof {
                        assert(false);
                    }
                    Err("read/write error encountered".to_owned())
                },
            },
            None => Ok(None),
        }
    }

    /// Reads the identifier the hash index binds to a content hash.
    pub fn get_id_hash(&self, hash: u64) -> (r: Result<Option<u64>, String>)
        requires
            self.inv(),
        ensures
            r == Ok::<Option<u64>, String>(
                if self.model().hidx.contains_key(hash) {
                    Some(self.model().hidx[hash])
                } else {
                    None
                },
            ),
    {
        let key = id_hash_key(hash);
        match self.db.get(&key) {
            Some(bytes) => {
                let id = read_u64_be(bytes.as_slice(), 0);
                proof {
                    assert(bytes@.subrange(0, 8) =~= bytes@);
                }
                Ok(Some(id))
            },
            None => Ok(None),
        }
    }

    /// Binds a content hash to an identifier in the hash index.
    pub fn add_id_hash(&mut self, hash: u64, id: u64) -> (r: Result<(), String>)
        requires
            old(self).inv(),
        ensures
            final(self).inv(),
            r is Ok,
            final(self).model() == (StoreModel {
                hidx: old(self).model().hidx.insert(hash, id),
                ..old(self).model()
            }),
    {
        let key = id_hash_key(hash);
        let val = u64_to_be_vec(id);
        proof {
            lemma_model_put_hash(self.db@, hash, val@);
            lemma_u64_be_bytes_round_trip(id);
        }
        self.db.set(key, val);
        Ok(())
    }

    /// Unbinds a content hash in the hash index.
    pub fn remove_id_hash(&mut self, hash: u64) -> (r: Result<(), String>)
        requires
            old(self).inv(),
        ensures
            final(self).inv(),
            r is Ok,
            final(self).model() == (StoreModel {
                hidx: old(self).model().hidx.remove(hash),
                ..old(self).model()
            }),
    {
        let key = id_hash_key(hash);
        proof {
            lemma_model_del_hash(self.db@, hash);
        }
        self.db.delete(&key);
        Ok(())
    }

    /// Adds a direction-index entry binding a value to a quad.
    pub fn add_quad_direction(&mut self, value_id: u64, direction: &Direction, quad_id: u64) -> (r:
        Result<(), String>)
        requires
            old(self).inv(),
        ensures
            final(self).inv(),
            r is Ok,
            final(self).model() == (StoreModel {
                dirs: old(self).model().dirs.insert((*direction, value_id, quad_id)),
                ..old(self).model()
            }),
    {
        let key = quad_direction_key(value_id, direction, quad_id);
        let val: Vec<u8> = Vec::new();
        proof {
            lemma_model_put_dir(self.db@, value_id, *direction, quad_id, val@);
        }
        self.db.set(key, val);
        Ok(())
    }

    /// Removes the direction-index entry binding a value to a quad.
    pub fn remove_quad_direction(&mut self, value_id: u64, direction: &Direction, quad_id: u64) -> (
    r: Result<(), String>)
        requires
            old(self).inv(),
        ensures
            final(self).inv(),
            r is Ok,
            final(self).model() == (StoreModel {
                dirs: old(self).model().dirs.remove((*direction, value_id, quad_id)),
                ..old(self).model()
            }),
    {
        let key = quad_direction_key(value_id, direction, quad_id);
        proof {
            lemma_model_del_dir(self.db@, value_id, *direction, quad_id);
        }
        self.db.delete(&key);
        Ok(())
    }

    /// Writes the live-record counter.
    fn put_count(&mut self, count: PrimitiveCount) -> (r: Result<(), String>)
        requires
            old(self).inv(),
        ensures
            final(self).inv(),
            r is Ok,
            final(self).model() == (StoreModel { counts: count, ..old(self).model() }),
    {
        let key = primitive_count_key();
        let val = count.encode();
        proof {
            count.lemma_codec_round_trip();
            lemma_model_put_count(self.db@, val@);
        }
        self.db.set(key, val);
        Ok(())
    }

    /// Interns a fresh record: assigns it the next identifier, sets one
    /// reference, writes it, indexes its hash, and bumps its kind's counter.
    /// Refuses a record whose content hash is already indexed, and a full
    /// identifier space, changing nothing in either case.
    pub fn add_primitive(&mut self, p: &mut Primitive) -> (r: Result<u64, String>)
        requires
            old(self).inv(),
            old(p)@.content.wf(),
        ensures
            final(self).inv(),
            match r {
                Ok(id) => {
                    &&& spec_add_primitive(old(self).model(), old(p)@.content) == Ok::<_, ()>(
                        (final(self).model(), id),
                    )
                    &&& final(p)@ == (PrimitiveView {
                        id,
                        refs: 1u64,
                        content: old(p)@.content,
                    })
                },
                Err(_) => {
                    &&& spec_add_primitive(old(self).model(), old(p)@.content) is Err
                    &&& final(self).model() == old(self).model()
                    &&& *final(p) == *old(p)
                },
            },
            r matches Err(e) ==> spec_internal_error(e@),
    {
        proof {
            reveal(spec_add_primitive);
        }
        let mut count = self.get_count()?;
        let h = p.calc_hash();
        if let Some(_) = self.get_id_hash(h)? {
            return Err("hash already indexed".to_owned());
        }
        if count.values > u64::MAX - count.quads {
            return Err("primitive count is invalid".to_owned());
        }
        let total0 = count.values + count.quads;
        if total0 == u64::MAX {
            return Err("primitive count is invalid".to_owned());
        }
        match p.content {
            PrimitiveContent::Value(_) => count.increment_values(1),
            PrimitiveContent::InternalQuad(_) => count.increment_quads(1),
        }
        p.id = count.total();
        p.refs = 1;
        let enc = p.encode();
        let key = primitive_key(p.id);
        proof {
            lemma_primitive_codec_round_trip(p@);
            lemma_model_put_prim(self.db@, p@.id, enc@);
        }
        let ghost model_after_prim = StoreModel {
            prims: old(self).model().prims.insert(
                p@.id,
                PrimEntry { refs: 1, content: old(p)@.content },
            ),
            ..old(self).model()
        };
        self.db.set(key, enc);
        proof {
            assert(self.model() =~= model_after_prim);
        }
        self.add_id_hash(h, p.id)?;
        self.put_count(count)?;
        proof {
            assert(spec_add_primitive(old(self).model(), old(p)@.content) == Ok::<_, ()>(
                (self.model(), p@.id),
            ));
        }
        Ok(p.id)
    }

    /// Removes a live record: deletes its record and hash-index entry and
    /// lowers its kind's counter by one.
    pub fn remove_primitive(&mut self, p: &Primitive) -> (r: Result<(), String>)
        requires
            old(self).inv(),
        ensures
            final(self).inv(),
            r is Ok,
            final(self).model() == spec_remove_primitive(old(self).model(), p@.id, p@.content),
    {
        proof {
            reveal(spec_remove_primitive);
        }
        let key = primitive_key(p.id);
        proof {
            lemma_model_del_prim(self.db@, p@.id);
        }
        self.db.delete(&key);
        let h = p.calc_hash();
        self.remove_id_hash(h)?;
        let mut count = self.get_count()?;
        match p.content {
            PrimitiveContent::Value(_) => count.increment_values(-1),
            PrimitiveContent::InternalQuad(_) => count.increment_quads(-1),
        }
        self.put_count(count)?;
        proof {
            assert(self.model() =~= spec_remove_primitive(old(self).model(), p@.id, p@.content));
        }
        Ok(())
    }

    /// Writes a live record back, replacing the one under its identifier.
    fn put_primitive(&mut self, p: &Primitive) -> (r: Result<(), String>)
        requires
            old(self).inv(),
            p@.content.wf(),
        ensures
            final(self).inv(),
            r is Ok,
            final(self).model() == (StoreModel {
                prims: old(self).model().prims.insert(
                    p@.id,
                    PrimEntry { refs: p@.refs, content: p@.content },
                ),
                ..old(self).model()
            }),
    {
        let enc = p.encode();
        let key = primitive_key(p.id);
        proof {
            lemma_primitive_codec_round_trip(p@);
            lemma_model_put_prim(self.db@, p@.id, enc@);
        }
        self.db.set(key, enc);
        Ok(())
    }

    /// Looks a value up in the hash index without touching the store.
    fn lookup_val_id(&self, v: &Value) -> (r: Result<Option<u64>, String>)
        requires
            self.inv(),
        ensures
            r == Ok::<Option<u64>, String>(spec_resolve_val_ro(self.model(), v@)),
    {
        proof {
            reveal(spec_resolve_val_ro);
        }
        if let Value::Undefined = v {
            return Ok(None);
        }
        let hash = v.calc_hash();
        let prim = if let Some(id) = self.get_id_hash(hash)? {
            self.get_primitive(id)?
        } else {
            None
        };
        match prim {
            Some(p) => Ok(Some(p.id)),
            None => Ok(None),
        }
    }

    /// Resolves a value to its identifier. Without `add` this is a pure
    /// lookup; with `add` it counts one more reference, interning the value
    /// first if it is new.
    pub fn resolve_val(&mut self, v: &Value, add: bool) -> (r: Result<Option<u64>, String>)
        requires
            old(self).inv(),
            v@.wf(),
        ensures
            final(self).inv(),
            !add ==> final(self).model() == old(self).model() && r == Ok::<Option<u64>, String>(
                spec_resolve_val_ro(old(self).model(), v@),
            ),
            add ==> match r {
                Ok(opt) => spec_resolve_val_add(old(self).model(), v@) == Ok::<_, ()>(
                    (final(self).model(), opt),
                ),
                Err(_) => spec_resolve_val_add(old(self).model(), v@) is Err && final(self).model()
                    == old(self).model(),
            },
            add && !(v@ is Undefined) ==> (r matches Ok(opt) ==> opt is Some),
            r matches Err(e) ==> spec_internal_error(e@),
    {
        proof {
            reveal(spec_resolve_val_ro);
            reveal(spec_resolve_val_add);
            reveal(spec_add_primitive);
        }
        if !add {
            return self.lookup_val_id(v);
        }
        if let Value::Undefined = v {
            return Ok(None);
        }
        let hash = v.calc_hash();
        let prim = if let Some(id) = self.get_id_hash(hash)? {
            self.get_primitive(id)?
        } else {
            None
        };
        match prim {
            Some(p) => {
                let mut p = p;
                if !p.is_node() {
                    return Err("hash index names a quad record".to_owned());
                }
                if p.refs == u64::MAX {
                    return Err("reference count overflow".to_owned());
                }
                p.refs = p.refs + 1;
                self.put_primitive(&p)?;
                Ok(Some(p.id))
            },
            None => {
                let mut fresh = Primitive::new_value(v.clone());
                match self.add_primitive(&mut fresh) {
                    Ok(id) => Ok(Some(id)),
                    Err(e) => Err(e),
                }
            },
        }
    }

    /// Resolves every assigned direction of a quad without touching the
    /// store; `None` when some assigned value is not interned.
    fn resolve_quad_lookup(&self, q: &Quad) -> (r: Result<Option<InternalQuad>, String>)
        requires
            self.inv(),
        ensures
            r == Ok::<Option<InternalQuad>, String>(spec_resolve_quad_ro(self.model(), q@)),
    {
        proof {
            reveal(spec_resolve_quad_ro);
        }
        let mut p = InternalQuad { s: 0, p: 0, o: 0, l: 0 };
        match &q.subject {
            Value::Undefined => {},
            v => match self.lookup_val_id(v)? {
                Some(i) => {
                    p.s = i;
                },
                None => {
                    return Ok(None);
                },
            },
        }
        match &q.predicate {
            Value::Undefined => {},
            v => match self.lookup_val_id(v)? {
                Some(i) => {
                    p.p = i;
                },
                None => {
                    return Ok(None);
                },
            },
        }
        match &q.object {
            Value::Undefined => {},
            v => match self.lookup_val_id(v)? {
                Some(i) => {
                    p.o = i;
                },
                None => {
                    return Ok(None);
                },
            },
        }
        match &q.label {
            Value::Undefined => {},
            v => match self.lookup_val_id(v)? {
                Some(i) => {
                    p.l = i;
                },
                None => {
                    return Ok(None);
                },
            },
        }
        Ok(Some(p))
    }

    /// Resolves a quad to identifiers. Without `add` this is a pure lookup;
    /// with `add` every assigned value gains one reference, interned first
    /// when new.
    #[verifier::rlimit(100)]
    #[verifier::spinoff_prover]
    pub fn resolve_quad(&mut self, q: &Quad, add: bool) -> (r: Result<Option<InternalQuad>, String>)
        requires
            old(self).inv(),
            q@.wf(),
        ensures
            final(self).inv(),
            !add ==> final(self).model() == old(self).model() && r == Ok::<
                Option<InternalQuad>,
                String,
            >(spec_resolve_quad_ro(old(self).model(), q@)),
            add ==> match r {
                Ok(opt) => opt matches Some(iq) && spec_resolve_quad_add(old(self).model(), q@)
                    == Ok::<_, StoreModel>((final(self).model(), iq)),
                Err(_) => spec_resolve_quad_add(old(self).model(), q@) matches Err(s) && final(self).model() == s,
            },
            r matches Err(e) ==> spec_internal_error(e@),
    {
        if !add {
            return self.resolve_quad_lookup(q);
        }
        let ghost s0 = self.model();
        let mut p = InternalQuad { s: 0, p: 0, o: 0, l: 0 };
        match &q.subject {
            Value::Undefined => {},
            v => match self.resolve_val(v, true) {
                Ok(Some(i)) => {
                    p.s = i;
                },
                Ok(None) => {
                    return Ok(None);
                },
                Err(e) => {
                    return Err(e);
                },
            },
        }
        proof {
            assert(spec_resolve_dir_add(s0, q@.subject) == Ok::<_, StoreModel>(
                (self.model(), p.s),
            ));
        }
        let ghost s1 = self.model();
        match &q.predicate {
            Value::Undefined => {},
            v => match self.resolve_val(v, true) {
                Ok(Some(i)) => {
                    p.p = i;
                },
                Ok(None) => {
                    return Ok(None);
                },
                Err(e) => {
                    return Err(e);
                },
            },
        }
        proof {
            assert(spec_resolve_dir_add(s1, q@.predicate) == Ok::<_, StoreModel>(
                (self.model(), p.p),
            ));
        }
        let ghost s2 = self.model();
        match &q.object {
            Value::Undefined => {},
            v => match self.resolve_val(v, true) {
                Ok(Some(i)) => {
                    p.o = i;
                },
                Ok(None) => {
                    return Ok(None);
                },
                Err(e) => {
                    return Err(e);
                },
            },
        }
        proof {
            assert(spec_resolve_dir_add(s2, q@.object) == Ok::<_, StoreModel>(
                (self.model(), p.o),
            ));
        }
        let ghost s3 = self.model();
        match &q.label {
            Value::Undefined => {},
            v => match self.resolve_val(v, true) {
                Ok(Some(i)) => {
                    p.l = i;
                },
                Ok(None) => {
                    return Ok(None);
                },
                Err(e) => {
                    return Err(e);
                },
            },
        }
        proof {
            assert(spec_resolve_dir_add(s3, q@.label) == Ok::<_, StoreModel>(
                (self.model(), p.l),
            ));
            assert(spec_resolve_quad_add(s0, q@) == Ok::<_, StoreModel>((self.model(), p)));
        }
        Ok(Some(p))
    }

    /// Resolves a quad, standing in the all-zero tuple when a value is
    /// missing.
    pub fn resolve_quad_default(&mut self, q: &Quad, add: bool) -> (r: Result<InternalQuad, String>)
        requires
            old(self).inv(),
            q@.wf(),
        ensures
            final(self).inv(),
            !add ==> final(self).model() == old(self).model() && r == Ok::<InternalQuad, String>(
                spec_resolve_quad_ro_default(old(self).model(), q@),
            ),
            add ==> match r {
                Ok(iq) => spec_resolve_quad_add(old(self).model(), q@) == Ok::<_, StoreModel>(
                    (final(self).model(), iq),
                ),
                Err(_) => spec_resolve_quad_add(old(self).model(), q@) matches Err(s) && final(self).model() == s,
            },
            r matches Err(e) ==> spec_internal_error(e@),
    {
        match self.resolve_quad(q, add) {
            Ok(Some(iq)) => Ok(iq),
            Ok(None) => Ok(InternalQuad { s: 0, p: 0, o: 0, l: 0 }),
            Err(e) => Err(e),
        }
    }

    /// Finds the identifier of a stored quad, resolving its values without
    /// interning and probing the hash index.
    pub fn find_quad(&self, q: &Quad) -> (r: Result<Option<u64>, String>)
        requires
            self.inv(),
        ensures
            r == Ok::<Option<u64>, String>(spec_find_quad(self.model(), q@)),
    {
        proof {
            reveal(spec_find_quad);
        }
        let quad = self.resolve_quad_lookup(q)?;
        if let Some(iq) = quad {
            let h = iq.calc_hash();
            return self.get_id_hash(h);
        }
        Ok(None)
    }

    /// Drops one reference from every assigned direction of a deleted
    /// quad's tuple, removing a value record when its references reach
    /// zero.
    #[verifier::rlimit(100)]
    #[verifier::spinoff_prover]
    pub fn delete_quad_nodes(&mut self, q: &InternalQuad) -> (r: Result<(), String>)
        requires
            old(self).inv(),
        ensures
            final(self).inv(),
            match r {
                Ok(_) => spec_delete_quad_nodes(old(self).model(), *q) == Ok::<_, StoreModel>(
                    final(self).model(),
                ),
                Err(_) => spec_delete_quad_nodes(old(self).model(), *q) matches Err(s) && final(self).model() == s,
            },
            r matches Err(e) ==> spec_internal_error(e@),
    {
        if let Err(e) = self.delete_quad_node(q.s) {
            return Err(e);
        }
        if let Err(e) = self.delete_quad_node(q.p) {
            return Err(e);
        }
        if let Err(e) = self.delete_quad_node(q.o) {
            return Err(e);
        }
        if let Err(e) = self.delete_quad_node(q.l) {
            return Err(e);
        }
        Ok(())
    }

    /// Drops one reference from one direction's value record.
    fn delete_quad_node(&mut self, id: u64) -> (r: Result<(), String>)
        requires
            old(self).inv(),
        ensures
            final(self).inv(),
            match r {
                Ok(_) => spec_delete_node_step(old(self).model(), id) == Ok::<_, StoreModel>(
                    final(self).model(),
                ),
                Err(_) => spec_delete_node_step(old(self).model(), id) is Err && final(self).model() == old(self).model(),
            },
            r matches Err(e) ==> spec_internal_error(e@),
    {
        if id == 0 {
            return Ok(());
        }
        if let Some(p) = self.get_primitive(id)? {
            let mut p = p;
            if p.refs == 0 {
                return Err("remove of deleted node".to_owned());
            }
            p.refs = p.refs - 1;
            if p.refs == 0 {
                self.remove_primitive(&p)?;
            } else {
                self.put_primitive(&p)?;
            }
        }
        Ok(())
    }

    /// Deletes a quad record by identifier: removes the record, its
    /// direction-index entries, and one reference from each of its values.
    /// `false` reports that no record was live under the identifier.
    #[verifier::rlimit(100)]
    #[verifier::spinoff_prover]
    pub fn delete(&mut self, id: u64) -> (r: Result<bool, String>)
        requires
            old(self).inv(),
        ensures
            final(self).inv(),
            match r {
                Ok(b) => spec_delete(old(self).model(), id) == Ok::<_, StoreModel>(
                    (final(self).model(), b),
                ),
                Err(_) => spec_delete(old(self).model(), id) matches Err(s) && final(self).model()
                    == s,
            },
            r matches Err(e) ==> spec_internal_error(e@),
    {
        proof {
            reveal(spec_delete);
        }
        let mut quad: Option<InternalQuad> = None;
        if let Some(p) = self.get_primitive(id)? {
            if let PrimitiveContent::InternalQuad(q) = &p.content {
                quad = Some(*q);
            }
            self.remove_primitive(&p)?;
        } else {
            return Ok(false);
        }
        if let Some(q) = quad {
            self.remove_quad_direction(q.s, &Direction::Subject, id)?;
            self.remove_quad_direction(q.p, &Direction::Predicate, id)?;
            self.remove_quad_direction(q.o, &Direction::Object, id)?;
            self.remove_quad_direction(q.l, &Direction::Label, id)?;
            if let Err(e) = self.delete_quad_nodes(&q) {
                return Err(e);
            }
        }
        Ok(true)
    }

    /// Adds a quad: an already-stored tuple is answered with its identifier
    /// and no change; otherwise the values are interned and counted, the
    /// tuple's record is written, and its assigned directions are indexed.
    pub fn add_quad(&mut self, q: Quad) -> (r: Result<u64, String>)
        requires
            old(self).inv(),
            q@.wf(),
        ensures
            final(self).inv(),
            match r {
                Ok(id) => spec_add_quad(old(self).model(), q@) == Ok::<_, StoreModel>(
                    (final(self).model(), id),
                ),
                Err(_) => spec_add_quad(old(self).model(), q@) matches Err(s) && final(self).model() == s,
            },
            r matches Err(e) ==> spec_internal_error(e@),
    {
        proof {
            reveal(spec_add_quad);
        }
        let p = self.resolve_quad_default(&q, false)?;
        let hash = p.calc_hash();
        let prim = if let Some(id) = self.get_id_hash(hash)? {
            self.get_primitive(id)?
        } else {
            None
        };
        if let Some(p) = prim {
            return Ok(p.id);
        }
        let p = match self.resolve_quad_default(&q, true) {
            Ok(p) => p,
            Err(e) => {
                return Err(e);
            },
        };
        let mut pr = Primitive::new_quad(p);
        let id = match self.add_primitive(&mut pr) {
            Ok(id) => id,
            Err(e) => {
                return Err(e);
            },
        };
        if p.s != 0 {
            self.add_quad_direction(p.s, &Direction::Subject, id)?;
        }
        if p.p != 0 {
            self.add_quad_direction(p.p, &Direction::Predicate, id)?;
        }
        if p.o != 0 {
            self.add_quad_direction(p.o, &Direction::Object, id)?;
        }
        if p.l != 0 {
            self.add_quad_direction(p.l, &Direction::Label, id)?;
        }
        Ok(id)
    }

    /// Scans the direction index for every quad adjacent to a value in one
    /// direction: the identifiers come back ascending, without duplicates,
    /// and are exactly the indexed set.
    #[verifier::rlimit(100)]
    #[verifier::spinoff_prover]
    pub fn get_quad_direction(&self, direction: &Direction, value_id: &u64) -> (r: Vec<u64>)
        requires
            self.inv(),
        ensures
            forall|i: int, j: int| 0 <= i < j < r@.len() ==> r@[i] < r@[j],
            forall|i: int|
                0 <= i < r@.len() ==> self.model().dirs.contains(
                    (*direction, *value_id, #[trigger] r@[i]),
                ),
            forall|qq: u64| #[trigger]
                self.model().dirs.contains((*direction, *value_id, qq)) ==> exists|i: int|
                    0 <= i < r@.len() && r@[i] == qq,
    {
        let ghost d = *direction;
        let ghost v = *value_id;
        let ghost m = self.db@;
        let mut out: Vec<u64> = Vec::new();
        let mut bound_q: u64 = 0;
        loop
            invariant
                self.inv(),
                d == *direction,
                v == *value_id,
                m == self.db@,
                forall|i: int, j: int| 0 <= i < j < out@.len() ==> out@[i] < out@[j],
                forall|i: int|
                    0 <= i < out@.len() ==> self.model().dirs.contains((d, v, #[trigger] out@[i]))
                        && out@[i] < bound_q,
                forall|qq: u64| #[trigger]
                    self.model().dirs.contains((d, v, qq)) && qq < bound_q ==> exists|i: int|
                        0 <= i < out@.len() && out@[i] == qq,
            decreases u64::MAX - bound_q,
        {
            let bound = quad_direction_key(*value_id, direction, bound_q);
            let ghost prefix = seq![
                crate::keys::QUAD_DIRECTION_KEY_PREFIX,
                d.spec_to_byte(),
            ] + spec_u64_to_be_bytes(v);
            proof {
                assert(bound@ =~= prefix + spec_u64_to_be_bytes(bound_q));
            }
            match self.db.first_at_or_after(&bound) {
                None => {
                    proof {
                        assert forall|qq: u64| #[trigger]
                            self.model().dirs.contains((d, v, qq)) implies qq < bound_q by {
                            let kq = spec_quad_direction_key(v, d, qq);
                            assert(m.contains_key(kq));
                            assert(crate::kv::lex_lt(kq, bound@));
                            if qq == bound_q {
                                crate::kv::lemma_lex_lt_irrefl(kq);
                            }
                            if qq > bound_q {
                                crate::keys::lemma_dir_key_order(v, d, bound_q, qq);
                                crate::kv::lemma_lex_asym(bound@, kq);
                            }
                        }
                    }
                    return out;
                },
                Some((k, _)) => {
                    let shape_ok = k.len() == 18 && k[0] == crate::keys::QUAD_DIRECTION_KEY_PREFIX
                        && k[1] == direction.to_byte();
                    let mut vid: u64 = 0;
                    let mut qid: u64 = 0;
                    if shape_ok {
                        vid = read_u64_be(k.as_slice(), 2);
                        qid = read_u64_be(k.as_slice(), 10);
                    }
                    proof {
                        // If any indexed quad identifier at or above the
                        // cursor exists, the returned key must be its
                        // direction's own family, value, and direction.
                        if exists|qq: u64|
                            #[trigger] self.model().dirs.contains((d, v, qq)) && qq >= bound_q {
                            let qq = choose|qq: u64|
                                #[trigger] self.model().dirs.contains((d, v, qq)) && qq >= bound_q;
                            let kq = spec_quad_direction_key(v, d, qq);
                            assert(m.contains_key(kq));
                            assert(kq =~= prefix + spec_u64_to_be_bytes(qq));
                            if qq == bound_q {
                                crate::kv::lemma_lex_lt_irrefl(kq);
                            } else {
                                crate::keys::lemma_dir_key_order(v, d, bound_q, qq);
                                crate::kv::lemma_lex_asym(bound@, kq);
                            }
                            assert(!crate::kv::lex_lt(kq, bound@));
                            assert(!crate::kv::lex_lt(kq, k@));
                            crate::kv::lemma_lex_between_shares_prefix(
                                prefix,
                                spec_u64_to_be_bytes(bound_q),
                                spec_u64_to_be_bytes(qq),
                                k@,
                            );
                            assert(k@.len() >= 10 && k@.subrange(0, 10) == prefix);
                            assert(prefix[0] == crate::keys::QUAD_DIRECTION_KEY_PREFIX && prefix[1]
                                == d.spec_to_byte()) by {
                                assert(prefix[0] == seq![
                                    crate::keys::QUAD_DIRECTION_KEY_PREFIX,
                                    d.spec_to_byte(),
                                ][0]);
                                assert(prefix[1] == seq![
                                    crate::keys::QUAD_DIRECTION_KEY_PREFIX,
                                    d.spec_to_byte(),
                                ][1]);
                            }
                            assert(k@[0] == k@.subrange(0, 10)[0] && k@[1] == k@.subrange(0, 10)[1]);
                            assert(k@[0] == crate::keys::QUAD_DIRECTION_KEY_PREFIX);
                            assert(k@[1] == d.spec_to_byte());
                            let (v2, d2, q2) = choose|v2: u64, d2: Direction, q2: u64|
                                k@ == spec_quad_direction_key(v2, d2, q2);
                            let head2 = seq![
                                crate::keys::QUAD_DIRECTION_KEY_PREFIX,
                                d2.spec_to_byte(),
                            ];
                            assert(k@[1] == d2.spec_to_byte()) by {
                                assert(k@[1] == (head2 + spec_u64_to_be_bytes(v2))[1]);
                                assert((head2 + spec_u64_to_be_bytes(v2))[1] == head2[1]);
                            }
                            assert(d2 == d);
                            assert(spec_u64_to_be_bytes(v2) =~= k@.subrange(2, 10)) by {
                                assert forall|i: int| 0 <= i < 8 implies k@.subrange(2, 10)[i]
                                    == spec_u64_to_be_bytes(v2)[i] by {
                                    assert(k@[i + 2] == ((head2 + spec_u64_to_be_bytes(v2))
                                        + spec_u64_to_be_bytes(q2))[i + 2]);
                                }
                            }
                            assert(k@.subrange(2, 10) =~= prefix.subrange(2, 10));
                            assert(prefix.subrange(2, 10) =~= spec_u64_to_be_bytes(v));
                            crate::bytes_be::lemma_u64_be_bytes_injective(v2, v);
                            crate::bytes_be::lemma_u64_be_bytes_round_trip(v);
                            assert(k@ == spec_quad_direction_key(v, d, q2));
                            assert(k@.len() == 18);
                            assert(spec_u64_from_be_bytes(k@.subrange(2, 10)) == v);
                        }
                    }
                    if shape_ok && vid == *value_id {
                        proof {
                            crate::bytes_be::lemma_u64_be_bytes_complete(k@.subrange(2, 10));
                            crate::bytes_be::lemma_u64_be_bytes_complete(k@.subrange(10, 18));
                            assert(k@ =~= seq![k@[0], k@[1]] + k@.subrange(2, 10) + k@.subrange(
                                10,
                                18,
                            ));
                            assert(k@ == spec_quad_direction_key(v, d, qid));
                            assert(self.model().dirs.contains((d, v, qid)));
                            // the cursor never moves backwards
                            if qid < bound_q {
                                crate::keys::lemma_dir_key_order(v, d, qid, bound_q);
                            }
                            assert(qid >= bound_q);
                            // nothing is indexed strictly between the cursor
                            // and the returned identifier
                            assert forall|qq: u64|
                                #[trigger] self.model().dirs.contains((d, v, qq)) && bound_q <= qq
                                    < qid implies false by {
                                let kq = spec_quad_direction_key(v, d, qq);
                                assert(m.contains_key(kq));
                                if qq == bound_q {
                                    crate::kv::lemma_lex_lt_irrefl(kq);
                                } else {
                                    crate::keys::lemma_dir_key_order(v, d, bound_q, qq);
                                    crate::kv::lemma_lex_asym(bound@, kq);
                                }
                                assert(!crate::kv::lex_lt(kq, bound@));
                                assert(!crate::kv::lex_lt(kq, k@));
                                crate::keys::lemma_dir_key_order(v, d, qq, qid);
                                crate::kv::lemma_lex_asym(kq, k@);
                            }
                        }
                        let ghost prev_bound = bound_q;
                        let ghost prev_out = out@;
                        out.push(qid);
                        proof {
                            assert forall|qq: u64| #[trigger]
                                self.model().dirs.contains((d, v, qq)) && qq <= qid implies
                                exists|i: int| 0 <= i < out@.len() && out@[i] == qq by {
                                if qq < prev_bound {
                                    let i = choose|i: int|
                                        0 <= i < prev_out.len() && prev_out[i] == qq;
                                    assert(out@[i] == qq);
                                } else if qq == qid {
                                    assert(out@[out@.len() - 1] == qq);
                                }
                            }
                        }
                        if qid == u64::MAX {
                            return out;
                        }
                        bound_q = qid + 1;
                    } else {
                        proof {
                            assert forall|qq: u64| #[trigger]
                                self.model().dirs.contains((d, v, qq)) implies qq < bound_q by {
                                if qq >= bound_q {
                                    assert(exists|qq2: u64|
                                        #[trigger] self.model().dirs.contains((d, v, qq2)) && qq2
                                            >= bound_q);
                                }
                            }
                        }
                        return out;
                    }
                },
            }
        }
    }

    /// Seeks the live record with the smallest identifier at or above
    /// `from`, for the full-store scan.
    pub fn next_primitive_at_or_after(&self, from: u64) -> (r: Option<Primitive>)
        requires
            self.inv(),
        ensures
            match r {
                Some(p) => {
                    &&& p@.id >= from
                    &&& self.model().prims.contains_key(p@.id)
                    &&& p@.refs == self.model().prims[p@.id].refs
                    &&& p@.content == self.model().prims[p@.id].content
                    &&& p@.content.wf()
                    &&& forall|id2: u64|
                        from <= id2 < p@.id ==> !self.model().prims.contains_key(id2)
                },
                None => forall|id2: u64| id2 >= from ==> !self.model().prims.contains_key(id2),
            },
    {
        let ghost m = self.db@;
        let bound = primitive_key(from);
        let ghost head = seq![crate::keys::PRIMITIVE_KEY_PREFIX];
        proof {
            assert(bound@ =~= head + spec_u64_to_be_bytes(from));
        }
        match self.db.first_at_or_after(&bound) {
            None => {
                proof {
                    assert forall|id2: u64| id2 >= from implies !self.model().prims.contains_key(
                        id2,
                    ) by {
                        if self.model().prims.contains_key(id2) {
                            let k2 = spec_primitive_key(id2);
                            assert(m.contains_key(k2));
                            assert(crate::kv::lex_lt(k2, bound@));
                            if id2 == from {
                                crate::kv::lemma_lex_lt_irrefl(k2);
                            } else {
                                crate::keys::lemma_primitive_key_order(from, id2);
                                crate::kv::lemma_lex_asym(bound@, k2);
                            }
                        }
                    }
                }
                None
            },
            Some((k, rec)) => {
                proof {
                    // any live record at or above the seek point forces the
                    // returned key into the record family
                    if exists|id2: u64|
                        id2 >= from && #[trigger] self.model().prims.contains_key(id2) {
                        let id2 = choose|id2: u64|
                            id2 >= from && #[trigger] self.model().prims.contains_key(id2);
                        let k2 = spec_primitive_key(id2);
                        assert(m.contains_key(k2));
                        assert(k2 =~= head + spec_u64_to_be_bytes(id2));
                        if id2 == from {
                            crate::kv::lemma_lex_lt_irrefl(k2);
                        } else {
                            crate::keys::lemma_primitive_key_order(from, id2);
                            crate::kv::lemma_lex_asym(bound@, k2);
                        }
                        assert(!crate::kv::lex_lt(k2, bound@));
                        assert(!crate::kv::lex_lt(k2, k@));
                        crate::kv::lemma_lex_between_shares_prefix(
                            head,
                            spec_u64_to_be_bytes(from),
                            spec_u64_to_be_bytes(id2),
                            k@,
                        );
                        assert(k@.len() >= 1 && k@.subrange(0, 1) == head);
                        assert(k@[0] == k@.subrange(0, 1)[0] && head[0]
                            == crate::keys::PRIMITIVE_KEY_PREFIX);
                        assert(k@[0] == crate::keys::PRIMITIVE_KEY_PREFIX);
                        let id3 = choose|id3: u64| k@ == spec_primitive_key(id3);
                        assert(k@.len() == 9) by {
                            assert(spec_primitive_key(id3).len() == 9);
                        }
                    }
                }
                let shape_ok = k.len() == 9 && k[0] == crate::keys::PRIMITIVE_KEY_PREFIX;
                if !shape_ok {
                    proof {
                        assert forall|id2: u64|
                            id2 >= from implies !self.model().prims.contains_key(id2) by {
                            if self.model().prims.contains_key(id2) {
                                assert(exists|id4: u64|
                                    id4 >= from && #[trigger] self.model().prims.contains_key(id4));
                            }
                        }
                    }
                    return None;
                }
                let id = read_u64_be(k.as_slice(), 1);
                proof {
                    crate::bytes_be::lemma_u64_be_bytes_complete(k@.subrange(1, 9));
                    assert(k@ =~= seq![k@[0]] + k@.subrange(1, 9));
                    assert(k@ == spec_primitive_key(id));
                    assert(self.model().prims.contains_key(id));
                    if id < from {
                        crate::keys::lemma_primitive_key_order(id, from);
                    }
                    assert(id >= from);
                    assert forall|id2: u64|
                        from <= id2 < id implies !self.model().prims.contains_key(id2) by {
                        if self.model().prims.contains_key(id2) {
                            let k2 = spec_primitive_key(id2);
                            assert(m.contains_key(k2));
                            if id2 == from {
                                crate::kv::lemma_lex_lt_irrefl(k2);
                            } else {
                                crate::keys::lemma_primitive_key_order(from, id2);
                                crate::kv::lemma_lex_asym(bound@, k2);
                            }
                            assert(!crate::kv::lex_lt(k2, bound@));
                            assert(!crate::kv::lex_lt(k2, k@));
                            crate::keys::lemma_primitive_key_order(id2, id);
                            crate::kv::lemma_lex_asym(k2, k@);
                        }
                    }
                }
                match Primitive::decode(rec.as_slice()) {
                    Ok(p) => {
                        proof {
                            lemma_primitive_decode_wf(rec@);
                        }
                        Some(p)
                    },
                    Err(_) => {
                        proof {
                            assert(false);
                        }
                        None
                    },
                }
            },
        }
    }

    /// Reads the value a live record holds, when it holds one.
    pub fn lookup_val(&self, id: u64) -> (r: Result<Option<Value>, String>)
        requires
            self.inv(),
        ensures
            r matches Ok(opt) && match opt {
                Some(v) => self.model().prims.contains_key(id) && self.model().prims[id].content
                    == PrimitiveContentView::Value(v@),
                None => !(self.model().prims.contains_key(id) && self.model().prims[id].content
                    is Value),
            },
    {
        match self.get_primitive(id)? {
            Some(p) => match p.content {
                PrimitiveContent::Value(v) => Ok(Some(v)),
                _ => Ok(None),
            },
            None => Ok(None),
        }
    }

    /// Reads the tuple a handle's record holds, when it holds one.
    pub fn internal_quad(&self, r: &Ref) -> (res: Result<Option<InternalQuad>, String>)
        requires
            self.inv(),
        ensures
            res == Ok::<Option<InternalQuad>, String>(spec_internal_quad(self.model(), r.spec_key())),
    {
        let key = if let Some(k) = r.key() {
            self.get_primitive(k)?
        } else {
            None
        };
        match key {
            Some(p) => match p.content {
                PrimitiveContent::InternalQuad(q) => Ok(Some(q)),
                _ => Ok(None),
            },
            None => Ok(None),
        }
    }

    /// Materialises a tuple back into values, leaving a direction absent
    /// when its identifier is zero or does not name a live value record.
    pub fn lookup_quad_dirs(&self, p: InternalQuad) -> (r: Result<Quad, String>)
        requires
            self.inv(),
        ensures
            r matches Ok(q) && q@.subject == spec_lookup_dir_value(self.model(), p.s) && q@.predicate
                == spec_lookup_dir_value(self.model(), p.p) && q@.object == spec_lookup_dir_value(
                self.model(),
                p.o,
            ) && q@.label == spec_lookup_dir_value(self.model(), p.l),
    {
        let mut q = Quad::new_undefined_vals();
        if p.s != 0 {
            if let Some(v) = self.lookup_val(p.s)? {
                q.set_val(&Direction::Subject, v);
            }
        }
        if p.p != 0 {
            if let Some(v) = self.lookup_val(p.p)? {
                q.set_val(&Direction::Predicate, v);
            }
        }
        if p.o != 0 {
            if let Some(v) = self.lookup_val(p.o)? {
                q.set_val(&Direction::Object, v);
            }
        }
        if p.l != 0 {
            if let Some(v) = self.lookup_val(p.l)? {
                q.set_val(&Direction::Label, v);
            }
        }
        proof {
            assert(q@.subject == q@.dir(Direction::Subject));
            assert(q@.predicate == q@.dir(Direction::Predicate));
            assert(q@.object == q@.dir(Direction::Object));
            assert(q@.label == q@.dir(Direction::Label));
        }
        Ok(q)
    }
}

/// The identifier a value resolves to without interning: the hash index is
/// probed and the record must be live. The absent value resolves to
/// nothing.
#[verifier::opaque]
pub open spec fn spec_resolve_val_ro(s: StoreModel, v: ValueView) -> Option<u64> {
    if v is Undefined {
        None
    } else {
        let h = spec_value_hash(v);
        if s.hidx.contains_key(h) && s.prims.contains_key(s.hidx[h]) {
            Some(s.hidx[h])
        } else {
            None
        }
    }
}

/// The model after a value is resolved with interning: a hit gains one
/// reference, a miss interns a fresh record. The step is refused when the
/// hit is not a value record, its reference count is full, or interning is
/// refused; it then changes nothing.
#[verifier::opaque]
pub open spec fn spec_resolve_val_add(s: StoreModel, v: ValueView) -> Result<
    (StoreModel, Option<u64>),
    (),
> {
    if v is Undefined {
        Ok((s, None))
    } else {
        let h = spec_value_hash(v);
        if s.hidx.contains_key(h) && s.prims.contains_key(s.hidx[h]) {
            let id = s.hidx[h];
            let e = s.prims[id];
            if !(e.content is Value) {
                Err(())
            } else if e.refs == u64::MAX {
                Err(())
            } else {
                Ok(
                    (
                        StoreModel {
                            prims: s.prims.insert(
                                id,
                                PrimEntry { refs: (e.refs + 1) as u64, content: e.content },
                            ),
                            ..s
                        },
                        Some(id),
                    ),
                )
            }
        } else {
            match spec_add_primitive(s, PrimitiveContentView::Value(v)) {
                Ok((s2, id)) => Ok((s2, Some(id))),
                Err(_) => Err(()),
            }
        }
    }
}

/// The tuple a quad resolves to without interning: every assigned
/// direction must be interned, else the quad is not stored.
#[verifier::opaque]
pub open spec fn spec_resolve_quad_ro(s: StoreModel, q: QuadView) -> Option<InternalQuad> {
    let rs = if q.subject is Undefined {
        Some(0u64)
    } else {
        spec_resolve_val_ro(s, q.subject)
    };
    let rp = if q.predicate is Undefined {
        Some(0u64)
    } else {
        spec_resolve_val_ro(s, q.predicate)
    };
    let ro = if q.object is Undefined {
        Some(0u64)
    } else {
        spec_resolve_val_ro(s, q.object)
    };
    let rl = if q.label is Undefined {
        Some(0u64)
    } else {
        spec_resolve_val_ro(s, q.label)
    };
    if rs is Some && rp is Some && ro is Some && rl is Some {
        Some(
            InternalQuad {
                s: rs->Some_0,
                p: rp->Some_0,
                o: ro->Some_0,
                l: rl->Some_0,
            },
        )
    } else {
        None
    }
}

/// As the resolution without interning, standing in the all-zero tuple for
/// a quad that is not stored.
pub open spec fn spec_resolve_quad_ro_default(s: StoreModel, q: QuadView) -> InternalQuad {
    match spec_resolve_quad_ro(s, q) {
        Some(iq) => iq,
        None => InternalQuad { s: 0, p: 0, o: 0, l: 0 },
    }
}

/// One direction of an interning resolution: the absent value keeps
/// identifier zero. A refused step hands back the state it was given.
pub open spec fn spec_resolve_dir_add(s: StoreModel, v: ValueView) -> Result<
    (StoreModel, u64),
    StoreModel,
> {
    if v is Undefined {
        Ok((s, 0u64))
    } else {
        match spec_resolve_val_add(s, v) {
            Ok((s2, Some(id))) => Ok((s2, id)),
            Ok((s2, None)) => Ok((s2, 0u64)),
            Err(_) => Err(s),
        }
    }
}

/// The model after a quad is resolved with interning, direction by
/// direction in order. A refusal hands back the state reached so far.
pub open spec fn spec_resolve_quad_add(s: StoreModel, q: QuadView) -> Result<
    (StoreModel, InternalQuad),
    StoreModel,
> {
    match spec_resolve_dir_add(s, q.subject) {
        Err(s1) => Err(s1),
        Ok((s1, i1)) => match spec_resolve_dir_add(s1, q.predicate) {
            Err(s2) => Err(s2),
            Ok((s2, i2)) => match spec_resolve_dir_add(s2, q.object) {
                Err(s3) => Err(s3),
                Ok((s3, i3)) => match spec_resolve_dir_add(s3, q.label) {
                    Err(s4) => Err(s4),
                    Ok((s4, i4)) => Ok((s4, InternalQuad { s: i1, p: i2, o: i3, l: i4 })),
                },
            },
        },
    }
}

/// The identifier a stored quad is found under: its values resolved
/// without interning, the tuple's hash probed in the hash index.
#[verifier::opaque]
pub open spec fn spec_find_quad(s: StoreModel, q: QuadView) -> Option<u64> {
    match spec_resolve_quad_ro(s, q) {
        Some(iq) => model_hash_lookup(s, iq.spec_hash()),
        None => None,
    }
}

/// One reference dropped from one direction's value record: identifier
/// zero and dead identifiers are skipped, the last reference removes the
/// record, and a record already at zero references is refused with the
/// state unchanged.
pub open spec fn spec_delete_node_step(s: StoreModel, id: u64) -> Result<StoreModel, StoreModel> {
    if id == 0 {
        Ok(s)
    } else if !s.prims.contains_key(id) {
        Ok(s)
    } else {
        let e = s.prims[id];
        if e.refs == 0 {
            Err(s)
        } else if e.refs == 1 {
            Ok(spec_remove_primitive(s, id, e.content))
        } else {
            Ok(
                StoreModel {
                    prims: s.prims.insert(
                        id,
                        PrimEntry { refs: (e.refs - 1) as u64, content: e.content },
                    ),
                    ..s
                },
            )
        }
    }
}

/// The model after a deleted quad's references are dropped, direction by
/// direction in order. A refusal hands back the state reached so far.
pub open spec fn spec_delete_quad_nodes(s: StoreModel, q: InternalQuad) -> Result<
    StoreModel,
    StoreModel,
> {
    match spec_delete_node_step(s, q.s) {
        Err(s1) => Err(s1),
        Ok(s1) => match spec_delete_node_step(s1, q.p) {
            Err(s2) => Err(s2),
            Ok(s2) => match spec_delete_node_step(s2, q.o) {
                Err(s3) => Err(s3),
                Ok(s3) => match spec_delete_node_step(s3, q.l) {
                    Err(s4) => Err(s4),
                    Ok(s4) => Ok(s4),
                },
            },
        },
    }
}

/// The model after a record is deleted by identifier: a dead identifier
/// reports `false`; a quad record also sheds its direction-index entries
/// and one reference per assigned direction.
#[verifier::opaque]
pub open spec fn spec_delete(s: StoreModel, id: u64) -> Result<(StoreModel, bool), StoreModel> {
    if !s.prims.contains_key(id) {
        Ok((s, false))
    } else {
        let e = s.prims[id];
        let s1 = spec_remove_primitive(s, id, e.content);
        match e.content {
            PrimitiveContentView::InternalQuad(q) => {
                let s2 = StoreModel {
                    dirs: s1.dirs.remove((Direction::Subject, q.s, id)).remove(
                        (Direction::Predicate, q.p, id),
                    ).remove((Direction::Object, q.o, id)).remove((Direction::Label, q.l, id)),
                    ..s1
                };
                match spec_delete_quad_nodes(s2, q) {
                    Ok(s3) => Ok((s3, true)),
                    Err(s3) => Err(s3),
                }
            },
            PrimitiveContentView::Value(_) => Ok((s1, true)),
        }
    }
}

/// The model after a quad is added: a tuple whose hash already names a
/// live record is answered with that identifier and no change; otherwise
/// the values are interned, the tuple's record is written, and each
/// assigned direction is indexed.
#[verifier::opaque]
pub open spec fn spec_add_quad(s: StoreModel, q: QuadView) -> Result<(StoreModel, u64), StoreModel> {
    let p0 = spec_resolve_quad_ro_default(s, q);
    let h = p0.spec_hash();
    if s.hidx.contains_key(h) && s.prims.contains_key(s.hidx[h]) {
        Ok((s, s.hidx[h]))
    } else {
        match spec_resolve_quad_add(s, q) {
            Err(s1) => Err(s1),
            Ok((s1, p)) => match spec_add_primitive(s1, PrimitiveContentView::InternalQuad(p)) {
                Err(_) => Err(s1),
                Ok((s2, id)) => {
                    let d1 = if p.s != 0 {
                        s2.dirs.insert((Direction::Subject, p.s, id))
                    } else {
                        s2.dirs
                    };
                    let d2 = if p.p != 0 {
                        d1.insert((Direction::Predicate, p.p, id))
                    } else {
                        d1
                    };
                    let d3 = if p.o != 0 {
                        d2.insert((Direction::Object, p.o, id))
                    } else {
                        d2
                    };
                    let d4 = if p.l != 0 {
                        d3.insert((Direction::Label, p.l, id))
                    } else {
                        d3
                    };
                    Ok((StoreModel { dirs: d4, ..s2 }, id))
                },
            },
        }
    }
}

/// Every quad of a batch satisfies the numeric invariant.
pub open spec fn spec_deltas_wf(ds: Seq<Delta>) -> bool {
    forall|i: int| 0 <= i < ds.len() ==> (#[trigger] ds[i]).quad@.wf()
}

/// The first failure the validation pass reports, if any: a duplicate add
/// when duplicates are not ignored, or a missing delete when missing quads
/// are not ignored.
pub open spec fn spec_validate(s: StoreModel, ds: Seq<Delta>, opts: IgnoreOptions) -> Option<
    Procedure,
>
    decreases ds.len(),
{
    if ds.len() == 0 {
        None
    } else {
        let d = ds[0];
        let bad = match d.action {
            Procedure::Add => !opts.ignore_dup && spec_find_quad(s, d.quad@) is Some,
            Procedure::Delete => !opts.ignore_missing && spec_find_quad(s, d.quad@) is None,
        };
        if bad {
            Some(d.action)
        } else {
            spec_validate(s, ds.drop_first(), opts)
        }
    }
}

/// A batch tolerating both duplicates and missing quads passes validation
/// outright.
pub proof fn lemma_validate_tolerant(s: StoreModel, ds: Seq<Delta>, opts: IgnoreOptions)
    requires
        opts.ignore_dup,
        opts.ignore_missing,
    ensures
        spec_validate(s, ds, opts) is None,
    decreases ds.len(),
{
    if ds.len() > 0 {
        lemma_validate_tolerant(s, ds.drop_first(), opts);
    }
}

/// The model after one delta of the mutation pass: an add interns its
/// quad; a delete removes the found quad and skips a missing one.
pub open spec fn spec_apply_delta(s: StoreModel, d: Delta) -> Result<StoreModel, StoreModel> {
    match d.action {
        Procedure::Add => match spec_add_quad(s, d.quad@) {
            Ok((s2, _)) => Ok(s2),
            Err(s2) => Err(s2),
        },
        Procedure::Delete => match spec_find_quad(s, d.quad@) {
            Some(id) => match spec_delete(s, id) {
                Ok((s2, _)) => Ok(s2),
                Err(s2) => Err(s2),
            },
            None => Ok(s),
        },
    }
}

/// The model after the mutation pass, delta by delta in order. A refusal
/// hands back the state reached so far: there is no rollback.
pub open spec fn spec_apply_deltas(s: StoreModel, ds: Seq<Delta>) -> Result<StoreModel, StoreModel>
    decreases ds.len(),
{
    if ds.len() == 0 {
        Ok(s)
    } else {
        match spec_apply_delta(s, ds[0]) {
            Ok(s2) => spec_apply_deltas(s2, ds.drop_first()),
            Err(s2) => Err(s2),
        }
    }
}

/// The value a direction's identifier stands for: absent when the
/// identifier is zero, names no live record, or names a quad record.
pub open spec fn spec_lookup_dir_value(s: StoreModel, id: u64) -> ValueView {
    if id != 0 && s.prims.contains_key(id) && (s.prims[id].content matches
        PrimitiveContentView::Value(v)) {
        s.prims[id].content->Value_0
    } else {
        ValueView::Undefined
    }
}

/// The tuple a handle's key names, when the key is assigned and its record
/// holds a tuple.
pub open spec fn spec_internal_quad(s: StoreModel, key: Option<u64>) -> Option<InternalQuad> {
    match key {
        Some(k) => if s.prims.contains_key(k) && (s.prims[k].content matches
            PrimitiveContentView::InternalQuad(q)) {
            Some(s.prims[k].content->InternalQuad_0)
        } else {
            None
        },
        None => None,
    }
}

/// The store's internal failure reports: invariant violations (a content
/// hash already indexed, an exhausted identifier space, a reference count
/// out of range, a drop below zero) and storage faults. Every error a
/// mutation can surface, beyond the two validation refusals, is one of
/// these.
pub open spec fn spec_internal_error(e: Seq<char>) -> bool {
    ||| e == "hash index names a quad record"@
    ||| e == "reference count overflow"@
    ||| e == "hash already indexed"@
    ||| e == "primitive count is invalid"@
    ||| e == "remove of deleted node"@
    ||| e == "read/write error encountered"@
}

/// The quad store: value naming, quad lookup, direction scans, statistics,
/// and batched delta application over the primitive store.
pub struct RocksDB {
    pub store: InternalRocksDB,
}

impl RocksDB {
    /// The store's abstract state.
    pub open spec fn model(&self) -> StoreModel {
        self.store.model()
    }

    /// The store's invariant.
    pub open spec fn inv(&self) -> bool {
        self.store.inv()
    }

    /// An empty store; see `InternalRocksDB::open` on the path.
    pub fn open(path: &str) -> (r: Result<RocksDB, String>)
        ensures
            r matches Ok(s) && s.inv() && s.model() == (StoreModel {
                prims: Map::<u64, PrimEntry>::empty(),
                hidx: Map::<u64, u64>::empty(),
                dirs: Set::<(Direction, u64, u64)>::empty(),
                counts: PrimitiveCount { values: 0, quads: 0 },
            }),
    {
        Ok(RocksDB { store: InternalRocksDB::open(path)? })
    }

    /// A handle for a value: its content hash is probed in the hash index,
    /// and a hit carries the value along with the identifier found.
    pub fn value_of(&self, v: &Value) -> (r: Option<Ref>)
        requires
            self.inv(),
        ensures
            match r {
                Some(rf) => {
                    &&& !(v@ is Undefined)
                    &&& self.model().hidx.contains_key(spec_value_hash(v@))
                    &&& rf.k == Some(self.model().hidx[spec_value_hash(v@)])
                    &&& rf.content matches Content::Value(rv) && rv@ == v@
                },
                None => v@ is Undefined || !self.model().hidx.contains_key(spec_value_hash(v@)),
            },
    {
        if let Value::Undefined = v {
            return None;
        }
        let hash = v.calc_hash();
        match self.store.get_id_hash(hash) {
            Ok(Some(id)) => Some(Ref { k: Some(id), content: Content::Value(v.clone()) }),
            _ => None,
        }
    }

    /// The value a handle stands for: carried content is answered directly,
    /// else the handle's record is read.
    pub fn name_of(&self, key: &Ref) -> (r: Option<Value>)
        requires
            self.inv(),
        ensures
            match key.content {
                Content::Value(ref v) => r matches Some(rv) && rv@ == v@,
                _ => match key.spec_key() {
                    Some(i) => match r {
                        Some(rv) => self.model().prims.contains_key(i)
                            && self.model().prims[i].content == PrimitiveContentView::Value(rv@),
                        None => !(self.model().prims.contains_key(i) && self.model().prims[i].content
                            is Value),
                    },
                    None => r is None,
                },
            },
    {
        if let Content::Value(v) = &key.content {
            return Some(v.clone());
        }
        if let Some(i) = key.key() {
            match self.store.lookup_val(i) {
                Ok(v) => v,
                Err(_) => None,
            }
        } else {
            None
        }
    }

    /// The quad a handle stands for: carried content is answered directly,
    /// else the tuple is read and each assigned direction resolved back to
    /// its value.
    pub fn quad(&self, r: &Ref) -> (res: Option<Quad>)
        requires
            self.inv(),
        ensures
            match r.content {
                Content::Quad(ref q) => res matches Some(q2) && q2@ == q@,
                _ => {
                    let iq = match r.content {
                        Content::InternalQuad(iq0) => Some(iq0),
                        _ => spec_internal_quad(self.model(), r.spec_key()),
                    };
                    match iq {
                        Some(p) => res matches Some(q2) && q2@.subject == spec_lookup_dir_value(
                            self.model(),
                            p.s,
                        ) && q2@.predicate == spec_lookup_dir_value(self.model(), p.p) && q2@.object
                            == spec_lookup_dir_value(self.model(), p.o) && q2@.label
                            == spec_lookup_dir_value(self.model(), p.l),
                        None => res is None,
                    }
                },
            },
    {
        let internal_quad: Option<InternalQuad> = match &r.content {
            Content::Quad(q) => {
                return Some(q.clone());
            },
            Content::InternalQuad(iq) => Some(*iq),
            _ => match self.store.internal_quad(r) {
                Ok(iq) => iq,
                Err(_) => {
                    return None;
                },
            },
        };
        match internal_quad {
            Some(q) => match self.store.lookup_quad_dirs(q) {
                Ok(dirs) => Some(dirs),
                Err(_) => None,
            },
            None => None,
        }
    }

    /// The shape over every quad adjacent to the handle's value in one
    /// direction: the indexed identifiers where there are any, else the
    /// empty shape.
    pub fn quad_iterator(&self, d: &Direction, r: &Ref) -> (res: crate::iterator::Shape<'_>)
        requires
            self.inv(),
        ensures
            res.wf(),
            match r.spec_key() {
                Some(i) => {
                    &&& (res matches crate::iterator::Shape::QuadIds(s) ==> s.d == *d && forall|
                        q: u64,
                    |
                        s.quad_ids@.contains(q) <==> self.model().dirs.contains((*d, i, q)))
                    &&& ((res is Null) ==> forall|q: u64|
                        !(#[trigger] self.model().dirs.contains((*d, i, q))))
                    &&& (res is QuadIds || res is Null)
                },
                None => res is Null,
            },
    {
        if let Some(i) = r.key() {
            let quad_ids = self.store.get_quad_direction(d, &i);
            if quad_ids.len() > 0 {
                proof {
                    assert forall|q: u64| #![all_triggers]
                        quad_ids@.contains(q) <==> self.model().dirs.contains((*d, i, q)) by {
                        if quad_ids@.contains(q) {
                            let j = choose|j: int| 0 <= j < quad_ids@.len() && quad_ids@[j] == q;
                        }
                        if self.model().dirs.contains((*d, i, q)) {
                            let j = choose|j: int| 0 <= j < quad_ids@.len() && quad_ids@[j] == q;
                        }
                    }
                }
                return crate::iterator::Shape::QuadIds(crate::quad_ids::QuadIds::new(quad_ids, *d));
            }
            proof {
                assert forall|q: u64| !(#[trigger] self.model().dirs.contains((*d, i, q))) by {
                    if self.model().dirs.contains((*d, i, q)) {
                        let j = choose|j: int| 0 <= j < quad_ids@.len() && quad_ids@[j] == q;
                    }
                }
            }
        }
        crate::iterator::Shape::Null
    }

    /// The exact count of quads adjacent to the handle's value in one
    /// direction, as a size report.
    pub fn quad_iterator_size(&self, d: &Direction, r: &Ref) -> (res: Result<Size, String>)
        requires
            self.inv(),
        ensures
            res matches Ok(sz) && sz.exact && match r.spec_key() {
                Some(i) => exists|ids: Seq<u64>|
                    {
                        &&& (forall|a: int, b: int| 0 <= a < b < ids.len() ==> ids[a] < ids[b])
                        &&& (forall|q: u64| #[trigger]
                            ids.contains(q) <==> self.model().dirs.contains((*d, i, q)))
                        &&& sz.value == if ids.len() <= i64::MAX {
                            ids.len() as i64
                        } else {
                            i64::MAX
                        }
                    },
                None => sz.value == 0,
            },
    {
        if let Some(i) = r.key() {
            let quad_ids = self.store.get_quad_direction(d, &i);
            let n = crate::shape::len_to_i64(quad_ids.len());
            proof {
                assert forall|q: u64| #[trigger]
                    quad_ids@.contains(q) <==> self.model().dirs.contains((*d, i, q)) by {
                    if quad_ids@.contains(q) {
                        let j = choose|j: int| 0 <= j < quad_ids@.len() && quad_ids@[j] == q;
                    }
                    if self.model().dirs.contains((*d, i, q)) {
                        let j = choose|j: int| 0 <= j < quad_ids@.len() && quad_ids@[j] == q;
                    }
                }
            }
            return Ok(Size { value: n, exact: true });
        }
        Ok(Size { value: 0, exact: true })
    }

    /// The handle stored in one direction of a quad: an assigned direction
    /// yields its identifier, an unassigned one yields the empty handle,
    /// and a dead quad yields nothing.
    pub fn quad_direction(&self, r: &Ref, d: &Direction) -> (res: Option<Ref>)
        requires
            self.inv(),
        ensures
            match spec_internal_quad(self.model(), r.spec_key()) {
                Some(q) => res matches Some(rf) && if q.spec_dir(d) == 0 {
                    rf.k is None && rf.content is Empty
                } else {
                    rf.k == Some(q.spec_dir(d)) && rf.content is Empty
                },
                None => res is None,
            },
    {
        let quad = match self.store.internal_quad(r) {
            Ok(q) => q,
            Err(_) => {
                return None;
            },
        };
        match quad {
            Some(q) => {
                let id = q.dir(d);
                if id == 0 {
                    return Some(Ref::none());
                }
                Some(Ref { k: Some(id), content: Content::Empty })
            },
            None => None,
        }
    }

    /// The live-record counts, both exact.
    pub fn stats(&self, _exact: bool) -> (r: Result<Stats, String>)
        requires
            self.inv(),
        ensures
            r matches Ok(st) && {
                &&& st.nodes.exact && st.quads.exact
                &&& st.nodes.value == if self.model().counts.values <= i64::MAX {
                    self.model().counts.values as i64
                } else {
                    i64::MAX
                }
                &&& st.quads.value == if self.model().counts.quads <= i64::MAX {
                    self.model().counts.quads as i64
                } else {
                    i64::MAX
                }
            },
    {
        let count = self.store.get_count()?;
        Ok(
            Stats {
                nodes: Size {
                    value: crate::shape::u64_to_i64_saturating(count.values),
                    exact: true,
                },
                quads: Size { value: crate::shape::u64_to_i64_saturating(count.quads), exact: true },
            },
        )
    }

    /// Applies a batch of deltas: a validation pass first refuses a
    /// duplicate add or missing delete the options do not tolerate, leaving
    /// the store untouched; the mutation pass then applies the deltas in
    /// order, with no rollback on a mid-batch refusal.
    #[verifier::rlimit(100)]
    #[verifier::spinoff_prover]
    pub fn apply_deltas(&mut self, deltas: Vec<Delta>, ignore_opts: &IgnoreOptions) -> (r: Result<
        (),
        String,
    >)
        requires
            old(self).inv(),
            spec_deltas_wf(deltas@),
        ensures
            final(self).inv(),
            match r {
                Ok(_) => spec_validate(old(self).model(), deltas@, *ignore_opts) is None
                    && spec_apply_deltas(old(self).model(), deltas@) == Ok::<_, StoreModel>(
                    final(self).model(),
                ),
                Err(e) => match spec_validate(old(self).model(), deltas@, *ignore_opts) {
                    Some(Procedure::Add) => final(self).model() == old(self).model() && e@
                        == "ErrQuadExists"@,
                    Some(Procedure::Delete) => final(self).model() == old(self).model() && e@
                        == "ErrQuadNotExist"@,
                    None => spec_apply_deltas(old(self).model(), deltas@) matches Err(s2)
                        && final(self).model() == s2 && spec_internal_error(e@),
                },
            },
    {
        let ghost s0 = self.model();
        proof {
            assert(deltas@.skip(0) =~= deltas@);
        }
        if !ignore_opts.ignore_dup || !ignore_opts.ignore_missing {
            let mut i: usize = 0;
            while i < deltas.len()
                invariant
                    self.inv(),
                    *self == *old(self),
                    s0 == self.model(),
                    s0 == old(self).model(),
                    i <= deltas@.len(),
                    spec_deltas_wf(deltas@),
                    spec_validate(s0, deltas@, *ignore_opts) == spec_validate(
                        s0,
                        deltas@.skip(i as int),
                        *ignore_opts,
                    ),
                decreases deltas@.len() - i,
            {
                let d = &deltas[i];
                proof {
                    assert(deltas@.skip(i as int)[0] == deltas@[i as int]);
                }
                match d.action {
                    Procedure::Add => {
                        if !ignore_opts.ignore_dup {
                            if let Some(_) = self.store.find_quad(&d.quad)? {
                                return Err("ErrQuadExists".to_owned());
                            }
                        }
                    },
                    Procedure::Delete => {
                        if !ignore_opts.ignore_missing {
                            if let Some(_) = self.store.find_quad(&d.quad)? {
                            } else {
                                return Err("ErrQuadNotExist".to_owned());
                            }
                        }
                    },
                }
                proof {
                    assert(deltas@.skip(i as int).drop_first() =~= deltas@.skip(i as int + 1));
                }
                i += 1;
            }
            proof {
                assert(deltas@.skip(deltas@.len() as int) =~= Seq::<Delta>::empty());
            }
        }
        proof {
            if ignore_opts.ignore_dup && ignore_opts.ignore_missing {
                lemma_validate_tolerant(s0, deltas@, *ignore_opts);
            }
            assert(spec_validate(s0, deltas@, *ignore_opts) is None);
        }
        let mut i: usize = 0;
        proof {
            assert(deltas@.skip(0) =~= deltas@);
        }
        while i < deltas.len()
            invariant
                self.inv(),
                i <= deltas@.len(),
                s0 == old(self).model(),
                spec_deltas_wf(deltas@),
                spec_validate(s0, deltas@, *ignore_opts) is None,
                spec_apply_deltas(s0, deltas@) == spec_apply_deltas(
                    self.model(),
                    deltas@.skip(i as int),
                ),
            decreases deltas@.len() - i,
        {
            let ghost s_cur = self.model();
            let d = &deltas[i];
            proof {
                assert(deltas@.skip(i as int)[0] == deltas@[i as int]);
                assert(deltas@.skip(i as int).drop_first() =~= deltas@.skip(i as int + 1));
            }
            match &d.action {
                Procedure::Add => {
                    match self.store.add_quad(d.quad.clone()) {
                        Ok(_) => {},
                        Err(e) => {
                            proof {
                                assert(spec_apply_delta(s_cur, deltas@[i as int])
                                    matches Err(s2) && s2 == self.model());
                                assert(spec_apply_deltas(s0, deltas@) == Err::<StoreModel, _>(
                                    self.model(),
                                ));
                            }
                            return Err(e);
                        },
                    }
                },
                Procedure::Delete => {
                    if let Some(id) = self.store.find_quad(&d.quad)? {
                        match self.store.delete(id) {
                            Ok(_) => {},
                            Err(e) => {
                                proof {
                                    assert(spec_apply_delta(s_cur, deltas@[i as int])
                                        matches Err(s2) && s2 == self.model());
                                    assert(spec_apply_deltas(s0, deltas@) == Err::<StoreModel, _>(
                                        self.model(),
                                    ));
                                }
                                return Err(e);
                            },
                        }
                    }
                },
            }
            proof {
                assert(spec_apply_delta(s_cur, deltas@[i as int]) == Ok::<_, StoreModel>(
                    self.model(),
                ));
            }
            i += 1;
        }
        proof {
            assert(deltas@.skip(deltas@.len() as int) =~= Seq::<Delta>::empty());
        }
        Ok(())
    }

    /// The shape over every live value record.
    pub fn nodes_all_iterator(&self) -> (r: crate::iterator::Shape<'_>)
        requires
            self.inv(),
        ensures
            r matches crate::iterator::Shape::StoreIterator(it) && it.db.model() == self.model()
                && it.nodes && it.db.inv(),
    {
        crate::iterator::Shape::StoreIterator(
            crate::all_iterator::RocksDbAllIterator::new(&self.store, true),
        )
    }

    /// The shape over every live quad record.
    pub fn quads_all_iterator(&self) -> (r: crate::iterator::Shape<'_>)
        requires
            self.inv(),
        ensures
            r matches crate::iterator::Shape::StoreIterator(it) && it.db.model() == self.model()
                && !it.nodes && it.db.inv(),
    {
        crate::iterator::Shape::StoreIterator(
            crate::all_iterator::RocksDbAllIterator::new(&self.store, false),
        )
    }

    /// Releases the store's handles; nothing can fail here.
    pub fn close(&self) -> (r: Option<String>)
        ensures
            r is None,
    {
        None
    }
}

/// A convenience writer wrapping single-quad operations as one-delta
/// batches under a fixed tolerance for duplicates and missing quads.
pub struct QuadWriter {
    pub qs: RocksDB,
    pub ignore_opts: IgnoreOptions,
}

impl QuadWriter {
    /// A writer over the given store.
    pub fn new(qs: RocksDB, ignore_opts: IgnoreOptions) -> (r: QuadWriter)
        ensures
            r.qs == qs,
            r.ignore_opts == ignore_opts,
    {
        QuadWriter { qs, ignore_opts }
    }

    /// Adds one quad under the writer's tolerance options: the one-delta
    /// batch is validated and applied exactly as `apply_deltas` does, so a
    /// duplicate is refused when duplicates are not ignored (store
    /// untouched) and success is owed otherwise, short of an internal
    /// failure of the add itself.
    #[verifier::rlimit(100)]
    #[verifier::spinoff_prover]
    pub fn add_quad(&mut self, quad: Quad) -> (r: Result<(), String>)
        requires
            old(self).qs.inv(),
            quad@.wf(),
        ensures
            final(self).qs.inv(),
            final(self).ignore_opts == old(self).ignore_opts,
            match r {
                Ok(_) => spec_validate(
                    old(self).qs.model(),
                    seq![Delta { quad, action: Procedure::Add }],
                    old(self).ignore_opts,
                ) is None && spec_apply_delta(
                    old(self).qs.model(),
                    Delta { quad, action: Procedure::Add },
                ) == Ok::<_, StoreModel>(final(self).qs.model()),
                Err(e) => match spec_validate(
                    old(self).qs.model(),
                    seq![Delta { quad, action: Procedure::Add }],
                    old(self).ignore_opts,
                ) {
                    Some(Procedure::Add) => final(self).qs.model() == old(self).qs.model() && e@
                        == "ErrQuadExists"@,
                    Some(Procedure::Delete) => final(self).qs.model() == old(self).qs.model() && e@
                        == "ErrQuadNotExist"@,
                    None => spec_apply_delta(
                        old(self).qs.model(),
                        Delta { quad, action: Procedure::Add },
                    ) matches Err(s2) && final(self).qs.model() == s2 && spec_internal_error(e@),
                },
            },
    {
        let ghost d = Delta { quad, action: Procedure::Add };
        let batch = vec![Delta { action: Procedure::Add, quad }];
        proof {
            assert(batch@ =~= seq![d]);
        }
        let r = self.qs.apply_deltas(batch, &self.ignore_opts);
        proof {
            let ds = seq![d];
            assert(ds[0] == d);
            assert(ds.drop_first() =~= Seq::<Delta>::empty());
            match r {
                Ok(_) => {
                    match spec_apply_delta(old(self).qs.model(), d) {
                        Ok(s2) => {
                            assert(spec_apply_deltas(s2, ds.drop_first()) == Ok::<_, StoreModel>(
                                s2,
                            ));
                            assert(s2 == final(self).qs.model());
                        },
                        Err(s2) => {
                            assert(spec_apply_deltas(old(self).qs.model(), ds) == Err::<
                                StoreModel,
                                _,
                            >(s2));
                        },
                    }
                },
                Err(_) => {
                    if spec_validate(old(self).qs.model(), ds, old(self).ignore_opts) is None {
                        match spec_apply_delta(old(self).qs.model(), d) {
                            Ok(s2) => {
                                assert(spec_apply_deltas(s2, ds.drop_first()) == Ok::<
                                    _,
                                    StoreModel,
                                >(s2));
                                assert(spec_apply_deltas(old(self).qs.model(), ds) == Ok::<
                                    _,
                                    StoreModel,
                                >(s2));
                            },
                            Err(s2) => {
                                assert(spec_apply_deltas(old(self).qs.model(), ds) == Err::<
                                    StoreModel,
                                    _,
                                >(s2));
                            },
                        }
                    }
                },
            }
        }
        r
    }

    /// Removes one quad under the writer's tolerance options: the
    /// one-delta batch is validated and applied exactly as `apply_deltas`
    /// does, so a missing quad is refused when missing quads are not
    /// ignored (store untouched) and success is owed otherwise, short of an
    /// internal failure of the delete itself.
    #[verifier::rlimit(100)]
    #[verifier::spinoff_prover]
    pub fn remove_quad(&mut self, quad: Quad) -> (r: Result<(), String>)
        requires
            old(self).qs.inv(),
            quad@.wf(),
        ensures
            final(self).qs.inv(),
            final(self).ignore_opts == old(self).ignore_opts,
            match r {
                Ok(_) => spec_validate(
                    old(self).qs.model(),
                    seq![Delta { quad, action: Procedure::Delete }],
                    old(self).ignore_opts,
                ) is None && spec_apply_delta(
                    old(self).qs.model(),
                    Delta { quad, action: Procedure::Delete },
                ) == Ok::<_, StoreModel>(final(self).qs.model()),
                Err(e) => match spec_validate(
                    old(self).qs.model(),
                    seq![Delta { quad, action: Procedure::Delete }],
                    old(self).ignore_opts,
                ) {
                    Some(Procedure::Add) => final(self).qs.model() == old(self).qs.model() && e@
                        == "ErrQuadExists"@,
                    Some(Procedure::Delete) => final(self).qs.model() == old(self).qs.model() && e@
                        == "ErrQuadNotExist"@,
                    None => spec_apply_delta(
                        old(self).qs.model(),
                        Delta { quad, action: Procedure::Delete },
                    ) matches Err(s2) && final(self).qs.model() == s2 && spec_internal_error(e@),
                },
            },
    {
        let ghost d = Delta { quad, action: Procedure::Delete };
        let batch = vec![Delta { action: Procedure::Delete, quad }];
        proof {
            assert(batch@ =~= seq![d]);
        }
        let r = self.qs.apply_deltas(batch, &self.ignore_opts);
        proof {
            let ds = seq![d];
            assert(ds[0] == d);
            assert(ds.drop_first() =~= Seq::<Delta>::empty());
            match r {
                Ok(_) => {
                    match spec_apply_delta(old(self).qs.model(), d) {
                        Ok(s2) => {
                            assert(spec_apply_deltas(s2, ds.drop_first()) == Ok::<_, StoreModel>(
                                s2,
                            ));
                            assert(s2 == final(self).qs.model());
                        },
                        Err(s2) => {
                            assert(spec_apply_deltas(old(self).qs.model(), ds) == Err::<
                                StoreModel,
                                _,
                            >(s2));
                        },
                    }
                },
                Err(_) => {
                    if spec_validate(old(self).qs.model(), ds, old(self).ignore_opts) is None {
                        match spec_apply_delta(old(self).qs.model(), d) {
                            Ok(s2) => {
                                assert(spec_apply_deltas(s2, ds.drop_first()) == Ok::<
                                    _,
                                    StoreModel,
                                >(s2));
                                assert(spec_apply_deltas(old(self).qs.model(), ds) == Ok::<
                                    _,
                                    StoreModel,
                                >(s2));
                            },
                            Err(s2) => {
                                assert(spec_apply_deltas(old(self).qs.model(), ds) == Err::<
                                    StoreModel,
                                    _,
                                >(s2));
                            },
                        }
                    }
                },
            }
        }
        r
    }
}

} // verus!
