//! The shape over every primitive of one kind, walking the record family
//! of the keyspace in identifier order.

use vstd::prelude::*;
use crate::model::StoreModel;
use crate::primitive::{Primitive, PrimitiveContentView};
use crate::quadstore::InternalRocksDB;
use crate::refs::{Ref, Content, Size};
use crate::shape::{Costs, ShapeType, u64_to_i64_saturating};

verus! {

/// Whether a live record of the model matches the requested kind: value
/// records for `nodes`, quad records otherwise.
pub open spec fn kind_matches(s: StoreModel, id: u64, nodes: bool) -> bool {
    s.prims.contains_key(id) && (s.prims[id].content is Value) == nodes
}

/// The shape over every primitive of one kind.
pub struct RocksDbAllIterator<'a> {
    pub db: &'a InternalRocksDB,
    pub nodes: bool,
}

impl<'a> RocksDbAllIterator<'a> {
    /// A shape over the store's value records (`nodes`) or quad records.
    pub fn new(db: &'a InternalRocksDB, nodes: bool) -> (r: RocksDbAllIterator<'a>)
        ensures
            r.db == db,
            r.nodes == nodes,
    {
        RocksDbAllIterator { db, nodes }
    }

    /// An ordered enumeration of the matching records.
    pub fn iterate(&self) -> (r: RocksDbAllIteratorNext<'a>)
        ensures
            r.db == self.db,
            r.nodes == self.nodes,
            !r.done,
            r.cur is None,
    {
        RocksDbAllIteratorNext::new(self.db, self.nodes)
    }

    /// A membership view of the matching records.
    pub fn lookup(&self) -> (r: RocksDbAllIteratorContains<'a>)
        ensures
            r.db == self.db,
            r.nodes == self.nodes,
            !r.done,
            r.cur is None,
    {
        RocksDbAllIteratorContains::new(self.db, self.nodes)
    }

    /// The planner's costs. The size reports every live primitive, not
    /// only the matching kind: the total is what the counter holds, and
    /// the planner takes it as an upper bound for either kind.
    pub fn stats(&mut self) -> (r: Result<Costs, String>)
        requires
            old(self).db.inv(),
        ensures
            *final(self) == *old(self),
            r matches Ok(c) && {
                let total = old(self).db.model().counts.values + old(self).db.model().counts.quads;
                &&& c.contains_cost == 1
                &&& c.next_cost == 1
                &&& c.size.exact
                &&& c.size.value == if total <= i64::MAX {
                    total as i64
                } else {
                    i64::MAX
                }
            },
    {
        let count = self.db.get_count()?;
        let total = if count.values > u64::MAX - count.quads {
            u64::MAX
        } else {
            count.values + count.quads
        };
        proof {
            if count.values > u64::MAX - count.quads {
                assert(count.values + count.quads > u64::MAX >= i64::MAX);
            }
        }
        Ok(
            Costs {
                contains_cost: 1,
                next_cost: 1,
                size: Size { value: u64_to_i64_saturating(total), exact: true },
            },
        )
    }

    /// No cheaper equivalent shape is known.
    pub fn optimize(&mut self) -> (r: Option<RocksDbAllIterator<'a>>)
        ensures
            *final(self) == *old(self),
            r is None,
    {
        None
    }

    /// This shape has no sub-iterators.
    pub fn sub_iterators(&self) -> (r: Option<Vec<RocksDbAllIterator<'a>>>)
        ensures
            r is None,
    {
        None
    }

    /// The structural kind of this shape.
    pub fn shape_type(&mut self) -> (r: ShapeType)
        ensures
            *final(self) == *old(self),
            r == ShapeType::StoreIterator,
    {
        ShapeType::StoreIterator
    }
}

/// The scanner over matching records: yields each in ascending identifier
/// order exactly once, then latches done.
pub struct RocksDbAllIteratorNext<'a> {
    pub db: &'a InternalRocksDB,
    pub nodes: bool,
    pub done: bool,
    pub cur: Option<Ref>,
}

impl<'a> RocksDbAllIteratorNext<'a> {
    /// A fresh scanner positioned before the first matching record.
    pub fn new(db: &'a InternalRocksDB, nodes: bool) -> (r: RocksDbAllIteratorNext<'a>)
        ensures
            r.db == db,
            r.nodes == nodes,
            !r.done,
            r.cur is None,
    {
        RocksDbAllIteratorNext { db, nodes, done: false, cur: None }
    }

    /// The handle for the current record, when there is one.
    pub fn result(&self) -> (r: Option<Ref>)
        ensures
            r == self.cur,
    {
        match &self.cur {
            Some(rf) => Some(rf.clone()),
            None => None,
        }
    }

    /// Advances to the matching record with the smallest identifier above
    /// the current one; yields false and latches done when none is left.
    pub fn next(&mut self) -> (r: bool)
        requires
            old(self).db.inv(),
            old(self).cur matches Some(rf) ==> rf.k is Some,
        ensures
            final(self).db == old(self).db,
            final(self).nodes == old(self).nodes,
            old(self).done ==> !r && *final(self) == *old(self),
            !old(self).done ==> {
                let from = match old(self).cur {
                    Some(rf) => rf.k->0 as int + 1,
                    None => 0int,
                };
                if r {
                    &&& final(self).cur matches Some(rf2)
                    &&& rf2.k matches Some(id)
                    &&& id >= from
                    &&& kind_matches(old(self).db.model(), id, old(self).nodes)
                    &&& (old(self).db.model().prims[id].content matches
                        PrimitiveContentView::Value(v) ==> rf2.content matches Content::Value(rv)
                        && rv@ == v)
                    &&& (old(self).db.model().prims[id].content matches
                        PrimitiveContentView::InternalQuad(q) ==> rf2.content
                        == Content::InternalQuad(q))
                    &&& forall|id2: u64|
                        from <= id2 < id ==> !kind_matches(
                            old(self).db.model(),
                            id2,
                            old(self).nodes,
                        )
                    &&& !final(self).done
                } else {
                    &&& final(self).done
                    &&& forall|id2: u64|
                        id2 >= from ==> !kind_matches(old(self).db.model(), id2, old(self).nodes)
                }
            },
    {
        if self.done {
            return false;
        }
        let start: u64 = match &self.cur {
            Some(rf) => {
                let id = match rf.k {
                    Some(id) => id,
                    None => 0,
                };
                if id == u64::MAX {
                    self.done = true;
                    return false;
                }
                id + 1
            },
            None => 0,
        };
        let ghost from = start;
        let mut bound_id: u64 = start;
        loop
            invariant
                self.db.inv(),
                *self == *old(self),
                !self.done,
                from as int == (match old(self).cur {
                    Some(rf) => rf.k->0 as int + 1,
                    None => 0int,
                }),
                bound_id >= from,
                forall|id2: u64|
                    from <= id2 < bound_id ==> !kind_matches(self.db.model(), id2, self.nodes),
            decreases u64::MAX - bound_id,
        {
            match self.db.next_primitive_at_or_after(bound_id) {
                None => {
                    self.done = true;
                    self.cur = None;
                    return false;
                },
                Some(p) => {
                    match p.to_ref(self.nodes) {
                        Some(rf) => {
                            self.cur = Some(rf);
                            return true;
                        },
                        None => {
                            let id = p.id;
                            proof {
                                assert(p@.id == id);
                            }
                            if id == u64::MAX {
                                self.done = true;
                                self.cur = None;
                                return false;
                            }
                            bound_id = id + 1;
                        },
                    }
                },
            }
        }
    }

    /// This scanner has no alternative paths.
    pub fn next_path(&mut self) -> (r: bool)
        ensures
            *final(self) == *old(self),
            !r,
    {
        false
    }

    /// No deferred failure is pending.
    pub fn err(&self) -> (r: Option<String>)
        ensures
            r is None,
    {
        None
    }

    /// Releases the scanner; a closed scanner yields nothing more.
    pub fn close(&mut self) -> (r: Result<(), String>)
        ensures
            final(self).done,
            r is Ok,
    {
        self.done = true;
        Ok(())
    }
}

/// The membership view over matching records.
pub struct RocksDbAllIteratorContains<'a> {
    pub db: &'a InternalRocksDB,
    pub nodes: bool,
    pub cur: Option<Ref>,
    pub done: bool,
}

impl<'a> RocksDbAllIteratorContains<'a> {
    /// A fresh membership view with no current record.
    pub fn new(db: &'a InternalRocksDB, nodes: bool) -> (r: RocksDbAllIteratorContains<'a>)
        ensures
            r.db == db,
            r.nodes == nodes,
            !r.done,
            r.cur is None,
    {
        RocksDbAllIteratorContains { db, nodes, cur: None, done: false }
    }

    /// The handle for the record last found, when one was.
    pub fn result(&self) -> (r: Option<Ref>)
        ensures
            r == self.cur,
    {
        match &self.cur {
            Some(rf) => Some(rf.clone()),
            None => None,
        }
    }

    /// Whether the handle names a live record of the matching kind; a hit
    /// is latched as the current record.
    pub fn contains(&mut self, v: &Ref) -> (r: bool)
        requires
            old(self).db.inv(),
        ensures
            final(self).db == old(self).db,
            final(self).nodes == old(self).nodes,
            final(self).done == old(self).done,
            old(self).done ==> !r && *final(self) == *old(self),
            !old(self).done ==> match v.spec_key() {
                Some(i) => r == kind_matches(old(self).db.model(), i, old(self).nodes) && if r {
                    final(self).cur is Some
                } else {
                    final(self).cur is None
                },
                None => !r && final(self).cur == old(self).cur,
            },
    {
        if self.done {
            return false;
        }
        let id = v.key();
        match id {
            Some(i) => {
                match self.db.get_primitive(i) {
                    Ok(prim) => {
                        if let Some(p) = prim {
                            match p.to_ref(self.nodes) {
                                Some(rf) => {
                                    self.cur = Some(rf);
                                    return true;
                                },
                                None => {
                                    self.cur = None;
                                    return false;
                                },
                            }
                        }
                        self.cur = None;
                        false
                    },
                    Err(_) => {
                        proof {
                            assert(false);
                        }
                        false
                    },
                }
            },
            None => false,
        }
    }

    /// This view has no alternative paths.
    pub fn next_path(&mut self) -> (r: bool)
        ensures
            *final(self) == *old(self),
            !r,
    {
        false
    }

    /// No deferred failure is pending.
    pub fn err(&self) -> (r: Option<String>)
        ensures
            r is None,
    {
        None
    }

    /// Releases the view; a closed view finds nothing more.
    pub fn close(&mut self) -> (r: Result<(), String>)
        ensures
            final(self).done,
            r is Ok,
    {
        self.done = true;
        Ok(())
    }
}

} // verus!
