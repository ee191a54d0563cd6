//! The closed set of shapes the store hands out, with their scanner and
//! index views dispatched by a match.

use vstd::prelude::*;
use crate::all_iterator::{RocksDbAllIterator, RocksDbAllIteratorNext, RocksDbAllIteratorContains};
use crate::all_iterator::kind_matches;
use crate::quad_ids::{QuadIds, QuadIdsNext, QuadIdsContains, spec_first_above, spec_ln_floor};
use crate::refs::{Ref, Size};
use crate::shape::{Costs, ShapeType};

verus! {

/// An iterable subset of the store: an explicit quad-identifier set, a
/// full scan of one primitive kind, or nothing.
pub enum Shape<'a> {
    QuadIds(QuadIds),
    StoreIterator(RocksDbAllIterator<'a>),
    Null,
}

/// An ordered enumeration of a shape.
pub enum Scanner<'a> {
    QuadIds(QuadIdsNext),
    StoreIterator(RocksDbAllIteratorNext<'a>),
    Null,
}

/// A membership view of a shape.
pub enum Index<'a> {
    QuadIds(QuadIdsContains),
    StoreIterator(RocksDbAllIteratorContains<'a>),
    Null,
}

impl<'a> Shape<'a> {
    /// The identifier-set shapes are well formed.
    pub open spec fn wf(&self) -> bool {
        match self {
            Shape::QuadIds(s) => s.wf(),
            Shape::StoreIterator(s) => s.db.inv(),
            Shape::Null => true,
        }
    }

    /// An ordered enumeration of this shape, positioned at its start.
    pub fn iterate(&self) -> (r: Scanner<'a>)
        requires
            self.wf(),
        ensures
            match self {
                Shape::QuadIds(s) => r matches Scanner::QuadIds(it) && it.quad_ids@ == s.quad_ids@
                    && it.d == s.d && it.cur is None && !it.done,
                Shape::StoreIterator(s) => r matches Scanner::StoreIterator(it) && it.db == s.db
                    && it.nodes == s.nodes && it.cur is None && !it.done,
                Shape::Null => r is Null,
            },
    {
        match self {
            Shape::QuadIds(s) => Scanner::QuadIds(s.iterate()),
            Shape::StoreIterator(s) => Scanner::StoreIterator(s.iterate()),
            Shape::Null => Scanner::Null,
        }
    }

    /// A membership view of this shape.
    pub fn lookup(&self) -> (r: Index<'a>)
        requires
            self.wf(),
        ensures
            match self {
                Shape::QuadIds(s) => r matches Index::QuadIds(it) && it.quad_ids@ == s.quad_ids@
                    && it.d == s.d && it.cur is None,
                Shape::StoreIterator(s) => r matches Index::StoreIterator(it) && it.db == s.db
                    && it.nodes == s.nodes && it.cur is None && !it.done,
                Shape::Null => r is Null,
            },
    {
        match self {
            Shape::QuadIds(s) => Index::QuadIds(s.lookup()),
            Shape::StoreIterator(s) => Index::StoreIterator(s.lookup()),
            Shape::Null => Index::Null,
        }
    }

    /// The planner's costs for this shape; the empty shape is free and
    /// exactly empty.
    pub fn stats(&mut self) -> (r: Result<Costs, String>)
        requires
            old(self).wf(),
        ensures
            *final(self) == *old(self),
            match *old(self) {
                Shape::QuadIds(s) => r matches Ok(c) && c.size.exact && c.next_cost == 1
                    && c.contains_cost == (spec_ln_floor(s.quad_ids@.len() as u64) + 1) as i64
                    && c.size.value
                    == if s.quad_ids@.len() <= i64::MAX {
                    s.quad_ids@.len() as i64
                } else {
                    i64::MAX
                },
                Shape::StoreIterator(s) => r matches Ok(c) && {
                    let total = s.db.model().counts.values + s.db.model().counts.quads;
                    c.contains_cost == 1 && c.next_cost == 1 && c.size.exact && c.size.value == if total
                        <= i64::MAX {
                        total as i64
                    } else {
                        i64::MAX
                    }
                },
                Shape::Null => r matches Ok(c) && c == (Costs {
                    contains_cost: 0i64,
                    next_cost: 0i64,
                    size: Size { value: 0i64, exact: true },
                }),
            },
    {
        match self {
            Shape::QuadIds(s) => s.stats(),
            Shape::StoreIterator(s) => s.stats(),
            Shape::Null => Ok(
                Costs { contains_cost: 0, next_cost: 0, size: Size { value: 0, exact: true } },
            ),
        }
    }

    /// No cheaper equivalent shape is known for any of these.
    pub fn optimize(&mut self) -> (r: Option<Shape<'a>>)
        ensures
            *final(self) == *old(self),
            r is None,
    {
        None
    }

    /// None of these shapes has sub-iterators.
    pub fn sub_iterators(&self) -> (r: Option<Vec<Shape<'a>>>)
        ensures
            r is None,
    {
        None
    }

    /// The structural kind of this shape.
    pub fn shape_type(&mut self) -> (r: ShapeType)
        ensures
            *final(self) == *old(self),
            match *old(self) {
                Shape::QuadIds(_) => r == ShapeType::QuadIds,
                Shape::StoreIterator(_) => r == ShapeType::StoreIterator,
                Shape::Null => r == ShapeType::Null,
            },
    {
        match self {
            Shape::QuadIds(_) => ShapeType::QuadIds,
            Shape::StoreIterator(_) => ShapeType::StoreIterator,
            Shape::Null => ShapeType::Null,
        }
    }
}

impl<'a> Scanner<'a> {
    /// What a scanner must satisfy before stepping.
    pub open spec fn wf(&self) -> bool {
        match self {
            Scanner::QuadIds(it) => it.wf(),
            Scanner::StoreIterator(it) => it.db.inv() && (it.cur matches Some(rf) ==> rf.k is Some),
            Scanner::Null => true,
        }
    }

    /// Advances to the next yielded element; false when none is left.
    pub fn next(&mut self) -> (r: bool)
        requires
            old(self).wf(),
        ensures
            match *old(self) {
                Scanner::QuadIds(it) => (*final(self)) matches Scanner::QuadIds(it2) && it2.quad_ids
                    == it.quad_ids && it2.d == it.d && (it.done ==> !r && it2 == it) && (!it.done
                    ==> match spec_first_above(it.quad_ids@, it.cur) {
                    Some(x) => r && it2.cur == Some(x) && !it2.done,
                    None => !r && it2.cur is None && it2.done,
                }),
                Scanner::StoreIterator(it) => (*final(self)) matches Scanner::StoreIterator(it2)
                    && it2.db == it.db && it2.nodes == it.nodes && (it.done ==> !r && it2 == it) && (
                !it.done ==> {
                    let from = match it.cur {
                        Some(rf) => rf.k->0 as int + 1,
                        None => 0int,
                    };
                    if r {
                        &&& it2.cur matches Some(rf2)
                        &&& rf2.k matches Some(id)
                        &&& id >= from
                        &&& kind_matches(it.db.model(), id, it.nodes)
                        &&& forall|id2: u64|
                            from <= id2 < id ==> !kind_matches(it.db.model(), id2, it.nodes)
                        &&& !it2.done
                    } else {
                        &&& it2.done
                        &&& forall|id2: u64|
                            id2 >= from ==> !kind_matches(it.db.model(), id2, it.nodes)
                    }
                }),
                Scanner::Null => !r && (*final(self)) is Null,
            },
    {
        match self {
            Scanner::QuadIds(it) => it.next(),
            Scanner::StoreIterator(it) => it.next(),
            Scanner::Null => false,
        }
    }

    /// The handle for the current element, when there is one.
    pub fn result(&self) -> (r: Option<Ref>)
        ensures
            match self {
                Scanner::QuadIds(it) => match it.cur {
                    Some(id) => r matches Some(rf) && rf.k == Some(id) && rf.content is Empty,
                    None => r is None,
                },
                Scanner::StoreIterator(it) => r == it.cur,
                Scanner::Null => r is None,
            },
    {
        match self {
            Scanner::QuadIds(it) => it.result(),
            Scanner::StoreIterator(it) => it.result(),
            Scanner::Null => None,
        }
    }

    /// No scanner here has alternative paths.
    pub fn next_path(&mut self) -> (r: bool)
        ensures
            *final(self) == *old(self),
            !r,
    {
        false
    }

    /// No deferred failure is pending.
    pub fn err(&self) -> (r: Option<String>)
        ensures
            r is None,
    {
        None
    }

    /// Releases the scanner.
    pub fn close(&mut self) -> (r: Result<(), String>)
        ensures
            r is Ok,
    {
        match self {
            Scanner::QuadIds(it) => it.close(),
            Scanner::StoreIterator(it) => it.close(),
            Scanner::Null => Ok(()),
        }
    }
}

impl<'a> Index<'a> {
    /// What an index must satisfy before probing.
    pub open spec fn wf(&self) -> bool {
        match self {
            Index::QuadIds(it) => it.wf(),
            Index::StoreIterator(it) => it.db.inv(),
            Index::Null => true,
        }
    }

    /// Whether the handle belongs to the shape.
    pub fn contains(&mut self, v: &Ref) -> (r: bool)
        requires
            old(self).wf(),
        ensures
            match *old(self) {
                Index::QuadIds(it) => (*final(self)) matches Index::QuadIds(it2) && it2.quad_ids
                    == it.quad_ids && it2.d == it.d && match v.spec_key() {
                    Some(i) => r == it.quad_ids@.contains(i) && it2.cur == if r {
                        Some(i)
                    } else {
                        None::<u64>
                    },
                    None => !r && it2.cur is None,
                },
                Index::StoreIterator(it) => (*final(self)) matches Index::StoreIterator(it2) && it2.db
                    == it.db && it2.nodes == it.nodes && (it.done ==> !r && it2 == it) && (!it.done
                    ==> match v.spec_key() {
                    Some(i) => r == kind_matches(it.db.model(), i, it.nodes),
                    None => !r,
                }),
                Index::Null => !r && (*final(self)) is Null,
            },
    {
        match self {
            Index::QuadIds(it) => it.contains(v),
            Index::StoreIterator(it) => it.contains(v),
            Index::Null => false,
        }
    }

    /// The handle for the element last found, when one was.
    pub fn result(&self) -> (r: Option<Ref>)
        ensures
            match self {
                Index::QuadIds(it) => match it.cur {
                    Some(id) => r matches Some(rf) && rf.k == Some(id) && rf.content is Empty,
                    None => r is None,
                },
                Index::StoreIterator(it) => r == it.cur,
                Index::Null => r is None,
            },
    {
        match self {
            Index::QuadIds(it) => it.result(),
            Index::StoreIterator(it) => it.result(),
            Index::Null => None,
        }
    }

    /// No deferred failure is pending.
    pub fn err(&self) -> (r: Option<String>)
        ensures
            r is None,
    {
        None
    }

    /// Releases the view.
    pub fn close(&mut self) -> (r: Result<(), String>)
        ensures
            r is Ok,
    {
        match self {
            Index::QuadIds(it) => it.close(),
            Index::StoreIterator(it) => it.close(),
            Index::Null => Ok(()),
        }
    }
}

} // verus!
