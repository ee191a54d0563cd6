//! The shape over an explicit ordered set of quad identifiers, with its
//! scanner (ordered enumeration) and index (membership) views.

use vstd::prelude::*;
use crate::quad::Direction;
use crate::refs::{Ref, Content, Size};
use crate::shape::{Costs, len_to_i64};

verus! {

/// Integer thresholds for the logarithmic cost estimate: entry `k` is the
/// least integer `n` with `ln n > k`, so the count of entries at or below
/// `n` is the floor of `ln n` (for `n` at least one).
pub open spec fn spec_ln_thresholds() -> Seq<u64> {
    seq![
        3u64, 8, 21, 55, 149, 404, 1097, 2981, 8104, 22027, 59875, 162755, 442414, 1202605,
        3269018, 8886111, 24154953, 65659970, 178482301, 485165196, 1318815735, 3584912847,
        9744803447, 26489122130, 72004899338, 195729609429, 532048240602, 1446257064292,
        3931334297145, 10686474581525, 29048849665248, 78962960182681, 214643579785917,
        583461742527455, 1586013452313431, 4311231547115196, 11719142372802612, 31855931757113757,
        86593400423993747, 235385266837019986, 639843493530054950, 1739274941520501048,
        4727839468229346562, 12851600114359308276,
    ]
}

/// How many thresholds lie at or below `n` among the first `k`.
pub open spec fn spec_ln_floor_upto(n: u64, k: int) -> int
    decreases k,
{
    if k <= 0 {
        0
    } else {
        spec_ln_floor_upto(n, k - 1) + if spec_ln_thresholds()[k - 1] <= n {
            1int
        } else {
            0int
        }
    }
}

/// The floor of the natural logarithm of `n`, as the count of integer
/// thresholds at or below `n` (zero for `n` below three, the first
/// threshold).
pub open spec fn spec_ln_floor(n: u64) -> int {
    spec_ln_floor_upto(n, spec_ln_thresholds().len() as int)
}

/// The floor of the natural logarithm of `n`, by counting thresholds.
pub fn ln_floor(n: u64) -> (r: i64)
    ensures
        r == spec_ln_floor(n),
        0 <= r <= 44,
{
    let thresholds: [u64; 44] = [
        3u64,
        8,
        21,
        55,
        149,
        404,
        1097,
        2981,
        8104,
        22027,
        59875,
        162755,
        442414,
        1202605,
        3269018,
        8886111,
        24154953,
        65659970,
        178482301,
        485165196,
        1318815735,
        3584912847,
        9744803447,
        26489122130,
        72004899338,
        195729609429,
        532048240602,
        1446257064292,
        3931334297145,
        10686474581525,
        29048849665248,
        78962960182681,
        214643579785917,
        583461742527455,
        1586013452313431,
        4311231547115196,
        11719142372802612,
        31855931757113757,
        86593400423993747,
        235385266837019986,
        639843493530054950,
        1739274941520501048,
        4727839468229346562,
        12851600114359308276,
    ];
    proof {
        assert(thresholds@ =~= spec_ln_thresholds());
    }
    let mut count: i64 = 0;
    let mut i: usize = 0;
    while i < 44
        invariant
            i <= 44,
            thresholds@ =~= spec_ln_thresholds(),
            count == spec_ln_floor_upto(n, i as int),
            0 <= count <= i,
        decreases 44 - i,
    {
        if thresholds[i] <= n {
            count += 1;
        }
        i += 1;
    }
    count
}

/// The smallest element of `s` above the cursor: above everything when the
/// cursor is unset. Over a sorted sequence this walks front to back.
pub open spec fn spec_first_above(s: Seq<u64>, cur: Option<u64>) -> Option<u64>
    decreases s.len(),
{
    if s.len() == 0 {
        None
    } else if cur is None || s[0] > cur->0 {
        Some(s[0])
    } else {
        spec_first_above(s.drop_first(), cur)
    }
}

/// What the first-above cursor step guarantees on a sorted sequence: the
/// result is a member, lies above the cursor, and nothing of the sequence
/// lies between the cursor and it.
pub proof fn lemma_first_above(s: Seq<u64>, cur: Option<u64>)
    requires
        forall|i: int, j: int| 0 <= i < j < s.len() ==> s[i] < s[j],
    ensures
        match spec_first_above(s, cur) {
            Some(x) => {
                &&& s.contains(x)
                &&& (cur matches Some(c) ==> x > c)
                &&& forall|y: u64| s.contains(y) && (cur matches Some(c) ==> y > c) ==> y >= x
            },
            None => forall|y: u64| s.contains(y) ==> (cur matches Some(c) && y <= c),
        },
    decreases s.len(),
{
    if s.len() == 0 {
    } else if cur is None || s[0] > cur->0 {
        assert(s.contains(s[0])) by {
            assert(s[0] == s[0]);
        }
        assert forall|y: u64| s.contains(y) && (cur matches Some(c) ==> y > c) implies y
            >= s[0] by {
            let i = choose|i: int| 0 <= i < s.len() && s[i] == y;
        }
    } else {
        let t = s.drop_first();
        assert(forall|i: int, j: int| 0 <= i < j < t.len() ==> t[i] < t[j]);
        lemma_first_above(t, cur);
        match spec_first_above(s, cur) {
            Some(x) => {
                assert(t.contains(x));
                let i = choose|i: int| 0 <= i < t.len() && t[i] == x;
                assert(s[i + 1] == x);
                assert(s.contains(x));
                assert forall|y: u64| s.contains(y) && (cur matches Some(c) ==> y > c) implies y
                    >= x by {
                    let j = choose|j: int| 0 <= j < s.len() && s[j] == y;
                    if j == 0 {
                    } else {
                        assert(t[j - 1] == y);
                        assert(t.contains(y));
                    }
                }
            },
            None => {
                assert forall|y: u64| s.contains(y) implies (cur matches Some(c) && y <= c) by {
                    let j = choose|j: int| 0 <= j < s.len() && s[j] == y;
                    if j > 0 {
                        assert(t[j - 1] == y);
                        assert(t.contains(y));
                    }
                }
            },
        }
    }
}

/// An ordered set of quad identifiers adjacent to one direction, as a
/// sorted duplicate-free vector.
pub struct QuadIds {
    pub quad_ids: Vec<u64>,
    pub d: Direction,
}

impl QuadIds {
    /// The identifiers are strictly ascending.
    pub open spec fn wf(&self) -> bool {
        forall|i: int, j: int| 0 <= i < j < self.quad_ids@.len() ==> self.quad_ids@[i]
            < self.quad_ids@[j]
    }

    /// The set of identifiers held.
    pub open spec fn ids(&self) -> Set<u64> {
        self.quad_ids@.to_set()
    }

    /// A shape over the given ascending identifiers.
    pub fn new(quad_ids: Vec<u64>, d: Direction) -> (r: QuadIds)
        requires
            forall|i: int, j: int| 0 <= i < j < quad_ids@.len() ==> quad_ids@[i] < quad_ids@[j],
        ensures
            r.wf(),
            r.quad_ids == quad_ids,
            r.d == d,
    {
        QuadIds { quad_ids, d }
    }

    /// An ordered enumeration of the identifiers.
    pub fn iterate(&self) -> (r: QuadIdsNext)
        requires
            self.wf(),
        ensures
            r.wf(),
            r.quad_ids@ == self.quad_ids@,
            r.d == self.d,
            r.cur is None,
            !r.done,
    {
        QuadIdsNext::new(clone_ids(&self.quad_ids), self.d)
    }

    /// A membership view of the identifiers.
    pub fn lookup(&self) -> (r: QuadIdsContains)
        requires
            self.wf(),
        ensures
            r.wf(),
            r.quad_ids@ == self.quad_ids@,
            r.d == self.d,
            r.cur is None,
    {
        QuadIdsContains::new(clone_ids(&self.quad_ids), self.d)
    }

    /// The planner's costs: the size is the exact count of identifiers, a
    /// step costs one, and a membership probe costs the floor of the
    /// natural logarithm of the size, plus one.
    pub fn stats(&mut self) -> (r: Result<Costs, String>)
        ensures
            *final(self) == *old(self),
            r matches Ok(c) && c == (Costs {
                contains_cost: (spec_ln_floor(old(self).quad_ids@.len() as u64) + 1) as i64,
                next_cost: 1i64,
                size: Size {
                    value: if old(self).quad_ids@.len() <= i64::MAX {
                        old(self).quad_ids@.len() as i64
                    } else {
                        i64::MAX
                    },
                    exact: true,
                },
            }),
    {
        let n = len_to_i64(self.quad_ids.len());
        let lf = ln_floor(self.quad_ids.len() as u64);
        Ok(Costs { contains_cost: lf + 1, next_cost: 1, size: Size { value: n, exact: true } })
    }

    /// No cheaper equivalent shape is known.
    pub fn optimize(&mut self) -> (r: Option<QuadIds>)
        ensures
            *final(self) == *old(self),
            r is None,
    {
        None
    }

    /// This shape has no sub-iterators.
    pub fn sub_iterators(&self) -> (r: Option<Vec<QuadIds>>)
        ensures
            r is None,
    {
        None
    }
}

/// A copy of an identifier vector, equal to the original.
fn clone_ids(v: &Vec<u64>) -> (r: Vec<u64>)
    ensures
        r@ == v@,
{
    let mut r: Vec<u64> = Vec::new();
    let mut i: usize = 0;
    while i < v.len()
        invariant
            i <= v@.len(),
            r@ == v@.subrange(0, i as int),
        decreases v@.len() - i,
    {
        r.push(v[i]);
        i += 1;
        assert(r@ =~= v@.subrange(0, i as int));
    }
    assert(r@ =~= v@);
    r
}

/// The scanner over an identifier set: yields each identifier in ascending
/// order exactly once, then latches done.
pub struct QuadIdsNext {
    pub quad_ids: Vec<u64>,
    pub d: Direction,
    pub cur: Option<u64>,
    pub done: bool,
}

impl QuadIdsNext {
    /// The identifiers are strictly ascending.
    pub open spec fn wf(&self) -> bool {
        forall|i: int, j: int| 0 <= i < j < self.quad_ids@.len() ==> self.quad_ids@[i]
            < self.quad_ids@[j]
    }

    /// A fresh scanner positioned before the first identifier.
    pub fn new(quad_ids: Vec<u64>, d: Direction) -> (r: QuadIdsNext)
        ensures
            r.quad_ids == quad_ids,
            r.d == d,
            r.cur is None,
            !r.done,
    {
        QuadIdsNext { quad_ids, d, cur: None, done: false }
    }

    /// The handle for the current identifier, when there is one.
    pub fn result(&self) -> (r: Option<Ref>)
        ensures
            match self.cur {
                Some(id) => r matches Some(rf) && rf.k == Some(id) && rf.content is Empty,
                None => r is None,
            },
    {
        match self.cur {
            Some(quad_id) => Some(Ref { k: Some(quad_id), content: Content::Empty }),
            None => None,
        }
    }

    /// Advances to the smallest identifier above the cursor; yields false
    /// and latches done when none is left.
    pub fn next(&mut self) -> (r: bool)
        requires
            old(self).wf(),
        ensures
            final(self).quad_ids == old(self).quad_ids,
            final(self).d == old(self).d,
            old(self).done ==> !r && *final(self) == *old(self),
            !old(self).done ==> match spec_first_above(old(self).quad_ids@, old(self).cur) {
                Some(x) => r && final(self).cur == Some(x) && !final(self).done,
                None => !r && final(self).cur is None && final(self).done,
            },
    {
        if self.done {
            return false;
        }
        proof {
            assert(self.quad_ids@.skip(0) =~= self.quad_ids@);
        }
        let mut i: usize = 0;
        loop
            invariant
                self.wf(),
                i <= self.quad_ids@.len(),
                *self == *old(self),
                spec_first_above(self.quad_ids@, self.cur) == spec_first_above(
                    self.quad_ids@.skip(i as int),
                    self.cur,
                ),
                !self.done,
            decreases self.quad_ids@.len() - i,
        {
            if i == self.quad_ids.len() {
                proof {
                    assert(self.quad_ids@.skip(i as int) =~= Seq::<u64>::empty());
                }
                self.cur = None;
                self.done = true;
                return false;
            }
            let x = self.quad_ids[i];
            let above = match self.cur {
                None => true,
                Some(c) => x > c,
            };
            proof {
                assert(self.quad_ids@.skip(i as int)[0] == self.quad_ids@[i as int]);
            }
            if above {
                self.cur = Some(x);
                return true;
            }
            proof {
                assert(self.quad_ids@.skip(i as int).drop_first() =~= self.quad_ids@.skip(
                    i as int + 1,
                ));
            }
            i += 1;
        }
    }

    /// This scanner has no alternative paths.
    pub fn next_path(&mut self) -> (r: bool)
        ensures
            *final(self) == *old(self),
            !r,
    {
        false
    }

    /// No deferred failure is pending.
    pub fn err(&self) -> (r: Option<String>)
        ensures
            r is None,
    {
        None
    }

    /// Releases the scanner.
    pub fn close(&mut self) -> (r: Result<(), String>)
        ensures
            *final(self) == *old(self),
            r is Ok,
    {
        Ok(())
    }
}

/// The membership view over an identifier set.
pub struct QuadIdsContains {
    pub quad_ids: Vec<u64>,
    pub d: Direction,
    pub cur: Option<u64>,
}

impl QuadIdsContains {
    /// The identifiers are strictly ascending.
    pub open spec fn wf(&self) -> bool {
        forall|i: int, j: int| 0 <= i < j < self.quad_ids@.len() ==> self.quad_ids@[i]
            < self.quad_ids@[j]
    }

    /// A fresh membership view with no current identifier.
    pub fn new(quad_ids: Vec<u64>, d: Direction) -> (r: QuadIdsContains)
        ensures
            r.quad_ids == quad_ids,
            r.d == d,
            r.cur is None,
    {
        QuadIdsContains { quad_ids, d, cur: None }
    }

    /// The handle for the identifier last found, when one was.
    pub fn result(&self) -> (r: Option<Ref>)
        ensures
            match self.cur {
                Some(id) => r matches Some(rf) && rf.k == Some(id) && rf.content is Empty,
                None => r is None,
            },
    {
        match self.cur {
            Some(c) => Some(Ref { k: Some(c), content: Content::Empty }),
            None => None,
        }
    }

    /// Whether the handle's identifier belongs to the set; a hit is
    /// latched as the current identifier, a miss clears it.
    pub fn contains(&mut self, v: &Ref) -> (r: bool)
        ensures
            final(self).quad_ids == old(self).quad_ids,
            final(self).d == old(self).d,
            match v.spec_key() {
                Some(i) => r == old(self).quad_ids@.contains(i) && final(self).cur == if r {
                    Some(i)
                } else {
                    None::<u64>
                },
                None => !r && final(self).cur is None,
            },
    {
        match v.key() {
            Some(i) => {
                let mut j: usize = 0;
                let mut found = false;
                while j < self.quad_ids.len()
                    invariant
                        j <= self.quad_ids@.len(),
                        *self == *old(self),
                        found == self.quad_ids@.subrange(0, j as int).contains(i),
                    decreases self.quad_ids@.len() - j,
                {
                    if self.quad_ids[j] == i {
                        found = true;
                    }
                    j += 1;
                    proof {
                        if found && self.quad_ids@[j - 1] != i {
                            assert(self.quad_ids@.subrange(0, j as int).subrange(0, j - 1)
                                =~= self.quad_ids@.subrange(0, j - 1));
                        }
                        if self.quad_ids@[j - 1] == i {
                            assert(self.quad_ids@.subrange(0, j as int)[j - 1] == i);
                        }
                        if !found {
                            assert forall|t: int|
                                0 <= t < j implies self.quad_ids@.subrange(0, j as int)[t] != i by {
                                if t < j - 1 {
                                    assert(self.quad_ids@.subrange(0, j - 1)[t] == self.quad_ids@[t]);
                                }
                            }
                        }
                    }
                }
                proof {
                    assert(self.quad_ids@.subrange(0, self.quad_ids@.len() as int)
                        =~= self.quad_ids@);
                }
                if found {
                    self.cur = Some(i);
                    true
                } else {
                    self.cur = None;
                    false
                }
            },
            None => {
                self.cur = None;
                false
            },
        }
    }

    /// This view has no alternative paths.
    pub fn next_path(&mut self) -> (r: bool)
        ensures
            *final(self) == *old(self),
            !r,
    {
        false
    }

    /// No deferred failure is pending.
    pub fn err(&self) -> (r: Option<String>)
        ensures
            r is None,
    {
        None
    }

    /// Releases the view.
    pub fn close(&mut self) -> (r: Result<(), String>)
        ensures
            *final(self) == *old(self),
            r is Ok,
    {
        Ok(())
    }
}

} // verus!
