//! The iterator algebra's common currency: cost reports, shape kinds, and
//! the saturating length conversion the size reports share.

use vstd::prelude::*;
use crate::refs::Size;

verus! {

/// What a shape costs the query planner: a membership probe, an
/// enumeration step, and the reported size.
#[derive(Clone, Copy, PartialEq, Eq, Structural, Debug)]
pub struct Costs {
    pub contains_cost: i64,
    pub next_cost: i64,
    pub size: Size,
}

/// The structural kind of a shape.
#[derive(Clone, Copy, PartialEq, Eq, Structural, Debug)]
pub enum ShapeType {
    QuadIds,
    StoreIterator,
    Null,
}

/// A length as a signed count, saturating at the largest signed value.
pub fn len_to_i64(n: usize) -> (r: i64)
    ensures
        n <= i64::MAX ==> r == n,
        n > i64::MAX ==> r == i64::MAX,
{
    let m = n as u64;
    if m <= 0x7fff_ffff_ffff_ffff {
        m as i64
    } else {
        i64::MAX
    }
}

/// A count as a signed count, saturating at the largest signed value.
pub fn u64_to_i64_saturating(n: u64) -> (r: i64)
    ensures
        n <= i64::MAX ==> r == n,
        n > i64::MAX ==> r == i64::MAX,
{
    if n <= 0x7fff_ffff_ffff_ffff {
        n as i64
    } else {
        i64::MAX
    }
}

} // verus!
