//! Opaque handles handed to and from iterators, and iterator size reports.

use vstd::prelude::*;
use crate::quad::{Quad, QuadView, InternalQuad};
use crate::value::{Value, ValueView, spec_value_hash};
use crate::number::Number;

verus! {

/// A size report for an iterable: a count and whether it is exact.
#[derive(Clone, Copy, PartialEq, Eq, Structural, Debug)]
pub struct Size {
    pub value: i64,
    pub exact: bool,
}

impl Size {
    /// An exact zero.
    pub fn new() -> (r: Size)
        ensures
            r == (Size { value: 0, exact: true }),
    {
        Size { value: 0, exact: true }
    }
}

/// The store's size report: how many values and quads are live.
#[derive(Clone, Copy, PartialEq, Eq, Structural, Debug)]
pub struct Stats {
    pub nodes: Size,
    pub quads: Size,
}

/// What a `Ref` carries in memory beside its key.
#[derive(Debug, PartialEq, Eq)]
pub enum Content {
    Empty,
    Value(Value),
    Quad(Quad),
    InternalQuad(InternalQuad),
}

/// The mathematical shape of a `Content`.
pub enum ContentView {
    Empty,
    Value(ValueView),
    Quad(QuadView),
    InternalQuad(InternalQuad),
}

impl View for Content {
    type V = ContentView;

    open spec fn view(&self) -> ContentView {
        match self {
            Content::Empty => ContentView::Empty,
            Content::Value(v) => ContentView::Value(v@),
            Content::Quad(q) => ContentView::Quad(q@),
            Content::InternalQuad(iq) => ContentView::InternalQuad(*iq),
        }
    }
}

impl Clone for Content {
    /// A clone is equal to the original.
    fn clone(&self) -> (r: Self)
        ensures
            r == *self,
    {
        match self {
            Content::Empty => Content::Empty,
            Content::Value(v) => Content::Value(v.clone()),
            Content::Quad(q) => Content::Quad(q.clone()),
            Content::InternalQuad(iq) => Content::InternalQuad(*iq),
        }
    }
}

/// An opaque handle combining an optional identifier with optional in-memory
/// content. A key of `Some(0)` and a key of `None` both denote "no such
/// identifier".
#[derive(Debug, PartialEq, Eq)]
pub struct Ref {
    pub k: Option<u64>,
    pub content: Content,
}

impl Clone for Ref {
    /// A clone is equal to the original.
    fn clone(&self) -> (r: Self)
        ensures
            r == *self,
    {
        Ref { k: self.k, content: self.content.clone() }
    }
}

impl Ref {
    /// The handle that refers to nothing.
    pub fn none() -> (r: Ref)
        ensures
            r.k is None,
            r.content is Empty,
    {
        Ref { k: None, content: Content::Empty }
    }

    /// The identifier this handle refers to; the stored key `0` is the same
    /// as no key at all.
    pub open spec fn spec_key(&self) -> Option<u64> {
        if self.k == Some(0u64) {
            None
        } else {
            self.k
        }
    }

    /// The identifier this handle refers to; the stored key `0` is the same
    /// as no key at all.
    #[verifier::when_used_as_spec(spec_key)]
    pub fn key(&self) -> (r: Option<u64>)
        ensures
            r == self.spec_key(),
    {
        if let Some(0) = self.k {
            return None;
        }
        self.k
    }

    /// A handle carrying a signed-integer value, keyed by its content hash.
    pub fn new_i64_node(v: i64) -> (r: Ref)
        ensures
            r.content matches Content::Value(val) && val@ == ValueView::Number(
                Number::from_i64_spec(v),
            ),
            r.k == Some(spec_value_hash(ValueView::Number(Number::from_i64_spec(v)))),
    {
        let value = Value::Number(Number::from_i64(v));
        let h = value.calc_hash();
        Ref { k: Some(h), content: Content::Value(value) }
    }

    /// The carried value; the handle must carry one.
    pub fn unwrap_value(&self) -> (r: &Value)
        requires
            self.content is Value,
        ensures
            self.content matches Content::Value(v) && r == v,
    {
        match &self.content {
            Content::Value(v) => v,
            _ => unreached(),
        }
    }

    /// The carried quad; the handle must carry one.
    pub fn unwrap_quad(&self) -> (r: &Quad)
        requires
            self.content is Quad,
        ensures
            self.content matches Content::Quad(q) && r == q,
    {
        match &self.content {
            Content::Quad(q) => q,
            _ => unreached(),
        }
    }

    /// Whether the handle carries a value.
    pub fn has_value(&self) -> (r: bool)
        ensures
            r == (self.content is Value),
    {
        if let Content::Value(_) = self.content {
            return true;
        }
        false
    }

    /// Whether the handle carries a quad.
    pub fn has_quad(&self) -> (r: bool)
        ensures
            r == (self.content is Quad),
    {
        if let Content::Quad(_) = self.content {
            return true;
        }
        false
    }
}

/// A handle for a value fetched ahead of time, keyed by its content hash.
pub fn pre_fetched(v: Value) -> (r: Ref)
    ensures
        r.k == Some(spec_value_hash(v@)),
        r.content matches Content::Value(val) && val == v,
{
    let h = v.calc_hash();
    Ref { k: Some(h), content: Content::Value(v) }
}

} // verus!
