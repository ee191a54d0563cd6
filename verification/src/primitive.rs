//! The unit of storage: a refcounted record holding either a value or an
//! interned quad, and the counter record that assigns identifiers.

use vstd::prelude::*;
use vstd::std_specs::hash::DefaultHasherAdditionalSpecFns;
use crate::bytes_be::{spec_u64_to_be_bytes, spec_u64_from_be_bytes, write_u64_be, read_u64_be};
use crate::bytes_be::lemma_u64_be_bytes_round_trip;
use crate::quad::InternalQuad;
use crate::refs::{Ref, Content};
use crate::value::{Value, ValueView, spec_value_encode, spec_value_decode, spec_value_hash};
use crate::value::{lemma_value_codec_round_trip};

verus! {

/// What a primitive record holds: a value or an interned quad.
#[derive(Debug, PartialEq, Eq)]
pub enum PrimitiveContent {
    Value(Value),
    InternalQuad(InternalQuad),
}

/// The mathematical shape of a record's content.
pub enum PrimitiveContentView {
    Value(ValueView),
    InternalQuad(InternalQuad),
}

impl View for PrimitiveContent {
    type V = PrimitiveContentView;

    open spec fn view(&self) -> PrimitiveContentView {
        match self {
            PrimitiveContent::Value(v) => PrimitiveContentView::Value(v@),
            PrimitiveContent::InternalQuad(q) => PrimitiveContentView::InternalQuad(*q),
        }
    }
}

impl Clone for PrimitiveContent {
    /// A clone is equal to the original.
    fn clone(&self) -> (r: Self)
        ensures
            r == *self,
    {
        match self {
            PrimitiveContent::Value(v) => PrimitiveContent::Value(v.clone()),
            PrimitiveContent::InternalQuad(q) => PrimitiveContent::InternalQuad(*q),
        }
    }
}

pub const PRIMITIVE_CONTENT_VALUE_PREFIX: u8 = 0;

pub const PRIMITIVE_CONTENT_QUAD_PREFIX: u8 = 1;

/// The byte encoding of a record's content: one kind byte, then the body.
pub open spec fn spec_content_encode(c: PrimitiveContentView) -> Seq<u8> {
    match c {
        PrimitiveContentView::Value(v) => seq![PRIMITIVE_CONTENT_VALUE_PREFIX] + spec_value_encode(v),
        PrimitiveContentView::InternalQuad(q) => seq![PRIMITIVE_CONTENT_QUAD_PREFIX]
            + q.spec_encode(),
    }
}

/// The content read back from its encoding; `None` marks a corrupt encoding.
pub open spec fn spec_content_decode(bytes: Seq<u8>) -> Option<PrimitiveContentView> {
    if bytes.len() == 0 {
        Option::None
    } else if bytes[0] == PRIMITIVE_CONTENT_VALUE_PREFIX {
        match spec_value_decode(bytes.skip(1)) {
            Some(v) => Some(PrimitiveContentView::Value(v)),
            Option::None => Option::None,
        }
    } else if bytes[0] == PRIMITIVE_CONTENT_QUAD_PREFIX {
        match InternalQuad::spec_decode(bytes.skip(1)) {
            Some(q) => Some(PrimitiveContentView::InternalQuad(q)),
            Option::None => Option::None,
        }
    } else {
        Option::None
    }
}

/// The content hash of a record's content: the hash of the held value, or of
/// the held quad.
pub open spec fn spec_content_hash(c: PrimitiveContentView) -> u64 {
    match c {
        PrimitiveContentView::Value(v) => spec_value_hash(v),
        PrimitiveContentView::InternalQuad(q) => q.spec_hash(),
    }
}

impl PrimitiveContentView {
    /// Any held value is well formed.
    pub open spec fn wf(self) -> bool {
        match self {
            PrimitiveContentView::Value(v) => v.wf(),
            PrimitiveContentView::InternalQuad(_) => true,
        }
    }
}

impl PrimitiveContent {
    /// Appends the byte encoding of this content to `buff`.
    pub fn encode(&self, buff: &mut Vec<u8>)
        ensures
            final(buff)@ == old(buff)@ + spec_content_encode(self@),
    {
        match self {
            PrimitiveContent::Value(v) => {
                buff.push(PRIMITIVE_CONTENT_VALUE_PREFIX);
                v.encode(buff);
            },
            PrimitiveContent::InternalQuad(q) => {
                buff.push(PRIMITIVE_CONTENT_QUAD_PREFIX);
                q.encode(buff);
            },
        }
        assert(final(buff)@ =~= old(buff)@ + spec_content_encode(self@));
    }

    /// Reads content back from its byte encoding; corrupt bytes are an error.
    pub fn decode(bytes: &[u8]) -> (r: Result<PrimitiveContent, String>)
        ensures
            match r {
                Ok(c) => spec_content_decode(bytes@) == Some(c@),
                Err(_) => spec_content_decode(bytes@) is None,
            },
    {
        if bytes.len() == 0 {
            return Err("cannot decode primitive content".to_owned());
        }
        if bytes[0] == PRIMITIVE_CONTENT_VALUE_PREFIX {
            let (_, rest) = bytes.split_at(1);
            assert(rest@ =~= bytes@.skip(1));
            match Value::decode(rest) {
                Ok(v) => Ok(PrimitiveContent::Value(v)),
                Err(e) => Err(e),
            }
        } else if bytes[0] == PRIMITIVE_CONTENT_QUAD_PREFIX {
            let (_, rest) = bytes.split_at(1);
            assert(rest@ =~= bytes@.skip(1));
            match InternalQuad::decode(rest) {
                Ok(q) => Ok(PrimitiveContent::InternalQuad(q)),
                Err(e) => Err(e),
            }
        } else {
            Err("cannot decode primitive content".to_owned())
        }
    }
}

/// A refcounted storage record: an identifier, a reference count, and the
/// held content.
#[derive(Debug, PartialEq, Eq)]
pub struct Primitive {
    pub id: u64,
    pub refs: u64,
    pub content: PrimitiveContent,
}

/// The mathematical shape of a `Primitive`.
pub struct PrimitiveView {
    pub id: u64,
    pub refs: u64,
    pub content: PrimitiveContentView,
}

impl View for Primitive {
    type V = PrimitiveView;

    open spec fn view(&self) -> PrimitiveView {
        PrimitiveView { id: self.id, refs: self.refs, content: self.content@ }
    }
}

impl Clone for Primitive {
    /// A clone is equal to the original.
    fn clone(&self) -> (r: Self)
        ensures
            r == *self,
    {
        Primitive { id: self.id, refs: self.refs, content: self.content.clone() }
    }
}

/// The byte encoding of a record: identifier, reference count, content.
pub open spec fn spec_primitive_encode(p: PrimitiveView) -> Seq<u8> {
    spec_u64_to_be_bytes(p.id) + spec_u64_to_be_bytes(p.refs) + spec_content_encode(p.content)
}

/// The record read back from its encoding; `None` marks a corrupt encoding.
pub open spec fn spec_primitive_decode(bytes: Seq<u8>) -> Option<PrimitiveView> {
    if bytes.len() < 16 {
        Option::None
    } else {
        match spec_content_decode(bytes.skip(16)) {
            Some(c) => Some(
                PrimitiveView {
                    id: spec_u64_from_be_bytes(bytes.subrange(0, 8)),
                    refs: spec_u64_from_be_bytes(bytes.subrange(8, 16)),
                    content: c,
                },
            ),
            Option::None => Option::None,
        }
    }
}

impl PrimitiveView {
    /// The held value is well formed.
    pub open spec fn wf(self) -> bool {
        self.content.wf()
    }

    /// The content hash of this record.
    pub open spec fn spec_hash(self) -> u64 {
        spec_content_hash(self.content)
    }

    /// Whether this record holds an interned quad.
    pub open spec fn is_quad(self) -> bool {
        self.content is InternalQuad
    }

    /// Whether this record holds a value.
    pub open spec fn is_node(self) -> bool {
        self.content is Value
    }
}

/// Decoding inverts encoding on every well-formed record.
pub proof fn lemma_primitive_codec_round_trip(p: PrimitiveView)
    requires
        p.wf(),
    ensures
        spec_primitive_decode(spec_primitive_encode(p)) == Some(p),
{
    let b = spec_primitive_encode(p);
    assert(b.subrange(0, 8) =~= spec_u64_to_be_bytes(p.id));
    assert(b.subrange(8, 16) =~= spec_u64_to_be_bytes(p.refs));
    assert(b.skip(16) =~= spec_content_encode(p.content));
    lemma_u64_be_bytes_round_trip(p.id);
    lemma_u64_be_bytes_round_trip(p.refs);
    match p.content {
        PrimitiveContentView::Value(v) => {
            assert(spec_content_encode(p.content).skip(1) =~= spec_value_encode(v));
            lemma_value_codec_round_trip(v);
        },
        PrimitiveContentView::InternalQuad(q) => {
            assert(spec_content_encode(p.content).skip(1) =~= q.spec_encode());
            q.lemma_codec_round_trip();
        },
    }
}

/// Every decoded record's content is well formed: a decoded number is
/// normalised at decode time.
pub proof fn lemma_primitive_decode_wf(bytes: Seq<u8>)
    ensures
        spec_primitive_decode(bytes) matches Some(p) ==> p.content.wf(),
{
    if spec_primitive_decode(bytes) is Some {
        let p = spec_primitive_decode(bytes)->Some_0;
        let body = bytes.skip(16);
        if body.len() > 0 && body[0] == PRIMITIVE_CONTENT_VALUE_PREFIX {
            crate::value::lemma_value_decode_wf(body.skip(1));
        }
    }
}

impl Primitive {
    /// A fresh record holding a value; the store assigns identifier and
    /// reference count when it is added.
    pub fn new_value(v: Value) -> (r: Primitive)
        ensures
            r@.id == 0 && r@.refs == 0,
            r@.content == PrimitiveContentView::Value(v@),
    {
        Primitive { id: 0, refs: 0, content: PrimitiveContent::Value(v) }
    }

    /// A fresh record holding an interned quad.
    pub fn new_quad(q: InternalQuad) -> (r: Primitive)
        ensures
            r@.id == 0 && r@.refs == 0,
            r@.content == PrimitiveContentView::InternalQuad(q),
    {
        Primitive { id: 0, refs: 0, content: PrimitiveContent::InternalQuad(q) }
    }

    /// A fresh record holding the given content.
    pub fn new(content: PrimitiveContent) -> (r: Primitive)
        ensures
            r@.id == 0 && r@.refs == 0,
            r@.content == content@,
    {
        Primitive { id: 0, refs: 0, content }
    }

    /// Whether this record holds an interned quad.
    pub fn is_quad(&self) -> (r: bool)
        ensures
            r == self@.is_quad(),
    {
        if let PrimitiveContent::InternalQuad(_) = self.content {
            return true;
        }
        false
    }

    /// Whether this record holds a value.
    pub fn is_node(&self) -> (r: bool)
        ensures
            r == self@.is_node(),
    {
        if let PrimitiveContent::Value(_) = self.content {
            return true;
        }
        false
    }

    /// The content hash of this record.
    pub fn calc_hash(&self) -> (h: u64)
        ensures
            h == self@.spec_hash(),
    {
        match &self.content {
            PrimitiveContent::Value(v) => v.calc_hash(),
            PrimitiveContent::InternalQuad(q) => q.calc_hash(),
        }
    }

    /// A handle for this record when its kind matches the requested one:
    /// value records for `nodes`, quad records otherwise.
    pub fn to_ref(&self, nodes: bool) -> (r: Option<Ref>)
        ensures
            match r {
                Some(rf) => {
                    &&& nodes == self@.is_node()
                    &&& rf.k == Some(self@.id)
                    &&& (self@.content matches PrimitiveContentView::Value(v) ==> rf.content
                        matches Content::Value(rv) && rv@ == v)
                    &&& (self@.content matches PrimitiveContentView::InternalQuad(q) ==> rf.content
                        == Content::InternalQuad(q))
                },
                None => nodes != self@.is_node(),
            },
    {
        match &self.content {
            PrimitiveContent::Value(v) => {
                if nodes {
                    return Some(Ref { k: Some(self.id), content: Content::Value(v.clone()) });
                }
            },
            PrimitiveContent::InternalQuad(q) => {
                if !nodes {
                    return Some(Ref { k: Some(self.id), content: Content::InternalQuad(*q) });
                }
            },
        }
        None
    }

    /// The byte encoding of this record.
    pub fn encode(&self) -> (r: Vec<u8>)
        ensures
            r@ == spec_primitive_encode(self@),
    {
        let mut v: Vec<u8> = Vec::new();
        write_u64_be(&mut v, self.id);
        write_u64_be(&mut v, self.refs);
        self.content.encode(&mut v);
        assert(v@ =~= spec_primitive_encode(self@));
        v
    }

    /// Reads a record back from its byte encoding; corrupt bytes are an
    /// error.
    pub fn decode(bytes: &[u8]) -> (r: Result<Primitive, String>)
        ensures
            match r {
                Ok(p) => spec_primitive_decode(bytes@) == Some(p@),
                Err(_) => spec_primitive_decode(bytes@) is None,
            },
    {
        if bytes.len() < 16 {
            return Err("cannot decode primitive".to_owned());
        }
        let id = read_u64_be(bytes, 0);
        let refs = read_u64_be(bytes, 8);
        let (_, rest) = bytes.split_at(16);
        assert(rest@ =~= bytes@.skip(16));
        let content = PrimitiveContent::decode(rest)?;
        Ok(Primitive { id, refs, content })
    }
}

/// The counter record: how many value records and quad records are live.
#[derive(Clone, Copy, PartialEq, Eq, Structural, Debug)]
pub struct PrimitiveCount {
    pub values: u64,
    pub quads: u64,
}

/// The byte encoding of the counter record.
pub open spec fn spec_count_encode(c: PrimitiveCount) -> Seq<u8> {
    spec_u64_to_be_bytes(c.values) + spec_u64_to_be_bytes(c.quads)
}

/// The counter read back from its encoding; `None` marks a corrupt record.
pub open spec fn spec_count_decode(bytes: Seq<u8>) -> Option<PrimitiveCount> {
    if bytes.len() == 16 {
        Some(
            PrimitiveCount {
                values: spec_u64_from_be_bytes(bytes.subrange(0, 8)),
                quads: spec_u64_from_be_bytes(bytes.subrange(8, 16)),
            },
        )
    } else {
        Option::None
    }
}

impl PrimitiveCount {
    /// The counter of an empty store.
    pub fn zero() -> (r: PrimitiveCount)
        ensures
            r == (PrimitiveCount { values: 0u64, quads: 0u64 }),
    {
        PrimitiveCount { values: 0, quads: 0 }
    }

    /// Reads the counter back from its record; corrupt bytes are an error.
    pub fn decode(bytes: &[u8]) -> (r: Option<PrimitiveCount>)
        ensures
            r == spec_count_decode(bytes@),
    {
        if bytes.len() != 16 {
            return None;
        }
        let values = read_u64_be(bytes, 0);
        let quads = read_u64_be(bytes, 8);
        Some(PrimitiveCount { values, quads })
    }

    /// The byte encoding of this counter.
    pub fn encode(&self) -> (r: Vec<u8>)
        ensures
            r@ == spec_count_encode(*self),
    {
        let mut v: Vec<u8> = Vec::new();
        write_u64_be(&mut v, self.values);
        write_u64_be(&mut v, self.quads);
        assert(v@ =~= spec_count_encode(*self));
        v
    }

    /// Decoding inverts encoding.
    pub proof fn lemma_codec_round_trip(self)
        ensures
            spec_count_decode(spec_count_encode(self)) == Some(self),
    {
        let b = spec_count_encode(self);
        assert(b.subrange(0, 8) =~= spec_u64_to_be_bytes(self.values));
        assert(b.subrange(8, 16) =~= spec_u64_to_be_bytes(self.quads));
        lemma_u64_be_bytes_round_trip(self.values);
        lemma_u64_be_bytes_round_trip(self.quads);
    }

    /// How many records are live in all.
    pub fn total(&self) -> (r: u64)
        requires
            self.values + self.quads <= u64::MAX,
        ensures
            r == self.values + self.quads,
    {
        self.values + self.quads
    }

    /// Moves the quad count by `n`, leaving it unchanged where the move
    /// would fall below zero or overflow.
    pub fn increment_quads(&mut self, n: i64)
        ensures
            final(self).values == old(self).values,
            final(self).quads == if n < 0 {
                if -n > old(self).quads {
                    old(self).quads
                } else {
                    (old(self).quads + n) as u64
                }
            } else {
                if old(self).quads + n > u64::MAX {
                    old(self).quads
                } else {
                    (old(self).quads + n) as u64
                }
            },
    {
        if n < 0 {
            let m: u64 = ((-(n + 1)) as u64) + 1;
            assert(m == -(n as int));
            if m > self.quads {
            } else {
                self.quads = self.quads - m;
            }
        } else {
            if (n as u64) > u64::MAX - self.quads {
            } else {
                self.quads = self.quads + (n as u64);
            }
        }
    }

    /// Moves the value count by `n`, leaving it unchanged where the move
    /// would fall below zero or overflow.
    pub fn increment_values(&mut self, n: i64)
        ensures
            final(self).quads == old(self).quads,
            final(self).values == if n < 0 {
                if -n > old(self).values {
                    old(self).values
                } else {
                    (old(self).values + n) as u64
                }
            } else {
                if old(self).values + n > u64::MAX {
                    old(self).values
                } else {
                    (old(self).values + n) as u64
                }
            },
    {
        if n < 0 {
            let m: u64 = ((-(n + 1)) as u64) + 1;
            assert(m == -(n as int));
            if m > self.values {
            } else {
                self.values = self.values - m;
            }
        } else {
            if (n as u64) > u64::MAX - self.values {
            } else {
                self.values = self.values + (n as u64);
            }
        }
    }
}

} // verus!
