//! Quads, directions, and the interned quad record.
//!
//! A quad is an ordered 4-tuple of values; an internal quad is the same tuple
//! after interning, holding one 64-bit value identifier per direction, with
//! `0` standing for an absent value.

use vstd::prelude::*;
use vstd::std_specs::hash::DefaultHasherAdditionalSpecFns;
use crate::bytes_be::{spec_u64_to_be_bytes, spec_u64_from_be_bytes, write_u64_be, read_u64_be};
use crate::bytes_be::{lemma_u64_be_bytes_round_trip, u64_to_be_vec};
use crate::value::{Value, ValueView, spec_value_encode};

verus! {

/// A positional slot within a quad.
#[derive(Clone, Copy, PartialEq, Eq, Structural, Debug, Hash)]
pub enum Direction {
    Subject,
    Predicate,
    Object,
    Label,
}

impl Direction {
    /// The four directions, in the order they are walked everywhere.
    pub fn iterator() -> (r: Vec<Direction>)
        ensures
            r@ == seq![Direction::Subject, Direction::Predicate, Direction::Object, Direction::Label],
    {
        let mut v: Vec<Direction> = Vec::new();
        v.push(Direction::Subject);
        v.push(Direction::Predicate);
        v.push(Direction::Object);
        v.push(Direction::Label);
        assert(v@ =~= seq![
            Direction::Subject,
            Direction::Predicate,
            Direction::Object,
            Direction::Label,
        ]);
        v
    }

    /// The byte that identifies this direction inside index keys.
    pub open spec fn spec_to_byte(&self) -> u8 {
        match self {
            Direction::Subject => 1,
            Direction::Predicate => 2,
            Direction::Object => 3,
            Direction::Label => 4,
        }
    }

    /// The byte that identifies this direction inside index keys.
    #[verifier::when_used_as_spec(spec_to_byte)]
    pub fn to_byte(&self) -> (r: u8)
        ensures
            r == self.spec_to_byte(),
    {
        match self {
            Direction::Subject => 1,
            Direction::Predicate => 2,
            Direction::Object => 3,
            Direction::Label => 4,
        }
    }

    /// The direction identified by a key byte, when there is one.
    pub fn from_byte(b: u8) -> (r: Option<Direction>)
        ensures
            r == match b {
                1u8 => Some(Direction::Subject),
                2u8 => Some(Direction::Predicate),
                3u8 => Some(Direction::Object),
                4u8 => Some(Direction::Label),
                _ => None::<Direction>,
            },
    {
        match b {
            1 => Some(Direction::Subject),
            2 => Some(Direction::Predicate),
            3 => Some(Direction::Object),
            4 => Some(Direction::Label),
            _ => None,
        }
    }
}

/// An ordered 4-tuple of value identifiers; `0` means the slot is unassigned.
#[derive(Clone, Copy, PartialEq, Eq, Structural, Debug, Hash)]
pub struct InternalQuad {
    pub s: u64,
    pub p: u64,
    pub o: u64,
    pub l: u64,
}

impl InternalQuad {
    /// The identifier stored in the given direction.
    pub open spec fn spec_dir(&self, d: &Direction) -> u64 {
        match d {
            Direction::Subject => self.s,
            Direction::Predicate => self.p,
            Direction::Object => self.o,
            Direction::Label => self.l,
        }
    }

    /// The identifier stored in the given direction.
    #[verifier::when_used_as_spec(spec_dir)]
    pub fn dir(&self, d: &Direction) -> (r: u64)
        ensures
            r == self.spec_dir(d),
    {
        match d {
            Direction::Subject => self.s,
            Direction::Predicate => self.p,
            Direction::Object => self.o,
            Direction::Label => self.l,
        }
    }

    /// The quad with the given direction replaced.
    pub open spec fn spec_set_dir(self, d: Direction, id: u64) -> InternalQuad {
        match d {
            Direction::Subject => InternalQuad { s: id, ..self },
            Direction::Predicate => InternalQuad { p: id, ..self },
            Direction::Object => InternalQuad { o: id, ..self },
            Direction::Label => InternalQuad { l: id, ..self },
        }
    }

    /// Stores an identifier in the given direction.
    pub fn set_dir(&mut self, d: &Direction, id: u64)
        ensures
            *final(self) == old(self).spec_set_dir(*d, id),
    {
        match d {
            Direction::Subject => self.s = id,
            Direction::Predicate => self.p = id,
            Direction::Object => self.o = id,
            Direction::Label => self.l = id,
        }
    }

    /// The 32-byte record body: the four identifiers, big-endian, in
    /// direction order.
    pub open spec fn spec_encode(self) -> Seq<u8> {
        spec_u64_to_be_bytes(self.s) + spec_u64_to_be_bytes(self.p) + spec_u64_to_be_bytes(self.o)
            + spec_u64_to_be_bytes(self.l)
    }

    /// Appends the 32-byte record body to `buff`.
    pub fn encode(&self, buff: &mut Vec<u8>)
        ensures
            final(buff)@ == old(buff)@ + self.spec_encode(),
    {
        write_u64_be(buff, self.s);
        write_u64_be(buff, self.p);
        write_u64_be(buff, self.o);
        write_u64_be(buff, self.l);
        assert(final(buff)@ =~= old(buff)@ + self.spec_encode());
    }

    /// The quad read back from a 32-byte record body.
    pub open spec fn spec_decode(bytes: Seq<u8>) -> Option<InternalQuad> {
        if bytes.len() == 32 {
            Some(
                InternalQuad {
                    s: spec_u64_from_be_bytes(bytes.subrange(0, 8)),
                    p: spec_u64_from_be_bytes(bytes.subrange(8, 16)),
                    o: spec_u64_from_be_bytes(bytes.subrange(16, 24)),
                    l: spec_u64_from_be_bytes(bytes.subrange(24, 32)),
                },
            )
        } else {
            None
        }
    }

    /// Reads the quad back from its record body.
    pub fn decode(bytes: &[u8]) -> (r: Result<InternalQuad, String>)
        ensures
            match r {
                Ok(q) => Self::spec_decode(bytes@) == Some(q),
                Err(_) => Self::spec_decode(bytes@) is None,
            },
    {
        if bytes.len() != 32 {
            return Err("cannot decode quad record".to_owned());
        }
        Ok(
            InternalQuad {
                s: read_u64_be(bytes, 0),
                p: read_u64_be(bytes, 8),
                o: read_u64_be(bytes, 16),
                l: read_u64_be(bytes, 24),
            },
        )
    }

    /// Decoding inverts encoding.
    pub proof fn lemma_codec_round_trip(self)
        ensures
            Self::spec_decode(self.spec_encode()) == Some(self),
    {
        let b = self.spec_encode();
        assert(b.subrange(0, 8) =~= spec_u64_to_be_bytes(self.s));
        assert(b.subrange(8, 16) =~= spec_u64_to_be_bytes(self.p));
        assert(b.subrange(16, 24) =~= spec_u64_to_be_bytes(self.o));
        assert(b.subrange(24, 32) =~= spec_u64_to_be_bytes(self.l));
        lemma_u64_be_bytes_round_trip(self.s);
        lemma_u64_be_bytes_round_trip(self.p);
        lemma_u64_be_bytes_round_trip(self.o);
        lemma_u64_be_bytes_round_trip(self.l);
    }

    /// The content hash of an interned quad: the hash of its record body.
    pub open spec fn spec_hash(self) -> u64 {
        std::collections::hash_map::DefaultHasher::spec_finish(seq![self.spec_encode()])
    }

    /// The content hash of this interned quad.
    pub fn calc_hash(&self) -> (h: u64)
        ensures
            h == self.spec_hash(),
    {
        let mut bytes: Vec<u8> = Vec::new();
        self.encode(&mut bytes);
        let mut hasher = std::collections::hash_map::DefaultHasher::new();
        std::hash::Hasher::write(&mut hasher, bytes.as_slice());
        let h = std::hash::Hasher::finish(&hasher);
        proof {
            assert(bytes@ =~= self.spec_encode());
            assert(hasher@ =~= seq![self.spec_encode()]);
        }
        h
    }
}

/// An ordered 4-tuple of values; the label may be `Value::Undefined` to mean
/// the default graph.
#[derive(Debug, PartialEq, Eq)]
pub struct Quad {
    pub subject: Value,
    pub predicate: Value,
    pub object: Value,
    pub label: Value,
}

/// The mathematical shape of a `Quad`.
pub struct QuadView {
    pub subject: ValueView,
    pub predicate: ValueView,
    pub object: ValueView,
    pub label: ValueView,
}

impl View for Quad {
    type V = QuadView;

    open spec fn view(&self) -> QuadView {
        QuadView {
            subject: self.subject@,
            predicate: self.predicate@,
            object: self.object@,
            label: self.label@,
        }
    }
}

impl QuadView {
    /// The value in the given direction.
    pub open spec fn dir(self, d: Direction) -> ValueView {
        match d {
            Direction::Subject => self.subject,
            Direction::Predicate => self.predicate,
            Direction::Object => self.object,
            Direction::Label => self.label,
        }
    }

    /// Every direction's number payload satisfies the numeric invariant.
    pub open spec fn wf(self) -> bool {
        self.subject.wf() && self.predicate.wf() && self.object.wf() && self.label.wf()
    }
}

impl Clone for Quad {
    /// A clone is equal to the original.
    fn clone(&self) -> (r: Self)
        ensures
            r == *self,
    {
        Quad {
            subject: self.subject.clone(),
            predicate: self.predicate.clone(),
            object: self.object.clone(),
            label: self.label.clone(),
        }
    }
}

/// The content hash of a quad: its four values' encodings fed to the hasher
/// in direction order, one write per value.
pub open spec fn spec_quad_hash(q: QuadView) -> u64 {
    std::collections::hash_map::DefaultHasher::spec_finish(
        seq![
            spec_value_encode(q.subject),
            spec_value_encode(q.predicate),
            spec_value_encode(q.object),
            spec_value_encode(q.label),
        ],
    )
}

impl Quad {
    /// The quad with every direction unassigned.
    pub fn new_undefined_vals() -> (r: Quad)
        ensures
            r@.subject == ValueView::Undefined,
            r@.predicate == ValueView::Undefined,
            r@.object == ValueView::Undefined,
            r@.label == ValueView::Undefined,
    {
        Quad {
            subject: Value::Undefined,
            predicate: Value::Undefined,
            object: Value::Undefined,
            label: Value::Undefined,
        }
    }

    /// A quad from its four values.
    pub fn new(subject: Value, predicate: Value, object: Value, label: Value) -> (r: Quad)
        ensures
            r == (Quad { subject, predicate, object, label }),
    {
        Quad { subject, predicate, object, label }
    }

    /// The value in the given direction.
    pub fn get(&self, d: &Direction) -> (r: &Value)
        ensures
            r@ == self@.dir(*d),
    {
        match d {
            Direction::Subject => &self.subject,
            Direction::Predicate => &self.predicate,
            Direction::Object => &self.object,
            Direction::Label => &self.label,
        }
    }

    /// Replaces the value in the given direction.
    pub fn set_val(&mut self, dir: &Direction, v: Value)
        ensures
            final(self)@.dir(*dir) == v@,
            forall|d: Direction| d != *dir ==> final(self)@.dir(d) == old(self)@.dir(d),
    {
        match dir {
            Direction::Subject => self.subject = v,
            Direction::Predicate => self.predicate = v,
            Direction::Object => self.object = v,
            Direction::Label => self.label = v,
        };
        assert forall|d: Direction| d != *dir implies final(self)@.dir(d) == old(self)@.dir(d) by {}
    }

    /// The content hash of this quad.
    pub fn calc_hash(&self) -> (h: u64)
        ensures
            h == spec_quad_hash(self@),
    {
        let mut hasher = std::collections::hash_map::DefaultHasher::new();
        let b0 = self.subject.encode_to_vec();
        std::hash::Hasher::write(&mut hasher, b0.as_slice());
        let b1 = self.predicate.encode_to_vec();
        std::hash::Hasher::write(&mut hasher, b1.as_slice());
        let b2 = self.object.encode_to_vec();
        std::hash::Hasher::write(&mut hasher, b2.as_slice());
        let b3 = self.label.encode_to_vec();
        std::hash::Hasher::write(&mut hasher, b3.as_slice());
        let h = std::hash::Hasher::finish(&hasher);
        proof {
            assert(hasher@ =~= seq![
                spec_value_encode(self@.subject),
                spec_value_encode(self@.predicate),
                spec_value_encode(self@.object),
                spec_value_encode(self@.label),
            ]);
        }
        h
    }

    /// The content hash of this quad as eight big-endian bytes.
    pub fn calc_hash_bytes(&self) -> (r: Vec<u8>)
        ensures
            r@ == spec_u64_to_be_bytes(spec_quad_hash(self@)),
    {
        u64_to_be_vec(self.calc_hash())
    }
}

/// Which duplicate adds and missing deletes a batch tolerates.
#[derive(Clone, Copy, PartialEq, Eq, Structural, Debug)]
pub struct IgnoreOptions {
    pub ignore_dup: bool,
    pub ignore_missing: bool,
}

/// Whether a delta adds or deletes its quad.
#[derive(Clone, Copy, PartialEq, Eq, Structural, Debug)]
pub enum Procedure {
    Add,
    Delete,
}

/// A pending add or delete of one quad.
#[derive(Debug, PartialEq, Eq)]
pub struct Delta {
    pub quad: Quad,
    pub action: Procedure,
}

impl Clone for Delta {
    /// A clone is equal to the original.
    fn clone(&self) -> (r: Self)
        ensures
            r == *self,
    {
        Delta { quad: self.quad.clone(), action: self.action }
    }
}

} // verus!
