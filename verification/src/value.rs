//! The typed scalar domain and its byte codec.
//!
//! A value is encoded as one prefix byte followed by the body; the content
//! hash mixes the prefix with the payload, so distinct variants with equal
//! payloads do not collide by construction of the encoding.

use vstd::prelude::*;
use vstd::string::StrSliceExecFns;
use vstd::utf8::{encode_utf8, valid_utf8, decode_utf8};
use vstd::utf8::{encode_utf8_decode_utf8, decode_utf8_encode_utf8, encode_utf8_valid_utf8};
use vstd::std_specs::hash::DefaultHasherAdditionalSpecFns;
use crate::bytes_be::{spec_u64_to_be_bytes, spec_u64_from_be_bytes, write_u64_be, read_u64_be};
use crate::bytes_be::lemma_u64_be_bytes_round_trip;
use crate::number::{N, Number, spec_f64_bits_finite};

verus! {

/// A typed scalar: absent, explicit null, boolean, number, IRI, or string.
#[derive(Debug, PartialEq, Eq)]
pub enum Value {
    Undefined,
    Null,
    Bool(bool),
    Number(Number),
    IRI(String),
    String(String),
}

/// The mathematical shape of a `Value`: strings are sequences of characters.
pub enum ValueView {
    Undefined,
    Null,
    Bool(bool),
    Number(Number),
    IRI(Seq<char>),
    String(Seq<char>),
}

impl View for Value {
    type V = ValueView;

    open spec fn view(&self) -> ValueView {
        match self {
            Value::Undefined => ValueView::Undefined,
            Value::Null => ValueView::Null,
            Value::Bool(b) => ValueView::Bool(*b),
            Value::Number(n) => ValueView::Number(*n),
            Value::IRI(s) => ValueView::IRI(s@),
            Value::String(s) => ValueView::String(s@),
        }
    }
}

impl Clone for Value {
    /// A clone is equal to the original.
    fn clone(&self) -> (r: Self)
        ensures
            r == *self,
    {
        match self {
            Value::Undefined => Value::Undefined,
            Value::Null => Value::Null,
            Value::Bool(b) => Value::Bool(*b),
            Value::Number(n) => Value::Number(*n),
            Value::IRI(s) => Value::IRI(s.clone()),
            Value::String(s) => Value::String(s.clone()),
        }
    }
}

impl ValueView {
    /// Any number payload satisfies the numeric invariant.
    pub open spec fn wf(self) -> bool {
        match self {
            ValueView::Number(n) => n.wf(),
            _ => true,
        }
    }
}

pub const VALUE_NONE_PREFIX: u8 = 0;

pub const VALUE_NULL_PREFIX: u8 = 1;

pub const VALUE_BOOL_TRUE_PREFIX: u8 = 2;

pub const VALUE_BOOL_FALSE_PREFIX: u8 = 3;

pub const VALUE_NUMBER_F64_PREFIX: u8 = 4;

pub const VALUE_NUMBER_I64_PREFIX: u8 = 5;

pub const VALUE_NUMBER_U64_PREFIX: u8 = 6;

pub const VALUE_IRI_PREFIX: u8 = 7;

pub const VALUE_STRING_PREFIX: u8 = 8;

/// The byte encoding of a value: one prefix byte, then the body.
pub open spec fn spec_value_encode(v: ValueView) -> Seq<u8> {
    match v {
        ValueView::Undefined => seq![VALUE_NONE_PREFIX],
        ValueView::Null => seq![VALUE_NULL_PREFIX],
        ValueView::Bool(b) => if b {
            seq![VALUE_BOOL_TRUE_PREFIX]
        } else {
            seq![VALUE_BOOL_FALSE_PREFIX]
        },
        ValueView::Number(n) => match n.n {
            N::Float(bits) => seq![VALUE_NUMBER_F64_PREFIX] + spec_u64_to_be_bytes(bits),
            N::NegInt(i) => seq![VALUE_NUMBER_I64_PREFIX] + spec_u64_to_be_bytes(i as u64),
            N::PosInt(u) => seq![VALUE_NUMBER_U64_PREFIX] + spec_u64_to_be_bytes(u),
        },
        ValueView::IRI(s) => seq![VALUE_IRI_PREFIX] + encode_utf8(s),
        ValueView::String(s) => seq![VALUE_STRING_PREFIX] + encode_utf8(s),
    }
}

/// The value read back from an encoding; `None` marks a corrupt encoding.
///
/// A signed-integer body that is not negative is normalised to the unsigned
/// variant, as the signed constructor does.
pub open spec fn spec_value_decode(bytes: Seq<u8>) -> Option<ValueView> {
    if bytes.len() == 0 {
        Option::None
    } else if bytes[0] == VALUE_NONE_PREFIX {
        if bytes.len() == 1 {
            Some(ValueView::Undefined)
        } else {
            Option::None
        }
    } else if bytes[0] == VALUE_NULL_PREFIX {
        if bytes.len() == 1 {
            Some(ValueView::Null)
        } else {
            Option::None
        }
    } else if bytes[0] == VALUE_BOOL_TRUE_PREFIX {
        if bytes.len() == 1 {
            Some(ValueView::Bool(true))
        } else {
            Option::None
        }
    } else if bytes[0] == VALUE_BOOL_FALSE_PREFIX {
        if bytes.len() == 1 {
            Some(ValueView::Bool(false))
        } else {
            Option::None
        }
    } else if bytes[0] == VALUE_NUMBER_F64_PREFIX {
        if bytes.len() == 9 && spec_f64_bits_finite(spec_u64_from_be_bytes(bytes.skip(1))) {
            Some(ValueView::Number(Number { n: N::Float(spec_u64_from_be_bytes(bytes.skip(1))) }))
        } else {
            Option::None
        }
    } else if bytes[0] == VALUE_NUMBER_I64_PREFIX {
        if bytes.len() == 9 {
            if (spec_u64_from_be_bytes(bytes.skip(1)) as i64) < 0 {
                Some(
                    ValueView::Number(
                        Number { n: N::NegInt(spec_u64_from_be_bytes(bytes.skip(1)) as i64) },
                    ),
                )
            } else {
                Some(ValueView::Number(Number { n: N::PosInt(spec_u64_from_be_bytes(bytes.skip(1))) }))
            }
        } else {
            Option::None
        }
    } else if bytes[0] == VALUE_NUMBER_U64_PREFIX {
        if bytes.len() == 9 {
            Some(ValueView::Number(Number { n: N::PosInt(spec_u64_from_be_bytes(bytes.skip(1))) }))
        } else {
            Option::None
        }
    } else if bytes[0] == VALUE_IRI_PREFIX {
        if valid_utf8(bytes.skip(1)) {
            Some(ValueView::IRI(decode_utf8(bytes.skip(1))))
        } else {
            Option::None
        }
    } else if bytes[0] == VALUE_STRING_PREFIX {
        if valid_utf8(bytes.skip(1)) {
            Some(ValueView::String(decode_utf8(bytes.skip(1))))
        } else {
            Option::None
        }
    } else {
        Option::None
    }
}

/// Decoding inverts encoding on every well-formed value.
pub proof fn lemma_value_codec_round_trip(v: ValueView)
    requires
        v.wf(),
    ensures
        spec_value_decode(spec_value_encode(v)) == Some(v),
{
    let bytes = spec_value_encode(v);
    match v {
        ValueView::Undefined => assert(bytes =~= seq![VALUE_NONE_PREFIX]),
        ValueView::Null => assert(bytes =~= seq![VALUE_NULL_PREFIX]),
        ValueView::Bool(_) => {}
        ValueView::Number(n) => {
            match n.n {
                N::Float(bits) => {
                    assert(bytes.skip(1) =~= spec_u64_to_be_bytes(bits));
                    lemma_u64_be_bytes_round_trip(bits);
                },
                N::NegInt(i) => {
                    assert(bytes.skip(1) =~= spec_u64_to_be_bytes(i as u64));
                    lemma_u64_be_bytes_round_trip(i as u64);
                    assert(i < 0 ==> ((i as u64) as i64) < 0 && (i as u64) as i64 == i)
                        by (bit_vector);
                },
                N::PosInt(u) => {
                    assert(bytes.skip(1) =~= spec_u64_to_be_bytes(u));
                    lemma_u64_be_bytes_round_trip(u);
                },
            }
        },
        ValueView::IRI(s) => {
            assert(bytes.skip(1) =~= encode_utf8(s));
            encode_utf8_valid_utf8(s);
            encode_utf8_decode_utf8(s);
        },
        ValueView::String(s) => {
            assert(bytes.skip(1) =~= encode_utf8(s));
            encode_utf8_valid_utf8(s);
            encode_utf8_decode_utf8(s);
        },
    }
}

/// Every decoded value is well formed: a signed-integer body is
/// normalised and a float body is checked finite at decode time.
pub proof fn lemma_value_decode_wf(bytes: Seq<u8>)
    ensures
        spec_value_decode(bytes) matches Some(v) ==> v.wf(),
{
    if spec_value_decode(bytes) is Some {
        let v = spec_value_decode(bytes)->Some_0;
        if bytes.len() == 9 && bytes[0] == VALUE_NUMBER_I64_PREFIX {
            assert(v.wf());
        }
    }
}

/// The content hash of a value: the hash of its byte encoding, under the
/// deterministic hasher that the standard library seeds with fixed keys.
///
/// Distinct variants feed distinct prefix bytes to the hasher, so equal
/// payloads of different variants do not collide by construction.
pub open spec fn spec_value_hash(v: ValueView) -> u64 {
    std::collections::hash_map::DefaultHasher::spec_finish(seq![spec_value_encode(v)])
}

/// How a token of the textual form becomes a value: `<...>` is an IRI,
/// `"..."` is a string with the quotes stripped, anything else (the empty
/// token included) is a plain string.
pub open spec fn spec_from_rdf_string(s: Seq<char>) -> ValueView {
    if s.len() >= 2 && s[0] == '"' && s[s.len() - 1] == '"' {
        ValueView::String(s.subrange(1, s.len() - 1))
    } else if s.len() >= 2 && s[0] == '<' && s[s.len() - 1] == '>' {
        ValueView::IRI(s.subrange(1, s.len() - 1))
    } else {
        ValueView::String(s)
    }
}

/// How a plain string becomes a value: only the `<...>` form is special.
pub open spec fn spec_from_string(s: Seq<char>) -> ValueView {
    if s.len() >= 2 && s[0] == '<' && s[s.len() - 1] == '>' {
        ValueView::IRI(s.subrange(1, s.len() - 1))
    } else {
        ValueView::String(s)
    }
}

/// Relies on std's `String::from_utf8`: returns the string read from the
/// bytes exactly when they are valid UTF-8, and that string's encoding is the
/// input.
#[verifier::external_body]
fn bytes_to_string(bytes: Vec<u8>) -> (r: Option<String>)
    ensures
        r is Some <==> valid_utf8(bytes@),
        r matches Some(s) ==> encode_utf8(s@) == bytes@,
{
    match std::string::String::from_utf8(bytes) {
        Ok(s) => Some(s),
        Err(_) => None,
    }
}

impl Value {
    /// Any number payload satisfies the numeric invariant.
    pub open spec fn wf(&self) -> bool {
        self@.wf()
    }

    /// Reads a whitespace-separated token of the bulk-load line format.
    pub fn from_rdf_string(s: &str) -> (r: Value)
        ensures
            r@ == spec_from_rdf_string(s@),
    {
        let n = s.unicode_len();
        if n >= 2 && s.get_char(0) == '"' && s.get_char(n - 1) == '"' {
            Value::String(s.substring_char(1, n - 1).to_owned())
        } else if n >= 2 && s.get_char(0) == '<' && s.get_char(n - 1) == '>' {
            Value::IRI(s.substring_char(1, n - 1).to_owned())
        } else {
            Value::String(s.to_owned())
        }
    }

    /// Reads a plain string, treating only the `<...>` form as an IRI.
    pub fn from_string(s: &str) -> (r: Value)
        ensures
            r@ == spec_from_string(s@),
    {
        let n = s.unicode_len();
        if n >= 2 && s.get_char(0) == '<' && s.get_char(n - 1) == '>' {
            Value::IRI(s.substring_char(1, n - 1).to_owned())
        } else {
            Value::String(s.to_owned())
        }
    }

    /// The content hash of this value.
    pub fn calc_hash(&self) -> (h: u64)
        ensures
            h == spec_value_hash(self@),
    {
        let bytes = self.encode_to_vec();
        let mut hasher = std::collections::hash_map::DefaultHasher::new();
        std::hash::Hasher::write(&mut hasher, bytes.as_slice());
        let h = std::hash::Hasher::finish(&hasher);
        proof {
            assert(hasher@ =~= seq![spec_value_encode(self@)]);
        }
        h
    }

    /// The value as an `i64`, when it is a number that fits.
    pub fn as_i64(&self) -> (r: Option<i64>)
        ensures
            r == match self@ {
                ValueView::Number(n) => match n.n {
                    N::PosInt(v) => if v <= i64::MAX {
                        Some(v as i64)
                    } else {
                        None::<i64>
                    },
                    N::NegInt(i) => Some(i),
                    N::Float(_) => None::<i64>,
                },
                _ => None::<i64>,
            },
    {
        if let Value::Number(n) = self {
            return n.as_i64();
        }
        None
    }

    /// Appends the byte encoding of this value to `buff`.
    pub fn encode(&self, buff: &mut Vec<u8>)
        ensures
            final(buff)@ == old(buff)@ + spec_value_encode(self@),
    {
        match self {
            Value::Undefined => buff.push(VALUE_NONE_PREFIX),
            Value::Null => buff.push(VALUE_NULL_PREFIX),
            Value::Bool(b) => if *b {
                buff.push(VALUE_BOOL_TRUE_PREFIX)
            } else {
                buff.push(VALUE_BOOL_FALSE_PREFIX)
            },
            Value::Number(n) => match n.n {
                N::Float(bits) => {
                    buff.push(VALUE_NUMBER_F64_PREFIX);
                    write_u64_be(buff, bits);
                },
                N::NegInt(i) => {
                    buff.push(VALUE_NUMBER_I64_PREFIX);
                    write_u64_be(buff, i as u64);
                },
                N::PosInt(u) => {
                    buff.push(VALUE_NUMBER_U64_PREFIX);
                    write_u64_be(buff, u);
                },
            },
            Value::IRI(s) => {
                buff.push(VALUE_IRI_PREFIX);
                let mut body = s.as_str().as_bytes_vec();
                buff.append(&mut body);
            },
            Value::String(s) => {
                buff.push(VALUE_STRING_PREFIX);
                let mut body = s.as_str().as_bytes_vec();
                buff.append(&mut body);
            },
        }
        assert(final(buff)@ =~= old(buff)@ + spec_value_encode(self@));
    }

    /// The byte encoding of this value as a fresh vector.
    pub fn encode_to_vec(&self) -> (r: Vec<u8>)
        ensures
            r@ == spec_value_encode(self@),
    {
        let mut v: Vec<u8> = Vec::new();
        self.encode(&mut v);
        assert(v@ =~= spec_value_encode(self@));
        v
    }

    /// Reads a value back from its byte encoding; corrupt bytes are an error.
    pub fn decode(bytes: &[u8]) -> (r: Result<Value, String>)
        ensures
            match r {
                Ok(v) => spec_value_decode(bytes@) == Some(v@),
                Err(_) => spec_value_decode(bytes@) is None,
            },
    {
        if bytes.len() == 0 {
            return Err("cannot decode value".to_owned());
        }
        let prefix = bytes[0];
        if prefix == VALUE_NONE_PREFIX && bytes.len() == 1 {
            Ok(Value::Undefined)
        } else if prefix == VALUE_NULL_PREFIX && bytes.len() == 1 {
            Ok(Value::Null)
        } else if prefix == VALUE_BOOL_TRUE_PREFIX && bytes.len() == 1 {
            Ok(Value::Bool(true))
        } else if prefix == VALUE_BOOL_FALSE_PREFIX && bytes.len() == 1 {
            Ok(Value::Bool(false))
        } else if prefix == VALUE_NUMBER_F64_PREFIX && bytes.len() == 9 {
            let bits = read_u64_be(bytes, 1);
            assert(bytes@.subrange(1, 9) =~= bytes@.skip(1));
            match Number::from_f64_bits(bits) {
                Some(n) => Ok(Value::Number(n)),
                None => Err("cannot decode value".to_owned()),
            }
        } else if prefix == VALUE_NUMBER_I64_PREFIX && bytes.len() == 9 {
            let u = read_u64_be(bytes, 1);
            assert(bytes@.subrange(1, 9) =~= bytes@.skip(1));
            proof {
                assert(((u as i64) < 0 || ((u as i64) as u64) == u) && ((u as i64) >= 0 || (
                u as i64) == u as i64)) by (bit_vector);
            }
            Ok(Value::Number(Number::from_i64(#[verifier::truncate] (u as i64))))
        } else if prefix == VALUE_NUMBER_U64_PREFIX && bytes.len() == 9 {
            let u = read_u64_be(bytes, 1);
            assert(bytes@.subrange(1, 9) =~= bytes@.skip(1));
            Ok(Value::Number(Number::from_u64(u)))
        } else if prefix == VALUE_IRI_PREFIX {
            let mut body: Vec<u8> = Vec::new();
            let mut i: usize = 1;
            while i < bytes.len()
                invariant
                    1 <= i <= bytes@.len(),
                    body@ == bytes@.subrange(1, i as int),
                decreases bytes@.len() - i,
            {
                body.push(bytes[i]);
                i += 1;
                assert(body@ =~= bytes@.subrange(1, i as int));
            }
            assert(body@ =~= bytes@.skip(1));
            match bytes_to_string(body) {
                Some(s) => {
                    proof {
                        encode_utf8_decode_utf8(s@);
                        decode_utf8_encode_utf8(bytes@.skip(1));
                    }
                    Ok(Value::IRI(s))
                },
                None => Err("cannot decode value".to_owned()),
            }
        } else if prefix == VALUE_STRING_PREFIX {
            let mut body: Vec<u8> = Vec::new();
            let mut i: usize = 1;
            while i < bytes.len()
                invariant
                    1 <= i <= bytes@.len(),
                    body@ == bytes@.subrange(1, i as int),
                decreases bytes@.len() - i,
            {
                body.push(bytes[i]);
                i += 1;
                assert(body@ =~= bytes@.subrange(1, i as int));
            }
            assert(body@ =~= bytes@.skip(1));
            match bytes_to_string(body) {
                Some(s) => {
                    proof {
                        encode_utf8_decode_utf8(s@);
                        decode_utf8_encode_utf8(bytes@.skip(1));
                    }
                    Ok(Value::String(s))
                },
                None => Err("cannot decode value".to_owned()),
            }
        } else {
            Err("cannot decode value".to_owned())
        }
    }
}

impl From<bool> for Value {
    fn from(b: bool) -> (r: Value)
        ensures
            r == Value::Bool(b),
    {
        Value::Bool(b)
    }
}

impl vstd::std_specs::convert::FromSpecImpl<bool> for Value {
    open spec fn obeys_from_spec() -> bool {
        true
    }

    open spec fn from_spec(b: bool) -> Value {
        Value::Bool(b)
    }
}

impl From<u64> for Value {
    fn from(v: u64) -> (r: Value)
        ensures
            r == Value::Number(Number { n: N::PosInt(v) }),
    {
        Value::Number(Number::from_u64(v))
    }
}

impl vstd::std_specs::convert::FromSpecImpl<u64> for Value {
    open spec fn obeys_from_spec() -> bool {
        true
    }

    open spec fn from_spec(v: u64) -> Value {
        Value::Number(Number { n: N::PosInt(v) })
    }
}

impl From<i64> for Value {
    fn from(v: i64) -> (r: Value)
        ensures
            r == Value::Number(
                if v < 0 {
                    Number { n: N::NegInt(v) }
                } else {
                    Number { n: N::PosInt(v as u64) }
                },
            ),
    {
        Value::Number(Number::from_i64(v))
    }
}

impl vstd::std_specs::convert::FromSpecImpl<i64> for Value {
    open spec fn obeys_from_spec() -> bool {
        true
    }

    open spec fn from_spec(v: i64) -> Value {
        Value::Number(
            if v < 0 {
                Number { n: N::NegInt(v) }
            } else {
                Number { n: N::PosInt(v as u64) }
            },
        )
    }
}

impl From<i32> for Value {
    fn from(v: i32) -> (r: Value)
        ensures
            r == Value::Number(
                if v < 0 {
                    Number { n: N::NegInt(v as i64) }
                } else {
                    Number { n: N::PosInt(v as u64) }
                },
            ),
    {
        proof {
            assert(v < 0 ==> (v as i64) < 0) by (bit_vector);
            assert(v >= 0 ==> (v as i64) >= 0 && (v as i64) as u64 == v as u64) by (bit_vector);
        }
        Value::Number(Number::from_i64(v as i64))
    }
}

impl vstd::std_specs::convert::FromSpecImpl<i32> for Value {
    open spec fn obeys_from_spec() -> bool {
        true
    }

    open spec fn from_spec(v: i32) -> Value {
        Value::Number(
            if v < 0 {
                Number { n: N::NegInt(v as i64) }
            } else {
                Number { n: N::PosInt(v as u64) }
            },
        )
    }
}

impl<'a> From<&'a str> for Value {
    fn from(s: &'a str) -> (r: Value)
        ensures
            r@ == spec_from_string(s@),
    {
        Value::from_string(s)
    }
}

impl<'a> vstd::std_specs::convert::FromSpecImpl<&'a str> for Value {
    open spec fn obeys_from_spec() -> bool {
        false
    }

    open spec fn from_spec(s: &'a str) -> Value {
        Value::Undefined
    }
}

impl From<String> for Value {
    fn from(s: String) -> (r: Value)
        ensures
            r@ == spec_from_string(s@),
    {
        Value::from_string(s.as_str())
    }
}

impl vstd::std_specs::convert::FromSpecImpl<String> for Value {
    open spec fn obeys_from_spec() -> bool {
        false
    }

    open spec fn from_spec(s: String) -> Value {
        Value::Undefined
    }
}

impl From<()> for Value {
    fn from(_u: ()) -> (r: Value)
        ensures
            r == Value::Undefined,
    {
        Value::Undefined
    }
}

impl vstd::std_specs::convert::FromSpecImpl<()> for Value {
    open spec fn obeys_from_spec() -> bool {
        true
    }

    open spec fn from_spec(_u: ()) -> Value {
        Value::Undefined
    }
}

} // verus!
