//! The numeric scalar domain: unsigned, negative, and finite floating-point
//! numbers.
//!
//! A floating-point number is carried as its IEEE-754 bit pattern, so that
//! equality and hashing are exact bit-pattern equality and the finiteness
//! invariant is a plain condition on the exponent bits.

use vstd::prelude::*;

verus! {

/// The tag and payload of a number.
#[derive(Clone, Copy, PartialEq, Eq, Structural, Debug, Hash)]
pub enum N {
    PosInt(u64),
    /// Always less than zero.
    NegInt(i64),
    /// IEEE-754 double-precision bit pattern; always finite.
    Float(u64),
}

/// A typed number: a non-negative integer, a negative integer, or a finite
/// floating-point bit pattern.
#[derive(Clone, Copy, PartialEq, Eq, Structural, Debug, Hash)]
pub struct Number {
    pub n: N,
}

/// A double-precision bit pattern is finite when its exponent bits are not
/// all ones (all ones encodes an infinity or a NaN).
pub open spec fn spec_f64_bits_finite(bits: u64) -> bool {
    (bits >> 52) & 0x7ff != 0x7ff
}

impl Number {
    /// A negative integer payload is negative and a float payload is finite.
    pub open spec fn wf(self) -> bool {
        match self.n {
            N::PosInt(_) => true,
            N::NegInt(i) => i < 0,
            N::Float(bits) => spec_f64_bits_finite(bits),
        }
    }

    /// Whether this number is representable as an `i64`.
    pub fn is_i64(&self) -> (r: bool)
        ensures
            r == match self.n {
                N::PosInt(v) => v <= i64::MAX,
                N::NegInt(_) => true,
                N::Float(_) => false,
            },
    {
        match self.n {
            N::PosInt(v) => v <= i64::MAX as u64,
            N::NegInt(_) => true,
            N::Float(_) => false,
        }
    }

    /// Whether this number is a non-negative integer.
    pub fn is_u64(&self) -> (r: bool)
        ensures
            r == (self.n is PosInt),
    {
        match self.n {
            N::PosInt(_) => true,
            N::NegInt(_) | N::Float(_) => false,
        }
    }

    /// Whether this number is a floating-point number.
    pub fn is_f64(&self) -> (r: bool)
        ensures
            r == (self.n is Float),
    {
        match self.n {
            N::Float(_) => true,
            N::PosInt(_) | N::NegInt(_) => false,
        }
    }

    /// The value as an `i64`, when it fits.
    pub fn as_i64(&self) -> (r: Option<i64>)
        ensures
            r == match self.n {
                N::PosInt(v) => if v <= i64::MAX {
                    Some(v as i64)
                } else {
                    None
                },
                N::NegInt(i) => Some(i),
                N::Float(_) => None::<i64>,
            },
    {
        match self.n {
            N::PosInt(v) => if v <= i64::MAX as u64 {
                Some(v as i64)
            } else {
                None
            },
            N::NegInt(i) => Some(i),
            N::Float(_) => None,
        }
    }

    /// The value as a `u64`, when it is a non-negative integer.
    pub fn as_u64(&self) -> (r: Option<u64>)
        ensures
            r == match self.n {
                N::PosInt(v) => Some(v),
                N::NegInt(_) | N::Float(_) => None::<u64>,
            },
    {
        match self.n {
            N::PosInt(v) => Some(v),
            N::NegInt(_) | N::Float(_) => None,
        }
    }

    /// The floating-point bit pattern, when this number is a float.
    pub fn as_f64_bits(&self) -> (r: Option<u64>)
        ensures
            r == match self.n {
                N::Float(bits) => Some(bits),
                N::PosInt(_) | N::NegInt(_) => None::<u64>,
            },
    {
        match self.n {
            N::Float(bits) => Some(bits),
            N::PosInt(_) | N::NegInt(_) => None,
        }
    }

    /// A float from its bit pattern; rejects infinities and NaNs.
    pub fn from_f64_bits(bits: u64) -> (r: Option<Number>)
        ensures
            r == if spec_f64_bits_finite(bits) {
                Some(Number { n: N::Float(bits) })
            } else {
                None::<Number>
            },
            r is Some ==> r.unwrap().wf(),
    {
        if (bits >> 52) & 0x7ff != 0x7ff {
            Some(Number { n: N::Float(bits) })
        } else {
            None
        }
    }

    /// A number from an unsigned integer.
    pub fn from_u64(v: u64) -> (r: Number)
        ensures
            r == (Number { n: N::PosInt(v) }),
            r.wf(),
    {
        Number { n: N::PosInt(v) }
    }

    /// A number from a signed integer: non-negative input becomes `PosInt`.
    pub open spec fn from_i64_spec(v: i64) -> Number {
        if v < 0 {
            Number { n: N::NegInt(v) }
        } else {
            Number { n: N::PosInt(v as u64) }
        }
    }

    /// A number from a signed integer: non-negative input becomes `PosInt`.
    pub fn from_i64(v: i64) -> (r: Number)
        ensures
            r == Self::from_i64_spec(v),
            r.wf(),
    {
        if v < 0 {
            Number { n: N::NegInt(v) }
        } else {
            Number { n: N::PosInt(v as u64) }
        }
    }
}

} // verus!
