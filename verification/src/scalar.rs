//! Real numbers held by their IEEE-754 binary32 bit pattern.
//!
//! A pattern is a sign bit followed by 31 bits of magnitude. Among patterns
//! that are numbers, a larger magnitude is further from zero, so the signed
//! magnitude orders them exactly as the numbers themselves are ordered, with
//! the two zeros sharing one place.

use vstd::prelude::*;

verus! {

/// The sign bit of a pattern.
pub const SIGN_BIT: u32 = 0x8000_0000;

/// The magnitude of infinity; every larger magnitude is not a number.
pub const INFINITY_MAGNITUDE: u32 = 0x7f80_0000;

/// The pattern of the number one.
pub const ONE_BITS: u32 = 0x3f80_0000;

/// A real number, an infinity or a not-a-number, by its bit pattern.
#[derive(Clone, Copy, Debug, PartialEq, Eq, Structural)]
pub struct Scalar {
    pub bits: u32,
}

impl Scalar {
    /// The pattern without its sign bit.
    pub open spec fn magnitude(self) -> int {
        if self.bits >= SIGN_BIT {
            self.bits - SIGN_BIT
        } else {
            self.bits as int
        }
    }

    /// Whether the sign bit is set.
    pub open spec fn negative(self) -> bool {
        self.bits >= SIGN_BIT
    }

    /// Whether the pattern stands for no number.
    pub open spec fn nan(self) -> bool {
        self.magnitude() > INFINITY_MAGNITUDE
    }

    /// The place of the pattern in the order of the numbers: its signed
    /// magnitude. Both zeros have place 0.
    pub open spec fn ordinal(self) -> int {
        if self.negative() {
            -self.magnitude()
        } else {
            self.magnitude()
        }
    }

    /// `self < other` as numbers; false as soon as one side is not a number.
    pub open spec fn less(self, other: Scalar) -> bool {
        !self.nan() && !other.nan() && self.ordinal() < other.ordinal()
    }

    /// `self == other` as numbers; false as soon as one side is not a number.
    pub open spec fn same(self, other: Scalar) -> bool {
        !self.nan() && !other.nan() && self.ordinal() == other.ordinal()
    }

    /// `self >= other` as numbers; false as soon as one side is not a number.
    pub open spec fn at_least(self, other: Scalar) -> bool {
        !self.nan() && !other.nan() && self.ordinal() >= other.ordinal()
    }

    /// The number without its sign.
    pub open spec fn absolute(self) -> Scalar {
        Scalar { bits: self.magnitude() as u32 }
    }

    /// The number with its sign turned.
    pub open spec fn negated(self) -> Scalar {
        Scalar {
            bits: if self.bits >= SIGN_BIT {
                (self.bits - SIGN_BIT) as u32
            } else {
                (self.bits + SIGN_BIT) as u32
            },
        }
    }

    /// `self <= other` as numbers; false as soon as one side is not a number.
    pub open spec fn at_most(self, other: Scalar) -> bool {
        !self.nan() && !other.nan() && self.ordinal() <= other.ordinal()
    }

    /// `self == 0` as numbers: one of the two zeros.
    pub open spec fn null(self) -> bool {
        self.magnitude() == 0
    }

    /// `self > 0` as numbers.
    pub open spec fn positive(self) -> bool {
        !self.nan() && self.ordinal() > 0
    }

    pub fn from_bits(bits: u32) -> (s: Scalar)
        ensures
            s.bits == bits,
    {
        Scalar { bits }
    }

    pub fn to_bits(&self) -> (bits: u32)
        ensures
            bits == self.bits,
    {
        self.bits
    }

    /// The number zero, with a clear sign bit.
    pub fn zero() -> (s: Scalar)
        ensures
            s.bits == 0,
            s.ordinal() == 0,
            !s.nan(),
    {
        Scalar { bits: 0 }
    }

    /// The number one: the refractive index of empty space.
    pub fn one() -> (s: Scalar)
        ensures
            s.bits == ONE_BITS,
            s.positive(),
    {
        Scalar { bits: ONE_BITS }
    }

    pub fn is_nan(&self) -> (r: bool)
        ensures
            r == self.nan(),
    {
        if self.bits >= SIGN_BIT {
            self.bits - SIGN_BIT > INFINITY_MAGNITUDE
        } else {
            self.bits > INFINITY_MAGNITUDE
        }
    }

    /// The signed magnitude as a machine integer.
    pub fn key(&self) -> (k: i64)
        ensures
            k == self.ordinal(),
            -0x7fff_ffff <= k <= 0x7fff_ffff,
    {
        if self.bits >= SIGN_BIT {
            let m: u32 = self.bits - SIGN_BIT;
            -(m as i64)
        } else {
            self.bits as i64
        }
    }

    pub fn lt(&self, other: &Scalar) -> (r: bool)
        ensures
            r == self.less(*other),
    {
        !self.is_nan() && !other.is_nan() && self.key() < other.key()
    }

    pub fn same_value(&self, other: &Scalar) -> (r: bool)
        ensures
            r == self.same(*other),
    {
        !self.is_nan() && !other.is_nan() && self.key() == other.key()
    }

    pub fn ge(&self, other: &Scalar) -> (r: bool)
        ensures
            r == self.at_least(*other),
    {
        !self.is_nan() && !other.is_nan() && self.key() >= other.key()
    }

    /// The number without its sign.
    pub fn abs(&self) -> (r: Scalar)
        ensures
            r == self.absolute(),
            !r.negative(),
            r.magnitude() == self.magnitude(),
    {
        if self.bits >= SIGN_BIT {
            Scalar { bits: self.bits - SIGN_BIT }
        } else {
            Scalar { bits: self.bits }
        }
    }

    /// The number with its sign turned.
    pub fn neg(&self) -> (r: Scalar)
        ensures
            r == self.negated(),
            r.magnitude() == self.magnitude(),
            r.negative() == !self.negative(),
            r.ordinal() == -self.ordinal(),
            r.nan() == self.nan(),
    {
        if self.bits >= SIGN_BIT {
            Scalar { bits: self.bits - SIGN_BIT }
        } else {
            Scalar { bits: self.bits + SIGN_BIT }
        }
    }

    pub fn le(&self, other: &Scalar) -> (r: bool)
        ensures
            r == self.at_most(*other),
    {
        !self.is_nan() && !other.is_nan() && self.key() <= other.key()
    }

    pub fn is_zero(&self) -> (r: bool)
        ensures
            r == self.null(),
            r == self.same(Scalar { bits: 0 }),
    {
        self.bits == 0 || self.bits == SIGN_BIT
    }

    pub fn is_positive(&self) -> (r: bool)
        ensures
            r == self.positive(),
    {
        !self.is_nan() && self.key() > 0
    }
}

/// Turning the sign twice gives the number back, and turning it once turns
/// the order round.
pub proof fn negation_mirrors(a: Scalar, b: Scalar)
    ensures
        a.negated().negated() == a,
        a.less(b) <==> b.negated().less(a.negated()),
        a.negated().absolute() == a.absolute(),
{
}

/// Among numbers exactly one of `a < b`, `a == b`, `b < a` holds, and `<` is
/// transitive.
pub proof fn order_is_total(a: Scalar, b: Scalar, c: Scalar)
    requires
        !a.nan(),
        !b.nan(),
        !c.nan(),
    ensures
        a.less(b) || a.same(b) || b.less(a),
        !(a.less(b) && b.less(a)),
        !(a.less(b) && a.same(b)),
        a.less(b) && b.less(c) ==> a.less(c),
{
}

} // verus!
