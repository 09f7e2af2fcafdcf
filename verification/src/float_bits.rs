//! Single-precision values carried by their bit pattern.
//!
//! The library compares, clamps and forwards such values but never computes with
//! them: arithmetic is the caller's.

use vstd::prelude::*;

verus! {

/// The bit pattern of an IEEE 754 single-precision value.
#[derive(Debug, Clone, Copy, PartialEq, Eq, Hash, Structural)]
pub struct FloatBits {
    pub bits: u32,
}

/// The bit of the sign.
pub const SIGN: u32 = 0x8000_0000;

/// The pattern of positive infinity; a magnitude above it is not a number.
pub const INFINITE: u32 = 0x7f80_0000;

impl FloatBits {
    /// The pattern without its sign.
    pub open spec fn magnitude(self) -> int {
        if self.bits >= SIGN {
            self.bits - SIGN
        } else {
            self.bits as int
        }
    }

    /// Not a number.
    pub open spec fn nan(self) -> bool {
        self.magnitude() > INFINITE
    }

    /// Neither infinite nor not a number.
    pub open spec fn finite(self) -> bool {
        self.magnitude() < INFINITE
    }

    /// An integer that orders the numbers: IEEE order is the order of ranks, and
    /// the two zeros share one.
    pub open spec fn rank(self) -> int {
        if self.bits >= SIGN {
            -self.magnitude()
        } else {
            self.magnitude()
        }
    }

    /// IEEE `<`: false where either side is not a number.
    pub open spec fn less(self, other: FloatBits) -> bool {
        !self.nan() && !other.nan() && self.rank() < other.rank()
    }

    /// IEEE `<=`: false where either side is not a number.
    pub open spec fn at_most(self, other: FloatBits) -> bool {
        !self.nan() && !other.nan() && self.rank() <= other.rank()
    }

    pub fn new(bits: u32) -> (r: FloatBits)
        ensures
            r.bits == bits,
    {
        FloatBits { bits }
    }

    pub fn is_nan(self) -> (r: bool)
        ensures
            r == self.nan(),
    {
        if self.bits >= SIGN {
            self.bits - SIGN > INFINITE
        } else {
            self.bits > INFINITE
        }
    }

    pub fn is_finite(self) -> (r: bool)
        ensures
            r == self.finite(),
    {
        if self.bits >= SIGN {
            self.bits - SIGN < INFINITE
        } else {
            self.bits < INFINITE
        }
    }

    fn order(self) -> (r: i64)
        ensures
            r == self.rank(),
    {
        if self.bits >= SIGN {
            -((self.bits - SIGN) as i64)
        } else {
            self.bits as i64
        }
    }

    /// IEEE `self < other`.
    pub fn lt(self, other: FloatBits) -> (r: bool)
        ensures
            r == self.less(other),
    {
        !self.is_nan() && !other.is_nan() && self.order() < other.order()
    }

    /// IEEE `self <= other`.
    pub fn le(self, other: FloatBits) -> (r: bool)
        ensures
            r == self.at_most(other),
    {
        !self.is_nan() && !other.is_nan() && self.order() <= other.order()
    }

    /// The lesser value; a value that is not a number gives way to the other one.
    /// Of two zeros the first is kept.
    pub open spec fn lesser(self, other: FloatBits) -> FloatBits {
        if self.nan() || other.less(self) {
            other
        } else {
            self
        }
    }

    /// The greater value; a value that is not a number gives way to the other
    /// one. Of two zeros the first is kept.
    pub open spec fn greater(self, other: FloatBits) -> FloatBits {
        if self.nan() || self.less(other) {
            other
        } else {
            self
        }
    }

    pub fn min(self, other: FloatBits) -> (r: FloatBits)
        ensures
            r == self.lesser(other),
    {
        if self.is_nan() || other.lt(self) {
            other
        } else {
            self
        }
    }

    pub fn max(self, other: FloatBits) -> (r: FloatBits)
        ensures
            r == self.greater(other),
    {
        if self.is_nan() || self.lt(other) {
            other
        } else {
            self
        }
    }

    /// A value held within bounds; one that is not a number stays.
    pub open spec fn clamped(self, lo: FloatBits, hi: FloatBits) -> FloatBits {
        if self.less(lo) {
            lo
        } else if hi.less(self) {
            hi
        } else {
            self
        }
    }

    pub fn clamp(self, lo: FloatBits, hi: FloatBits) -> (r: FloatBits)
        ensures
            r == self.clamped(lo, hi),
    {
        if self.lt(lo) {
            lo
        } else if hi.lt(self) {
            hi
        } else {
            self
        }
    }
}

/// Positive zero.
pub open spec fn zero() -> FloatBits {
    FloatBits { bits: 0 }
}

/// One.
pub open spec fn one() -> FloatBits {
    FloatBits { bits: 0x3f80_0000 }
}

/// The canonical value that is not a number.
pub open spec fn not_a_number() -> FloatBits {
    FloatBits { bits: 0x7fc0_0000 }
}

/// Positive infinity.
pub open spec fn infinity() -> FloatBits {
    FloatBits { bits: INFINITE }
}

/// Negative infinity.
pub open spec fn neg_infinity() -> FloatBits {
    FloatBits { bits: 0xff80_0000 }
}

/// Three components.
pub type Vec3 = [FloatBits; 3];

/// Four components.
pub type Vec4 = [FloatBits; 4];

/// A column-major 4x4 matrix, `m[column][row]`.
pub type Mat4 = [[FloatBits; 4]; 4];

/// Comparison is trichotomous on numbers.
pub proof fn law_order_is_total(a: FloatBits, b: FloatBits)
    ensures
        !a.nan() && !b.nan() ==> a.less(b) || b.less(a) || a.rank() == b.rank(),
        a.at_most(b) <==> a.less(b) || (!a.nan() && !b.nan() && a.rank() == b.rank()),
        a.nan() || b.nan() ==> !a.less(b) && !a.at_most(b),
{
}

/// A number held within bounds lies within them, and holding it again changes nothing.
pub proof fn law_clamp_lies_within(x: FloatBits, lo: FloatBits, hi: FloatBits)
    requires
        !x.nan(),
        lo.at_most(hi),
    ensures
        lo.at_most(x.clamped(lo, hi)),
        x.clamped(lo, hi).at_most(hi),
        x.clamped(lo, hi).clamped(lo, hi) == x.clamped(lo, hi),
{
}

/// The lesser and the greater of two values bound both of them.
pub proof fn law_min_max_bound(a: FloatBits, b: FloatBits)
    requires
        !a.nan(),
        !b.nan(),
    ensures
        a.lesser(b).at_most(a),
        a.lesser(b).at_most(b),
        a.at_most(a.greater(b)),
        b.at_most(a.greater(b)),
{
}

/// Which patterns are numbers, and which of those are finite.
pub proof fn law_numbers_by_their_pattern(x: FloatBits)
    ensures
        x.nan() <==> 0x7f80_0000 < x.bits < 0x8000_0000 || x.bits > 0xff80_0000,
        x.finite() <==> x.bits < 0x7f80_0000 || 0x8000_0000 <= x.bits < 0xff80_0000,
{
}

/// The patterns of numbers without a sign are ordered as they are, those with one the other
/// way round, and every one with a sign is below every one without, but for the two zeros,
/// which are equal.
pub proof fn law_order_by_the_pattern(a: FloatBits, b: FloatBits)
    requires
        !a.nan(),
        !b.nan(),
    ensures
        a.bits < 0x8000_0000 && b.bits < 0x8000_0000 ==> (a.less(b) <==> a.bits < b.bits),
        a.bits >= 0x8000_0000 && b.bits >= 0x8000_0000 ==> (a.less(b) <==> a.bits > b.bits),
        a.bits >= 0x8000_0000 && b.bits < 0x8000_0000 ==> (a.less(b) <==> !(a.bits == 0x8000_0000
            && b.bits == 0)),
        a.bits >= 0x8000_0000 && b.bits < 0x8000_0000 ==> !b.less(a),
{
}

/// The lesser and the greater of two values are two of them: the one that is no number gives
/// way, and of two numbers that differ one is the lesser and the other the greater.
pub proof fn law_min_max_pick(a: FloatBits, b: FloatBits)
    ensures
        a.nan() ==> a.lesser(b) == b && a.greater(b) == b,
        !a.nan() && b.nan() ==> a.lesser(b) == a && a.greater(b) == a,
        a.less(b) ==> a.lesser(b) == a && a.greater(b) == b,
        b.less(a) ==> a.lesser(b) == b && a.greater(b) == a,
{
}

/// A value within the bounds stays as it is, and one outside becomes the bound it passed.
pub proof fn law_clamp_moves_only_what_is_outside(x: FloatBits, lo: FloatBits, hi: FloatBits)
    ensures
        x.nan() ==> x.clamped(lo, hi) == x,
        lo.at_most(x) && x.at_most(hi) ==> x.clamped(lo, hi) == x,
        x.less(lo) ==> x.clamped(lo, hi) == lo,
        lo.at_most(x) && hi.less(x) ==> x.clamped(lo, hi) == hi,
{
}

} // verus!
