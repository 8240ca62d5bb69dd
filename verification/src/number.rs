//! Real numbers. The library compares and carries them; what computes with them is
//! handed in.

use vstd::prelude::*;

verus! {

/// A number in the IEEE 754 binary64 format, held by its bit pattern: the top
/// bit is the sign, the other 63 are the magnitude, and magnitudes are ordered
/// as the integers that they spell.
#[derive(Debug, Clone, Copy, PartialEq, Eq, Structural)]
pub struct Real {
    pub bits: u64,
}

/// The bit pattern of the sign alone.
pub const SIGN: u64 = 0x8000_0000_0000_0000;

/// The magnitude of the infinities. Larger magnitudes are no numbers.
pub const INFINITE: u64 = 0x7ff0_0000_0000_0000;

/// The bit pattern of 0.5.
pub const HALF: u64 = 0x3fe0_0000_0000_0000;

/// The bit pattern of 1000.
pub const THOUSAND: u64 = 0x408f_4000_0000_0000;

/// The bit pattern of 0.001.
pub const THOUSANDTH: u64 = 0x3f50_624d_d2f1_a9fc;

/// The positive zero.
pub open spec fn zero() -> Real {
    Real { bits: 0 }
}

/// The number one.
pub open spec fn unity() -> Real {
    Real { bits: 0x3ff0_0000_0000_0000 }
}

/// The positive infinity.
pub open spec fn above_all() -> Real {
    Real { bits: INFINITE }
}

/// The negative infinity.
pub open spec fn below_all() -> Real {
    Real { bits: (INFINITE + SIGN) as u64 }
}

impl Real {
    pub open spec fn negative(self) -> bool {
        self.bits >= SIGN
    }

    pub open spec fn magnitude(self) -> int {
        if self.negative() {
            self.bits - SIGN
        } else {
            self.bits as int
        }
    }

    /// Whether the pattern stands for no number.
    pub open spec fn nan(self) -> bool {
        self.magnitude() > INFINITE
    }

    pub open spec fn finite(self) -> bool {
        self.magnitude() < INFINITE
    }

    /// The place of a number among the numbers: a larger number has a larger
    /// place, and the two zeros share one.
    pub open spec fn place(self) -> int {
        if self.negative() {
            -self.magnitude()
        } else {
            self.magnitude()
        }
    }

    /// The comparison `self < other`: false where either is no number.
    pub open spec fn less(self, other: Real) -> bool {
        !self.nan() && !other.nan() && self.place() < other.place()
    }

    /// The comparison `self <= other`: false where either is no number.
    pub open spec fn at_most(self, other: Real) -> bool {
        !self.nan() && !other.nan() && self.place() <= other.place()
    }

    /// Whether two patterns stand for the same number, or both for none: the two zeros are
    /// alike.
    pub open spec fn alike(self, other: Real) -> bool {
        if self.nan() {
            other.nan()
        } else {
            !other.nan() && self.place() == other.place()
        }
    }

    /// The rank of a pattern in the IEEE 754 total order, in which the negative
    /// zero stands before the positive one and every pattern has a place.
    pub open spec fn rank(self) -> int {
        if self.negative() {
            -self.magnitude() - 1
        } else {
            self.magnitude()
        }
    }

    /// The pattern with the other sign.
    pub open spec fn opposite(self) -> Real {
        if self.negative() {
            Real { bits: (self.bits - SIGN) as u64 }
        } else {
            Real { bits: (self.bits + SIGN) as u64 }
        }
    }

    /// The pattern without a sign.
    pub open spec fn absolute(self) -> Real {
        if self.negative() {
            self.opposite()
        } else {
            self
        }
    }

    /// The number, but no less than `floor`; `floor` where it is no number.
    pub open spec fn raised(self, floor: Real) -> Real {
        if self.nan() || self.less(floor) {
            floor
        } else {
            self
        }
    }

    /// The number, but no more than `cap`; `cap` where it is no number.
    pub open spec fn capped(self, cap: Real) -> Real {
        if self.nan() || cap.less(self) {
            cap
        } else {
            self
        }
    }

    /// The number, held between `lo` and `hi`. What is no number stays so.
    pub open spec fn clamped(self, lo: Real, hi: Real) -> Real {
        if self.less(lo) {
            lo
        } else if hi.less(self) {
            hi
        } else {
            self
        }
    }

    fn size(self) -> (out: u64)
        ensures
            out == self.magnitude(),
    {
        if self.bits >= SIGN {
            self.bits - SIGN
        } else {
            self.bits
        }
    }

    pub fn is_nan(self) -> (yes: bool)
        ensures
            yes == self.nan(),
    {
        self.size() > INFINITE
    }

    pub fn is_finite(self) -> (yes: bool)
        ensures
            yes == self.finite(),
    {
        self.size() < INFINITE
    }

    fn place_of(self) -> (out: i64)
        ensures
            out == self.place(),
    {
        let size: i64 = self.size() as i64;
        if self.bits >= SIGN {
            -size
        } else {
            size
        }
    }

    /// Whether `self < other`.
    pub fn is_less(self, other: Real) -> (yes: bool)
        ensures
            yes == self.less(other),
    {
        !self.is_nan() && !other.is_nan() && self.place_of() < other.place_of()
    }

    /// Whether `self <= other`.
    pub fn is_at_most(self, other: Real) -> (yes: bool)
        ensures
            yes == self.at_most(other),
    {
        !self.is_nan() && !other.is_nan() && self.place_of() <= other.place_of()
    }

    /// The rank in the IEEE 754 total order.
    pub fn rank_of(self) -> (out: i64)
        ensures
            out == self.rank(),
    {
        let size: i64 = self.size() as i64;
        if self.bits >= SIGN {
            -size - 1
        } else {
            size
        }
    }

    /// The number without its sign.
    pub fn without_sign(self) -> (out: Real)
        ensures
            out == self.absolute(),
    {
        Real { bits: self.size() }
    }

    /// The larger of the number and `floor`.
    pub fn at_least(self, floor: Real) -> (out: Real)
        ensures
            out == self.raised(floor),
    {
        if self.is_nan() || self.is_less(floor) {
            floor
        } else {
            self
        }
    }

    /// The smaller of the number and `cap`.
    pub fn no_more_than(self, cap: Real) -> (out: Real)
        ensures
            out == self.capped(cap),
    {
        if self.is_nan() || cap.is_less(self) {
            cap
        } else {
            self
        }
    }

    /// The number, held between `lo` and `hi`.
    pub fn clamp(self, lo: Real, hi: Real) -> (out: Real)
        ensures
            out == self.clamped(lo, hi),
    {
        if self.is_less(lo) {
            lo
        } else if hi.is_less(self) {
            hi
        } else {
            self
        }
    }

    /// The number with the other sign.
    pub fn negated(self) -> (out: Real)
        ensures
            out == self.opposite(),
    {
        if self.bits >= SIGN {
            Real { bits: self.bits - SIGN }
        } else {
            Real { bits: self.bits + SIGN }
        }
    }
}

/// The comparison of numbers is a strict order: nothing is less than itself, and
/// what is less than something less is less.
pub proof fn less_is_a_strict_order(a: Real, b: Real, c: Real)
    ensures
        !a.less(a),
        a.less(b) && b.less(c) ==> a.less(c),
        a.less(b) ==> !b.less(a),
        !a.nan() && !b.nan() ==> a.less(b) || b.less(a) || a.place() == b.place(),
{
}

/// The total order refines the comparison of numbers, and tells any two
/// different patterns apart.
pub proof fn rank_refines_less(a: Real, b: Real)
    ensures
        a.less(b) ==> a.rank() < b.rank(),
        a.rank() == b.rank() ==> a == b,
{
}

/// Changing the sign turns the comparison of numbers around.
pub proof fn opposite_turns_less_around(a: Real, b: Real)
    ensures
        a.less(b) == b.opposite().less(a.opposite()),
        a.opposite().opposite() == a,
{
}

/// Numbers without a sign are ordered as their patterns, those with one the other way round
/// and below the others, and the two zeros are one number. What is no number is neither less
/// than anything nor more.
pub proof fn patterns_order_numbers(a: Real, b: Real)
    ensures
        a.bits < 0x8000_0000_0000_0000 && b.bits < 0x8000_0000_0000_0000 && b.bits
            <= 0x7ff0_0000_0000_0000 && a.bits <= 0x7ff0_0000_0000_0000 ==> (a.less(b)
            <==> a.bits < b.bits),
        a.bits >= 0x8000_0000_0000_0000 && b.bits >= 0x8000_0000_0000_0000 && b.bits
            <= 0xfff0_0000_0000_0000 && a.bits <= 0xfff0_0000_0000_0000 ==> (a.less(b)
            <==> b.bits < a.bits),
        !a.nan() && !b.nan() && a.bits >= 0x8000_0000_0000_0000 && b.bits < 0x8000_0000_0000_0000
            ==> (a.less(b) <==> !(a.bits == 0x8000_0000_0000_0000 && b.bits == 0)),
        !a.nan() && !b.nan() && a.bits < 0x8000_0000_0000_0000 && b.bits >= 0x8000_0000_0000_0000
            ==> !a.less(b),
        a.nan() || b.nan() ==> !a.less(b) && !a.at_most(b),
        !a.nan() && !b.nan() ==> (a.at_most(b) <==> !b.less(a)),
        a.nan() <==> (0x7ff0_0000_0000_0000 < a.bits < 0x8000_0000_0000_0000 || a.bits
            > 0xfff0_0000_0000_0000),
        a.finite() <==> a.bits < 0x7ff0_0000_0000_0000 || 0x8000_0000_0000_0000 <= a.bits
            < 0xfff0_0000_0000_0000,
{
}

/// A number that is held within bounds lies within them, and is the number itself where that
/// lies there: it is raised to the lower bound or cut to the upper one, and no further.
pub proof fn bounds_hold_numbers(v: Real, lo: Real, hi: Real)
    requires
        lo.at_most(hi),
    ensures
        !v.nan() ==> lo.at_most(v.clamped(lo, hi)) && v.clamped(lo, hi).at_most(hi),
        lo.at_most(v) && v.at_most(hi) ==> v.clamped(lo, hi) == v && v.raised(lo) == v && v.capped(
            hi,
        ) == v,
        v.less(lo) ==> v.clamped(lo, hi) == lo && v.raised(lo) == lo && v.capped(hi) == v,
        hi.less(v) ==> v.clamped(lo, hi) == hi && v.capped(hi) == hi && v.raised(lo) == v,
        v.nan() ==> v.clamped(lo, hi) == v && v.raised(lo) == lo && v.capped(hi) == hi,
{
}

/// Turning the sign turns the place round zero, and leaving it out makes the place that of the
/// distance from zero.
pub proof fn signs_turn_round_zero(v: Real)
    ensures
        v.opposite().place() == -v.place(),
        v.absolute().place() == (if v.place() < 0 {
            -v.place()
        } else {
            v.place()
        }),
        v.opposite().nan() == v.nan(),
        v.absolute().nan() == v.nan(),
        v.absolute() == v || v.absolute() == v.opposite(),
        v.opposite().absolute() == v.absolute(),
{
}

/// The numbers that have names: zero lies between the infinities, which are no finite numbers
/// and which nothing lies beyond, and one above zero.
pub proof fn named_numbers_are_in_order(v: Real)
    ensures
        zero().bits == 0,
        unity().bits == 0x3ff0_0000_0000_0000,
        zero().place() == 0,
        below_all().less(zero()) && zero().less(unity()) && unity().less(above_all()),
        !above_all().finite() && !above_all().nan(),
        below_all() == above_all().opposite(),
        !v.nan() ==> below_all().at_most(v) && v.at_most(above_all()),
{
}

} // verus!
