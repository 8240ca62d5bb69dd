//! Arithmetic that is handed in.

use crate::number;
use crate::number::Real;
use vstd::prelude::*;

verus! {

/// A number that is to be computed from others.
#[derive(Debug, Clone, Copy, PartialEq, Eq, Structural)]
pub enum Term {
    Plus(Real, Real),
    Minus(Real, Real),
    Times(Real, Real),
    Over(Real, Real),
    /// The first number to the power of the second.
    Power(Real, Real),
    /// The fourth power of a number.
    Fourth(Real),
    /// The square root of a number.
    Root(Real),
    /// The largest whole number that is not above a number.
    Floor(Real),
    /// The product of the first two numbers and the third, added up without rounding
    /// between.
    Fused(Real, Real, Real),
    /// Euler's number to the power of a number.
    Exponential(Real),
    Cosine(Real),
    /// The logarithm of a number, to the base of two.
    Logarithm(Real),
    /// A whole number.
    Whole(i128),
}

/// Where a percentile stands in a sorted list: between two places, and how far
/// from the first to the second.
#[derive(Debug, Clone, Copy, PartialEq, Eq, Structural)]
pub struct Place {
    pub lo: usize,
    pub hi: usize,
    pub frac: Real,
}

/// What numbers are computed with: `calc` computes a term, and `place` finds the
/// place of a percentile in a list of a given length. No law of arithmetic is
/// asked of it, so what is computed, and in which order, is part of what is
/// promised.
pub struct Numerics<C, L> {
    pub calc: C,
    pub place: L,
}

/// What is computed.
pub ghost struct Meaning {
    pub value: spec_fn(Term) -> Real,
    pub place: spec_fn(u32, usize) -> Place,
}

impl Meaning {
    pub open spec fn plus(self, a: Real, b: Real) -> Real {
        (self.value)(Term::Plus(a, b))
    }

    /// Whether numbers are added as IEEE 754 has it, as far as zeros go: zero added to a
    /// number leaves it, and numbers that are alike stay so where the same is added. Only
    /// laws that say so rest on it.
    pub open spec fn adds_as_numbers(self) -> bool {
        &&& forall|a: Real| (#[trigger] self.plus(a, number::zero())).alike(a)
        &&& forall|a: Real, b: Real, c: Real|
            a.alike(b) ==> (#[trigger] self.plus(a, c)).alike(#[trigger] self.plus(b, c))
    }

    /// Whether what is computed of numbers is a number, where IEEE 754 has it so.
    pub open spec fn gives_numbers(self) -> bool {
        &&& forall|a: Real, c: Real|
            !a.nan() && !c.nan() && (a.finite() || c.finite()) ==> !(#[trigger] self.plus(
                a,
                c,
            )).nan()
        &&& forall|a: Real, c: Real|
            !a.nan() && !c.nan() && (a.finite() || c.finite()) ==> !(#[trigger] self.minus(
                a,
                c,
            )).nan()
        &&& forall|a: Real, c: Real|
            !a.nan() && c.finite() && c.place() != 0 ==> !(#[trigger] self.over(a, c)).nan()
        &&& forall|a: Real, c: Real|
            !a.nan() && c.finite() && c.place() != 0 ==> !(#[trigger] self.times(a, c)).nan()
        &&& forall|a: Real, p: Real|
            a.place() >= 0 && !a.nan() && p.place() > 0 && p.finite() ==> {
                let v = #[trigger] self.power(a, p);
                !v.nan() && v.place() >= 0
            }
        &&& forall|a: Real|
            !a.nan() ==> {
                let v = #[trigger] self.fourth(a);
                !v.nan() && v.place() >= 0
            }
    }

    /// Whether sums, differences, products and quotients keep the order of numbers, as
    /// rounding to the nearest does, and so do powers.
    pub open spec fn keeps_order(self) -> bool {
        &&& forall|a: Real, b: Real, c: Real|
            #![trigger self.plus(a, c), self.plus(b, c)]
            a.at_most(b) && !self.plus(a, c).nan() && !self.plus(b, c).nan() ==> self.plus(
                a,
                c,
            ).at_most(self.plus(b, c))
        &&& forall|a: Real, b: Real, c: Real|
            #![trigger self.plus(c, a), self.plus(c, b)]
            a.at_most(b) && !self.plus(c, a).nan() && !self.plus(c, b).nan() ==> self.plus(
                c,
                a,
            ).at_most(self.plus(c, b))
        &&& forall|a: Real, b: Real, c: Real|
            #![trigger self.minus(a, c), self.minus(b, c)]
            a.at_most(b) && !self.minus(a, c).nan() && !self.minus(b, c).nan() ==> self.minus(
                a,
                c,
            ).at_most(self.minus(b, c))
        &&& forall|a: Real, b: Real, c: Real|
            #![trigger self.minus(c, a), self.minus(c, b)]
            a.at_most(b) && !self.minus(c, a).nan() && !self.minus(c, b).nan() ==> self.minus(
                c,
                b,
            ).at_most(self.minus(c, a))
        &&& forall|a: Real, b: Real, c: Real|
            #![trigger self.times(a, c), self.times(b, c)]
            a.at_most(b) && c.place() >= 0 && !self.times(a, c).nan() && !self.times(b, c).nan()
                ==> self.times(a, c).at_most(self.times(b, c))
        &&& forall|a: Real, b: Real, c: Real|
            #![trigger self.times(c, a), self.times(c, b)]
            a.at_most(b) && c.place() >= 0 && !self.times(c, a).nan() && !self.times(c, b).nan()
                ==> self.times(c, a).at_most(self.times(c, b))
        &&& forall|a: Real, b: Real, c: Real|
            #![trigger self.over(a, c), self.over(b, c)]
            a.at_most(b) && c.place() > 0 && !self.over(a, c).nan() && !self.over(b, c).nan()
                ==> self.over(a, c).at_most(self.over(b, c))
        &&& forall|a: Real, b: Real, p: Real|
            #![trigger self.power(a, p), self.power(b, p)]
            a.place() >= 0 && a.at_most(b) && p.place() > 0 && p.finite() ==> self.power(
                a,
                p,
            ).at_most(self.power(b, p))
        &&& forall|a: Real, b: Real|
            #![trigger self.fourth(a), self.fourth(b)]
            a.place() >= 0 && a.at_most(b) ==> self.fourth(a).at_most(self.fourth(b))
        &&& forall|a: Real, b: Real|
            #![trigger self.root(a), self.root(b)]
            a.place() >= 0 && a.at_most(b) ==> self.root(a).at_most(self.root(b))
    }

    /// Whether zeros and ones are reckoned with as such: a number less itself is zero, zero
    /// changes no sum and makes every product zero, and over itself a number is one.
    pub open spec fn knows_zero_and_one(self) -> bool {
        &&& forall|a: Real| a.finite() ==> (#[trigger] self.minus(a, a)).place() == 0
        &&& forall|a: Real, z: Real|
            !a.nan() && a.place() != 0 && z.place() == 0 ==> #[trigger] self.minus(a, z) == a
        &&& forall|a: Real, z: Real|
            !a.nan() && a.place() != 0 && z.place() == 0 ==> #[trigger] self.plus(a, z) == a
        &&& forall|a: Real, z: Real|
            !a.nan() && a.place() != 0 && z.place() == 0 ==> #[trigger] self.plus(z, a) == a
        &&& forall|a: Real, c: Real|
            a.place() == 0 && c.finite() && c.place() != 0 ==> (#[trigger] self.over(
                a,
                c,
            )).place() == 0
        &&& forall|a: Real, c: Real|
            c.place() == 0 && a.finite() ==> (#[trigger] self.times(a, c)).place() == 0
        &&& forall|a: Real, c: Real|
            a.place() == 0 && c.finite() ==> (#[trigger] self.times(a, c)).place() == 0
        &&& forall|a: Real|
            a.finite() && a.place() != 0 ==> #[trigger] self.over(a, a) == number::unity()
        &&& forall|a: Real, p: Real|
            a.place() == 0 && p.finite() && p.place() > 0 ==> (#[trigger] self.power(
                a,
                p,
            )).place() == 0
    }

    pub open spec fn minus(self, a: Real, b: Real) -> Real {
        (self.value)(Term::Minus(a, b))
    }

    pub open spec fn times(self, a: Real, b: Real) -> Real {
        (self.value)(Term::Times(a, b))
    }

    pub open spec fn over(self, a: Real, b: Real) -> Real {
        (self.value)(Term::Over(a, b))
    }

    pub open spec fn power(self, a: Real, b: Real) -> Real {
        (self.value)(Term::Power(a, b))
    }

    pub open spec fn fourth(self, a: Real) -> Real {
        (self.value)(Term::Fourth(a))
    }

    pub open spec fn root(self, a: Real) -> Real {
        (self.value)(Term::Root(a))
    }

    pub open spec fn floor(self, a: Real) -> Real {
        (self.value)(Term::Floor(a))
    }

    pub open spec fn fused(self, a: Real, b: Real, c: Real) -> Real {
        (self.value)(Term::Fused(a, b, c))
    }

    pub open spec fn exponential(self, a: Real) -> Real {
        (self.value)(Term::Exponential(a))
    }

    pub open spec fn cosine(self, a: Real) -> Real {
        (self.value)(Term::Cosine(a))
    }

    pub open spec fn logarithm(self, a: Real) -> Real {
        (self.value)(Term::Logarithm(a))
    }

    pub open spec fn whole(self, n: int) -> Real {
        (self.value)(Term::Whole(n as i128))
    }
}

impl<C: Fn(Term) -> Real, L: Fn(u32, usize) -> Place> Numerics<C, L> {
    /// Whether every term can be computed, and the place of every percentile lies
    /// in the list.
    pub open spec fn ready(self) -> bool {
        &&& forall|t: Term| #[trigger] call_requires(self.calc, (t,))
        &&& forall|p: u32, n: usize|
            p <= 100 && n >= 2 ==> #[trigger] call_requires(self.place, (p, n))
        &&& forall|p: u32, n: usize, at: Place|
            p <= 100 && n >= 2 && #[trigger] call_ensures(self.place, (p, n), at) ==> at.lo < n
                && at.hi < n
    }

    /// Whether `m` says what is computed.
    pub open spec fn follows(self, m: Meaning) -> bool {
        &&& forall|t: Term, v: Real| #[trigger]
            call_ensures(self.calc, (t,), v) ==> v == (m.value)(t)
        &&& forall|p: u32, n: usize, at: Place| #[trigger]
            call_ensures(self.place, (p, n), at) ==> at == (m.place)(p, n)
    }

    pub fn value(&self, t: Term) -> (out: Real)
        requires
            self.ready(),
        ensures
            forall|m: Meaning| #[trigger] self.follows(m) ==> out == (m.value)(t),
    {
        (self.calc)(t)
    }

    pub fn plus(&self, a: Real, b: Real) -> (out: Real)
        requires
            self.ready(),
        ensures
            forall|m: Meaning| #[trigger] self.follows(m) ==> out == m.plus(a, b),
    {
        self.value(Term::Plus(a, b))
    }

    pub fn minus(&self, a: Real, b: Real) -> (out: Real)
        requires
            self.ready(),
        ensures
            forall|m: Meaning| #[trigger] self.follows(m) ==> out == m.minus(a, b),
    {
        self.value(Term::Minus(a, b))
    }

    pub fn times(&self, a: Real, b: Real) -> (out: Real)
        requires
            self.ready(),
        ensures
            forall|m: Meaning| #[trigger] self.follows(m) ==> out == m.times(a, b),
    {
        self.value(Term::Times(a, b))
    }

    pub fn over(&self, a: Real, b: Real) -> (out: Real)
        requires
            self.ready(),
        ensures
            forall|m: Meaning| #[trigger] self.follows(m) ==> out == m.over(a, b),
    {
        self.value(Term::Over(a, b))
    }

    pub fn power(&self, a: Real, b: Real) -> (out: Real)
        requires
            self.ready(),
        ensures
            forall|m: Meaning| #[trigger] self.follows(m) ==> out == m.power(a, b),
    {
        self.value(Term::Power(a, b))
    }

    /// A count as a number.
    pub fn count(&self, n: usize) -> (out: Real)
        requires
            self.ready(),
        ensures
            forall|m: Meaning| #[trigger] self.follows(m) ==> out == m.whole(n as int),
    {
        self.value(Term::Whole(n as i128))
    }
}

} // verus!
