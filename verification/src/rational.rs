//! Exact fractions over 128-bit integers.
//!
//! The engine never needs approximate division: every rate it reports
//! (cost-exposure, current-exposure, profit/loss rate) is kept as an exact
//! numerator/denominator pair produced by one documented derivation, so
//! contracts can pin the fields down to the last digit.

use vstd::prelude::*;

verus! {

/// Magnitude bound on numerators and denominators of well-formed fractions.
/// Chosen so that the cross products used when comparing two well-formed
/// fractions stay inside `i128`.
pub const RAT_BOUND: i128 = 10_000_000_000_000_000_000;

/// An exact fraction `num / den` with `den > 0`.
///
/// Two fractions are equal (`==`) when they are the same pair; fractions with
/// the same value but different pairs (e.g. 1/2 and 2/4) compare equal under
/// `same_value` and under the ordering, but not under `==`.  The engine
/// documents, for every rate it emits, exactly which pair it produces.
#[derive(Clone, Copy, Debug, PartialEq, Eq, Structural)]
pub struct Rational {
    pub num: i128,
    pub den: i128,
}

/// Mathematical image of a `Rational`: the same pair over unbounded integers.
pub struct RationalV {
    pub num: int,
    pub den: int,
}

impl RationalV {
    /// Well-formed: positive denominator, both parts within `RAT_BOUND`.
    pub open spec fn wf(self) -> bool {
        &&& 0 < self.den <= RAT_BOUND
        &&& -RAT_BOUND <= self.num <= RAT_BOUND
    }

    /// `self <= other` as real numbers (valid whenever both denominators are
    /// positive).
    pub open spec fn le_spec(self, other: RationalV) -> bool {
        self.num * other.den <= other.num * self.den
    }

    /// `self >= other` as real numbers.
    pub open spec fn ge_spec(self, other: RationalV) -> bool {
        other.le_spec(self)
    }

    /// The fraction 0/1.
    pub open spec fn zero() -> RationalV {
        RationalV { num: 0, den: 1 }
    }
}

impl DeepView for Rational {
    type V = RationalV;

    open spec fn deep_view(&self) -> RationalV {
        RationalV { num: self.num as int, den: self.den as int }
    }
}

impl Rational {
    /// Well-formed: positive denominator, both parts within `RAT_BOUND`.
    pub open spec fn wf(self) -> bool {
        &&& 0 < self.den <= RAT_BOUND
        &&& -RAT_BOUND <= self.num <= RAT_BOUND
    }

    /// `self <= other` as real numbers (valid whenever both are well-formed).
    pub open spec fn le_spec(self, other: Rational) -> bool {
        self.num * other.den <= other.num * self.den
    }

    /// `self >= other` as real numbers.
    pub open spec fn ge_spec(self, other: Rational) -> bool {
        other.le_spec(self)
    }

    /// `self` and `other` denote the same real number.
    pub open spec fn same_value_spec(self, other: Rational) -> bool {
        self.num * other.den == other.num * self.den
    }

    pub fn new(num: i128, den: i128) -> (r: Rational)
        requires
            0 < den <= RAT_BOUND,
            -RAT_BOUND <= num <= RAT_BOUND,
        ensures
            r == (Rational { num, den }),
            r.wf(),
    {
        Rational { num, den }
    }

    /// The fraction 0/1.
    pub fn zero() -> (r: Rational)
        ensures
            r == (Rational { num: 0, den: 1 }),
            r.wf(),
    {
        Rational { num: 0, den: 1 }
    }

    pub fn le(&self, other: &Rational) -> (r: bool)
        requires
            self.wf(),
            other.wf(),
        ensures
            r == self.le_spec(*other),
    {
        proof {
            lemma_cross_products_bounded(*self, *other);
        }
        self.num * other.den <= other.num * self.den
    }

    pub fn ge(&self, other: &Rational) -> (r: bool)
        requires
            self.wf(),
            other.wf(),
        ensures
            r == self.ge_spec(*other),
    {
        other.le(self)
    }

    pub fn same_value(&self, other: &Rational) -> (r: bool)
        requires
            self.wf(),
            other.wf(),
        ensures
            r == self.same_value_spec(*other),
    {
        proof {
            lemma_cross_products_bounded(*self, *other);
        }
        self.num * other.den == other.num * self.den
    }
}

/// The cross products of two well-formed fractions fit in `i128`.
proof fn lemma_cross_products_bounded(a: Rational, b: Rational)
    requires
        a.wf(),
        b.wf(),
    ensures
        -RAT_BOUND * RAT_BOUND <= a.num * b.den <= RAT_BOUND * RAT_BOUND,
        -RAT_BOUND * RAT_BOUND <= b.num * a.den <= RAT_BOUND * RAT_BOUND,
        RAT_BOUND * RAT_BOUND < i128::MAX,
{
    assert(-RAT_BOUND * RAT_BOUND <= a.num * b.den <= RAT_BOUND * RAT_BOUND) by (nonlinear_arith)
        requires
            -RAT_BOUND <= a.num <= RAT_BOUND,
            0 < b.den <= RAT_BOUND,
    ;
    assert(-RAT_BOUND * RAT_BOUND <= b.num * a.den <= RAT_BOUND * RAT_BOUND) by (nonlinear_arith)
        requires
            -RAT_BOUND <= b.num <= RAT_BOUND,
            0 < a.den <= RAT_BOUND,
    ;
}

} // verus!
