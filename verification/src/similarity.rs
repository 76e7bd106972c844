//! Similarity scores: exact fractions between zero and one.
//!
//! A score is kept as a numerator and a denominator rather than rounded, so
//! that two scores always compare as the numbers they stand for.

use vstd::prelude::*;

verus! {

/// A fraction `numer / denom` of mathematical integers.
pub struct Ratio {
    pub numer: int,
    pub denom: int,
}

impl Ratio {
    /// The fraction is a number from zero to one, both included.
    pub open spec fn in_unit_interval(self) -> bool {
        0 <= self.numer <= self.denom && 0 < self.denom
    }

    /// `self < other` as numbers, for positive denominators.
    pub open spec fn lt(self, other: Ratio) -> bool {
        self.numer * other.denom < other.numer * self.denom
    }

    /// `self <= other` as numbers, for positive denominators.
    pub open spec fn le(self, other: Ratio) -> bool {
        self.numer * other.denom <= other.numer * self.denom
    }

    /// The two fractions stand for the same number.
    pub open spec fn same_number(self, other: Ratio) -> bool {
        self.numer * other.denom == other.numer * self.denom
    }

    /// The fraction stands for one.
    pub open spec fn is_one(self) -> bool {
        self.numer == self.denom && self.denom != 0
    }

    /// The fraction stands for zero.
    pub open spec fn is_zero(self) -> bool {
        self.numer == 0 && self.denom != 0
    }

    /// `0 / 1`.
    pub open spec fn zero() -> Ratio {
        Ratio { numer: 0, denom: 1 }
    }

    /// `1 / 1`.
    pub open spec fn one() -> Ratio {
        Ratio { numer: 1, denom: 1 }
    }

    /// `1 / 2`.
    pub open spec fn half() -> Ratio {
        Ratio { numer: 1, denom: 2 }
    }

    /// A number from zero to one is not less than zero and not more than
    /// one.
    pub proof fn zero_and_one_are_the_bounds(self)
        requires
            self.in_unit_interval(),
        ensures
            Ratio::zero().le(self),
            !self.lt(Ratio::zero()),
            self.le(Ratio::one()),
            !Ratio::one().lt(self),
    {
        let (n, d) = (self.numer, self.denom);
        assert(0 * d <= n * 1 && n * 1 <= 1 * d) by (nonlinear_arith)
            requires
                0 <= n <= d,
        ;
    }

    /// Of two fractions, one is less than the other or they stand for the
    /// same number, and only one of the three.
    pub proof fn order_is_total(self, other: Ratio)
        ensures
            self.lt(other) || other.le(self),
            !(self.lt(other) && other.le(self)),
            self.le(other) <==> self.lt(other) || self.same_number(other),
            self.same_number(other) <==> self.le(other) && other.le(self),
    {
    }

    /// What is at most a second fraction, which is less than a third, is
    /// less than the third.
    pub proof fn le_then_lt(self, middle: Ratio, other: Ratio)
        requires
            0 < self.denom,
            0 < middle.denom,
            0 < other.denom,
            self.le(middle),
            middle.lt(other),
        ensures
            self.lt(other),
    {
        let (a, b) = (self.numer, self.denom);
        let (c, d) = (middle.numer, middle.denom);
        let (e, f) = (other.numer, other.denom);
        assert((a * d) * f <= (c * b) * f) by (nonlinear_arith)
            requires
                a * d <= c * b,
                0 < f,
        ;
        assert((c * f) * b < (e * d) * b) by (nonlinear_arith)
            requires
                c * f < e * d,
                0 < b,
        ;
        assert((a * d) * f == (a * f) * d && (c * b) * f == (c * f) * b && (e * d) * b == (e * b)
            * d) by (nonlinear_arith);
        assert(a * f < e * b) by (nonlinear_arith)
            requires
                (a * f) * d < (e * b) * d,
                0 < d,
        ;
    }
}

/// A similarity score: a fraction from zero (nothing in common) to one
/// (identical), held exactly.
#[derive(Clone, Copy, Debug)]
pub struct Similarity {
    numer: usize,
    denom: usize,
}

impl View for Similarity {
    type V = Ratio;

    closed spec fn view(&self) -> Ratio {
        Ratio { numer: self.numer as int, denom: self.denom as int }
    }
}

impl Similarity {
    #[verifier::type_invariant]
    closed spec fn well_formed(self) -> bool {
        0 < self.denom && self.numer <= self.denom
    }

    /// The score `numer / denom`, if that is a number from zero to one.
    pub fn new(numer: usize, denom: usize) -> (score: Option<Similarity>)
        ensures
            score is Some <==> numer <= denom && 0 < denom,
            score matches Some(s) ==> s@ == (Ratio { numer: numer as int, denom: denom as int }),
    {
        if 0 < denom && numer <= denom {
            Some(Similarity { numer, denom })
        } else {
            None
        }
    }

    /// The score of two texts with nothing in common.
    pub fn zero() -> (score: Similarity)
        ensures
            score@ == Ratio::zero(),
    {
        Similarity { numer: 0, denom: 1 }
    }

    /// The score of two identical texts.
    pub fn one() -> (score: Similarity)
        ensures
            score@ == Ratio::one(),
    {
        Similarity { numer: 1, denom: 1 }
    }

    /// One half.
    pub fn half() -> (score: Similarity)
        ensures
            score@ == Ratio::half(),
    {
        Similarity { numer: 1, denom: 2 }
    }

    /// The numerator of the fraction.
    pub fn numerator(&self) -> (numer: usize)
        ensures
            numer == self@.numer,
            self@.in_unit_interval(),
    {
        proof {
            use_type_invariant(self);
        }
        self.numer
    }

    /// The denominator of the fraction, never zero.
    pub fn denominator(&self) -> (denom: usize)
        ensures
            denom == self@.denom,
            self@.in_unit_interval(),
    {
        proof {
            use_type_invariant(self);
        }
        self.denom
    }

    /// Whether this score is less than `other`, as numbers.
    pub fn is_less_than(&self, other: &Similarity) -> (less: bool)
        ensures
            less == self@.lt(other@),
    {
        let left = wide_product(self.numer, other.denom);
        let right = wide_product(other.numer, self.denom);
        left < right
    }

    /// Whether this score and `other` stand for the same number.
    pub fn is_same_as(&self, other: &Similarity) -> (same: bool)
        ensures
            same == self@.same_number(other@),
    {
        let left = wide_product(self.numer, other.denom);
        let right = wide_product(other.numer, self.denom);
        left == right
    }
}

/// The product of two machine words, in a type wide enough to hold it.
fn wide_product(x: usize, y: usize) -> (product: u128)
    ensures
        product == x * y,
{
    assert(x * y <= 0xffff_ffff_ffff_ffff * 0xffff_ffff_ffff_ffff) by (nonlinear_arith)
        requires
            0 <= x <= 0xffff_ffff_ffff_ffff,
            0 <= y <= 0xffff_ffff_ffff_ffff,
    ;
    (x as u128) * (y as u128)
}

} // verus!
