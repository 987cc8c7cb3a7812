//! Small arithmetic and range helpers used by the calendar code.
//!
//! The division helpers compute the floor quotient and the non-negative
//! remainder, which differ from the built-in `/` and `%` on negative
//! operands. The range helper answers membership in an inclusive range.

use std::ops::RangeInclusive;
use vstd::prelude::*;
use vstd::std_specs::range::ContainsSpec;

verus! {

/// Any `q` and `r` with `a == q * b + r` and `0 <= r < |b|` are the
/// Euclidean quotient and remainder of `a` by `b`.
pub proof fn lemma_euclid_unique(a: int, b: int, q: int, r: int)
    by (nonlinear_arith)
    requires
        b != 0,
        a == q * b + r,
        0 <= r,
        r < b || r < -b,
    ensures
        q == a / b,
        r == a % b,
{
}

/// The Euclidean quotient and remainder recompose the dividend, the
/// remainder lies in `0..|b|`, and the quotient is no larger in magnitude
/// than the dividend (at most half of it unless the divisor is `1` or `-1`).
pub proof fn lemma_euclid_exists(a: int, b: int)
    by (nonlinear_arith)
    requires
        b != 0,
    ensures
        a == (a / b) * b + a % b,
        0 <= a % b,
        a % b < b || a % b < -b,
        a >= 0 ==> -a <= a / b <= a,
        a <= 0 ==> a <= a / b <= -a,
        a >= 0 && (b >= 2 || b <= -2) ==> -a <= 2 * (a / b) <= a,
        b == 1 ==> a / b == a && a % b == 0,
        b == -1 ==> a / b == -a && a % b == 0,
{
}

/// For a negative dividend `a`, relates the Euclidean quotient and remainder
/// of `a` to those of `-a`, which is how truncating division is expressed.
proof fn lemma_euclid_of_negated(a: int, b: int)
    requires
        a < 0,
        b != 0,
    ensures
        (-a) % b == 0 ==> a / b == -((-a) / b) && a % b == 0,
        (-a) % b != 0 && b > 0 ==> a / b == -((-a) / b) - 1 && a % b == b - (-a) % b,
        (-a) % b != 0 && b < 0 ==> a / b == -((-a) / b) + 1 && a % b == -b - (-a) % b,
        0 <= (-a) % b,
        (-a) % b < b || (-a) % b < -b,
        a <= -((-a) / b) <= -a,
        b >= 2 || b <= -2 ==> a <= 2 * -((-a) / b) <= -a,
        b == 1 ==> (-a) / b == -a && (-a) % b == 0,
        b == -1 ==> (-a) / b == a && (-a) % b == 0,
{
    lemma_euclid_exists(-a, b);
    let qn = (-a) / b;
    let rn = (-a) % b;
    if rn == 0 {
        assert(a == (-qn) * b + 0) by (nonlinear_arith)
            requires
                -a == qn * b + rn,
                rn == 0,
        ;
        lemma_euclid_unique(a, b, -qn, 0);
    } else if b > 0 {
        assert(a == (-qn - 1) * b + (b - rn)) by (nonlinear_arith)
            requires
                -a == qn * b + rn,
        ;
        lemma_euclid_unique(a, b, -qn - 1, b - rn);
    } else {
        assert(a == (-qn + 1) * b + (-b - rn)) by (nonlinear_arith)
            requires
                -a == qn * b + rn,
        ;
        lemma_euclid_unique(a, b, -qn + 1, -b - rn);
    }
}

/// Euclidean division and remainder for integer types whose built-in
/// operators truncate toward zero.
pub trait DivEuclidPolyfillExt: Sized {
    /// The operand pairs on which the quotient and remainder exist in `Self`.
    spec fn euclid_defined(self, rhs: Self) -> bool;

    /// The floor quotient for a positive divisor (ceiling for a negative one).
    spec fn div_euclid_spec(self, rhs: Self) -> Self;

    /// The remainder, which is never negative.
    spec fn rem_euclid_spec(self, rhs: Self) -> Self;

    /// The quotient of Euclidean division: the one that leaves a remainder
    /// that is not negative.
    fn div_euclid_polyfill(self, rhs: Self) -> (q: Self)
        requires
            self.euclid_defined(rhs),
        ensures
            q == self.div_euclid_spec(rhs),
    ;

    /// The remainder of Euclidean division.
    fn rem_euclid_polyfill(self, rhs: Self) -> (r: Self)
        requires
            self.euclid_defined(rhs),
        ensures
            r == self.rem_euclid_spec(rhs),
    ;
}

impl DivEuclidPolyfillExt for i32 {
    /// The divisor is not zero, and the quotient is not the one number past
    /// the greatest `i32`.
    open spec fn euclid_defined(self, rhs: i32) -> bool {
        rhs != 0 && !(self == i32::MIN && rhs == -1)
    }

    open spec fn div_euclid_spec(self, rhs: i32) -> i32 {
        (self as int / rhs as int) as i32
    }

    open spec fn rem_euclid_spec(self, rhs: i32) -> i32 {
        (self as int % rhs as int) as i32
    }

    fn div_euclid_polyfill(self, rhs: i32) -> (q: i32)
        ensures
            q as int == self as int / rhs as int,
    {
        proof {
            if self >= 0 {
                lemma_euclid_exists(self as int, rhs as int);
            } else {
                lemma_euclid_of_negated(self as int, rhs as int);
            }
        }
        let q: i32 = self / rhs;
        if self % rhs < 0 {
            return if rhs > 0 {
                q - 1
            } else {
                q + 1
            };
        }
        q
    }

    fn rem_euclid_polyfill(self, rhs: i32) -> (r: i32)
        ensures
            r as int == self as int % rhs as int,
            0 <= r,
            r < rhs || r < -rhs,
    {
        proof {
            lemma_euclid_exists(self as int, rhs as int);
            if self < 0 {
                lemma_euclid_of_negated(self as int, rhs as int);
            }
        }
        let r: i32 = self % rhs;
        if r < 0 {
            if rhs < 0 {
                r - rhs
            } else {
                r + rhs
            }
        } else {
            r
        }
    }
}

/// `RangeInclusive::start` hands back the lower bound the range was built
/// with, as long as the range has not been iterated to exhaustion.
pub assume_specification<Idx>[ RangeInclusive::<Idx>::start ](r: &RangeInclusive<Idx>) -> (s: &Idx)
    ensures
        !r@.exhausted ==> *s == r@.start,
;

/// `RangeInclusive::end` hands back the upper bound the range was built
/// with, as long as the range has not been iterated to exhaustion.
pub assume_specification<Idx>[ RangeInclusive::<Idx>::end ](r: &RangeInclusive<Idx>) -> (e: &Idx)
    ensures
        !r@.exhausted ==> *e == r@.end,
;

/// Membership test for inclusive ranges.
pub trait ContainsPolyfillExt<Idx> {
    /// Whether `item` lies in the range.
    fn contains_polyfill<U>(&self, item: &U) -> bool where
        Idx: PartialOrd<U>,
        U: PartialOrd<Idx> + ?Sized,
    ;
}

impl<Idx> ContainsPolyfillExt<Idx> for RangeInclusive<Idx> {
    /// Whether `item` lies between the two bounds, both included. The answer
    /// is the one `RangeInclusive::contains` is specified to give, for every
    /// item type whose comparisons follow their specification.
    fn contains_polyfill<U>(&self, item: &U) -> (b: bool) where
        Idx: PartialOrd<U>,
        U: PartialOrd<Idx> + ?Sized,

        ensures
            !self@.exhausted && <RangeInclusive<Idx> as ContainsSpec<Idx, U>>::obeys_contains()
                ==> b == self.contains_spec(item),
    {
        self.start() <= item && item <= self.end()
    }
}

} // verus!
