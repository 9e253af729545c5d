//! The order and set predicates on intervals, each with an explicit
//! empty-operand rule, and the round-trip laws that relate them.

use vstd::prelude::*;
use crate::bound::{
    bound_eqv, bound_le, bound_lt, bound_wf, eqv, le, lemma_bound_le_trans, lt, Bound,
};
use crate::interval::{spec_same, Interval};

verus! {

/// Membership of a rational point: false for anything that is not a
/// finite rational with a positive denominator.
pub open spec fn spec_contains_point(x: Interval, v: Bound) -> bool {
    match v {
        Bound::Rat { num, den } => den >= 1 && x.spec_contains(num as int, den as int),
        _ => false,
    }
}

/// The two sets share no point.
pub open spec fn spec_disjoint(x: Interval, y: Interval) -> bool {
    match (x, y) {
        (Interval::Bounded { lo: a, hi: b }, Interval::Bounded { lo: c, hi: d }) => bound_lt(b, c)
            || bound_lt(d, a),
        _ => true,
    }
}

/// `x` lies in the interior of `y`, two matching infinities counting as
/// interior to each other.
pub open spec fn spec_interior(x: Interval, y: Interval) -> bool {
    match (x, y) {
        (Interval::Empty, _) => true,
        (_, Interval::Empty) => false,
        (Interval::Bounded { lo: a, hi: b }, Interval::Bounded { lo: c, hi: d }) => (bound_lt(b, d)
            || (b is PosInf && d is PosInf)) && (bound_lt(c, a) || (c is NegInf && a is NegInf)),
    }
}

/// Weak order: every point of `x` is matched above by one of `y` and
/// every point of `y` is matched below by one of `x`.
pub open spec fn spec_less(x: Interval, y: Interval) -> bool {
    match (x, y) {
        (Interval::Empty, Interval::Empty) => true,
        (Interval::Bounded { lo: a, hi: b }, Interval::Bounded { lo: c, hi: d }) => bound_le(a, c)
            && bound_le(b, d),
        _ => false,
    }
}

/// Strict order, with matching infinities allowed.
pub open spec fn spec_strict_less(x: Interval, y: Interval) -> bool {
    match (x, y) {
        (Interval::Empty, Interval::Empty) => true,
        (Interval::Bounded { lo: a, hi: b }, Interval::Bounded { lo: c, hi: d }) => (bound_lt(a, c)
            || (a is NegInf && c is NegInf)) && (bound_lt(b, d) || (b is PosInf && d is PosInf)),
        _ => false,
    }
}

/// `x` lies entirely to the left of `y`, touching allowed; an empty
/// operand makes it hold.
pub open spec fn spec_precedes(x: Interval, y: Interval) -> bool {
    match (x, y) {
        (Interval::Bounded { lo: a, hi: b }, Interval::Bounded { lo: c, hi: d }) => bound_le(b, c),
        _ => true,
    }
}

/// `x` lies strictly to the left of `y`; an empty operand makes it hold.
pub open spec fn spec_strict_precedes(x: Interval, y: Interval) -> bool {
    match (x, y) {
        (Interval::Bounded { lo: a, hi: b }, Interval::Bounded { lo: c, hi: d }) => bound_lt(b, c),
        _ => true,
    }
}

/// Every point of `x` is a point of `y`.
pub open spec fn spec_subset(x: Interval, y: Interval) -> bool {
    match (x, y) {
        (Interval::Empty, _) => true,
        (_, Interval::Empty) => false,
        (Interval::Bounded { lo: a, hi: b }, Interval::Bounded { lo: c, hi: d }) => bound_le(c, a)
            && bound_le(b, d),
    }
}

impl Interval {
    /// Returns `true` if `self` is empty.
    pub fn is_empty(&self) -> (r: bool)
        ensures
            r == (*self is Empty),
    {
        matches!(*self, Interval::Empty)
    }

    /// Returns `true` if `self` is the whole real line.
    pub fn is_entire(self) -> (r: bool)
        ensures
            r == (self.spec_lo() is NegInf && self.spec_hi() is PosInf),
    {
        match self {
            Interval::Bounded { lo: Bound::NegInf, hi: Bound::PosInf } => true,
            _ => false,
        }
    }

    /// Returns `true` if `self` consists of a single real number; false
    /// for the empty set and for unbounded intervals.
    pub fn is_singleton(self) -> (r: bool)
        ensures
            r == (!(self is Empty) && bound_eqv(self.spec_lo(), self.spec_hi())),
    {
        match self {
            Interval::Empty => false,
            Interval::Bounded { lo, hi } => eqv(lo, hi),
        }
    }

    /// Returns `true` if `self` is nonempty and both endpoints are
    /// finite.
    pub fn is_common_interval(self) -> (r: bool)
        ensures
            r == (!(self is Empty) && self.spec_lo() is Rat && self.spec_hi() is Rat),
    {
        match self {
            Interval::Bounded { lo: Bound::Rat { .. }, hi: Bound::Rat { .. } } => true,
            _ => false,
        }
    }

    /// Returns `true` if the rational point `rhs` is a member of `self`.
    /// Infinities are not members of any interval, and a malformed
    /// rational (denominator below one) is no point at all.
    pub fn contains(self, rhs: Bound) -> (r: bool)
        ensures
            r == spec_contains_point(self, rhs),
    {
        match (self, rhs) {
            (Interval::Bounded { lo, hi }, Bound::Rat { num, den }) => {
                den >= 1 && le(lo, rhs) && le(rhs, hi)
            },
            _ => false,
        }
    }

    /// Returns `true` if `self` and `rhs` share no point.
    pub fn disjoint(self, rhs: Interval) -> (r: bool)
        ensures
            r == spec_disjoint(self, rhs),
    {
        match (self, rhs) {
            (Interval::Bounded { lo: a, hi: b }, Interval::Bounded { lo: c, hi: d }) => {
                lt(b, c) || lt(d, a)
            },
            _ => true,
        }
    }

    /// Returns `true` if `self` is interior to `rhs`, counting two
    /// matching infinite endpoints as interior to each other.
    pub fn interior(self, rhs: Interval) -> (r: bool)
        ensures
            r == spec_interior(self, rhs),
    {
        match (self, rhs) {
            (Interval::Empty, _) => true,
            (_, Interval::Empty) => false,
            (Interval::Bounded { lo: a, hi: b }, Interval::Bounded { lo: c, hi: d }) => {
                let upper = lt(b, d) || (matches!(b, Bound::PosInf) && matches!(d, Bound::PosInf));
                let lower = lt(c, a) || (matches!(c, Bound::NegInf) && matches!(a, Bound::NegInf));
                upper && lower
            },
        }
    }

    /// Returns `true` if `self` is weakly less than `rhs`.
    pub fn less(self, rhs: Interval) -> (r: bool)
        ensures
            r == spec_less(self, rhs),
    {
        match (self, rhs) {
            (Interval::Empty, Interval::Empty) => true,
            (Interval::Bounded { lo: a, hi: b }, Interval::Bounded { lo: c, hi: d }) => {
                le(a, c) && le(b, d)
            },
            _ => false,
        }
    }

    /// Returns `true` if `self` is strictly less than `rhs`, counting
    /// two matching infinite endpoints as strictly related.
    pub fn strict_less(self, rhs: Interval) -> (r: bool)
        ensures
            r == spec_strict_less(self, rhs),
    {
        match (self, rhs) {
            (Interval::Empty, Interval::Empty) => true,
            (Interval::Bounded { lo: a, hi: b }, Interval::Bounded { lo: c, hi: d }) => {
                let lower = lt(a, c) || (matches!(a, Bound::NegInf) && matches!(c, Bound::NegInf));
                let upper = lt(b, d) || (matches!(b, Bound::PosInf) && matches!(d, Bound::PosInf));
                lower && upper
            },
            _ => false,
        }
    }

    /// Returns `true` if `self` is to the left of `rhs`, touching
    /// allowed.
    pub fn precedes(self, rhs: Interval) -> (r: bool)
        ensures
            r == spec_precedes(self, rhs),
    {
        match (self, rhs) {
            (Interval::Bounded { lo: a, hi: b }, Interval::Bounded { lo: c, hi: d }) => le(b, c),
            _ => true,
        }
    }

    /// Returns `true` if `self` is strictly to the left of `rhs`.
    pub fn strict_precedes(self, rhs: Interval) -> (r: bool)
        ensures
            r == spec_strict_precedes(self, rhs),
    {
        match (self, rhs) {
            (Interval::Bounded { lo: a, hi: b }, Interval::Bounded { lo: c, hi: d }) => lt(b, c),
            _ => true,
        }
    }

    /// Returns `true` if `self` is a subset of `rhs`.
    pub fn subset(self, rhs: Interval) -> (r: bool)
        ensures
            r == spec_subset(self, rhs),
    {
        match (self, rhs) {
            (Interval::Empty, _) => true,
            (_, Interval::Empty) => false,
            (Interval::Bounded { lo: a, hi: b }, Interval::Bounded { lo: c, hi: d }) => {
                le(c, a) && le(b, d)
            },
        }
    }
}

/// Mutual inclusion is the same as set equality: `A ⊆ B` and `B ⊆ A`
/// together hold exactly when `A` and `B` are the same set.
pub proof fn lemma_subset_antisymmetric(x: Interval, y: Interval)
    requires
        x.wf(),
        y.wf(),
    ensures
        (spec_subset(x, y) && spec_subset(y, x)) <==> spec_same(x, y),
{
}

/// Mutual precedence collapses the operands: `A` precedes `B` and `B`
/// precedes `A` exactly when one of them is empty or both are the same
/// single point.
pub proof fn lemma_precedes_antisymmetric(x: Interval, y: Interval)
    requires
        x.wf(),
        y.wf(),
    ensures
        (spec_precedes(x, y) && spec_precedes(y, x)) <==> (x is Empty || y is Empty || (
        !(x is Empty) && bound_eqv(x.spec_lo(), x.spec_hi()) && spec_same(x, y))),
{
    match (x, y) {
        (Interval::Bounded { lo: a, hi: b }, Interval::Bounded { lo: c, hi: d }) => {
            if spec_precedes(x, y) && spec_precedes(y, x) {
                // b <= c <= d <= a <= b: all four endpoints coincide
                lemma_bound_le_trans(b, c, d);
                lemma_bound_le_trans(b, d, a);
                lemma_bound_le_trans(c, d, a);
                lemma_bound_le_trans(c, a, b);
                lemma_bound_le_trans(d, a, b);
                lemma_bound_le_trans(a, b, c);
            }
            if !(x is Empty) && bound_eqv(a, b) && spec_same(x, y) {
                lemma_bound_le_trans(b, a, c);
                lemma_bound_le_trans(d, b, a);
            }
        },
        _ => {},
    }
}

} // verus!
