//! The sign/shape classifier: every interval falls in exactly one of
//! seven classes, and every ordered pair of intervals in one of the 49
//! pair classes that key the piecewise arithmetic tables.

use vstd::prelude::*;
use crate::bound::{bound_is_neg, bound_is_pos, bound_is_zero, lemma_sign, Bound};
use crate::interval::Interval;

verus! {

/// The seven sign/shape classes of an interval: empty; the single point
/// zero; mixed (`lo < 0 < hi`); negative touching zero; strictly
/// negative; positive touching zero; strictly positive.
#[derive(Clone, Copy, Debug, PartialEq, Eq, Structural)]
pub enum IntervalClass {
    E,
    Z,
    M,
    N0,
    N1,
    P0,
    P1,
}

/// The ordered pair of two interval classes, written out so that every
/// binary table is one exhaustive match with no default arm.
#[allow(non_camel_case_types)]
#[derive(Clone, Copy, Debug, PartialEq, Eq, Structural)]
pub enum IntervalClass2 {
    E_E,
    E_Z,
    E_M,
    E_N0,
    E_N1,
    E_P0,
    E_P1,
    Z_E,
    Z_Z,
    Z_M,
    Z_N0,
    Z_N1,
    Z_P0,
    Z_P1,
    M_E,
    M_Z,
    M_M,
    M_N0,
    M_N1,
    M_P0,
    M_P1,
    N0_E,
    N0_Z,
    N0_M,
    N0_N0,
    N0_N1,
    N0_P0,
    N0_P1,
    N1_E,
    N1_Z,
    N1_M,
    N1_N0,
    N1_N1,
    N1_P0,
    N1_P1,
    P0_E,
    P0_Z,
    P0_M,
    P0_N0,
    P0_N1,
    P0_P0,
    P0_P1,
    P1_E,
    P1_Z,
    P1_M,
    P1_N0,
    P1_N1,
    P1_P0,
    P1_P1,
}

/// The class of an interval, decided by sign tests in a fixed order:
/// empty; both endpoints zero; straddling zero; negative touching zero;
/// strictly negative; zero to positive; strictly positive.
pub open spec fn spec_classify(x: Interval) -> IntervalClass {
    match x {
        Interval::Empty => IntervalClass::E,
        Interval::Bounded { lo, hi } => if bound_is_zero(lo) && bound_is_zero(hi) {
            IntervalClass::Z
        } else if bound_is_neg(lo) && bound_is_pos(hi) {
            IntervalClass::M
        } else if bound_is_neg(lo) && bound_is_zero(hi) {
            IntervalClass::N0
        } else if bound_is_neg(hi) {
            IntervalClass::N1
        } else if bound_is_zero(lo) && bound_is_pos(hi) {
            IntervalClass::P0
        } else {
            IntervalClass::P1
        },
    }
}

/// The pair class of two intervals: simply the pair of their classes.
pub open spec fn spec_classify2(x: Interval, y: Interval) -> IntervalClass2 {
    pair_of(spec_classify(x), spec_classify(y))
}

/// Writes a pair of classes as the flat pair-class alphabet.
pub open spec fn pair_of(cx: IntervalClass, cy: IntervalClass) -> IntervalClass2 {
    match (cx, cy) {
        (IntervalClass::E, IntervalClass::E) => IntervalClass2::E_E,
        (IntervalClass::E, IntervalClass::Z) => IntervalClass2::E_Z,
        (IntervalClass::E, IntervalClass::M) => IntervalClass2::E_M,
        (IntervalClass::E, IntervalClass::N0) => IntervalClass2::E_N0,
        (IntervalClass::E, IntervalClass::N1) => IntervalClass2::E_N1,
        (IntervalClass::E, IntervalClass::P0) => IntervalClass2::E_P0,
        (IntervalClass::E, IntervalClass::P1) => IntervalClass2::E_P1,
        (IntervalClass::Z, IntervalClass::E) => IntervalClass2::Z_E,
        (IntervalClass::Z, IntervalClass::Z) => IntervalClass2::Z_Z,
        (IntervalClass::Z, IntervalClass::M) => IntervalClass2::Z_M,
        (IntervalClass::Z, IntervalClass::N0) => IntervalClass2::Z_N0,
        (IntervalClass::Z, IntervalClass::N1) => IntervalClass2::Z_N1,
        (IntervalClass::Z, IntervalClass::P0) => IntervalClass2::Z_P0,
        (IntervalClass::Z, IntervalClass::P1) => IntervalClass2::Z_P1,
        (IntervalClass::M, IntervalClass::E) => IntervalClass2::M_E,
        (IntervalClass::M, IntervalClass::Z) => IntervalClass2::M_Z,
        (IntervalClass::M, IntervalClass::M) => IntervalClass2::M_M,
        (IntervalClass::M, IntervalClass::N0) => IntervalClass2::M_N0,
        (IntervalClass::M, IntervalClass::N1) => IntervalClass2::M_N1,
        (IntervalClass::M, IntervalClass::P0) => IntervalClass2::M_P0,
        (IntervalClass::M, IntervalClass::P1) => IntervalClass2::M_P1,
        (IntervalClass::N0, IntervalClass::E) => IntervalClass2::N0_E,
        (IntervalClass::N0, IntervalClass::Z) => IntervalClass2::N0_Z,
        (IntervalClass::N0, IntervalClass::M) => IntervalClass2::N0_M,
        (IntervalClass::N0, IntervalClass::N0) => IntervalClass2::N0_N0,
        (IntervalClass::N0, IntervalClass::N1) => IntervalClass2::N0_N1,
        (IntervalClass::N0, IntervalClass::P0) => IntervalClass2::N0_P0,
        (IntervalClass::N0, IntervalClass::P1) => IntervalClass2::N0_P1,
        (IntervalClass::N1, IntervalClass::E) => IntervalClass2::N1_E,
        (IntervalClass::N1, IntervalClass::Z) => IntervalClass2::N1_Z,
        (IntervalClass::N1, IntervalClass::M) => IntervalClass2::N1_M,
        (IntervalClass::N1, IntervalClass::N0) => IntervalClass2::N1_N0,
        (IntervalClass::N1, IntervalClass::N1) => IntervalClass2::N1_N1,
        (IntervalClass::N1, IntervalClass::P0) => IntervalClass2::N1_P0,
        (IntervalClass::N1, IntervalClass::P1) => IntervalClass2::N1_P1,
        (IntervalClass::P0, IntervalClass::E) => IntervalClass2::P0_E,
        (IntervalClass::P0, IntervalClass::Z) => IntervalClass2::P0_Z,
        (IntervalClass::P0, IntervalClass::M) => IntervalClass2::P0_M,
        (IntervalClass::P0, IntervalClass::N0) => IntervalClass2::P0_N0,
        (IntervalClass::P0, IntervalClass::N1) => IntervalClass2::P0_N1,
        (IntervalClass::P0, IntervalClass::P0) => IntervalClass2::P0_P0,
        (IntervalClass::P0, IntervalClass::P1) => IntervalClass2::P0_P1,
        (IntervalClass::P1, IntervalClass::E) => IntervalClass2::P1_E,
        (IntervalClass::P1, IntervalClass::Z) => IntervalClass2::P1_Z,
        (IntervalClass::P1, IntervalClass::M) => IntervalClass2::P1_M,
        (IntervalClass::P1, IntervalClass::N0) => IntervalClass2::P1_N0,
        (IntervalClass::P1, IntervalClass::N1) => IntervalClass2::P1_N1,
        (IntervalClass::P1, IntervalClass::P0) => IntervalClass2::P1_P0,
        (IntervalClass::P1, IntervalClass::P1) => IntervalClass2::P1_P1,
    }
}

/// What each class tells about the endpoints of a valid interval: the
/// seven classes decide the signs of both endpoints, and they partition
/// all valid intervals.
pub proof fn lemma_class_facts(x: Interval)
    requires
        x.wf(),
    ensures
        spec_classify(x) == IntervalClass::E <==> x is Empty,
        spec_classify(x) == IntervalClass::Z ==> bound_is_zero(x.spec_lo()) && bound_is_zero(
            x.spec_hi(),
        ),
        spec_classify(x) == IntervalClass::M ==> bound_is_neg(x.spec_lo()) && bound_is_pos(
            x.spec_hi(),
        ),
        spec_classify(x) == IntervalClass::N0 ==> bound_is_neg(x.spec_lo()) && bound_is_zero(
            x.spec_hi(),
        ),
        spec_classify(x) == IntervalClass::N1 ==> bound_is_neg(x.spec_lo()) && bound_is_neg(
            x.spec_hi(),
        ),
        spec_classify(x) == IntervalClass::P0 ==> bound_is_zero(x.spec_lo()) && bound_is_pos(
            x.spec_hi(),
        ),
        spec_classify(x) == IntervalClass::P1 ==> bound_is_pos(x.spec_lo()) && bound_is_pos(
            x.spec_hi(),
        ),
{
    match x {
        Interval::Empty => {},
        Interval::Bounded { lo, hi } => {
            match (lo, hi) {
                (Bound::Rat { num: p, den: q }, Bound::Rat { num: r, den: s }) => {
                    lemma_sign(p as int, s as int);
                    lemma_sign(r as int, q as int);
                },
                _ => {},
            }
        },
    }
}

/// Tests the sign of an endpoint against zero.
fn sign_of(b: Bound) -> (r: (bool, bool, bool))
    ensures
        r.0 == bound_is_neg(b),
        r.1 == bound_is_zero(b),
        r.2 == bound_is_pos(b),
{
    match b {
        Bound::NegInf => (true, false, false),
        Bound::PosInf => (false, false, true),
        Bound::Rat { num, .. } => (num < 0, num == 0, num > 0),
    }
}

impl Interval {
    /// The sign/shape class of `self`.
    pub fn classify(self) -> (r: IntervalClass)
        ensures
            r == spec_classify(self),
    {
        match self {
            Interval::Empty => IntervalClass::E,
            Interval::Bounded { lo, hi } => {
                let (lo_neg, lo_zero, _) = sign_of(lo);
                let (hi_neg, hi_zero, hi_pos) = sign_of(hi);
                if lo_zero && hi_zero {
                    IntervalClass::Z
                } else if lo_neg && hi_pos {
                    IntervalClass::M
                } else if lo_neg && hi_zero {
                    IntervalClass::N0
                } else if hi_neg {
                    IntervalClass::N1
                } else if lo_zero && hi_pos {
                    IntervalClass::P0
                } else {
                    IntervalClass::P1
                }
            },
        }
    }

    /// The pair class of `(self, rhs)`: the dispatch key of every binary
    /// piecewise operation.
    pub fn classify2(self, rhs: Interval) -> (r: IntervalClass2)
        ensures
            r == spec_classify2(self, rhs),
    {
        let cx = self.classify();
        let cy = rhs.classify();
        match (cx, cy) {
            (IntervalClass::E, IntervalClass::E) => IntervalClass2::E_E,
            (IntervalClass::E, IntervalClass::Z) => IntervalClass2::E_Z,
            (IntervalClass::E, IntervalClass::M) => IntervalClass2::E_M,
            (IntervalClass::E, IntervalClass::N0) => IntervalClass2::E_N0,
            (IntervalClass::E, IntervalClass::N1) => IntervalClass2::E_N1,
            (IntervalClass::E, IntervalClass::P0) => IntervalClass2::E_P0,
            (IntervalClass::E, IntervalClass::P1) => IntervalClass2::E_P1,
            (IntervalClass::Z, IntervalClass::E) => IntervalClass2::Z_E,
            (IntervalClass::Z, IntervalClass::Z) => IntervalClass2::Z_Z,
            (IntervalClass::Z, IntervalClass::M) => IntervalClass2::Z_M,
            (IntervalClass::Z, IntervalClass::N0) => IntervalClass2::Z_N0,
            (IntervalClass::Z, IntervalClass::N1) => IntervalClass2::Z_N1,
            (IntervalClass::Z, IntervalClass::P0) => IntervalClass2::Z_P0,
            (IntervalClass::Z, IntervalClass::P1) => IntervalClass2::Z_P1,
            (IntervalClass::M, IntervalClass::E) => IntervalClass2::M_E,
            (IntervalClass::M, IntervalClass::Z) => IntervalClass2::M_Z,
            (IntervalClass::M, IntervalClass::M) => IntervalClass2::M_M,
            (IntervalClass::M, IntervalClass::N0) => IntervalClass2::M_N0,
            (IntervalClass::M, IntervalClass::N1) => IntervalClass2::M_N1,
            (IntervalClass::M, IntervalClass::P0) => IntervalClass2::M_P0,
            (IntervalClass::M, IntervalClass::P1) => IntervalClass2::M_P1,
            (IntervalClass::N0, IntervalClass::E) => IntervalClass2::N0_E,
            (IntervalClass::N0, IntervalClass::Z) => IntervalClass2::N0_Z,
            (IntervalClass::N0, IntervalClass::M) => IntervalClass2::N0_M,
            (IntervalClass::N0, IntervalClass::N0) => IntervalClass2::N0_N0,
            (IntervalClass::N0, IntervalClass::N1) => IntervalClass2::N0_N1,
            (IntervalClass::N0, IntervalClass::P0) => IntervalClass2::N0_P0,
            (IntervalClass::N0, IntervalClass::P1) => IntervalClass2::N0_P1,
            (IntervalClass::N1, IntervalClass::E) => IntervalClass2::N1_E,
            (IntervalClass::N1, IntervalClass::Z) => IntervalClass2::N1_Z,
            (IntervalClass::N1, IntervalClass::M) => IntervalClass2::N1_M,
            (IntervalClass::N1, IntervalClass::N0) => IntervalClass2::N1_N0,
            (IntervalClass::N1, IntervalClass::N1) => IntervalClass2::N1_N1,
            (IntervalClass::N1, IntervalClass::P0) => IntervalClass2::N1_P0,
            (IntervalClass::N1, IntervalClass::P1) => IntervalClass2::N1_P1,
            (IntervalClass::P0, IntervalClass::E) => IntervalClass2::P0_E,
            (IntervalClass::P0, IntervalClass::Z) => IntervalClass2::P0_Z,
            (IntervalClass::P0, IntervalClass::M) => IntervalClass2::P0_M,
            (IntervalClass::P0, IntervalClass::N0) => IntervalClass2::P0_N0,
            (IntervalClass::P0, IntervalClass::N1) => IntervalClass2::P0_N1,
            (IntervalClass::P0, IntervalClass::P0) => IntervalClass2::P0_P0,
            (IntervalClass::P0, IntervalClass::P1) => IntervalClass2::P0_P1,
            (IntervalClass::P1, IntervalClass::E) => IntervalClass2::P1_E,
            (IntervalClass::P1, IntervalClass::Z) => IntervalClass2::P1_Z,
            (IntervalClass::P1, IntervalClass::M) => IntervalClass2::P1_M,
            (IntervalClass::P1, IntervalClass::N0) => IntervalClass2::P1_N0,
            (IntervalClass::P1, IntervalClass::N1) => IntervalClass2::P1_N1,
            (IntervalClass::P1, IntervalClass::P0) => IntervalClass2::P1_P0,
            (IntervalClass::P1, IntervalClass::P1) => IntervalClass2::P1_P1,
        }
    }
}

} // verus!
