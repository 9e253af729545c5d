//! Convex hull and intersection.

use vstd::prelude::*;
use crate::bound::{
    bound_le, le, lemma_bound_le_trans, lemma_max_bound_ge, lemma_min_bound_le, max_bound,
    min_bound, spec_max_bound, spec_min_bound, Bound,
};
use crate::interval::Interval;

verus! {

/// The tightest interval containing both operands; an empty operand
/// returns the other operand unchanged.
pub open spec fn spec_convex_hull(x: Interval, y: Interval) -> Interval {
    match (x, y) {
        (Interval::Empty, _) => y,
        (_, Interval::Empty) => x,
        (Interval::Bounded { lo: a, hi: b }, Interval::Bounded { lo: c, hi: d }) => {
            Interval::Bounded { lo: spec_min_bound(a, c), hi: spec_max_bound(b, d) }
        },
    }
}

/// The set intersection: per-endpoint max and min, and the empty set
/// when the resulting endpoints cross.
pub open spec fn spec_intersection(x: Interval, y: Interval) -> Interval {
    match (x, y) {
        (Interval::Bounded { lo: a, hi: b }, Interval::Bounded { lo: c, hi: d }) => {
            if bound_le(spec_max_bound(a, c), spec_min_bound(b, d)) {
                Interval::Bounded { lo: spec_max_bound(a, c), hi: spec_min_bound(b, d) }
            } else {
                Interval::Empty
            }
        },
        _ => Interval::Empty,
    }
}

impl Interval {
    /// Returns the tightest interval that contains both `self` and
    /// `rhs`.
    pub fn convex_hull(self, rhs: Interval) -> (r: Interval)
        requires
            self.wf(),
            rhs.wf(),
        ensures
            r == spec_convex_hull(self, rhs),
            r.wf(),
            r is Empty <==> (self is Empty && rhs is Empty),
    {
        match (self, rhs) {
            (Interval::Empty, _) => rhs,
            (_, Interval::Empty) => self,
            (Interval::Bounded { lo: a, hi: b }, Interval::Bounded { lo: c, hi: d }) => {
                proof {
                    lemma_min_bound_le(a, c);
                    lemma_max_bound_ge(b, d);
                    lemma_bound_le_trans(spec_min_bound(a, c), a, b);
                    lemma_bound_le_trans(spec_min_bound(a, c), b, spec_max_bound(b, d));
                }
                Interval::Bounded { lo: min_bound(a, c), hi: max_bound(b, d) }
            },
        }
    }

    /// Returns the intersection of `self` and `rhs`; when the operands
    /// share no point the result is the empty set, never an inverted
    /// pair.
    pub fn intersection(self, rhs: Interval) -> (r: Interval)
        requires
            self.wf(),
            rhs.wf(),
        ensures
            r == spec_intersection(self, rhs),
            r.wf(),
    {
        match (self, rhs) {
            (Interval::Bounded { lo: a, hi: b }, Interval::Bounded { lo: c, hi: d }) => {
                let lo = max_bound(a, c);
                let hi = min_bound(b, d);
                if le(lo, hi) {
                    Interval::Bounded { lo, hi }
                } else {
                    Interval::Empty
                }
            },
            _ => Interval::Empty,
        }
    }
}

} // verus!
