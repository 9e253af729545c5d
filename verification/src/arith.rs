//! The arithmetic engine: negation, addition, subtraction, and the
//! sign-table dispatched multiplication and division, with the compound
//! assignment forms.

use vstd::prelude::*;
use crate::bound::{
    add_bound, bound_is_neg, bound_is_pos, bound_is_zero, bound_le, bound_wf, div_bound,
    max_bound, min_bound, mul_bound, neg_bound, spec_add_bound, spec_div_bound, spec_max_bound,
    spec_min_bound, spec_mul_bound, spec_neg_bound, Bound,
};
use crate::classify::{spec_classify2, IntervalClass2};
use crate::interval::Interval;

verus! {

/// The single point zero, as produced by the arithmetic tables.
pub open spec fn spec_zero() -> Interval {
    Interval::Bounded { lo: Bound::Rat { num: 0, den: 1 }, hi: Bound::Rat { num: 0, den: 1 } }
}

/// The whole real line, as produced by the division table.
pub open spec fn spec_entire() -> Interval {
    Interval::Bounded { lo: Bound::NegInf, hi: Bound::PosInf }
}

/// The negation `[-hi, -lo]`; empty negates to empty.
pub open spec fn spec_neg(x: Interval) -> Interval {
    match x {
        Interval::Empty => Interval::Empty,
        Interval::Bounded { lo, hi } => Interval::Bounded {
            lo: spec_neg_bound(hi),
            hi: spec_neg_bound(lo),
        },
    }
}

/// The sum `[lo + lo, hi + hi]`; an empty operand absorbs.
pub open spec fn spec_add(x: Interval, y: Interval) -> Interval {
    match (x, y) {
        (Interval::Bounded { lo: a, hi: b }, Interval::Bounded { lo: c, hi: d }) => {
            Interval::Bounded {
                lo: spec_add_bound(a, c, true),
                hi: spec_add_bound(b, d, false),
            }
        },
        _ => Interval::Empty,
    }
}

/// The difference `[lo - hi, hi - lo]`, which is the sum with the
/// negated right operand.
pub open spec fn spec_sub(x: Interval, y: Interval) -> Interval {
    spec_add(x, spec_neg(y))
}

/// The empty set absorbs every binary operation, on either side: the
/// sum, difference, product, quotient, minimum, maximum and
/// intersection with the empty set are empty.
pub proof fn lemma_empty_absorbs(y: Interval)
    ensures
        spec_add(Interval::Empty, y) is Empty,
        spec_add(y, Interval::Empty) is Empty,
        spec_sub(Interval::Empty, y) is Empty,
        spec_sub(y, Interval::Empty) is Empty,
        spec_mul(Interval::Empty, y) is Empty,
        spec_mul(y, Interval::Empty) is Empty,
        spec_div(Interval::Empty, y) is Empty,
        spec_div(y, Interval::Empty) is Empty,
        crate::absmax::spec_min(Interval::Empty, y) is Empty,
        crate::absmax::spec_min(y, Interval::Empty) is Empty,
        crate::absmax::spec_max(Interval::Empty, y) is Empty,
        crate::absmax::spec_max(y, Interval::Empty) is Empty,
        crate::set_op::spec_intersection(Interval::Empty, y) is Empty,
        crate::set_op::spec_intersection(y, Interval::Empty) is Empty,
        spec_neg(Interval::Empty) is Empty,
        crate::absmax::spec_abs(Interval::Empty) is Empty,
{
}

/// Negation mirrors the sign class: mixed, zero and empty intervals
/// keep their class, and the negative classes exchange with the
/// positive ones.
pub proof fn lemma_classify_neg(x: Interval)
    requires
        x.wf(),
    ensures
        crate::classify::spec_classify(spec_neg(x)) == (match crate::classify::spec_classify(x) {
            crate::classify::IntervalClass::E => crate::classify::IntervalClass::E,
            crate::classify::IntervalClass::Z => crate::classify::IntervalClass::Z,
            crate::classify::IntervalClass::M => crate::classify::IntervalClass::M,
            crate::classify::IntervalClass::N0 => crate::classify::IntervalClass::P0,
            crate::classify::IntervalClass::N1 => crate::classify::IntervalClass::P1,
            crate::classify::IntervalClass::P0 => crate::classify::IntervalClass::N0,
            crate::classify::IntervalClass::P1 => crate::classify::IntervalClass::N1,
        }),
{
    crate::classify::lemma_class_facts(x);
}

/// Negation keeps an interval valid.
pub proof fn lemma_neg_wf(x: Interval)
    requires
        x.wf(),
    ensures
        spec_neg(x).wf(),
{
    match x {
        Interval::Bounded { lo, hi } => {
            crate::bound::lemma_bound_neg_le(lo, hi);
        },
        _ => {},
    }
}

/// Lower sums stay below upper sums: the endpoint addition applied to
/// ordered, compatible pairs yields an ordered pair.
proof fn lemma_add_bound_mono(a: Bound, b: Bound, c: Bound, d: Bound)
    requires
        bound_wf(a),
        bound_wf(b),
        bound_wf(c),
        bound_wf(d),
        bound_le(a, b),
        bound_le(c, d),
        !(a is PosInf),
        !(c is PosInf),
        !(b is NegInf),
        !(d is NegInf),
    ensures
        bound_le(spec_add_bound(a, c, true), spec_add_bound(b, d, false)),
{
    match (a, c) {
        (Bound::Rat { num: p, den: q }, Bound::Rat { num: r, den: s }) => {
            match (b, d) {
                (Bound::Rat { num: p2, den: q2 }, Bound::Rat { num: r2, den: s2 }) => {
                    assert((p * s + r * q) * (q2 * s2) <= (p2 * s2 + r2 * q2) * (q * s))
                        by (nonlinear_arith)
                        requires
                            q >= 1,
                            s >= 1,
                            q2 >= 1,
                            s2 >= 1,
                            p * q2 <= p2 * q,
                            r * s2 <= r2 * s,
                    ;
                },
                _ => {},
            }
        },
        _ => {},
    }
}

/// The multiplication table over the pair classes, collapsed to its
/// eleven result shapes.  Any empty operand absorbs; any zero operand
/// (beside a nonempty one) gives the point zero; the nine remaining sign
/// pairs each select the endpoint products that bound the true image.
pub open spec fn spec_mul(x: Interval, y: Interval) -> Interval {
    let a = x.spec_lo();
    let b = x.spec_hi();
    let c = y.spec_lo();
    let d = y.spec_hi();
    match spec_classify2(x, y) {
        IntervalClass2::E_E | IntervalClass2::E_Z | IntervalClass2::E_M | IntervalClass2::E_N0
            | IntervalClass2::E_N1 | IntervalClass2::E_P0 | IntervalClass2::E_P1
            | IntervalClass2::Z_E | IntervalClass2::M_E | IntervalClass2::N0_E
            | IntervalClass2::N1_E | IntervalClass2::P0_E | IntervalClass2::P1_E
            => Interval::Empty,
        IntervalClass2::M_Z | IntervalClass2::N0_Z | IntervalClass2::N1_Z | IntervalClass2::P0_Z
            | IntervalClass2::P1_Z | IntervalClass2::Z_Z | IntervalClass2::Z_M
            | IntervalClass2::Z_N0 | IntervalClass2::Z_N1 | IntervalClass2::Z_P0
            | IntervalClass2::Z_P1 => spec_zero(),
        IntervalClass2::M_M => Interval::Bounded {
            lo: spec_min_bound(spec_mul_bound(a, d, true), spec_mul_bound(b, c, true)),
            hi: spec_max_bound(spec_mul_bound(a, c, false), spec_mul_bound(b, d, false)),
        },
        IntervalClass2::M_N0 | IntervalClass2::M_N1 => Interval::Bounded {
            lo: spec_mul_bound(b, c, true),
            hi: spec_mul_bound(a, c, false),
        },
        IntervalClass2::M_P0 | IntervalClass2::M_P1 => Interval::Bounded {
            lo: spec_mul_bound(a, d, true),
            hi: spec_mul_bound(b, d, false),
        },
        IntervalClass2::N0_M | IntervalClass2::N1_M => Interval::Bounded {
            lo: spec_mul_bound(a, d, true),
            hi: spec_mul_bound(a, c, false),
        },
        IntervalClass2::N0_N0 | IntervalClass2::N0_N1 | IntervalClass2::N1_N0
            | IntervalClass2::N1_N1 => Interval::Bounded {
            lo: spec_mul_bound(b, d, true),
            hi: spec_mul_bound(a, c, false),
        },
        IntervalClass2::N0_P0 | IntervalClass2::N0_P1 | IntervalClass2::N1_P0
            | IntervalClass2::N1_P1 => Interval::Bounded {
            lo: spec_mul_bound(a, d, true),
            hi: spec_mul_bound(b, c, false),
        },
        IntervalClass2::P0_M | IntervalClass2::P1_M => Interval::Bounded {
            lo: spec_mul_bound(b, c, true),
            hi: spec_mul_bound(b, d, false),
        },
        IntervalClass2::P0_N0 | IntervalClass2::P0_N1 | IntervalClass2::P1_N0
            | IntervalClass2::P1_N1 => Interval::Bounded {
            lo: spec_mul_bound(b, c, true),
            hi: spec_mul_bound(a, d, false),
        },
        IntervalClass2::P0_P0 | IntervalClass2::P0_P1 | IntervalClass2::P1_P0
            | IntervalClass2::P1_P1 => Interval::Bounded {
            lo: spec_mul_bound(a, c, true),
            hi: spec_mul_bound(b, d, false),
        },
    }
}

/// Monotonicity of the product of nonnegative rationals, in
/// cross-multiplied form: `0 <= x1 <= x2` and `0 <= y1 <= y2` give
/// `x1 * y1 <= x2 * y2`.
pub(crate) proof fn lemma_rat_mul_mono_nonneg(
    p1: int,
    q1: int,
    p2: int,
    q2: int,
    r1: int,
    s1: int,
    r2: int,
    s2: int,
)
    by (nonlinear_arith)
    requires
        q1 >= 1,
        q2 >= 1,
        s1 >= 1,
        s2 >= 1,
        p1 >= 0,
        r1 >= 0,
        p1 * q2 <= p2 * q1,
        r1 * s2 <= r2 * s1,
    ensures
        (p1 * r1) * (q2 * s2) <= (p2 * r2) * (q1 * s1),
{
}

/// The mixed product bound: `x1 <= x2 <= 0 <= y2 <= y1` gives
/// `x1 * y1 <= x2 * y2`.
pub(crate) proof fn lemma_rat_mul_mixed(
    p1: int,
    q1: int,
    p2: int,
    q2: int,
    r1: int,
    s1: int,
    r2: int,
    s2: int,
)
    by (nonlinear_arith)
    requires
        q1 >= 1,
        q2 >= 1,
        s1 >= 1,
        s2 >= 1,
        p1 * q2 <= p2 * q1,
        p2 <= 0,
        0 <= r2,
        r2 * s1 <= r1 * s2,
    ensures
        (p1 * r1) * (q2 * s2) <= (p2 * r2) * (q1 * s1),
{
}

/// Scaling an ordered pair of rationals by a shared factor keeps the
/// order when the factor is nonnegative and reverses it otherwise.
pub(crate) proof fn lemma_rat_scale(p1: int, q1: int, p2: int, q2: int, r: int, s: int)
    by (nonlinear_arith)
    requires
        q1 >= 1,
        q2 >= 1,
        s >= 1,
        p1 * q2 <= p2 * q1,
    ensures
        r >= 0 ==> (p1 * r) * (q2 * s) <= (p2 * r) * (q1 * s),
        r <= 0 ==> (p2 * r) * (q1 * s) <= (p1 * r) * (q2 * s),
{
}

/// Endpoint products of well-formed endpoints are well formed.
pub(crate) proof fn lemma_mb_wf(x: Bound, y: Bound, down: bool)
    requires
        bound_wf(x),
        bound_wf(y),
    ensures
        bound_wf(spec_mul_bound(x, y, down)),
{
}

/// Endpoint multiplication is commutative.
pub(crate) proof fn lemma_mb_comm(x: Bound, y: Bound, down: bool)
    ensures
        spec_mul_bound(x, y, down) == spec_mul_bound(y, x, down),
{
    match (x, y) {
        (Bound::Rat { num: p, den: q }, Bound::Rat { num: r, den: s }) => {
            assert(p as int * (r as int) == r as int * (p as int)
                && q as int * (s as int) == s as int * (q as int)) by (nonlinear_arith);
        },
        _ => {},
    }
}

/// Ordered nonnegative operands give ordered products: the product of
/// the lower endpoints stays below the product of the upper endpoints.
proof fn lemma_mb_le_pp(a: Bound, c: Bound, b: Bound, d: Bound)
    requires
        bound_wf(a),
        bound_wf(b),
        bound_wf(c),
        bound_wf(d),
        a is Rat,
        c is Rat,
        !bound_is_neg(a),
        !bound_is_neg(c),
        bound_is_pos(b),
        bound_is_pos(d),
        bound_le(a, b),
        bound_le(c, d),
    ensures
        bound_le(spec_mul_bound(a, c, true), spec_mul_bound(b, d, false)),
{
    match (a, c) {
        (Bound::Rat { num: p1, den: q1 }, Bound::Rat { num: r1, den: s1 }) => {
            match (b, d) {
                (Bound::Rat { num: p2, den: q2 }, Bound::Rat { num: r2, den: s2 }) => {
                    lemma_rat_mul_mono_nonneg(
                        p1 as int,
                        q1 as int,
                        p2 as int,
                        q2 as int,
                        r1 as int,
                        s1 as int,
                        r2 as int,
                        s2 as int,
                    );
                    crate::bound::lemma_sign(q1 as int, s1 as int);
                    crate::bound::lemma_sign(q2 as int, s2 as int);
                },
                _ => {},
            }
        },
        _ => {},
    }
}

/// Ordered nonpositive operands give products in reverse order: the
/// product of the upper endpoints stays below the product of the lower
/// endpoints.
proof fn lemma_mb_le_nn(b: Bound, d: Bound, a: Bound, c: Bound)
    requires
        bound_wf(a),
        bound_wf(b),
        bound_wf(c),
        bound_wf(d),
        b is Rat,
        d is Rat,
        !bound_is_pos(b),
        !bound_is_pos(d),
        bound_is_neg(a),
        bound_is_neg(c),
        bound_le(a, b),
        bound_le(c, d),
    ensures
        bound_le(spec_mul_bound(b, d, true), spec_mul_bound(a, c, false)),
{
    match (b, d) {
        (Bound::Rat { num: p2, den: q2 }, Bound::Rat { num: r2, den: s2 }) => {
            match (a, c) {
                (Bound::Rat { num: p1, den: q1 }, Bound::Rat { num: r1, den: s1 }) => {
                    assert((-p2 as int) * (-r2 as int) == p2 as int * (r2 as int)
                        && (-p1 as int) * (-r1 as int) == p1 as int * (r1 as int)
                        && (-p2 as int) * (q1 as int) == -(p2 as int * (q1 as int))
                        && (-p1 as int) * (q2 as int) == -(p1 as int * (q2 as int))
                        && (-r2 as int) * (s1 as int) == -(r2 as int * (s1 as int))
                        && (-r1 as int) * (s2 as int) == -(r1 as int * (s2 as int)))
                        by (nonlinear_arith);
                    lemma_rat_mul_mono_nonneg(
                        -(p2 as int),
                        q2 as int,
                        -(p1 as int),
                        q1 as int,
                        -(r2 as int),
                        s2 as int,
                        -(r1 as int),
                        s1 as int,
                    );
                    crate::bound::lemma_sign(q1 as int, s1 as int);
                    crate::bound::lemma_sign(q2 as int, s2 as int);
                },
                _ => {},
            }
        },
        _ => {},
    }
}

/// A nonpositive left operand against a nonnegative right operand: the
/// most negative corner product stays below the least negative one.
proof fn lemma_mb_le_np(a: Bound, d: Bound, b: Bound, c: Bound)
    requires
        bound_wf(a),
        bound_wf(b),
        bound_wf(c),
        bound_wf(d),
        b is Rat,
        c is Rat,
        !bound_is_pos(b),
        !bound_is_neg(c),
        bound_is_neg(a),
        bound_is_pos(d),
        bound_le(a, b),
        bound_le(c, d),
    ensures
        bound_le(spec_mul_bound(a, d, true), spec_mul_bound(b, c, false)),
{
    match (b, c) {
        (Bound::Rat { num: p2, den: q2 }, Bound::Rat { num: r2, den: s2 }) => {
            match (a, d) {
                (Bound::Rat { num: p1, den: q1 }, Bound::Rat { num: r1, den: s1 }) => {
                    lemma_rat_mul_mixed(
                        p1 as int,
                        q1 as int,
                        p2 as int,
                        q2 as int,
                        r1 as int,
                        s1 as int,
                        r2 as int,
                        s2 as int,
                    );
                    crate::bound::lemma_sign(q1 as int, s1 as int);
                    crate::bound::lemma_sign(q2 as int, s2 as int);
                },
                _ => {},
            }
        },
        _ => {},
    }
}

/// An ordered pair scaled by a shared endpoint: the products follow the
/// pair's order under a nonnegative factor and reverse it under a
/// nonpositive one.
proof fn lemma_mb_le_scale(x1: Bound, x2: Bound, y: Bound)
    requires
        bound_wf(x1),
        bound_wf(x2),
        bound_wf(y),
        bound_le(x1, x2),
        bound_is_neg(x1),
        bound_is_pos(x2),
        !bound_is_zero(y),
    ensures
        bound_is_pos(y) ==> bound_le(spec_mul_bound(x1, y, true), spec_mul_bound(x2, y, false)),
        bound_is_neg(y) ==> bound_le(spec_mul_bound(x2, y, true), spec_mul_bound(x1, y, false)),
{
    match (x1, x2) {
        (Bound::Rat { num: p1, den: q1 }, Bound::Rat { num: p2, den: q2 }) => {
            match y {
                Bound::Rat { num: r, den: s } => {
                    lemma_rat_scale(p1 as int, q1 as int, p2 as int, q2 as int, r as int, s as int);
                    crate::bound::lemma_sign(q1 as int, s as int);
                    crate::bound::lemma_sign(q2 as int, s as int);
                },
                _ => {},
            }
        },
        _ => {},
    }
}

/// The multiplication table yields a valid interval, empty exactly when
/// an operand is empty.
pub proof fn lemma_mul_wf(x: Interval, y: Interval)
    requires
        x.wf(),
        y.wf(),
    ensures
        spec_mul(x, y).wf(),
        spec_mul(x, y) is Empty <==> (x is Empty || y is Empty),
{
    crate::classify::lemma_class_facts(x);
    crate::classify::lemma_class_facts(y);
    match (x, y) {
        (Interval::Bounded { lo: a, hi: b }, Interval::Bounded { lo: c, hi: d }) => {
            match spec_classify2(x, y) {
                IntervalClass2::M_M => {
                    lemma_mb_le_scale(c, d, a);
                    lemma_mb_comm(d, a, true);
                    lemma_mb_comm(c, a, false);
                    assert(bound_le(spec_mul_bound(a, d, true), spec_mul_bound(a, c, false)));
                    crate::bound::lemma_min_bound_le(
                        spec_mul_bound(a, d, true),
                        spec_mul_bound(b, c, true),
                    );
                    crate::bound::lemma_max_bound_ge(
                        spec_mul_bound(a, c, false),
                        spec_mul_bound(b, d, false),
                    );
                    lemma_mb_wf(a, d, true);
                    lemma_mb_wf(b, c, true);
                    lemma_mb_wf(a, c, false);
                    lemma_mb_wf(b, d, false);
                    crate::bound::lemma_bound_le_trans(
                        spec_min_bound(spec_mul_bound(a, d, true), spec_mul_bound(b, c, true)),
                        spec_mul_bound(a, d, true),
                        spec_mul_bound(a, c, false),
                    );
                    crate::bound::lemma_bound_le_trans(
                        spec_min_bound(spec_mul_bound(a, d, true), spec_mul_bound(b, c, true)),
                        spec_mul_bound(a, c, false),
                        spec_max_bound(spec_mul_bound(a, c, false), spec_mul_bound(b, d, false)),
                    );
                },
                IntervalClass2::M_N0 | IntervalClass2::M_N1 => {
                    lemma_mb_le_scale(a, b, c);
                },
                IntervalClass2::M_P0 | IntervalClass2::M_P1 => {
                    lemma_mb_le_scale(a, b, d);
                },
                IntervalClass2::N0_M | IntervalClass2::N1_M => {
                    lemma_mb_le_scale(c, d, a);
                    lemma_mb_comm(d, a, true);
                    lemma_mb_comm(c, a, false);
                },
                IntervalClass2::N0_N0 | IntervalClass2::N0_N1 | IntervalClass2::N1_N0
                    | IntervalClass2::N1_N1 => {
                    lemma_mb_le_nn(b, d, a, c);
                },
                IntervalClass2::N0_P0 | IntervalClass2::N0_P1 | IntervalClass2::N1_P0
                    | IntervalClass2::N1_P1 => {
                    lemma_mb_le_np(a, d, b, c);
                },
                IntervalClass2::P0_M | IntervalClass2::P1_M => {
                    lemma_mb_le_scale(c, d, b);
                    lemma_mb_comm(c, b, true);
                    lemma_mb_comm(d, b, false);
                },
                IntervalClass2::P0_N0 | IntervalClass2::P0_N1 | IntervalClass2::P1_N0
                    | IntervalClass2::P1_N1 => {
                    lemma_mb_le_np(c, b, d, a);
                    lemma_mb_comm(c, b, true);
                    lemma_mb_comm(d, a, false);
                },
                IntervalClass2::P0_P0 | IntervalClass2::P0_P1 | IntervalClass2::P1_P0
                    | IntervalClass2::P1_P1 => {
                    lemma_mb_le_pp(a, c, b, d);
                },
                _ => {},
            }
        },
        _ => {},
    }
}

/// The division table over the pair classes.  An empty operand or a zero
/// divisor beside a nonzero numerator absorbs to empty; a divisor that
/// straddles zero gives the whole line; a zero numerator over a nonzero
/// divisor gives the point zero; a divisor touching zero on one side
/// opens the matching endpoint to infinity; the remaining cases select
/// one endpoint-quotient formula each.
pub open spec fn spec_div(x: Interval, y: Interval) -> Interval {
    let a = x.spec_lo();
    let b = x.spec_hi();
    let c = y.spec_lo();
    let d = y.spec_hi();
    match spec_classify2(x, y) {
        IntervalClass2::E_E | IntervalClass2::E_Z | IntervalClass2::E_M | IntervalClass2::E_N0
            | IntervalClass2::E_N1 | IntervalClass2::E_P0 | IntervalClass2::E_P1
            | IntervalClass2::Z_E | IntervalClass2::M_E | IntervalClass2::N0_E
            | IntervalClass2::N1_E | IntervalClass2::P0_E | IntervalClass2::P1_E
            | IntervalClass2::M_Z | IntervalClass2::N0_Z | IntervalClass2::N1_Z
            | IntervalClass2::P0_Z | IntervalClass2::P1_Z | IntervalClass2::Z_Z
            => Interval::Empty,
        IntervalClass2::M_M | IntervalClass2::M_N0 | IntervalClass2::M_P0 | IntervalClass2::N0_M
            | IntervalClass2::N1_M | IntervalClass2::P0_M | IntervalClass2::P1_M
            => spec_entire(),
        IntervalClass2::Z_M | IntervalClass2::Z_N0 | IntervalClass2::Z_N1 | IntervalClass2::Z_P0
            | IntervalClass2::Z_P1 => spec_zero(),
        IntervalClass2::M_N1 => Interval::Bounded {
            lo: spec_div_bound(b, d, true),
            hi: spec_div_bound(a, d, false),
        },
        IntervalClass2::M_P1 => Interval::Bounded {
            lo: spec_div_bound(a, c, true),
            hi: spec_div_bound(b, c, false),
        },
        IntervalClass2::N0_N0 | IntervalClass2::N1_N0 => Interval::Bounded {
            lo: spec_div_bound(b, c, true),
            hi: Bound::PosInf,
        },
        IntervalClass2::N0_N1 | IntervalClass2::N1_N1 => Interval::Bounded {
            lo: spec_div_bound(b, c, true),
            hi: spec_div_bound(a, d, false),
        },
        IntervalClass2::N0_P0 | IntervalClass2::N1_P0 => Interval::Bounded {
            lo: Bound::NegInf,
            hi: spec_div_bound(b, d, false),
        },
        IntervalClass2::N0_P1 | IntervalClass2::N1_P1 => Interval::Bounded {
            lo: spec_div_bound(a, c, true),
            hi: spec_div_bound(b, d, false),
        },
        IntervalClass2::P0_N0 | IntervalClass2::P1_N0 => Interval::Bounded {
            lo: Bound::NegInf,
            hi: spec_div_bound(a, c, false),
        },
        IntervalClass2::P0_N1 | IntervalClass2::P1_N1 => Interval::Bounded {
            lo: spec_div_bound(b, d, true),
            hi: spec_div_bound(a, c, false),
        },
        IntervalClass2::P0_P0 | IntervalClass2::P1_P0 => Interval::Bounded {
            lo: spec_div_bound(a, d, true),
            hi: Bound::PosInf,
        },
        IntervalClass2::P0_P1 | IntervalClass2::P1_P1 => Interval::Bounded {
            lo: spec_div_bound(a, d, true),
            hi: spec_div_bound(b, c, false),
        },
    }
}

/// Endpoint quotients of well-formed endpoints are well formed.
proof fn lemma_db_wf(x: Bound, y: Bound, down: bool)
    requires
        bound_wf(x),
        bound_wf(y),
    ensures
        bound_wf(spec_div_bound(x, y, down)),
{
}

/// A nonpositive numerator over a strictly negative divisor, divisor
/// shared: `b/d <= a/d` for `a <= b`.
proof fn lemma_db_le_m_n1(b: Bound, a: Bound, d: Bound)
    requires
        bound_wf(a),
        bound_wf(b),
        bound_wf(d),
        bound_le(a, b),
        d is Rat,
        bound_is_neg(d),
    ensures
        bound_le(spec_div_bound(b, d, true), spec_div_bound(a, d, false)),
{
    match d {
        Bound::Rat { num: pd, den: qd } => {
            match (a, b) {
                (Bound::Rat { num: pa, den: qa }, Bound::Rat { num: pb, den: qb }) => {
                    assert((-(pb * qd)) * (-(qa * pd)) <= (-(pa * qd)) * (-(qb * pd)))
                        by (nonlinear_arith)
                        requires
                            qa >= 1,
                            qb >= 1,
                            qd >= 1,
                            pd < 0,
                            pa * qb <= pb * qa,
                    ;
                    crate::bound::lemma_sign(qa as int, -(pd as int));
                    crate::bound::lemma_sign(qb as int, -(pd as int));
                },
                _ => {},
            }
        },
        _ => {},
    }
}

/// Any numerator over a strictly positive shared divisor: `a/c <= b/c`
/// for `a <= b`.
proof fn lemma_db_le_m_p1(a: Bound, b: Bound, c: Bound)
    requires
        bound_wf(a),
        bound_wf(b),
        bound_wf(c),
        bound_le(a, b),
        c is Rat,
        bound_is_pos(c),
    ensures
        bound_le(spec_div_bound(a, c, true), spec_div_bound(b, c, false)),
{
    match c {
        Bound::Rat { num: pc, den: qc } => {
            match (a, b) {
                (Bound::Rat { num: pa, den: qa }, Bound::Rat { num: pb, den: qb }) => {
                    assert((pa * qc) * (qb * pc) <= (pb * qc) * (qa * pc)) by (nonlinear_arith)
                        requires
                            qa >= 1,
                            qb >= 1,
                            qc >= 1,
                            pc > 0,
                            pa * qb <= pb * qa,
                    ;
                    crate::bound::lemma_sign(qa as int, pc as int);
                    crate::bound::lemma_sign(qb as int, pc as int);
                },
                _ => {},
            }
        },
        _ => {},
    }
}

/// A nonpositive numerator range over a strictly negative divisor range:
/// `b/c <= a/d`.
proof fn lemma_db_le_n_n1(b: Bound, c: Bound, a: Bound, d: Bound)
    requires
        bound_wf(a),
        bound_wf(b),
        bound_wf(c),
        bound_wf(d),
        bound_le(a, b),
        bound_le(c, d),
        b is Rat,
        d is Rat,
        !bound_is_pos(b),
        bound_is_neg(a),
        bound_is_neg(c),
        bound_is_neg(d),
    ensures
        bound_le(spec_div_bound(b, c, true), spec_div_bound(a, d, false)),
{
    match (b, d) {
        (Bound::Rat { num: pb, den: qb }, Bound::Rat { num: pd, den: qd }) => {
            match (a, c) {
                (Bound::Rat { num: pa, den: qa }, Bound::Rat { num: pc, den: qc }) => {
                    assert((-(pb * qc)) * (-(qa * pd)) <= (-(pa * qd)) * (-(qb * pc)))
                        by (nonlinear_arith)
                        requires
                            qa >= 1,
                            qb >= 1,
                            qc >= 1,
                            qd >= 1,
                            pa < 0,
                            pb <= 0,
                            pc < 0,
                            pd < 0,
                            pa * qb <= pb * qa,
                            pc * qd <= pd * qc,
                    ;
                    crate::bound::lemma_sign(qa as int, -(pd as int));
                    crate::bound::lemma_sign(qb as int, -(pc as int));
                },
                (Bound::Rat { num: pa, den: qa }, _) => {
                    // divisor's lower endpoint at minus infinity: the
                    // quotient range starts at zero
                    crate::bound::lemma_sign(pa as int, qd as int);
                    crate::bound::lemma_sign(qa as int, -(pd as int));
                },
                (_, Bound::Rat { num: pc, den: qc }) => {
                    crate::bound::lemma_sign(pb as int, qc as int);
                    crate::bound::lemma_sign(qb as int, -(pc as int));
                },
                _ => {},
            }
        },
        _ => {},
    }
}

/// A quotient of a nonpositive numerator and a positive divisor stays
/// below zero.
proof fn lemma_db_le_zero(a: Bound, c: Bound)
    requires
        bound_wf(a),
        bound_wf(c),
        !bound_is_pos(a),
        a is Rat,
        c is Rat,
        bound_is_pos(c),
    ensures
        bound_le(spec_div_bound(a, c, true), Bound::Rat { num: 0, den: 1 }),
{
    match (a, c) {
        (Bound::Rat { num: pa, den: qa }, Bound::Rat { num: pc, den: qc }) => {
            crate::bound::lemma_sign(pa as int, qc as int);
            crate::bound::lemma_sign(qa as int, pc as int);
        },
        _ => {},
    }
}

/// A quotient of a nonnegative numerator and a positive divisor stays
/// above zero.
proof fn lemma_db_ge_zero(b: Bound, c: Bound)
    requires
        bound_wf(b),
        bound_wf(c),
        !bound_is_neg(b),
        b is Rat,
        c is Rat,
        bound_is_pos(c),
    ensures
        bound_le(Bound::Rat { num: 0, den: 1 }, spec_div_bound(b, c, false)),
{
    match (b, c) {
        (Bound::Rat { num: pb, den: qb }, Bound::Rat { num: pc, den: qc }) => {
            crate::bound::lemma_sign(pb as int, qc as int);
            crate::bound::lemma_sign(qb as int, pc as int);
        },
        _ => {},
    }
}

/// A nonpositive numerator range over a strictly positive divisor range:
/// `a/c <= b/d`.
#[verifier::rlimit(30)]
proof fn lemma_db_le_n_p1(a: Bound, c: Bound, b: Bound, d: Bound)
    requires
        bound_wf(a),
        bound_wf(b),
        bound_wf(c),
        bound_wf(d),
        bound_le(a, b),
        bound_le(c, d),
        b is Rat,
        c is Rat,
        !bound_is_pos(b),
        bound_is_neg(a),
        bound_is_pos(c),
        bound_is_pos(d),
    ensures
        bound_le(spec_div_bound(a, c, true), spec_div_bound(b, d, false)),
{
    match (b, c) {
        (Bound::Rat { num: pb, den: qb }, Bound::Rat { num: pc, den: qc }) => {
            match (a, d) {
                (Bound::Rat { num: pa, den: qa }, Bound::Rat { num: pd, den: qd }) => {
                    assert((pa * qc) * (qb * pd) <= (pb * qd) * (qa * pc)) by (nonlinear_arith)
                        requires
                            qa >= 1,
                            qb >= 1,
                            qc >= 1,
                            qd >= 1,
                            pa < 0,
                            pb <= 0,
                            pc > 0,
                            pd > 0,
                            pa * qb <= pb * qa,
                            pc * qd <= pd * qc,
                    ;
                    crate::bound::lemma_sign(qa as int, pc as int);
                    crate::bound::lemma_sign(qb as int, pd as int);
                    assert(bound_le(spec_div_bound(a, c, true), spec_div_bound(b, d, false)));
                },
                (Bound::Rat { num: pa, den: qa }, _) => {
                    // divisor's upper endpoint at plus infinity: the
                    // quotient range ends at zero
                    lemma_db_le_zero(a, c);
                    assert(spec_div_bound(b, d, false) == (Bound::Rat { num: 0i64, den: 1i64 }));
                },
                _ => {},
            }
        },
        _ => {},
    }
}

/// A nonnegative numerator range over a strictly negative divisor range:
/// `b/d <= a/c`.
proof fn lemma_db_le_p_n1(b: Bound, d: Bound, a: Bound, c: Bound)
    requires
        bound_wf(a),
        bound_wf(b),
        bound_wf(c),
        bound_wf(d),
        bound_le(a, b),
        bound_le(c, d),
        a is Rat,
        d is Rat,
        !bound_is_neg(a),
        bound_is_pos(b),
        bound_is_neg(c),
        bound_is_neg(d),
    ensures
        bound_le(spec_div_bound(b, d, true), spec_div_bound(a, c, false)),
{
    match (a, d) {
        (Bound::Rat { num: pa, den: qa }, Bound::Rat { num: pd, den: qd }) => {
            match (b, c) {
                (Bound::Rat { num: pb, den: qb }, Bound::Rat { num: pc, den: qc }) => {
                    assert((-(pb * qd)) * (-(qa * pc)) <= (-(pa * qc)) * (-(qb * pd)))
                        by (nonlinear_arith)
                        requires
                            qa >= 1,
                            qb >= 1,
                            qc >= 1,
                            qd >= 1,
                            pa >= 0,
                            pb > 0,
                            pc < 0,
                            pd < 0,
                            pa * qb <= pb * qa,
                            pc * qd <= pd * qc,
                    ;
                    crate::bound::lemma_sign(qa as int, -(pc as int));
                    crate::bound::lemma_sign(qb as int, -(pd as int));
                },
                (Bound::Rat { num: pb, den: qb }, _) => {
                    // divisor's lower endpoint at minus infinity: the
                    // quotient range ends at zero
                    crate::bound::lemma_sign(pb as int, qd as int);
                    crate::bound::lemma_sign(qb as int, -(pd as int));
                },
                (_, Bound::Rat { num: pc, den: qc }) => {
                    crate::bound::lemma_sign(pa as int, qc as int);
                    crate::bound::lemma_sign(qa as int, -(pc as int));
                },
                _ => {},
            }
        },
        _ => {},
    }
}

/// A nonnegative numerator range over a strictly positive divisor range:
/// `a/d <= b/c`.
#[verifier::rlimit(30)]
proof fn lemma_db_le_p_p1(a: Bound, d: Bound, b: Bound, c: Bound)
    requires
        bound_wf(a),
        bound_wf(b),
        bound_wf(c),
        bound_wf(d),
        bound_le(a, b),
        bound_le(c, d),
        a is Rat,
        c is Rat,
        !bound_is_neg(a),
        bound_is_pos(b),
        bound_is_pos(c),
        bound_is_pos(d),
    ensures
        bound_le(spec_div_bound(a, d, true), spec_div_bound(b, c, false)),
{
    match (a, c) {
        (Bound::Rat { num: pa, den: qa }, Bound::Rat { num: pc, den: qc }) => {
            match (b, d) {
                (Bound::Rat { num: pb, den: qb }, Bound::Rat { num: pd, den: qd }) => {
                    assert((pa * qd) * (qb * pc) <= (pb * qc) * (qa * pd)) by (nonlinear_arith)
                        requires
                            qa >= 1,
                            qb >= 1,
                            qc >= 1,
                            qd >= 1,
                            pa >= 0,
                            pb > 0,
                            pc > 0,
                            pd > 0,
                            pa * qb <= pb * qa,
                            pc * qd <= pd * qc,
                    ;
                    crate::bound::lemma_sign(qa as int, pd as int);
                    crate::bound::lemma_sign(qb as int, pc as int);
                    assert(bound_le(spec_div_bound(a, d, true), spec_div_bound(b, c, false)));
                },
                (Bound::Rat { num: pb, den: qb }, _) => {
                    // divisor's upper endpoint at plus infinity: the
                    // quotient range starts at zero
                    lemma_db_ge_zero(b, c);
                    assert(spec_div_bound(a, d, true) == (Bound::Rat { num: 0i64, den: 1i64 }));
                },
                _ => {},
            }
        },
        _ => {},
    }
}

/// The division table yields a valid interval, empty exactly when an
/// operand is empty or the divisor is the point zero beside a nonzero
/// numerator.
pub proof fn lemma_div_wf(x: Interval, y: Interval)
    requires
        x.wf(),
        y.wf(),
    ensures
        spec_div(x, y).wf(),
{
    crate::classify::lemma_class_facts(x);
    crate::classify::lemma_class_facts(y);
    match (x, y) {
        (Interval::Bounded { lo: a, hi: b }, Interval::Bounded { lo: c, hi: d }) => {
            match spec_classify2(x, y) {
                IntervalClass2::M_N1 => {
                    lemma_db_le_m_n1(b, a, d);
                },
                IntervalClass2::M_P1 => {
                    lemma_db_le_m_p1(a, b, c);
                },
                IntervalClass2::N0_N0 | IntervalClass2::N1_N0 => {
                    lemma_db_wf(b, c, true);
                },
                IntervalClass2::N0_N1 | IntervalClass2::N1_N1 => {
                    lemma_db_le_n_n1(b, c, a, d);
                },
                IntervalClass2::N0_P0 | IntervalClass2::N1_P0 => {
                    lemma_db_wf(b, d, false);
                },
                IntervalClass2::N0_P1 | IntervalClass2::N1_P1 => {
                    lemma_db_le_n_p1(a, c, b, d);
                },
                IntervalClass2::P0_N0 | IntervalClass2::P1_N0 => {
                    lemma_db_wf(a, c, false);
                },
                IntervalClass2::P0_N1 | IntervalClass2::P1_N1 => {
                    lemma_db_le_p_n1(b, d, a, c);
                },
                IntervalClass2::P0_P0 | IntervalClass2::P1_P0 => {
                    lemma_db_wf(a, d, true);
                },
                IntervalClass2::P0_P1 | IntervalClass2::P1_P1 => {
                    lemma_db_le_p_p1(a, d, b, c);
                },
                _ => {},
            }
        },
        _ => {},
    }
}

impl Interval {
    /// Returns the negation of `self`: the mirror image `[-hi, -lo]`.
    pub fn neg(self) -> (r: Interval)
        requires
            self.wf(),
        ensures
            r == spec_neg(self),
            r.wf(),
            r is Empty <==> self is Empty,
    {
        match self {
            Interval::Empty => Interval::Empty,
            Interval::Bounded { lo, hi } => {
                proof {
                    crate::bound::lemma_bound_neg_le(lo, hi);
                }
                Interval::Bounded { lo: neg_bound(hi), hi: neg_bound(lo) }
            },
        }
    }

    /// Returns the sum of `self` and `rhs`: `[a + c, b + d]`, each
    /// endpoint widened outward if its exact value is unrepresentable.
    /// An empty operand absorbs the whole sum.
    pub fn add(self, rhs: Interval) -> (r: Interval)
        requires
            self.wf(),
            rhs.wf(),
        ensures
            r == spec_add(self, rhs),
            r.wf(),
            r is Empty <==> (self is Empty || rhs is Empty),
    {
        match (self, rhs) {
            (Interval::Bounded { lo: a, hi: b }, Interval::Bounded { lo: c, hi: d }) => {
                proof {
                    lemma_add_bound_mono(a, b, c, d);
                }
                Interval::Bounded { lo: add_bound(a, c, true), hi: add_bound(b, d, false) }
            },
            _ => Interval::Empty,
        }
    }

    /// Returns the difference of `self` and `rhs`: `[a - d, b - c]`,
    /// computed as the sum with the negated right operand.
    pub fn sub(self, rhs: Interval) -> (r: Interval)
        requires
            self.wf(),
            rhs.wf(),
        ensures
            r == spec_sub(self, rhs),
            r.wf(),
            r is Empty <==> (self is Empty || rhs is Empty),
    {
        self.add(rhs.neg())
    }

    /// Replaces `self` by `self + rhs`.
    pub fn add_assign(&mut self, rhs: Interval)
        requires
            old(self).wf(),
            rhs.wf(),
        ensures
            *final(self) == spec_add(*old(self), rhs),
            final(self).wf(),
    {
        *self = self.add(rhs);
    }

    /// Returns the product of `self` and `rhs`, dispatching on the pair
    /// class: an empty operand absorbs; a zero operand beside a nonempty
    /// one gives the point zero; each of the nine sign pairs selects the
    /// endpoint products that bound the image, the mixed-times-mixed case
    /// alone needing a minimum and maximum over two corner products.
    pub fn mul(self, rhs: Interval) -> (r: Interval)
        requires
            self.wf(),
            rhs.wf(),
        ensures
            r == spec_mul(self, rhs),
            r.wf(),
            r is Empty <==> (self is Empty || rhs is Empty),
    {
        proof {
            lemma_mul_wf(self, rhs);
            crate::classify::lemma_class_facts(self);
            crate::classify::lemma_class_facts(rhs);
        }
        match (self, rhs) {
            (Interval::Bounded { lo: a, hi: b }, Interval::Bounded { lo: c, hi: d }) => {
                match self.classify2(rhs) {
                    IntervalClass2::E_E | IntervalClass2::E_Z | IntervalClass2::E_M
                        | IntervalClass2::E_N0 | IntervalClass2::E_N1 | IntervalClass2::E_P0
                        | IntervalClass2::E_P1 | IntervalClass2::Z_E | IntervalClass2::M_E
                        | IntervalClass2::N0_E | IntervalClass2::N1_E | IntervalClass2::P0_E
                        | IntervalClass2::P1_E => Interval::Empty,
                    IntervalClass2::M_Z | IntervalClass2::N0_Z | IntervalClass2::N1_Z
                        | IntervalClass2::P0_Z | IntervalClass2::P1_Z | IntervalClass2::Z_Z
                        | IntervalClass2::Z_M | IntervalClass2::Z_N0 | IntervalClass2::Z_N1
                        | IntervalClass2::Z_P0 | IntervalClass2::Z_P1 => Interval::zero(),
                    IntervalClass2::M_M => Interval::Bounded {
                        lo: min_bound(mul_bound(a, d, true), mul_bound(b, c, true)),
                        hi: max_bound(mul_bound(a, c, false), mul_bound(b, d, false)),
                    },
                    IntervalClass2::M_N0 | IntervalClass2::M_N1 => Interval::Bounded {
                        lo: mul_bound(b, c, true),
                        hi: mul_bound(a, c, false),
                    },
                    IntervalClass2::M_P0 | IntervalClass2::M_P1 => Interval::Bounded {
                        lo: mul_bound(a, d, true),
                        hi: mul_bound(b, d, false),
                    },
                    IntervalClass2::N0_M | IntervalClass2::N1_M => Interval::Bounded {
                        lo: mul_bound(a, d, true),
                        hi: mul_bound(a, c, false),
                    },
                    IntervalClass2::N0_N0 | IntervalClass2::N0_N1 | IntervalClass2::N1_N0
                        | IntervalClass2::N1_N1 => Interval::Bounded {
                        lo: mul_bound(b, d, true),
                        hi: mul_bound(a, c, false),
                    },
                    IntervalClass2::N0_P0 | IntervalClass2::N0_P1 | IntervalClass2::N1_P0
                        | IntervalClass2::N1_P1 => Interval::Bounded {
                        lo: mul_bound(a, d, true),
                        hi: mul_bound(b, c, false),
                    },
                    IntervalClass2::P0_M | IntervalClass2::P1_M => Interval::Bounded {
                        lo: mul_bound(b, c, true),
                        hi: mul_bound(b, d, false),
                    },
                    IntervalClass2::P0_N0 | IntervalClass2::P0_N1 | IntervalClass2::P1_N0
                        | IntervalClass2::P1_N1 => Interval::Bounded {
                        lo: mul_bound(b, c, true),
                        hi: mul_bound(a, d, false),
                    },
                    IntervalClass2::P0_P0 | IntervalClass2::P0_P1 | IntervalClass2::P1_P0
                        | IntervalClass2::P1_P1 => Interval::Bounded {
                        lo: mul_bound(a, c, true),
                        hi: mul_bound(b, d, false),
                    },
                }
            },
            _ => Interval::Empty,
        }
    }

    /// Replaces `self` by `self * rhs`.
    pub fn mul_assign(&mut self, rhs: Interval)
        requires
            old(self).wf(),
            rhs.wf(),
        ensures
            *final(self) == spec_mul(*old(self), rhs),
            final(self).wf(),
    {
        *self = self.mul(rhs);
    }

    /// Returns the quotient of `self` and `rhs`, dispatching on the pair
    /// class.  A divisor straddling zero yields the whole line; the
    /// point-zero divisor beside a nonzero numerator yields empty; a
    /// divisor touching zero on one side opens one endpoint to infinity.
    pub fn div(self, rhs: Interval) -> (r: Interval)
        requires
            self.wf(),
            rhs.wf(),
        ensures
            r == spec_div(self, rhs),
            r.wf(),
    {
        proof {
            lemma_div_wf(self, rhs);
            crate::classify::lemma_class_facts(self);
            crate::classify::lemma_class_facts(rhs);
        }
        match (self, rhs) {
            (Interval::Bounded { lo: a, hi: b }, Interval::Bounded { lo: c, hi: d }) => {
                match self.classify2(rhs) {
                    IntervalClass2::E_E | IntervalClass2::E_Z | IntervalClass2::E_M
                        | IntervalClass2::E_N0 | IntervalClass2::E_N1 | IntervalClass2::E_P0
                        | IntervalClass2::E_P1 | IntervalClass2::Z_E | IntervalClass2::M_E
                        | IntervalClass2::N0_E | IntervalClass2::N1_E | IntervalClass2::P0_E
                        | IntervalClass2::P1_E | IntervalClass2::M_Z | IntervalClass2::N0_Z
                        | IntervalClass2::N1_Z | IntervalClass2::P0_Z | IntervalClass2::P1_Z
                        | IntervalClass2::Z_Z => Interval::Empty,
                    IntervalClass2::M_M | IntervalClass2::M_N0 | IntervalClass2::M_P0
                        | IntervalClass2::N0_M | IntervalClass2::N1_M | IntervalClass2::P0_M
                        | IntervalClass2::P1_M => Interval::entire(),
                    IntervalClass2::Z_M | IntervalClass2::Z_N0 | IntervalClass2::Z_N1
                        | IntervalClass2::Z_P0 | IntervalClass2::Z_P1 => Interval::zero(),
                    IntervalClass2::M_N1 => Interval::Bounded {
                        lo: div_bound(b, d, true),
                        hi: div_bound(a, d, false),
                    },
                    IntervalClass2::M_P1 => Interval::Bounded {
                        lo: div_bound(a, c, true),
                        hi: div_bound(b, c, false),
                    },
                    IntervalClass2::N0_N0 | IntervalClass2::N1_N0 => Interval::Bounded {
                        lo: div_bound(b, c, true),
                        hi: Bound::PosInf,
                    },
                    IntervalClass2::N0_N1 | IntervalClass2::N1_N1 => Interval::Bounded {
                        lo: div_bound(b, c, true),
                        hi: div_bound(a, d, false),
                    },
                    IntervalClass2::N0_P0 | IntervalClass2::N1_P0 => Interval::Bounded {
                        lo: Bound::NegInf,
                        hi: div_bound(b, d, false),
                    },
                    IntervalClass2::N0_P1 | IntervalClass2::N1_P1 => Interval::Bounded {
                        lo: div_bound(a, c, true),
                        hi: div_bound(b, d, false),
                    },
                    IntervalClass2::P0_N0 | IntervalClass2::P1_N0 => Interval::Bounded {
                        lo: Bound::NegInf,
                        hi: div_bound(a, c, false),
                    },
                    IntervalClass2::P0_N1 | IntervalClass2::P1_N1 => Interval::Bounded {
                        lo: div_bound(b, d, true),
                        hi: div_bound(a, c, false),
                    },
                    IntervalClass2::P0_P0 | IntervalClass2::P1_P0 => Interval::Bounded {
                        lo: div_bound(a, d, true),
                        hi: Bound::PosInf,
                    },
                    IntervalClass2::P0_P1 | IntervalClass2::P1_P1 => Interval::Bounded {
                        lo: div_bound(a, d, true),
                        hi: div_bound(b, c, false),
                    },
                }
            },
            _ => Interval::Empty,
        }
    }

    /// Replaces `self` by `self / rhs`.
    pub fn div_assign(&mut self, rhs: Interval)
        requires
            old(self).wf(),
            rhs.wf(),
        ensures
            *final(self) == spec_div(*old(self), rhs),
            final(self).wf(),
    {
        *self = self.div(rhs);
    }

    /// Replaces `self` by `self - rhs`.
    pub fn sub_assign(&mut self, rhs: Interval)
        requires
            old(self).wf(),
            rhs.wf(),
        ensures
            *final(self) == spec_sub(*old(self), rhs),
            final(self).wf(),
    {
        *self = self.sub(rhs);
    }
}

} // verus!
