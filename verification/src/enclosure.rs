//! The enclosure laws: for every rational point of the operands, the
//! image of the point function lies within the interval the operation
//! returns.  These are the statements the library exists to guarantee.

use vstd::prelude::*;
use crate::bound::{
    above, below, bound_is_neg, bound_is_pos, bound_le, bound_wf, lemma_bound_neg_point,
    lemma_max_bound_ge, lemma_min_bound_le, lemma_sign, spec_add_bound, spec_div_bound,
    spec_max_bound, spec_min_bound, spec_mul_bound, spec_neg_bound, Bound,
};
use crate::arith::{
    lemma_rat_mul_mixed, lemma_rat_mul_mono_nonneg, spec_add, spec_div, spec_mul, spec_neg,
    spec_sub,
};
use crate::classify::{lemma_class_facts, spec_classify2, IntervalClass2};
use crate::interval::Interval;

verus! {

/// An endpoint below another endpoint is below every point above it.
proof fn lemma_le_below(u: Bound, v: Bound, p: int, q: int)
    requires
        bound_wf(u),
        bound_wf(v),
        q > 0,
        bound_le(u, v),
        below(v, p, q),
    ensures
        below(u, p, q),
{
    match (u, v) {
        (Bound::Rat { num: pu, den: qu }, Bound::Rat { num: pv, den: qv }) => {
            assert(pu * q <= p * qu) by (nonlinear_arith)
                requires
                    qu >= 1,
                    qv >= 1,
                    q > 0,
                    pu * qv <= pv * qu,
                    pv * q <= p * qv,
            ;
        },
        _ => {},
    }
}

/// An endpoint above another endpoint is above every point below it.
proof fn lemma_le_above(u: Bound, v: Bound, p: int, q: int)
    requires
        bound_wf(u),
        bound_wf(v),
        q > 0,
        bound_le(u, v),
        above(u, p, q),
    ensures
        above(v, p, q),
{
    match (u, v) {
        (Bound::Rat { num: pu, den: qu }, Bound::Rat { num: pv, den: qv }) => {
            assert(p * qv <= pv * q) by (nonlinear_arith)
                requires
                    qu >= 1,
                    qv >= 1,
                    q > 0,
                    pu * qv <= pv * qu,
                    p * qu <= pu * q,
            ;
        },
        _ => {},
    }
}

/// A point above a nonpositive upper endpoint is itself nonpositive.
proof fn lemma_point_le0(b: Bound, p: int, q: int)
    requires
        bound_wf(b),
        !bound_is_pos(b),
        q > 0,
        above(b, p, q),
    ensures
        p <= 0,
{
    match b {
        Bound::Rat { num, den } => {
            lemma_sign(num as int, q);
            lemma_sign(p, den as int);
        },
        _ => {},
    }
}

/// A point below a nonnegative lower endpoint is itself nonnegative.
proof fn lemma_point_ge0(a: Bound, p: int, q: int)
    requires
        bound_wf(a),
        !bound_is_neg(a),
        q > 0,
        below(a, p, q),
    ensures
        p >= 0,
{
    match a {
        Bound::Rat { num, den } => {
            lemma_sign(num as int, q);
            lemma_sign(p, den as int);
        },
        _ => {},
    }
}

/// Regrouping a product of four factors.
proof fn lemma_reassoc(a: int, b: int, c: int, d: int)
    by (nonlinear_arith)
    ensures
        (a * b) * (c * d) == (a * c) * (b * d),
{
}

/// Commutation and negation identities for products of integers.
proof fn lemma_mul_facts(u: int, v: int)
    by (nonlinear_arith)
    ensures
        u * v == v * u,
        (-u) * (-v) == u * v,
        (-u) * v == -(u * v),
        u * (-v) == -(u * v),
{
}

/// Negating both operands leaves an endpoint product unchanged, as long
/// as no zero stands beside an infinity.
proof fn lemma_mb_neg_neg(x: Bound, y: Bound, down: bool)
    requires
        bound_wf(x),
        bound_wf(y),
        !(crate::bound::bound_is_zero(x) && !crate::bound::bound_is_finite(y)),
        !(!crate::bound::bound_is_finite(x) && crate::bound::bound_is_zero(y)),
    ensures
        spec_mul_bound(spec_neg_bound(x), spec_neg_bound(y), down) == spec_mul_bound(x, y, down),
{
    match (x, y) {
        (Bound::Rat { num: p, den: q }, Bound::Rat { num: r, den: s }) => {
            lemma_mul_facts(p as int, r as int);
        },
        _ => {},
    }
}

/// The product of two nonnegative lower endpoints lies below the
/// product of any points above them.
proof fn lemma_low_nonneg(a: Bound, c: Bound, p: int, q: int, r: int, s: int)
    requires
        bound_wf(a),
        bound_wf(c),
        q > 0,
        s > 0,
        !bound_is_neg(a),
        !bound_is_neg(c),
        below(a, p, q),
        below(c, r, s),
    ensures
        below(spec_mul_bound(a, c, true), p * r, q * s),
{
    match (a, c) {
        (Bound::Rat { num: pa, den: qa }, Bound::Rat { num: pc, den: qc }) => {
            lemma_rat_mul_mono_nonneg(pa as int, qa as int, p, q, pc as int, qc as int, r, s);
            lemma_sign(qa as int, qc as int);
        },
        _ => {},
    }
}

/// The product of two upper endpoints lies above the product of any
/// nonnegative points below them.
proof fn lemma_up_nonneg(b: Bound, d: Bound, p: int, q: int, r: int, s: int)
    requires
        bound_wf(b),
        bound_wf(d),
        q > 0,
        s > 0,
        p >= 0,
        r >= 0,
        above(b, p, q),
        above(d, r, s),
    ensures
        above(spec_mul_bound(b, d, false), p * r, q * s),
{
    match (b, d) {
        (Bound::Rat { num: pb, den: qb }, Bound::Rat { num: pd, den: qd }) => {
            lemma_rat_mul_mono_nonneg(p, q, pb as int, qb as int, r, s, pd as int, qd as int);
            lemma_sign(qb as int, qd as int);
        },
        (Bound::PosInf, Bound::Rat { num: pd, den: qd }) => {
            lemma_sign(r, qd as int);
            lemma_sign(pd as int, s);
        },
        (Bound::Rat { num: pb, den: qb }, Bound::PosInf) => {
            lemma_sign(p, qb as int);
            lemma_sign(pb as int, q);
        },
        _ => {},
    }
}

/// The product of a strictly negative lower endpoint and an upper
/// endpoint above a nonnegative point bounds the mixed products from
/// below.
proof fn lemma_low_mixed(a: Bound, d: Bound, p: int, q: int, r: int, s: int)
    requires
        bound_wf(a),
        bound_wf(d),
        q > 0,
        s > 0,
        bound_is_neg(a),
        p <= 0,
        r >= 0,
        below(a, p, q),
        above(d, r, s),
    ensures
        below(spec_mul_bound(a, d, true), p * r, q * s),
{
    match (a, d) {
        (Bound::Rat { num: pa, den: qa }, Bound::Rat { num: pd, den: qd }) => {
            lemma_rat_mul_mixed(pa as int, qa as int, p, q, pd as int, qd as int, r, s);
            lemma_sign(qa as int, qd as int);
        },
        (Bound::NegInf, Bound::Rat { num: pd, den: qd }) => {
            lemma_sign(r, qd as int);
            lemma_sign(pd as int, s);
        },
        _ => {},
    }
}

/// The product of an upper endpoint below zero and a lower endpoint of
/// the other sign bounds the mixed products from above.
proof fn lemma_up_mixed(b: Bound, c: Bound, p: int, q: int, r: int, s: int)
    requires
        bound_wf(b),
        bound_wf(c),
        q > 0,
        s > 0,
        !bound_is_pos(b),
        !bound_is_neg(c),
        above(b, p, q),
        below(c, r, s),
    ensures
        above(spec_mul_bound(b, c, false), p * r, q * s),
{
    match (b, c) {
        (Bound::Rat { num: pb, den: qb }, Bound::Rat { num: pc, den: qc }) => {
            lemma_rat_mul_mixed(p, q, pb as int, qb as int, r, s, pc as int, qc as int);
            lemma_sign(qb as int, qc as int);
        },
        _ => {},
    }
}

/// A product of a negative and a positive endpoint is negative, so it
/// bounds any nonnegative point product from below.
proof fn lemma_low_negprod(a: Bound, d: Bound, p: int, q: int, r: int, s: int)
    requires
        bound_wf(a),
        bound_wf(d),
        q > 0,
        s > 0,
        bound_is_neg(a),
        bound_is_pos(d),
        p * r >= 0,
    ensures
        below(spec_mul_bound(a, d, true), p * r, q * s),
{
    match (a, d) {
        (Bound::Rat { num: pa, den: qa }, Bound::Rat { num: pd, den: qd }) => {
            assert((pa * pd) * (q * s) <= (p * r) * (qa * qd)) by (nonlinear_arith)
                requires
                    qa >= 1,
                    qd >= 1,
                    q > 0,
                    s > 0,
                    pa < 0,
                    pd > 0,
                    p * r >= 0,
            ;
            lemma_sign(qa as int, qd as int);
        },
        _ => {},
    }
}

/// A product of two endpoints of the same strict sign is positive, so
/// it bounds any nonpositive point product from above.
proof fn lemma_up_posprod(x: Bound, y: Bound, p: int, q: int, r: int, s: int)
    requires
        bound_wf(x),
        bound_wf(y),
        q > 0,
        s > 0,
        (bound_is_pos(x) && bound_is_pos(y)) || (bound_is_neg(x) && bound_is_neg(y)),
        p * r <= 0,
    ensures
        above(spec_mul_bound(x, y, false), p * r, q * s),
{
    match (x, y) {
        (Bound::Rat { num: px, den: qx }, Bound::Rat { num: py, den: qy }) => {
            assert((p * r) * (qx * qy) <= (px * py) * (q * s)) by (nonlinear_arith)
                requires
                    qx >= 1,
                    qy >= 1,
                    q > 0,
                    s > 0,
                    (px > 0 && py > 0) || (px < 0 && py < 0),
                    p * r <= 0,
            ;
            lemma_sign(qx as int, qy as int);
        },
        _ => {},
    }
}

/// Negation mirrors an interval around zero, point for point.
pub proof fn lemma_neg_encloses(x: Interval, p: int, q: int)
    requires
        x.wf(),
        q > 0,
        x.spec_contains(p, q),
    ensures
        spec_neg(x).spec_contains(-p, q),
{
    match x {
        Interval::Bounded { lo, hi } => {
            lemma_bound_neg_point(lo, p, q);
            lemma_bound_neg_point(hi, p, q);
        },
        _ => {},
    }
}

/// The rational sum of lower endpoints stays below the sum of points
/// above them, in cross-multiplied form.
proof fn lemma_rat_add_low(pa: int, qa: int, pc: int, qc: int, p: int, q: int, r: int, s: int)
    requires
        qa >= 1,
        qc >= 1,
        q > 0,
        s > 0,
        pa * q <= p * qa,
        pc * s <= r * qc,
    ensures
        (pa * qc + pc * qa) * (q * s) <= (p * s + r * q) * (qa * qc),
{
    assert((pa * q) * (qc * s) <= (p * qa) * (qc * s)) by (nonlinear_arith)
        requires
            pa * q <= p * qa,
            qc >= 1,
            s > 0,
    ;
    assert((pc * s) * (qa * q) <= (r * qc) * (qa * q)) by (nonlinear_arith)
        requires
            pc * s <= r * qc,
            qa >= 1,
            q > 0,
    ;
    vstd::arithmetic::mul::lemma_mul_is_distributive_add_other_way(q * s, pa * qc, pc * qa);
    lemma_reassoc(pa, qc, q, s);
    lemma_mul_facts(q, s);
    lemma_reassoc(pc, qa, s, q);
    vstd::arithmetic::mul::lemma_mul_is_distributive_add_other_way(qa * qc, p * s, r * q);
    lemma_reassoc(p, s, qa, qc);
    lemma_mul_facts(s, qc);
    lemma_mul_facts(qa, qc);
    lemma_reassoc(r, q, qc, qa);
    lemma_mul_facts(q, qa);
}

/// The rational sum of upper endpoints stays above the sum of points
/// below them, in cross-multiplied form.
proof fn lemma_rat_add_up(pb: int, qb: int, pd: int, qd: int, p: int, q: int, r: int, s: int)
    requires
        qb >= 1,
        qd >= 1,
        q > 0,
        s > 0,
        p * qb <= pb * q,
        r * qd <= pd * s,
    ensures
        (p * s + r * q) * (qb * qd) <= (pb * qd + pd * qb) * (q * s),
{
    assert((p * qb) * (qd * s) <= (pb * q) * (qd * s)) by (nonlinear_arith)
        requires
            p * qb <= pb * q,
            qd >= 1,
            s > 0,
    ;
    assert((r * qd) * (qb * q) <= (pd * s) * (qb * q)) by (nonlinear_arith)
        requires
            r * qd <= pd * s,
            qb >= 1,
            q > 0,
    ;
    vstd::arithmetic::mul::lemma_mul_is_distributive_add_other_way(qb * qd, p * s, r * q);
    lemma_reassoc(p, s, qb, qd);
    lemma_mul_facts(s, qd);
    lemma_mul_facts(qb, qd);
    lemma_reassoc(r, q, qd, qb);
    lemma_mul_facts(q, qb);
    vstd::arithmetic::mul::lemma_mul_is_distributive_add_other_way(q * s, pb * qd, pd * qb);
    lemma_reassoc(pb, qd, q, s);
    lemma_mul_facts(q, s);
    lemma_reassoc(pd, qb, s, q);
}

/// The sum of contained points is contained in the sum of the
/// intervals.
pub proof fn lemma_add_encloses(x: Interval, y: Interval, p: int, q: int, r: int, s: int)
    requires
        x.wf(),
        y.wf(),
        q > 0,
        s > 0,
        x.spec_contains(p, q),
        y.spec_contains(r, s),
    ensures
        spec_add(x, y).spec_contains(p * s + r * q, q * s),
{
    match (x, y) {
        (Interval::Bounded { lo: a, hi: b }, Interval::Bounded { lo: c, hi: d }) => {
            lemma_sign(q, s);
            match (a, c) {
                (Bound::Rat { num: pa, den: qa }, Bound::Rat { num: pc, den: qc }) => {
                    lemma_rat_add_low(pa as int, qa as int, pc as int, qc as int, p, q, r, s);
                    lemma_sign(qa as int, qc as int);
                },
                _ => {},
            }
            match (b, d) {
                (Bound::Rat { num: pb, den: qb }, Bound::Rat { num: pd, den: qd }) => {
                    lemma_rat_add_up(pb as int, qb as int, pd as int, qd as int, p, q, r, s);
                    lemma_sign(qb as int, qd as int);
                },
                _ => {},
            }
        },
        _ => {},
    }
}

/// The difference of contained points is contained in the difference of
/// the intervals.
pub proof fn lemma_sub_encloses(x: Interval, y: Interval, p: int, q: int, r: int, s: int)
    requires
        x.wf(),
        y.wf(),
        q > 0,
        s > 0,
        x.spec_contains(p, q),
        y.spec_contains(r, s),
    ensures
        spec_sub(x, y).spec_contains(p * s - r * q, q * s),
{
    lemma_neg_encloses(y, r, s);
    crate::arith::lemma_neg_wf(y);
    lemma_add_encloses(x, spec_neg(y), p, q, -r, s);
    assert(p * s + (-r) * q == p * s - r * q) by (nonlinear_arith);
}

/// The point zero interval contains the zero value.
proof fn lemma_zero_contains(v: int, q2: int)
    requires
        v == 0,
        q2 > 0,
    ensures
        crate::arith::spec_zero().spec_contains(v, q2),
{
}

/// A point of an interval whose endpoints are both zero is zero.
proof fn lemma_point_zero(x: Interval, p: int, q: int)
    requires
        x.wf(),
        q > 0,
        x.spec_contains(p, q),
        crate::bound::bound_is_zero(x.spec_lo()),
        crate::bound::bound_is_zero(x.spec_hi()),
    ensures
        p == 0,
{
    match x {
        Interval::Bounded { lo, hi } => {
            match (lo, hi) {
                (Bound::Rat { num: n0, den: d0 }, Bound::Rat { num: n1, den: d1 }) => {
                    lemma_sign(p, d0 as int);
                    lemma_sign(p, d1 as int);
                },
                _ => {},
            }
        },
        _ => {},
    }
}

/// The product of contained points is contained in the product of the
/// intervals: the enclosure law of the multiplication table.
pub proof fn lemma_mul_encloses(x: Interval, y: Interval, p: int, q: int, r: int, s: int)
    requires
        x.wf(),
        y.wf(),
        q > 0,
        s > 0,
        x.spec_contains(p, q),
        y.spec_contains(r, s),
    ensures
        spec_mul(x, y).spec_contains(p * r, q * s),
{
    lemma_class_facts(x);
    lemma_class_facts(y);
    lemma_sign(q, s);
    match (x, y) {
        (Interval::Bounded { lo: a, hi: b }, Interval::Bounded { lo: c, hi: d }) => {
            match spec_classify2(x, y) {
                IntervalClass2::M_Z | IntervalClass2::N0_Z | IntervalClass2::N1_Z
                    | IntervalClass2::P0_Z | IntervalClass2::P1_Z | IntervalClass2::Z_Z => {
                    lemma_point_zero(y, r, s);
                    assert(p * r == 0) by (nonlinear_arith)
                        requires
                            r == 0,
                    ;
                    lemma_zero_contains(p * r, q * s);
                },
                IntervalClass2::Z_M | IntervalClass2::Z_N0 | IntervalClass2::Z_N1
                    | IntervalClass2::Z_P0 | IntervalClass2::Z_P1 => {
                    lemma_point_zero(x, p, q);
                    assert(p * r == 0) by (nonlinear_arith)
                        requires
                            p == 0,
                    ;
                    lemma_zero_contains(p * r, q * s);
                },
                IntervalClass2::P0_P0 | IntervalClass2::P0_P1 | IntervalClass2::P1_P0
                    | IntervalClass2::P1_P1 => {
                    lemma_point_ge0(a, p, q);
                    lemma_point_ge0(c, r, s);
                    lemma_low_nonneg(a, c, p, q, r, s);
                    lemma_up_nonneg(b, d, p, q, r, s);
                },
                IntervalClass2::N0_N0 | IntervalClass2::N0_N1 | IntervalClass2::N1_N0
                    | IntervalClass2::N1_N1 => {
                    lemma_point_le0(b, p, q);
                    lemma_point_le0(d, r, s);
                    lemma_bound_neg_point(b, p, q);
                    lemma_bound_neg_point(d, r, s);
                    lemma_low_nonneg(spec_neg_bound(b), spec_neg_bound(d), -p, q, -r, s);
                    lemma_mb_neg_neg(b, d, true);
                    lemma_bound_neg_point(a, p, q);
                    lemma_bound_neg_point(c, r, s);
                    lemma_up_nonneg(spec_neg_bound(a), spec_neg_bound(c), -p, q, -r, s);
                    lemma_mb_neg_neg(a, c, false);
                    lemma_mul_facts(p, r);
                },
                IntervalClass2::N0_P0 | IntervalClass2::N0_P1 | IntervalClass2::N1_P0
                    | IntervalClass2::N1_P1 => {
                    lemma_point_le0(b, p, q);
                    lemma_point_ge0(c, r, s);
                    lemma_low_mixed(a, d, p, q, r, s);
                    lemma_up_mixed(b, c, p, q, r, s);
                },
                IntervalClass2::P0_N0 | IntervalClass2::P0_N1 | IntervalClass2::P1_N0
                    | IntervalClass2::P1_N1 => {
                    lemma_point_ge0(a, p, q);
                    lemma_point_le0(d, r, s);
                    crate::arith::lemma_mb_comm(b, c, true);
                    lemma_low_mixed(c, b, r, s, p, q);
                    crate::arith::lemma_mb_comm(a, d, false);
                    lemma_up_mixed(d, a, r, s, p, q);
                    lemma_mul_facts(r, p);
                    lemma_mul_facts(s, q);
                },
                IntervalClass2::M_P0 | IntervalClass2::M_P1 => {
                    lemma_point_ge0(c, r, s);
                    if p <= 0 {
                        lemma_low_mixed(a, d, p, q, r, s);
                    } else {
                        assert(p * r >= 0) by (nonlinear_arith)
                            requires
                                p >= 0,
                                r >= 0,
                        ;
                        lemma_low_negprod(a, d, p, q, r, s);
                    }
                    if p >= 0 {
                        lemma_up_nonneg(b, d, p, q, r, s);
                    } else {
                        assert(p * r <= 0) by (nonlinear_arith)
                            requires
                                p <= 0,
                                r >= 0,
                        ;
                        lemma_up_posprod(b, d, p, q, r, s);
                    }
                },
                IntervalClass2::M_N0 | IntervalClass2::M_N1 => {
                    lemma_point_le0(d, r, s);
                    crate::arith::lemma_mb_comm(b, c, true);
                    if p >= 0 {
                        lemma_low_mixed(c, b, r, s, p, q);
                    } else {
                        assert(r * p >= 0) by (nonlinear_arith)
                            requires
                                r <= 0,
                                p <= 0,
                        ;
                        lemma_low_negprod(c, b, r, s, p, q);
                    }
                    lemma_mul_facts(r, p);
                    lemma_mul_facts(s, q);
                    if p <= 0 {
                        lemma_bound_neg_point(a, p, q);
                        lemma_bound_neg_point(c, r, s);
                        lemma_up_nonneg(spec_neg_bound(a), spec_neg_bound(c), -p, q, -r, s);
                        lemma_mb_neg_neg(a, c, false);
                        lemma_mul_facts(p, r);
                    } else {
                        assert(p * r <= 0) by (nonlinear_arith)
                            requires
                                p >= 0,
                                r <= 0,
                        ;
                        lemma_up_posprod(a, c, p, q, r, s);
                    }
                },
                IntervalClass2::N0_M | IntervalClass2::N1_M => {
                    lemma_point_le0(b, p, q);
                    if r >= 0 {
                        lemma_low_mixed(a, d, p, q, r, s);
                    } else {
                        assert(p * r >= 0) by (nonlinear_arith)
                            requires
                                p <= 0,
                                r <= 0,
                        ;
                        lemma_low_negprod(a, d, p, q, r, s);
                    }
                    if r <= 0 {
                        lemma_bound_neg_point(a, p, q);
                        lemma_bound_neg_point(c, r, s);
                        lemma_up_nonneg(spec_neg_bound(a), spec_neg_bound(c), -p, q, -r, s);
                        lemma_mb_neg_neg(a, c, false);
                        lemma_mul_facts(p, r);
                    } else {
                        assert(p * r <= 0) by (nonlinear_arith)
                            requires
                                p <= 0,
                                r >= 0,
                        ;
                        lemma_up_posprod(a, c, p, q, r, s);
                    }
                },
                IntervalClass2::P0_M | IntervalClass2::P1_M => {
                    lemma_point_ge0(a, p, q);
                    crate::arith::lemma_mb_comm(b, c, true);
                    if r <= 0 {
                        lemma_low_mixed(c, b, r, s, p, q);
                    } else {
                        assert(r * p >= 0) by (nonlinear_arith)
                            requires
                                r >= 0,
                                p >= 0,
                        ;
                        lemma_low_negprod(c, b, r, s, p, q);
                    }
                    lemma_mul_facts(r, p);
                    lemma_mul_facts(s, q);
                    if r >= 0 {
                        lemma_up_nonneg(b, d, p, q, r, s);
                    } else {
                        assert(p * r <= 0) by (nonlinear_arith)
                            requires
                                p >= 0,
                                r <= 0,
                        ;
                        lemma_up_posprod(b, d, p, q, r, s);
                    }
                },
                IntervalClass2::M_M => {
                    let u1 = spec_mul_bound(a, d, true);
                    let u2 = spec_mul_bound(b, c, true);
                    let u3 = spec_mul_bound(a, c, false);
                    let u4 = spec_mul_bound(b, d, false);
                    crate::arith::lemma_mb_wf(a, d, true);
                    crate::arith::lemma_mb_wf(b, c, true);
                    crate::arith::lemma_mb_wf(a, c, false);
                    crate::arith::lemma_mb_wf(b, d, false);
                    if r >= 0 {
                        if p <= 0 {
                            lemma_low_mixed(a, d, p, q, r, s);
                        } else {
                            assert(p * r >= 0) by (nonlinear_arith)
                                requires
                                    p >= 0,
                                    r >= 0,
                            ;
                            lemma_low_negprod(a, d, p, q, r, s);
                        }
                        lemma_min_bound_le(u1, u2);
                        lemma_le_below(spec_min_bound(u1, u2), u1, p * r, q * s);
                    } else {
                        crate::arith::lemma_mb_comm(b, c, true);
                        if p >= 0 {
                            lemma_low_mixed(c, b, r, s, p, q);
                        } else {
                            assert(r * p >= 0) by (nonlinear_arith)
                                requires
                                    r <= 0,
                                    p <= 0,
                            ;
                            lemma_low_negprod(c, b, r, s, p, q);
                        }
                        lemma_mul_facts(r, p);
                        lemma_mul_facts(s, q);
                        lemma_min_bound_le(u1, u2);
                        lemma_le_below(spec_min_bound(u1, u2), u2, p * r, q * s);
                    }
                    if p >= 0 && r >= 0 {
                        lemma_up_nonneg(b, d, p, q, r, s);
                        lemma_max_bound_ge(u3, u4);
                        lemma_le_above(u4, spec_max_bound(u3, u4), p * r, q * s);
                    } else if p <= 0 && r <= 0 {
                        lemma_bound_neg_point(a, p, q);
                        lemma_bound_neg_point(c, r, s);
                        lemma_up_nonneg(spec_neg_bound(a), spec_neg_bound(c), -p, q, -r, s);
                        lemma_mb_neg_neg(a, c, false);
                        lemma_mul_facts(p, r);
                        lemma_max_bound_ge(u3, u4);
                        lemma_le_above(u3, spec_max_bound(u3, u4), p * r, q * s);
                    } else if p >= 0 {
                        assert(p * r <= 0) by (nonlinear_arith)
                            requires
                                p >= 0,
                                r <= 0,
                        ;
                        lemma_up_posprod(a, c, p, q, r, s);
                        lemma_max_bound_ge(u3, u4);
                        lemma_le_above(u3, spec_max_bound(u3, u4), p * r, q * s);
                    } else {
                        assert(p * r <= 0) by (nonlinear_arith)
                            requires
                                p <= 0,
                                r >= 0,
                        ;
                        lemma_up_posprod(b, d, p, q, r, s);
                        lemma_max_bound_ge(u3, u4);
                        lemma_le_above(u4, spec_max_bound(u3, u4), p * r, q * s);
                    }
                },
                _ => {},
            }
        },
        _ => {},
    }
}

/// A point below a strictly positive lower endpoint is itself strictly
/// positive.
proof fn lemma_point_gt0(c: Bound, r: int, s: int)
    requires
        bound_wf(c),
        bound_is_pos(c),
        s > 0,
        below(c, r, s),
    ensures
        r > 0,
{
    match c {
        Bound::Rat { num, den } => {
            lemma_sign(num as int, s);
            lemma_sign(r, den as int);
        },
        _ => {},
    }
}

/// A point above a strictly negative upper endpoint is itself strictly
/// negative.
proof fn lemma_point_lt0(d: Bound, r: int, s: int)
    requires
        bound_wf(d),
        bound_is_neg(d),
        s > 0,
        above(d, r, s),
    ensures
        r < 0,
{
    match d {
        Bound::Rat { num, den } => {
            lemma_sign(num as int, s);
            lemma_sign(r, den as int);
        },
        _ => {},
    }
}

/// The quotient of contained points is contained in the quotient of
/// the intervals, whenever the divisor point is not zero: the enclosure
/// law of the division table.  The quotient of `p/q` by `r/s` is
/// written over the positive denominator `q*r` or its negation,
/// whichever is positive.
pub proof fn lemma_div_encloses(x: Interval, y: Interval, p: int, q: int, r: int, s: int)
    requires
        x.wf(),
        y.wf(),
        q > 0,
        s > 0,
        x.spec_contains(p, q),
        y.spec_contains(r, s),
        r != 0,
    ensures
        spec_div(x, y).spec_contains(
            if r > 0 {
                p * s
            } else {
                -(p * s)
            },
            if r > 0 {
                q * r
            } else {
                -(q * r)
            },
        ),
{
    lemma_class_facts(x);
    lemma_class_facts(y);
    let dp = if r > 0 {
        p * s
    } else {
        -(p * s)
    };
    let dq = if r > 0 {
        q * r
    } else {
        -(q * r)
    };
    match (x, y) {
        (Interval::Bounded { lo: a, hi: b }, Interval::Bounded { lo: c, hi: d }) => {
            match spec_classify2(x, y) {
                IntervalClass2::M_Z | IntervalClass2::N0_Z | IntervalClass2::N1_Z
                    | IntervalClass2::P0_Z | IntervalClass2::P1_Z | IntervalClass2::Z_Z => {
                    lemma_point_zero(y, r, s);
                },
                IntervalClass2::Z_M | IntervalClass2::Z_N0 | IntervalClass2::Z_N1
                    | IntervalClass2::Z_P0 | IntervalClass2::Z_P1 => {
                    lemma_point_zero(x, p, q);
                    assert(p * s == 0) by (nonlinear_arith)
                        requires
                            p == 0,
                    ;
                    if r > 0 {
                        assert(q * r > 0) by (nonlinear_arith)
                            requires
                                q > 0,
                                r > 0,
                        ;
                    } else {
                        assert(q * r < 0) by (nonlinear_arith)
                            requires
                                q > 0,
                                r < 0,
                        ;
                    }
                    lemma_zero_contains(dp, dq);
                },
                IntervalClass2::M_M | IntervalClass2::M_N0 | IntervalClass2::M_P0
                    | IntervalClass2::N0_M | IntervalClass2::N1_M | IntervalClass2::P0_M
                    | IntervalClass2::P1_M => {
                    // the divisor straddles zero: the whole line encloses
                    // every quotient
                },
                IntervalClass2::N0_P1 | IntervalClass2::N1_P1 => {
                    lemma_point_le0(b, p, q);
                    lemma_point_gt0(c, r, s);
                    lemma_div_low_neg_pos(a, c, p, q, r, s);
                    lemma_div_up_neg_pos(b, d, p, q, r, s);
                },
                IntervalClass2::N0_P0 | IntervalClass2::N1_P0 => {
                    lemma_point_le0(b, p, q);
                    lemma_point_ge0(c, r, s);
                    lemma_div_up_neg_pos(b, d, p, q, r, s);
                },
                IntervalClass2::P0_P1 | IntervalClass2::P1_P1 => {
                    lemma_point_ge0(a, p, q);
                    lemma_point_gt0(c, r, s);
                    lemma_div_low_pos_pos(a, d, p, q, r, s);
                    lemma_div_up_pos_pos(b, c, p, q, r, s);
                },
                IntervalClass2::P0_P0 | IntervalClass2::P1_P0 => {
                    lemma_point_ge0(a, p, q);
                    lemma_point_ge0(c, r, s);
                    lemma_div_low_pos_pos(a, d, p, q, r, s);
                },
                IntervalClass2::M_P1 => {
                    lemma_point_gt0(c, r, s);
                    if p <= 0 {
                        lemma_div_low_neg_pos(a, c, p, q, r, s);
                        lemma_div_up_zero_pos(b, c, p, q, r, s);
                    } else {
                        lemma_div_low_zero_pos(a, c, p, q, r, s);
                        lemma_div_up_pos_pos(b, c, p, q, r, s);
                    }
                },
                IntervalClass2::M_N1 => {
                    lemma_point_lt0(d, r, s);
                    if p >= 0 {
                        lemma_div_low_pos_neg(b, d, p, q, r, s);
                        lemma_div_up_zero_neg(a, d, p, q, r, s);
                    } else {
                        lemma_div_low_zero_neg(b, d, p, q, r, s);
                        lemma_div_up_neg_neg(a, d, p, q, r, s);
                    }
                },
                IntervalClass2::N0_N1 | IntervalClass2::N1_N1 => {
                    lemma_point_le0(b, p, q);
                    lemma_point_lt0(d, r, s);
                    lemma_div_low_neg_neg(b, c, p, q, r, s);
                    lemma_div_up_neg_neg(a, d, p, q, r, s);
                },
                IntervalClass2::N0_N0 | IntervalClass2::N1_N0 => {
                    lemma_point_le0(b, p, q);
                    lemma_point_le0(d, r, s);
                    lemma_div_low_neg_neg(b, c, p, q, r, s);
                },
                IntervalClass2::P0_N1 | IntervalClass2::P1_N1 => {
                    lemma_point_ge0(a, p, q);
                    lemma_point_lt0(d, r, s);
                    lemma_div_low_pos_neg(b, d, p, q, r, s);
                    lemma_div_up_pos_neg(a, c, p, q, r, s);
                },
                IntervalClass2::P0_N0 | IntervalClass2::P1_N0 => {
                    lemma_point_ge0(a, p, q);
                    lemma_point_le0(d, r, s);
                    lemma_div_up_pos_neg(a, c, p, q, r, s);
                },
                _ => {},
            }
        },
        _ => {},
    }
}

/// Lower quotient bound `a/c` for a nonpositive point over a positive
/// divisor.
proof fn lemma_div_low_neg_pos(a: Bound, c: Bound, p: int, q: int, r: int, s: int)
    requires
        bound_wf(a),
        bound_wf(c),
        q > 0,
        s > 0,
        p <= 0,
        r > 0,
        bound_is_pos(c),
        below(a, p, q),
        below(c, r, s),
    ensures
        below(spec_div_bound(a, c, true), p * s, q * r),
{
    match (a, c) {
        (Bound::Rat { num: pa, den: qa }, Bound::Rat { num: pc, den: qc }) => {
            assert((pa * qc) * (q * r) <= (p * s) * (qa * pc)) by (nonlinear_arith)
                requires
                    qa >= 1,
                    qc >= 1,
                    q > 0,
                    s > 0,
                    p <= 0,
                    r > 0,
                    pc > 0,
                    pa * q <= p * qa,
                    pc * s <= r * qc,
            ;
            lemma_sign(qa as int, pc as int);
        },
        _ => {},
    }
}

/// Upper quotient bound `b/d` for a nonpositive point over a positive
/// divisor.
proof fn lemma_div_up_neg_pos(b: Bound, d: Bound, p: int, q: int, r: int, s: int)
    requires
        bound_wf(b),
        bound_wf(d),
        q > 0,
        s > 0,
        p <= 0,
        r > 0,
        !bound_is_pos(b),
        bound_is_pos(d),
        above(b, p, q),
        above(d, r, s),
    ensures
        above(spec_div_bound(b, d, false), p * s, q * r),
{
    match (b, d) {
        (Bound::Rat { num: pb, den: qb }, Bound::Rat { num: pd, den: qd }) => {
            assert((p * s) * (qb * pd) <= (pb * qd) * (q * r)) by (nonlinear_arith)
                requires
                    qb >= 1,
                    qd >= 1,
                    q > 0,
                    s > 0,
                    p <= 0,
                    r > 0,
                    pb <= 0,
                    pd > 0,
                    p * qb <= pb * q,
                    r * qd <= pd * s,
            ;
            lemma_sign(qb as int, pd as int);
        },
        (Bound::Rat { num: pb, den: qb }, Bound::PosInf) => {
            // the divisor reaches plus infinity: the quotient range ends
            // at zero
            assert(p * s <= 0) by (nonlinear_arith)
                requires
                    p <= 0,
                    s > 0,
            ;
        },
        _ => {},
    }
}

/// Lower quotient bound `a/d` for a nonnegative point over a positive
/// divisor.
proof fn lemma_div_low_pos_pos(a: Bound, d: Bound, p: int, q: int, r: int, s: int)
    requires
        bound_wf(a),
        bound_wf(d),
        q > 0,
        s > 0,
        p >= 0,
        r > 0,
        !bound_is_neg(a),
        bound_is_pos(d),
        below(a, p, q),
        above(d, r, s),
    ensures
        below(spec_div_bound(a, d, true), p * s, q * r),
{
    match (a, d) {
        (Bound::Rat { num: pa, den: qa }, Bound::Rat { num: pd, den: qd }) => {
            assert((pa * qd) * (q * r) <= (p * s) * (qa * pd)) by (nonlinear_arith)
                requires
                    qa >= 1,
                    qd >= 1,
                    q > 0,
                    s > 0,
                    p >= 0,
                    r > 0,
                    pa >= 0,
                    pd > 0,
                    pa * q <= p * qa,
                    r * qd <= pd * s,
            ;
            lemma_sign(qa as int, pd as int);
        },
        (Bound::Rat { num: pa, den: qa }, Bound::PosInf) => {
            assert(p * s >= 0) by (nonlinear_arith)
                requires
                    p >= 0,
                    s > 0,
            ;
        },
        _ => {},
    }
}

/// Upper quotient bound `b/c` for a nonnegative point over a positive
/// divisor.
proof fn lemma_div_up_pos_pos(b: Bound, c: Bound, p: int, q: int, r: int, s: int)
    requires
        bound_wf(b),
        bound_wf(c),
        q > 0,
        s > 0,
        p >= 0,
        r > 0,
        bound_is_pos(c),
        above(b, p, q),
        below(c, r, s),
    ensures
        above(spec_div_bound(b, c, false), p * s, q * r),
{
    match (b, c) {
        (Bound::Rat { num: pb, den: qb }, Bound::Rat { num: pc, den: qc }) => {
            assert((p * s) * (qb * pc) <= (pb * qc) * (q * r)) by (nonlinear_arith)
                requires
                    qb >= 1,
                    qc >= 1,
                    q > 0,
                    s > 0,
                    p >= 0,
                    r > 0,
                    pc > 0,
                    p * qb <= pb * q,
                    pc * s <= r * qc,
            ;
            lemma_sign(qb as int, pc as int);
        },
        _ => {},
    }
}

/// A lower quotient bound `a/c` that is negative while the point
/// quotient is nonnegative.
proof fn lemma_div_low_zero_pos(a: Bound, c: Bound, p: int, q: int, r: int, s: int)
    requires
        bound_wf(a),
        bound_wf(c),
        q > 0,
        s > 0,
        p >= 0,
        r > 0,
        bound_is_neg(a),
        bound_is_pos(c),
        c is Rat,
    ensures
        below(spec_div_bound(a, c, true), p * s, q * r),
{
    match (a, c) {
        (Bound::Rat { num: pa, den: qa }, Bound::Rat { num: pc, den: qc }) => {
            assert((pa * qc) * (q * r) <= 0 && 0 <= (p * s) * (qa * pc)) by (nonlinear_arith)
                requires
                    qa >= 1,
                    qc >= 1,
                    q > 0,
                    s > 0,
                    p >= 0,
                    r > 0,
                    pa < 0,
                    pc > 0,
            ;
            lemma_sign(qa as int, pc as int);
        },
        _ => {},
    }
}

/// An upper quotient bound `b/c` that is positive while the point
/// quotient is nonpositive.
proof fn lemma_div_up_zero_pos(b: Bound, c: Bound, p: int, q: int, r: int, s: int)
    requires
        bound_wf(b),
        bound_wf(c),
        q > 0,
        s > 0,
        p <= 0,
        r > 0,
        bound_is_pos(b),
        bound_is_pos(c),
        c is Rat,
    ensures
        above(spec_div_bound(b, c, false), p * s, q * r),
{
    match (b, c) {
        (Bound::Rat { num: pb, den: qb }, Bound::Rat { num: pc, den: qc }) => {
            assert((p * s) * (qb * pc) <= 0 && 0 <= (pb * qc) * (q * r)) by (nonlinear_arith)
                requires
                    qb >= 1,
                    qc >= 1,
                    q > 0,
                    s > 0,
                    p <= 0,
                    r > 0,
                    pb > 0,
                    pc > 0,
            ;
            lemma_sign(qb as int, pc as int);
        },
        _ => {},
    }
}

/// Lower quotient bound `b/d` over a negative divisor, the numerator's
/// upper endpoint positive.
proof fn lemma_div_low_pos_neg(b: Bound, d: Bound, p: int, q: int, r: int, s: int)
    requires
        bound_wf(b),
        bound_wf(d),
        q > 0,
        s > 0,
        r < 0,
        bound_is_pos(b),
        bound_is_neg(d),
        d is Rat,
        above(b, p, q),
        above(d, r, s),
    ensures
        below(spec_div_bound(b, d, true), -(p * s), -(q * r)),
{
    match (b, d) {
        (Bound::Rat { num: pb, den: qb }, Bound::Rat { num: pd, den: qd }) => {
            assert((-(pb * qd)) * (-(q * r)) <= (-(p * s)) * (-(qb * pd))) by (nonlinear_arith)
                requires
                    qb >= 1,
                    qd >= 1,
                    q > 0,
                    s > 0,
                    r < 0,
                    pb > 0,
                    pd < 0,
                    p * qb <= pb * q,
                    r * qd <= pd * s,
            ;
            lemma_sign(qb as int, -(pd as int));
        },
        _ => {},
    }
}

/// Upper quotient bound `a/d` over a negative divisor, the numerator's
/// lower endpoint negative.
proof fn lemma_div_up_neg_neg(a: Bound, d: Bound, p: int, q: int, r: int, s: int)
    requires
        bound_wf(a),
        bound_wf(d),
        q > 0,
        s > 0,
        r < 0,
        bound_is_neg(a),
        bound_is_neg(d),
        d is Rat,
        below(a, p, q),
        above(d, r, s),
    ensures
        above(spec_div_bound(a, d, false), -(p * s), -(q * r)),
{
    match (a, d) {
        (Bound::Rat { num: pa, den: qa }, Bound::Rat { num: pd, den: qd }) => {
            assert((-(p * s)) * (-(qa * pd)) <= (-(pa * qd)) * (-(q * r))) by (nonlinear_arith)
                requires
                    qa >= 1,
                    qd >= 1,
                    q > 0,
                    s > 0,
                    r < 0,
                    pa < 0,
                    pd < 0,
                    pa * q <= p * qa,
                    r * qd <= pd * s,
            ;
            lemma_sign(qa as int, -(pd as int));
        },
        _ => {},
    }
}

/// Lower quotient bound `b/c` for a nonpositive numerator over a
/// negative divisor.
proof fn lemma_div_low_neg_neg(b: Bound, c: Bound, p: int, q: int, r: int, s: int)
    requires
        bound_wf(b),
        bound_wf(c),
        q > 0,
        s > 0,
        p <= 0,
        r < 0,
        !bound_is_pos(b),
        b is Rat,
        bound_is_neg(c),
        above(b, p, q),
        below(c, r, s),
    ensures
        below(spec_div_bound(b, c, true), -(p * s), -(q * r)),
{
    match (b, c) {
        (Bound::Rat { num: pb, den: qb }, Bound::Rat { num: pc, den: qc }) => {
            assert((-(pb * qc)) * (-(q * r)) <= (-(p * s)) * (-(qb * pc))) by (nonlinear_arith)
                requires
                    qb >= 1,
                    qc >= 1,
                    q > 0,
                    s > 0,
                    p <= 0,
                    r < 0,
                    pb <= 0,
                    pc < 0,
                    p * qb <= pb * q,
                    pc * s <= r * qc,
            ;
            lemma_sign(qb as int, -(pc as int));
        },
        (Bound::Rat { num: pb, den: qb }, Bound::NegInf) => {
            // the divisor reaches minus infinity: the quotient range
            // starts at zero
            assert(p * s <= 0) by (nonlinear_arith)
                requires
                    p <= 0,
                    s > 0,
            ;
        },
        _ => {},
    }
}

/// Upper quotient bound `a/c` for a nonnegative numerator over a
/// negative divisor.
proof fn lemma_div_up_pos_neg(a: Bound, c: Bound, p: int, q: int, r: int, s: int)
    requires
        bound_wf(a),
        bound_wf(c),
        q > 0,
        s > 0,
        p >= 0,
        r < 0,
        !bound_is_neg(a),
        a is Rat,
        bound_is_neg(c),
        below(a, p, q),
        below(c, r, s),
    ensures
        above(spec_div_bound(a, c, false), -(p * s), -(q * r)),
{
    match (a, c) {
        (Bound::Rat { num: pa, den: qa }, Bound::Rat { num: pc, den: qc }) => {
            assert((-(p * s)) * (-(qa * pc)) <= (-(pa * qc)) * (-(q * r))) by (nonlinear_arith)
                requires
                    qa >= 1,
                    qc >= 1,
                    q > 0,
                    s > 0,
                    p >= 0,
                    r < 0,
                    pa >= 0,
                    pc < 0,
                    pa * q <= p * qa,
                    pc * s <= r * qc,
            ;
            lemma_sign(qa as int, -(pc as int));
        },
        (Bound::Rat { num: pa, den: qa }, Bound::NegInf) => {
            assert(p * s >= 0) by (nonlinear_arith)
                requires
                    p >= 0,
                    s > 0,
            ;
        },
        _ => {},
    }
}

/// A lower quotient bound `b/d` that is negative while the point
/// quotient is nonnegative, over a negative divisor.
proof fn lemma_div_low_zero_neg(b: Bound, d: Bound, p: int, q: int, r: int, s: int)
    requires
        bound_wf(b),
        bound_wf(d),
        q > 0,
        s > 0,
        p <= 0,
        r < 0,
        bound_is_pos(b),
        bound_is_neg(d),
        d is Rat,
    ensures
        below(spec_div_bound(b, d, true), -(p * s), -(q * r)),
{
    match (b, d) {
        (Bound::Rat { num: pb, den: qb }, Bound::Rat { num: pd, den: qd }) => {
            assert((-(pb * qd)) * (-(q * r)) <= 0 && 0 <= (-(p * s)) * (-(qb * pd)))
                by (nonlinear_arith)
                requires
                    qb >= 1,
                    qd >= 1,
                    q > 0,
                    s > 0,
                    p <= 0,
                    r < 0,
                    pb > 0,
                    pd < 0,
            ;
            lemma_sign(qb as int, -(pd as int));
        },
        _ => {},
    }
}

/// An upper quotient bound `a/d` that is positive while the point
/// quotient is nonpositive, over a negative divisor.
proof fn lemma_div_up_zero_neg(a: Bound, d: Bound, p: int, q: int, r: int, s: int)
    requires
        bound_wf(a),
        bound_wf(d),
        q > 0,
        s > 0,
        p >= 0,
        r < 0,
        bound_is_neg(a),
        bound_is_neg(d),
        d is Rat,
    ensures
        above(spec_div_bound(a, d, false), -(p * s), -(q * r)),
{
    match (a, d) {
        (Bound::Rat { num: pa, den: qa }, Bound::Rat { num: pd, den: qd }) => {
            assert((-(p * s)) * (-(qa * pd)) <= 0 && 0 <= (-(pa * qd)) * (-(q * r)))
                by (nonlinear_arith)
                requires
                    qa >= 1,
                    qd >= 1,
                    q > 0,
                    s > 0,
                    p >= 0,
                    r < 0,
                    pa < 0,
                    pd < 0,
            ;
            lemma_sign(qa as int, -(pd as int));
        },
        _ => {},
    }
}

/// The absolute value of a contained point is contained in the
/// absolute value of the interval.
pub proof fn lemma_abs_encloses(x: Interval, p: int, q: int)
    requires
        x.wf(),
        q > 0,
        x.spec_contains(p, q),
    ensures
        crate::absmax::spec_abs(x).spec_contains(
            if p >= 0 {
                p
            } else {
                -p
            },
            q,
        ),
{
    lemma_class_facts(x);
    match x {
        Interval::Bounded { lo, hi } => {
            lemma_bound_neg_point(lo, p, q);
            lemma_bound_neg_point(hi, p, q);
            match crate::classify::spec_classify(x) {
                crate::classify::IntervalClass::M => {
                    let m = spec_max_bound(spec_neg_bound(lo), hi);
                    lemma_max_bound_ge(spec_neg_bound(lo), hi);
                    crate::arith::lemma_neg_wf(x);
                    if p >= 0 {
                        lemma_le_above(hi, m, p, q);
                        match lo {
                            Bound::Rat { num, den } => {
                                lemma_sign(num as int, q);
                                lemma_sign(p, den as int);
                            },
                            _ => {},
                        }
                    } else {
                        lemma_le_above(spec_neg_bound(lo), m, -p, q);
                        match hi {
                            Bound::Rat { num, den } => {
                                lemma_sign(num as int, q);
                                lemma_sign(-p, den as int);
                            },
                            _ => {},
                        }
                    }
                },
                crate::classify::IntervalClass::N0 | crate::classify::IntervalClass::N1 => {
                    lemma_point_le0(hi, p, q);
                },
                crate::classify::IntervalClass::P0 | crate::classify::IntervalClass::P1 => {
                    lemma_point_ge0(lo, p, q);
                },
                crate::classify::IntervalClass::Z => {
                    lemma_point_zero(x, p, q);
                },
                _ => {},
            }
        },
        _ => {},
    }
}

/// A point of either operand is a point of the convex hull.
pub proof fn lemma_hull_encloses(x: Interval, y: Interval, p: int, q: int)
    requires
        x.wf(),
        y.wf(),
        q > 0,
        x.spec_contains(p, q) || y.spec_contains(p, q),
    ensures
        crate::set_op::spec_convex_hull(x, y).spec_contains(p, q),
{
    match (x, y) {
        (Interval::Bounded { lo: a, hi: b }, Interval::Bounded { lo: c, hi: d }) => {
            crate::bound::lemma_min_bound_le(a, c);
            lemma_max_bound_ge(b, d);
            if x.spec_contains(p, q) {
                lemma_le_below(spec_min_bound(a, c), a, p, q);
                lemma_le_above(b, spec_max_bound(b, d), p, q);
            } else {
                lemma_le_below(spec_min_bound(a, c), c, p, q);
                lemma_le_above(d, spec_max_bound(b, d), p, q);
            }
        },
        _ => {},
    }
}

/// A point lies in the intersection exactly when it lies in both
/// operands: the intersection is the set intersection, and the
/// post-check that replaces a crossed pair by the empty set loses no
/// point.
pub proof fn lemma_intersection_exact(x: Interval, y: Interval, p: int, q: int)
    requires
        x.wf(),
        y.wf(),
        q > 0,
    ensures
        crate::set_op::spec_intersection(x, y).spec_contains(p, q) <==> (x.spec_contains(p, q)
            && y.spec_contains(p, q)),
{
    match (x, y) {
        (Interval::Bounded { lo: a, hi: b }, Interval::Bounded { lo: c, hi: d }) => {
            let l = spec_max_bound(a, c);
            let h = spec_min_bound(b, d);
            lemma_max_bound_ge(a, c);
            crate::bound::lemma_min_bound_le(b, d);
            if x.spec_contains(p, q) && y.spec_contains(p, q) {
                // a point below both uppers and above both lowers shows
                // the endpoints do not cross
                match (l, h) {
                    (Bound::Rat { num: pl, den: ql }, Bound::Rat { num: ph, den: qh }) => {
                        assert(pl * qh <= ph * ql) by (nonlinear_arith)
                            requires
                                q > 0,
                                ql >= 1,
                                qh >= 1,
                                pl * q <= p * ql,
                                p * qh <= ph * q,
                        ;
                    },
                    _ => {},
                }
            }
            if crate::set_op::spec_intersection(x, y).spec_contains(p, q) {
                lemma_le_below(a, l, p, q);
                lemma_le_below(c, l, p, q);
                lemma_le_above(h, b, p, q);
                lemma_le_above(h, d, p, q);
            }
        },
        _ => {},
    }
}

/// The signed odd power of a lower endpoint stays below the power of
/// any point above it.
proof fn lemma_pow_odd_below(b: Bound, n: nat, p: int, q: int)
    requires
        bound_wf(b),
        n >= 1,
        n % 2 == 1,
        q > 0,
        below(b, p, q),
    ensures
        below(
            crate::elementary::spec_pow_odd_bound(b, n, true),
            vstd::arithmetic::power::pow(p, n),
            vstd::arithmetic::power::pow(q, n),
        ),
{
    crate::elementary::lemma_pow_exp_mono(q, 0, n);
    match b {
        Bound::Rat { num: pb, den: qb } => {
            if pb >= 0 {
                crate::elementary::lemma_pow_cross(pb as int, qb as int, p, q, n);
            } else if p >= 0 {
                let x_up = crate::elementary::spec_pow_mag(-(pb as int), qb as int, n, false);
                crate::elementary::lemma_pow_base_mono(0, -(pb as int), n);
                crate::elementary::lemma_pow_exp_mono(qb as int, 0, n);
                crate::elementary::lemma_pow_base_mono(0, p, n);
                let zero = Bound::Rat { num: 0i64, den: 1i64 };
                assert(spec_neg_bound(zero) == zero);
                crate::bound::lemma_bound_neg_le(zero, x_up);
                lemma_le_below(
                    spec_neg_bound(x_up),
                    zero,
                    vstd::arithmetic::power::pow(p, n),
                    vstd::arithmetic::power::pow(q, n),
                );
            } else {
                crate::elementary::lemma_pow_neg_base(p, n);
                assert((-p) * (qb as int) <= (-(pb as int)) * q) by (nonlinear_arith)
                    requires
                        pb as int * q <= p * (qb as int),
                ;
                crate::elementary::lemma_pow_cross(-p, q, -(pb as int), qb as int, n);
                lemma_mul_facts(
                    vstd::arithmetic::power::pow(-(pb as int), n),
                    vstd::arithmetic::power::pow(q, n),
                );
                lemma_mul_facts(
                    vstd::arithmetic::power::pow(-p, n),
                    vstd::arithmetic::power::pow(qb as int, n),
                );
            }
        },
        _ => {},
    }
}

/// The signed odd power of an upper endpoint stays above the power of
/// any point below it.
proof fn lemma_pow_odd_above(b: Bound, n: nat, p: int, q: int)
    requires
        bound_wf(b),
        n >= 1,
        n % 2 == 1,
        q > 0,
        above(b, p, q),
    ensures
        above(
            crate::elementary::spec_pow_odd_bound(b, n, false),
            vstd::arithmetic::power::pow(p, n),
            vstd::arithmetic::power::pow(q, n),
        ),
{
    crate::elementary::lemma_pow_exp_mono(q, 0, n);
    match b {
        Bound::Rat { num: pb, den: qb } => {
            if pb >= 0 {
                if p >= 0 {
                    crate::elementary::lemma_pow_cross(p, q, pb as int, qb as int, n);
                } else {
                    // the point power is nonpositive, the endpoint power
                    // nonnegative
                    crate::elementary::lemma_pow_neg_base(p, n);
                    crate::elementary::lemma_pow_base_mono(0, -p, n);
                    crate::elementary::lemma_pow_base_mono(0, pb as int, n);
                    crate::elementary::lemma_pow_exp_mono(qb as int, 0, n);
                    lemma_sign(
                        vstd::arithmetic::power::pow(p, n),
                        vstd::arithmetic::power::pow(qb as int, n),
                    );
                    lemma_sign(
                        vstd::arithmetic::power::pow(pb as int, n),
                        vstd::arithmetic::power::pow(q, n),
                    );
                }
            } else {
                // the endpoint is negative, so the point is negative too
                lemma_sign(pb as int, q);
                lemma_sign(p, qb as int);
                crate::elementary::lemma_pow_neg_base(p, n);
                assert((-(pb as int)) * q <= (-p) * (qb as int)) by (nonlinear_arith)
                    requires
                        p * (qb as int) <= pb as int * q,
                ;
                crate::elementary::lemma_pow_cross(-(pb as int), qb as int, -p, q, n);
                lemma_mul_facts(
                    vstd::arithmetic::power::pow(-p, n),
                    vstd::arithmetic::power::pow(qb as int, n),
                );
                lemma_mul_facts(
                    vstd::arithmetic::power::pow(-(pb as int), n),
                    vstd::arithmetic::power::pow(q, n),
                );
            }
        },
        _ => {},
    }
}

/// Zero over one lies below any nonnegative rational point.
proof fn lemma_below_rat01(p: int, q: int)
    requires
        p >= 0,
    ensures
        below(Bound::Rat { num: 0, den: 1 }, p, q),
{
    assert(0 * q <= p * 1) by (nonlinear_arith)
        requires
            p >= 0,
    ;
}

/// The integer power of a contained point is contained in the integer
/// power of the interval; a negative exponent asks for a nonzero
/// point.  The point power is `p^n / q^n` for a nonnegative exponent
/// and the sign-normalized reciprocal for a negative one.
pub proof fn lemma_powi_encloses(x: Interval, rhs: i32, p: int, q: int)
    requires
        x.wf(),
        q > 0,
        x.spec_contains(p, q),
        rhs < 0 ==> p != 0,
    ensures
        ({
            let n = (if rhs >= 0 {
                rhs as int
            } else {
                -(rhs as int)
            }) as nat;
            let pn = vstd::arithmetic::power::pow(p, n);
            let qn = vstd::arithmetic::power::pow(q, n);
            let num = if rhs >= 0 {
                pn
            } else if pn > 0 {
                qn
            } else {
                -qn
            };
            let den = if rhs >= 0 {
                qn
            } else if pn > 0 {
                pn
            } else {
                -pn
            };
            crate::elementary::spec_powi(x, rhs).spec_contains(num, den)
        }),
{
    let n = (if rhs >= 0 {
        rhs as int
    } else {
        -(rhs as int)
    }) as nat;
    let pn = vstd::arithmetic::power::pow(p, n);
    let qn = vstd::arithmetic::power::pow(q, n);
    lemma_class_facts(x);
    crate::elementary::lemma_pow_exp_mono(q, 0, n);
    match x {
        Interval::Bounded { lo, hi } => {
            if rhs == 0 {
                vstd::arithmetic::power::lemma_pow0(p);
                vstd::arithmetic::power::lemma_pow0(q);
                assert(crate::elementary::spec_powi(x, rhs) == (Interval::Bounded {
                    lo: Bound::Rat { num: 1, den: 1 },
                    hi: Bound::Rat { num: 1, den: 1 },
                }));
                assert(below(Bound::Rat { num: 1i64, den: 1i64 }, pn, qn));
                assert(above(Bound::Rat { num: 1i64, den: 1i64 }, pn, qn));
            } else if rhs > 0 {
                if n % 2 == 1 {
                    lemma_pow_odd_below(lo, n, p, q);
                    lemma_pow_odd_above(hi, n, p, q);
                    assert(crate::elementary::spec_powi(x, rhs) == (Interval::Bounded {
                        lo: crate::elementary::spec_pow_odd_bound(lo, n, true),
                        hi: crate::elementary::spec_pow_odd_bound(hi, n, false),
                    }));
                    assert(below(
                        crate::elementary::spec_pow_odd_bound(lo, n, true),
                        pn,
                        qn,
                    ));
                    assert(above(
                        crate::elementary::spec_pow_odd_bound(hi, n, false),
                        pn,
                        qn,
                    ));
                } else {
                    let ap = if p >= 0 {
                        p
                    } else {
                        -p
                    };
                    crate::elementary::lemma_abs_sign(x);
                    lemma_abs_encloses(x, p, q);
                    crate::elementary::lemma_pow_neg_base(p, n);
                    crate::elementary::lemma_pow_base_mono(0, ap, n);
                    let m = crate::absmax::spec_abs(x);
                    assert(crate::elementary::spec_powi(x, rhs) == (Interval::Bounded {
                        lo: crate::elementary::spec_zero_floored(
                            crate::elementary::spec_pow_abs_bound(m.spec_lo(), n, true),
                        ),
                        hi: crate::elementary::spec_pow_abs_bound(m.spec_hi(), n, false),
                    }));
                    match m {
                        Interval::Bounded { lo: mlo, hi: mhi } => {
                            match mlo {
                                Bound::Rat { num: pm, den: qm } => {
                                    crate::elementary::lemma_pow_cross(
                                        pm as int,
                                        qm as int,
                                        ap,
                                        q,
                                        n,
                                    );
                                    if crate::elementary::spec_pow_abs_bound(mlo, n, true)
                                        is NegInf {
                                        lemma_below_rat01(pn, qn);
                                    }
                                    assert(below(
                                        crate::elementary::spec_zero_floored(
                                            crate::elementary::spec_pow_abs_bound(mlo, n, true),
                                        ),
                                        pn,
                                        qn,
                                    ));
                                },
                                _ => {},
                            }
                            match mhi {
                                Bound::Rat { num: pm, den: qm } => {
                                    crate::elementary::lemma_pow_cross(
                                        ap,
                                        q,
                                        pm as int,
                                        qm as int,
                                        n,
                                    );
                                    assert(above(
                                        crate::elementary::spec_pow_abs_bound(mhi, n, false),
                                        pn,
                                        qn,
                                    ));
                                },
                                _ => {
                                    assert(above(
                                        crate::elementary::spec_pow_abs_bound(mhi, n, false),
                                        pn,
                                        qn,
                                    ));
                                },
                            }
                        },
                        _ => {},
                    }
                }
            } else {
                lemma_powi_encloses_negative(x, rhs, p, q);
            }
        },
        _ => {},
    }
}

/// The negative-exponent half of the integer power enclosure.
proof fn lemma_powi_encloses_negative(x: Interval, rhs: i32, p: int, q: int)
    requires
        x.wf(),
        x is Bounded,
        q > 0,
        x.spec_contains(p, q),
        rhs < 0,
        p != 0,
    ensures
        ({
            let n = (-(rhs as int)) as nat;
            let pn = vstd::arithmetic::power::pow(p, n);
            let qn = vstd::arithmetic::power::pow(q, n);
            let num = if pn > 0 {
                qn
            } else {
                -qn
            };
            let den = if pn > 0 {
                pn
            } else {
                -pn
            };
            crate::elementary::spec_powi(x, rhs).spec_contains(num, den)
        }),
{
    let n = (-(rhs as int)) as nat;
    let pn = vstd::arithmetic::power::pow(p, n);
    let qn = vstd::arithmetic::power::pow(q, n);
    let goal_num = if pn > 0 {
        qn
    } else {
        -qn
    };
    let goal_den = if pn > 0 {
        pn
    } else {
        -pn
    };
    let ap = if p >= 0 {
        p
    } else {
        -p
    };
    lemma_class_facts(x);
    crate::elementary::lemma_pow_exp_mono(q, 0, n);
    crate::elementary::lemma_pow_exp_mono(ap, 0, n);
    crate::elementary::lemma_pow_neg_base(p, n);
    match x {
        Interval::Bounded { lo, hi } => {
            if crate::classify::spec_classify(x) == crate::classify::IntervalClass::Z {
                lemma_point_zero(x, p, q);
            } else if n % 2 == 0 {
                crate::elementary::lemma_abs_sign(x);
                lemma_abs_encloses(x, p, q);
                let m = crate::absmax::spec_abs(x);
                assert(crate::elementary::spec_powi(x, rhs) == (Interval::Bounded {
                    lo: crate::elementary::spec_zero_floored(
                        crate::elementary::spec_recip_pow_bound(m.spec_hi(), n, true),
                    ),
                    hi: crate::elementary::spec_recip_pow_bound(m.spec_lo(), n, false),
                }));
                match m {
                    Interval::Bounded { lo: mlo, hi: mhi } => {
                        match mhi {
                            Bound::Rat { num: pm, den: qm } => {
                                lemma_sign(ap, qm as int);
                                lemma_sign(pm as int, q);
                                assert(qm as int * ap <= q * (pm as int)) by (nonlinear_arith)
                                    requires
                                        ap * (qm as int) <= pm as int * q,
                                ;
                                crate::elementary::lemma_pow_cross(
                                    qm as int,
                                    pm as int,
                                    q,
                                    ap,
                                    n,
                                );
                            },
                            _ => {},
                        }
                        match mlo {
                            Bound::Rat { num: pm, den: qm } => {
                                if pm > 0 {
                                    assert(q * (pm as int) <= qm as int * ap)
                                        by (nonlinear_arith)
                                        requires
                                            pm as int * q <= ap * (qm as int),
                                    ;
                                    crate::elementary::lemma_pow_cross(
                                        q,
                                        ap,
                                        qm as int,
                                        pm as int,
                                        n,
                                    );
                                }
                            },
                            _ => {},
                        }
                    },
                    _ => {},
                }
                assert(crate::elementary::spec_powi(x, rhs).spec_contains(goal_num, goal_den));
            } else {
                match crate::classify::spec_classify(x) {
                    crate::classify::IntervalClass::N0 | crate::classify::IntervalClass::N1 => {
                        lemma_point_le0(hi, p, q);
                        assert(crate::elementary::spec_powi(x, rhs) == (Interval::Bounded {
                            lo: crate::elementary::spec_recip_pow_neg_bound(hi, n, true),
                            hi: crate::elementary::spec_recip_pow_neg_bound(lo, n, false),
                        }));
                        match hi {
                            Bound::Rat { num: ph, den: qh } => {
                                if ph < 0 {
                                    assert(q * (-(ph as int)) <= qh as int * (-p))
                                        by (nonlinear_arith)
                                        requires
                                            p * (qh as int) <= ph as int * q,
                                    ;
                                    crate::elementary::lemma_pow_cross(
                                        q,
                                        -p,
                                        qh as int,
                                        -(ph as int),
                                        n,
                                    );
                                    lemma_mul_facts(
                                        vstd::arithmetic::power::pow(qh as int, n),
                                        vstd::arithmetic::power::pow(-p, n),
                                    );
                                    lemma_mul_facts(
                                        vstd::arithmetic::power::pow(q, n),
                                        vstd::arithmetic::power::pow(-(ph as int), n),
                                    );
                                }
                            },
                            _ => {},
                        }
                        match lo {
                            Bound::Rat { num: pl, den: ql } => {
                                assert(ql as int * (-p) <= q * (-(pl as int)))
                                    by (nonlinear_arith)
                                    requires
                                        pl as int * q <= p * (ql as int),
                                ;
                                crate::elementary::lemma_pow_cross(
                                    ql as int,
                                    -(pl as int),
                                    q,
                                    -p,
                                    n,
                                );
                                lemma_mul_facts(
                                    vstd::arithmetic::power::pow(q, n),
                                    vstd::arithmetic::power::pow(-(pl as int), n),
                                );
                                lemma_mul_facts(
                                    vstd::arithmetic::power::pow(ql as int, n),
                                    vstd::arithmetic::power::pow(-p, n),
                                );
                            },
                            _ => {},
                        }
                        assert(crate::elementary::spec_powi(x, rhs).spec_contains(
                            goal_num,
                            goal_den,
                        ));
                    },
                    crate::classify::IntervalClass::P0 | crate::classify::IntervalClass::P1 => {
                        // the positive classes: the point is positive
                        lemma_point_ge0(lo, p, q);
                        assert(crate::elementary::spec_powi(x, rhs) == (Interval::Bounded {
                            lo: crate::elementary::spec_recip_pow_bound(hi, n, true),
                            hi: crate::elementary::spec_recip_pow_bound(lo, n, false),
                        }));
                        match hi {
                            Bound::Rat { num: ph, den: qh } => {
                                lemma_sign(p, qh as int);
                                lemma_sign(ph as int, q);
                                assert(qh as int * p <= q * (ph as int)) by (nonlinear_arith)
                                    requires
                                        p * (qh as int) <= ph as int * q,
                                ;
                                crate::elementary::lemma_pow_cross(
                                    qh as int,
                                    ph as int,
                                    q,
                                    p,
                                    n,
                                );
                                assert(below(
                                    crate::elementary::spec_recip_pow_bound(hi, n, true),
                                    qn,
                                    pn,
                                ));
                            },
                            _ => {
                                lemma_below_rat01(qn, pn);
                            },
                        }
                        match lo {
                            Bound::Rat { num: pl, den: ql } => {
                                if pl > 0 {
                                    assert(q * (pl as int) <= ql as int * p)
                                        by (nonlinear_arith)
                                        requires
                                            pl as int * q <= p * (ql as int),
                                    ;
                                    crate::elementary::lemma_pow_cross(
                                        q,
                                        p,
                                        ql as int,
                                        pl as int,
                                        n,
                                    );
                                }
                                assert(above(
                                    crate::elementary::spec_recip_pow_bound(lo, n, false),
                                    qn,
                                    pn,
                                ));
                            },
                            _ => {
                                assert(above(
                                    crate::elementary::spec_recip_pow_bound(lo, n, false),
                                    qn,
                                    pn,
                                ));
                            },
                        }
                        assert(crate::elementary::spec_powi(x, rhs).spec_contains(
                            goal_num,
                            goal_den,
                        ));
                    },
                    _ => {},
                }
            }
        },
        _ => {},
    }
}

/// The smaller of two contained points is contained in the minimum of
/// the intervals, and the larger in the maximum.
pub proof fn lemma_min_max_encloses(x: Interval, y: Interval, p: int, q: int, r: int, s: int)
    requires
        x.wf(),
        y.wf(),
        q > 0,
        s > 0,
        x.spec_contains(p, q),
        y.spec_contains(r, s),
    ensures
        ({
            let (mp, mq) = if p * s <= r * q {
                (p, q)
            } else {
                (r, s)
            };
            crate::absmax::spec_min(x, y).spec_contains(mp, mq)
        }),
        ({
            let (mp, mq) = if p * s <= r * q {
                (r, s)
            } else {
                (p, q)
            };
            crate::absmax::spec_max(x, y).spec_contains(mp, mq)
        }),
{
    match (x, y) {
        (Interval::Bounded { lo: a, hi: b }, Interval::Bounded { lo: c, hi: d }) => {
            lemma_min_bound_le(a, c);
            lemma_max_bound_ge(b, d);
            lemma_le_below(spec_min_bound(a, c), a, p, q);
            lemma_le_below(spec_min_bound(a, c), c, r, s);
            lemma_le_above(b, spec_max_bound(b, d), p, q);
            lemma_le_above(d, spec_max_bound(b, d), r, s);
            if p * s <= r * q {
                // the smaller point also lies below the other operand's
                // upper endpoint, and the larger point above the other
                // operand's lower endpoint
                lemma_point_le_trans(d, p, q, r, s);
                lemma_point_ge_trans(a, p, q, r, s);
            } else {
                lemma_point_le_trans(b, r, s, p, q);
                lemma_point_ge_trans(c, r, s, p, q);
            }
        },
        _ => {},
    }
}

/// A bound above the larger of two points is above the smaller one.
proof fn lemma_point_le_trans(v: Bound, p: int, q: int, r: int, s: int)
    requires
        bound_wf(v),
        q > 0,
        s > 0,
        p * s <= r * q,
        above(v, r, s),
    ensures
        above(v, p, q),
{
    match v {
        Bound::Rat { num, den } => {
            assert(p * den <= num * q) by (nonlinear_arith)
                requires
                    q > 0,
                    s > 0,
                    den >= 1,
                    p * s <= r * q,
                    r * den <= num * s,
            ;
        },
        _ => {},
    }
}

/// A bound below the smaller of two points is below the larger one.
proof fn lemma_point_ge_trans(v: Bound, p: int, q: int, r: int, s: int)
    requires
        bound_wf(v),
        q > 0,
        s > 0,
        p * s <= r * q,
        below(v, p, q),
    ensures
        below(v, r, s),
{
    match v {
        Bound::Rat { num, den } => {
            assert(num * s <= r * den) by (nonlinear_arith)
                requires
                    q > 0,
                    s > 0,
                    den >= 1,
                    p * s <= r * q,
                    num * q <= p * den,
            ;
        },
        _ => {},
    }
}

/// The ceiling, nearest integer and integer part of a contained point
/// are contained in the per-endpoint images of the interval.
pub proof fn lemma_int_maps_enclose(x: Interval, p: int, q: int)
    requires
        x.wf(),
        q > 0,
        x.spec_contains(p, q),
    ensures
        crate::integer::spec_map_bounds(
            x,
            crate::integer::spec_ceil_bound(x.spec_lo()),
            crate::integer::spec_ceil_bound(x.spec_hi()),
        ).spec_contains(crate::integer::rat_ceil(p, q), 1),
        crate::integer::spec_map_bounds(
            x,
            crate::integer::spec_round_bound(x.spec_lo()),
            crate::integer::spec_round_bound(x.spec_hi()),
        ).spec_contains(crate::integer::rat_round(p, q), 1),
        crate::integer::spec_map_bounds(
            x,
            crate::integer::spec_trunc_bound(x.spec_lo()),
            crate::integer::spec_trunc_bound(x.spec_hi()),
        ).spec_contains(crate::integer::rat_trunc(p, q), 1),
        crate::integer::spec_map_bounds(
            x,
            crate::integer::spec_round_even_bound(x.spec_lo()),
            crate::integer::spec_round_even_bound(x.spec_hi()),
        ).spec_contains(crate::integer::rat_round_even(p, q), 1),
{
    match x {
        Interval::Bounded { lo, hi } => {
            match lo {
                Bound::Rat { num, den } => {
                    crate::integer::lemma_ceil_mono(num as int, den as int, p, q);
                    crate::integer::lemma_round_mono(num as int, den as int, p, q);
                    crate::integer::lemma_trunc_mono(num as int, den as int, p, q);
                    crate::integer::lemma_round_even_mono(num as int, den as int, p, q);
                    crate::integer::lemma_int_in_range(num as int, den as int);
                },
                _ => {},
            }
            match hi {
                Bound::Rat { num, den } => {
                    crate::integer::lemma_ceil_mono(p, q, num as int, den as int);
                    crate::integer::lemma_round_mono(p, q, num as int, den as int);
                    crate::integer::lemma_trunc_mono(p, q, num as int, den as int);
                    crate::integer::lemma_round_even_mono(p, q, num as int, den as int);
                    crate::integer::lemma_int_in_range(num as int, den as int);
                },
                _ => {},
            }
        },
        _ => {},
    }
}

/// The floor of a contained point is contained in the floor of the
/// interval.
pub proof fn lemma_floor_encloses(x: Interval, p: int, q: int)
    requires
        x.wf(),
        q > 0,
        x.spec_contains(p, q),
    ensures
        crate::integer::spec_map_bounds(
            x,
            crate::integer::spec_floor_bound(x.spec_lo()),
            crate::integer::spec_floor_bound(x.spec_hi()),
        ).spec_contains(crate::integer::rat_floor(p, q), 1),
{
    match x {
        Interval::Bounded { lo, hi } => {
            match lo {
                Bound::Rat { num, den } => {
                    crate::integer::lemma_floor_mono(num as int, den as int, p, q);
                    crate::integer::lemma_floor_in_range(num as int, den as int);
                },
                _ => {},
            }
            match hi {
                Bound::Rat { num, den } => {
                    crate::integer::lemma_floor_mono(p, q, num as int, den as int);
                    crate::integer::lemma_floor_in_range(num as int, den as int);
                },
                _ => {},
            }
        },
        _ => {},
    }
}

} // verus!
