//! The elementary-function engine's decision layer: domain clamps for
//! the inverse functions and logarithms, the monotonic-branch dispatch
//! of the periodic functions, and the sign-table dispatch of the
//! two-argument arctangent and of the power functions.
//!
//! The transcendental point values themselves are not rational, so a
//! caller evaluates them outside this crate; everything that decides
//! which formula applies, on which arguments, and over which clamped
//! domain, is decided and proved here.

use vstd::prelude::*;
use vstd::arithmetic::power::{lemma_pow_positive, pow};
use crate::bound::{bound_le, le, norm_rat, spec_max_bound, spec_neg_bound, Bound};
use crate::classify::{spec_classify, spec_classify2, IntervalClass, IntervalClass2};
use crate::interval::Interval;
use crate::set_op::spec_intersection;

verus! {

/// Powers of nonnegative bases are nonnegative and monotone in the
/// base.
pub(crate) proof fn lemma_pow_base_mono(x: int, y: int, n: nat)
    requires
        0 <= x <= y,
    ensures
        0 <= pow(x, n) <= pow(y, n),
    decreases n,
{
    reveal(pow);
    if n > 0 {
        lemma_pow_base_mono(x, y, (n - 1) as nat);
        assert(x * pow(x, (n - 1) as nat) <= y * pow(y, (n - 1) as nat)) by (nonlinear_arith)
            requires
                0 <= x <= y,
                0 <= pow(x, (n - 1) as nat) <= pow(y, (n - 1) as nat),
        ;
    }
}

/// Powers of bases of at least one are monotone in the exponent.
pub(crate) proof fn lemma_pow_exp_mono(x: int, m: nat, n: nat)
    requires
        x >= 1,
        m <= n,
    ensures
        1 <= pow(x, m) <= pow(x, n),
    decreases n,
{
    reveal(pow);
    if n == 0 {
    } else if m == n {
        lemma_pow_exp_mono(x, (m - 1) as nat, (n - 1) as nat);
        assert(1 <= x * pow(x, (n - 1) as nat)) by (nonlinear_arith)
            requires
                x >= 1,
                pow(x, (n - 1) as nat) >= 1,
        ;
    } else {
        lemma_pow_exp_mono(x, m, (n - 1) as nat);
        assert(pow(x, (n - 1) as nat) <= x * pow(x, (n - 1) as nat)) by (nonlinear_arith)
            requires
                x >= 1,
                pow(x, (n - 1) as nat) >= 1,
        ;
    }
}

/// The magnitude power `(p / q)^n` of a nonnegative rational, widened
/// outward when it is unrepresentable.
pub open spec fn spec_pow_mag(p: int, q: int, n: nat, down: bool) -> Bound {
    norm_rat(pow(p, n), pow(q, n), down)
}

/// Computes `(p / q)^n` for a nonnegative rational base, exactly when
/// the power is representable and widened outward otherwise.
fn pow_mag(p: u64, q: u64, n: u32, down: bool) -> (r: Bound)
    requires
        p <= 0x7fff_ffff_ffff_ffff,
        1 <= q <= 0x7fff_ffff_ffff_ffff,
        n >= 1,
    ensures
        r == spec_pow_mag(p as int, q as int, n as nat, down),
        crate::bound::bound_wf(r),
{
    let mut i: u32 = 0;
    let mut np: u128 = 1;
    let mut dq: u128 = 1;
    proof {
        vstd::arithmetic::power::lemma_pow0(p as int);
        vstd::arithmetic::power::lemma_pow0(q as int);
    }
    while i < n
        invariant
            i <= n,
            p <= 0x7fff_ffff_ffff_ffff,
            1 <= q <= 0x7fff_ffff_ffff_ffff,
            n >= 1,
            np == pow(p as int, i as nat),
            dq == pow(q as int, i as nat),
            np <= 0x7fff_ffff_ffff_ffff,
            1 <= dq <= 0x7fff_ffff_ffff_ffff,
        decreases n - i,
    {
        proof {
            lemma_pow_positive(q as int, i as nat);
            assert(np * p <= 0x7fff_ffff_ffff_ffff * 0x7fff_ffff_ffff_ffff
                && dq * q <= 0x7fff_ffff_ffff_ffff * 0x7fff_ffff_ffff_ffff
                && 1 * 1 <= dq * q) by (nonlinear_arith)
                requires
                    np <= 0x7fff_ffff_ffff_ffff,
                    p <= 0x7fff_ffff_ffff_ffff,
                    1 <= dq <= 0x7fff_ffff_ffff_ffff,
                    1 <= q <= 0x7fff_ffff_ffff_ffff,
            ;
            assert(pow(p as int, (i + 1) as nat) == pow(p as int, i as nat) * p
                && pow(q as int, (i + 1) as nat) == pow(q as int, i as nat) * q) by {
                vstd::arithmetic::power::lemma_pow1(p as int);
                vstd::arithmetic::power::lemma_pow1(q as int);
                vstd::arithmetic::power::lemma_pow_adds(p as int, i as nat, 1);
                vstd::arithmetic::power::lemma_pow_adds(q as int, i as nat, 1);
            }
        }
        let np2: u128 = np * (p as u128);
        let dq2: u128 = dq * (q as u128);
        if np2 > 0x7fff_ffff_ffff_ffff || dq2 > 0x7fff_ffff_ffff_ffff {
            proof {
                // the power only grows from here, so the final value
                // cannot be representable either
                if np2 > 0x7fff_ffff_ffff_ffff {
                    assert(p >= 1) by (nonlinear_arith)
                        requires
                            np2 == np * p,
                            np <= 0x7fff_ffff_ffff_ffff,
                            np2 > 0x7fff_ffff_ffff_ffff,
                            p >= 0,
                    ;
                    lemma_pow_exp_mono(p as int, (i + 1) as nat, n as nat);
                }
                if dq2 > 0x7fff_ffff_ffff_ffff {
                    lemma_pow_exp_mono(q as int, (i + 1) as nat, n as nat);
                }
            }
            return if down {
                Bound::NegInf
            } else {
                Bound::PosInf
            };
        }
        np = np2;
        dq = dq2;
        i = i + 1;
    }
    proof {
        lemma_pow_base_mono(0, p as int, n as nat);
    }
    Bound::Rat { num: np as i64, den: dq as i64 }
}

/// The signed power of an endpoint, for odd exponents: the sign of the
/// base is kept, and widening stays outward through the sign change.
pub open spec fn spec_pow_odd_bound(b: Bound, n: nat, down: bool) -> Bound {
    match b {
        Bound::NegInf => Bound::NegInf,
        Bound::PosInf => Bound::PosInf,
        Bound::Rat { num, den } => if num >= 0 {
            spec_pow_mag(num as int, den as int, n, down)
        } else {
            spec_neg_bound(spec_pow_mag(-(num as int), den as int, n, !down))
        },
    }
}

/// The power of a nonnegative endpoint, for the even exponents routed
/// through the absolute value.
pub open spec fn spec_pow_abs_bound(b: Bound, n: nat, down: bool) -> Bound {
    match b {
        Bound::NegInf => Bound::NegInf,
        Bound::PosInf => Bound::PosInf,
        Bound::Rat { num, den } => spec_pow_mag(num as int, den as int, n, down),
    }
}

/// The reciprocal power `1 / b^n` of a nonnegative endpoint: an
/// infinite base gives zero, a zero base gives the pole, widened in the
/// direction the caller asks for.
pub open spec fn spec_recip_pow_bound(b: Bound, n: nat, down: bool) -> Bound {
    match b {
        Bound::NegInf => Bound::Rat { num: 0, den: 1 },
        Bound::PosInf => Bound::Rat { num: 0, den: 1 },
        Bound::Rat { num, den } => if num == 0 {
            crate::bound::widened(down)
        } else {
            spec_pow_mag(den as int, num as int, n, down)
        },
    }
}

/// The reciprocal power `1 / b^n` of a nonpositive endpoint under an
/// odd exponent: the result keeps the negative sign, a zero base gives
/// the pole.
pub open spec fn spec_recip_pow_neg_bound(b: Bound, n: nat, down: bool) -> Bound {
    match b {
        Bound::NegInf => Bound::Rat { num: 0, den: 1 },
        Bound::PosInf => Bound::Rat { num: 0, den: 1 },
        Bound::Rat { num, den } => if num == 0 {
            crate::bound::widened(down)
        } else {
            spec_neg_bound(spec_pow_mag(den as int, -(num as int), n, !down))
        },
    }
}

/// Replaces a lower endpoint that widening dropped to minus infinity
/// by zero.  An even power is never negative, so its lower endpoint may
/// fall back to zero instead of minus infinity when the exact power is
/// unrepresentable: equally sound, and strictly tighter.
pub open spec fn spec_zero_floored(b: Bound) -> Bound {
    if b is NegInf {
        Bound::Rat { num: 0, den: 1 }
    } else {
        b
    }
}

/// Applies the zero floor of an even power's lower endpoint.
fn zero_floor(b: Bound) -> (r: Bound)
    requires
        crate::bound::bound_wf(b),
    ensures
        r == spec_zero_floored(b),
        crate::bound::bound_wf(r),
{
    match b {
        Bound::NegInf => Bound::Rat { num: 0, den: 1 },
        _ => b,
    }
}

/// The integer power table: empty propagates; the zero exponent gives
/// the single point one; positive even exponents route through the
/// absolute value, their lower endpoint floored at zero when widened;
/// positive odd exponents keep the endpoint order and signs; negative
/// exponents invert, with the point zero base rejected as empty, a base
/// straddling zero under an odd exponent giving the whole line, and a
/// base touching zero opening the matching endpoint to infinity.
pub open spec fn spec_powi(x: Interval, rhs: i32) -> Interval {
    let n = (if rhs >= 0 {
        rhs as int
    } else {
        -(rhs as int)
    }) as nat;
    match x {
        Interval::Empty => Interval::Empty,
        Interval::Bounded { lo, hi } => {
            if rhs == 0 {
                Interval::Bounded {
                    lo: Bound::Rat { num: 1, den: 1 },
                    hi: Bound::Rat { num: 1, den: 1 },
                }
            } else if rhs > 0 {
                if n % 2 == 0 {
                    let m = crate::absmax::spec_abs(x);
                    Interval::Bounded {
                        lo: spec_zero_floored(spec_pow_abs_bound(m.spec_lo(), n, true)),
                        hi: spec_pow_abs_bound(m.spec_hi(), n, false),
                    }
                } else {
                    Interval::Bounded {
                        lo: spec_pow_odd_bound(lo, n, true),
                        hi: spec_pow_odd_bound(hi, n, false),
                    }
                }
            } else {
                if spec_classify(x) == IntervalClass::Z {
                    Interval::Empty
                } else if n % 2 == 0 {
                    let m = crate::absmax::spec_abs(x);
                    Interval::Bounded {
                        lo: spec_zero_floored(spec_recip_pow_bound(m.spec_hi(), n, true)),
                        hi: spec_recip_pow_bound(m.spec_lo(), n, false),
                    }
                } else {
                    match spec_classify(x) {
                        IntervalClass::M => crate::arith::spec_entire(),
                        IntervalClass::N0 | IntervalClass::N1 => Interval::Bounded {
                            lo: spec_recip_pow_neg_bound(hi, n, true),
                            hi: spec_recip_pow_neg_bound(lo, n, false),
                        },
                        _ => Interval::Bounded {
                            lo: spec_recip_pow_bound(hi, n, true),
                            hi: spec_recip_pow_bound(lo, n, false),
                        },
                    }
                }
            }
        },
    }
}

/// Powers distribute over the cross-multiplied comparison of
/// nonnegative rationals.
pub(crate) proof fn lemma_pow_cross(p1: int, q1: int, p2: int, q2: int, n: nat)
    requires
        q1 >= 1,
        q2 >= 1,
        0 <= p1,
        p1 * q2 <= p2 * q1,
    ensures
        pow(p1, n) * pow(q2, n) <= pow(p2, n) * pow(q1, n),
        0 <= pow(p1, n),
        1 <= pow(q1, n),
        1 <= pow(q2, n),
{
    crate::bound::lemma_sign(p1, q2);
    lemma_pow_base_mono(0, p1 * q2, n);
    lemma_pow_base_mono(p1 * q2, p2 * q1, n);
    vstd::arithmetic::power::lemma_pow_distributes(p1, q2, n);
    vstd::arithmetic::power::lemma_pow_distributes(p2, q1, n);
    lemma_pow_exp_mono(q1, 0, n);
    lemma_pow_exp_mono(q2, 0, n);
    lemma_pow_base_mono(0, p1, n);
}

/// Computes the signed odd power of an endpoint.
fn pow_odd_bound(b: Bound, n: u32, down: bool) -> (r: Bound)
    requires
        crate::bound::bound_wf(b),
        n >= 1,
    ensures
        r == spec_pow_odd_bound(b, n as nat, down),
        crate::bound::bound_wf(r),
{
    match b {
        Bound::NegInf => Bound::NegInf,
        Bound::PosInf => Bound::PosInf,
        Bound::Rat { num, den } => {
            if num >= 0 {
                pow_mag(num as u64, den as u64, n, down)
            } else {
                crate::bound::neg_bound(pow_mag((-num) as u64, den as u64, n, !down))
            }
        },
    }
}

/// Computes the power of a nonnegative endpoint.
fn pow_abs_bound(b: Bound, n: u32, down: bool) -> (r: Bound)
    requires
        crate::bound::bound_wf(b),
        !crate::bound::bound_is_neg(b),
        n >= 1,
    ensures
        r == spec_pow_abs_bound(b, n as nat, down),
        crate::bound::bound_wf(r),
{
    match b {
        Bound::NegInf => Bound::NegInf,
        Bound::PosInf => Bound::PosInf,
        Bound::Rat { num, den } => pow_mag(num as u64, den as u64, n, down),
    }
}

/// Computes the reciprocal power of a nonnegative endpoint.
fn recip_pow_bound(b: Bound, n: u32, down: bool) -> (r: Bound)
    requires
        crate::bound::bound_wf(b),
        !crate::bound::bound_is_neg(b),
        n >= 1,
    ensures
        r == spec_recip_pow_bound(b, n as nat, down),
        crate::bound::bound_wf(r),
{
    match b {
        Bound::NegInf => Bound::Rat { num: 0, den: 1 },
        Bound::PosInf => Bound::Rat { num: 0, den: 1 },
        Bound::Rat { num, den } => {
            if num == 0 {
                if down {
                    Bound::NegInf
                } else {
                    Bound::PosInf
                }
            } else {
                pow_mag(den as u64, num as u64, n, down)
            }
        },
    }
}

/// Computes the reciprocal power of a nonpositive endpoint under an odd
/// exponent.
fn recip_pow_neg_bound(b: Bound, n: u32, down: bool) -> (r: Bound)
    requires
        crate::bound::bound_wf(b),
        !crate::bound::bound_is_pos(b),
        n >= 1,
    ensures
        r == spec_recip_pow_neg_bound(b, n as nat, down),
        crate::bound::bound_wf(r),
{
    match b {
        Bound::NegInf => Bound::Rat { num: 0, den: 1 },
        Bound::PosInf => Bound::Rat { num: 0, den: 1 },
        Bound::Rat { num, den } => {
            if num == 0 {
                if down {
                    Bound::NegInf
                } else {
                    Bound::PosInf
                }
            } else {
                crate::bound::neg_bound(pow_mag(den as u64, (-num) as u64, n, !down))
            }
        },
    }
}

/// Ordered endpoints keep their order under the signed odd power.
proof fn lemma_pow_odd_le(lo: Bound, hi: Bound, n: nat)
    requires
        crate::bound::bound_wf(lo),
        crate::bound::bound_wf(hi),
        bound_le(lo, hi),
    ensures
        bound_le(spec_pow_odd_bound(lo, n, true), spec_pow_odd_bound(hi, n, false)),
{
    match (lo, hi) {
        (Bound::Rat { num: p1, den: q1 }, Bound::Rat { num: p2, den: q2 }) => {
            crate::bound::lemma_sign(p1 as int, q2 as int);
            crate::bound::lemma_sign(p2 as int, q1 as int);
            if p1 >= 0 {
                lemma_pow_cross(p1 as int, q1 as int, p2 as int, q2 as int, n);
            } else if p2 < 0 {
                assert((-(p2 as int)) * (q1 as int) <= (-(p1 as int)) * (q2 as int))
                    by (nonlinear_arith)
                    requires
                        p1 as int * (q2 as int) <= p2 as int * (q1 as int),
                ;
                let x_up = spec_pow_mag(-(p1 as int), q1 as int, n, false);
                let y_dn = spec_pow_mag(-(p2 as int), q2 as int, n, true);
                lemma_pow_cross(-(p2 as int), q2 as int, -(p1 as int), q1 as int, n);
                crate::bound::lemma_bound_neg_le(y_dn, x_up);
            } else {
                // the base interval straddles zero: the lower power is
                // nonpositive and the upper power nonnegative
                let x_up = spec_pow_mag(-(p1 as int), q1 as int, n, false);
                let upper = spec_pow_mag(p2 as int, q2 as int, n, false);
                lemma_pow_base_mono(0, -(p1 as int), n);
                lemma_pow_base_mono(0, p2 as int, n);
                lemma_pow_exp_mono(q1 as int, 0, n);
                lemma_pow_exp_mono(q2 as int, 0, n);
                let zero = Bound::Rat { num: 0i64, den: 1i64 };
                assert(spec_neg_bound(zero) == zero);
                crate::bound::lemma_bound_neg_le(zero, x_up);
                crate::bound::lemma_bound_le_trans(spec_neg_bound(x_up), zero, upper);
            }
        },
        _ => {},
    }
}

/// Ordered nonnegative endpoints keep their order under the power.
proof fn lemma_pow_abs_le(lo: Bound, hi: Bound, n: nat)
    requires
        crate::bound::bound_wf(lo),
        crate::bound::bound_wf(hi),
        bound_le(lo, hi),
        !crate::bound::bound_is_neg(lo),
        !crate::bound::bound_is_neg(hi),
    ensures
        bound_le(spec_pow_abs_bound(lo, n, true), spec_pow_abs_bound(hi, n, false)),
{
    match (lo, hi) {
        (Bound::Rat { num: p1, den: q1 }, Bound::Rat { num: p2, den: q2 }) => {
            lemma_pow_cross(p1 as int, q1 as int, p2 as int, q2 as int, n);
        },
        _ => {},
    }
}

/// Ordered positive endpoints reverse their order under the reciprocal
/// power.
proof fn lemma_recip_pow_le(lo: Bound, hi: Bound, n: nat)
    requires
        crate::bound::bound_wf(lo),
        crate::bound::bound_wf(hi),
        bound_le(lo, hi),
        !crate::bound::bound_is_neg(lo),
        !crate::bound::bound_is_neg(hi),
    ensures
        bound_le(spec_recip_pow_bound(hi, n, true), spec_recip_pow_bound(lo, n, false)),
{
    match (lo, hi) {
        (Bound::Rat { num: p1, den: q1 }, Bound::Rat { num: p2, den: q2 }) => {
            crate::bound::lemma_sign(p1 as int, q2 as int);
            crate::bound::lemma_sign(p2 as int, q1 as int);
            if p1 > 0 {
                assert(q2 as int * (p1 as int) <= q1 as int * (p2 as int)) by (nonlinear_arith)
                    requires
                        p1 as int * (q2 as int) <= p2 as int * (q1 as int),
                ;
                lemma_pow_cross(q2 as int, p2 as int, q1 as int, p1 as int, n);
            } else {
                // the lower operand is zero: its reciprocal power is the
                // upper infinity; the lower side, if exact, is positive
                if p2 > 0 {
                    lemma_pow_base_mono(0, q2 as int, n);
                    lemma_pow_exp_mono(p2 as int, 0, n);
                }
            }
        },
        (Bound::Rat { num: p1, den: q1 }, Bound::PosInf) => {
            if p1 > 0 {
                lemma_pow_base_mono(0, q1 as int, n);
                lemma_pow_exp_mono(p1 as int, 0, n);
            }
        },
        _ => {},
    }
}

/// Ordered nonpositive endpoints reverse their order under the
/// reciprocal power with an odd exponent.
proof fn lemma_recip_pow_neg_le(lo: Bound, hi: Bound, n: nat)
    requires
        crate::bound::bound_wf(lo),
        crate::bound::bound_wf(hi),
        bound_le(lo, hi),
        !crate::bound::bound_is_pos(lo),
        !crate::bound::bound_is_pos(hi),
    ensures
        bound_le(spec_recip_pow_neg_bound(hi, n, true), spec_recip_pow_neg_bound(lo, n, false)),
{
    match (lo, hi) {
        (Bound::Rat { num: p1, den: q1 }, Bound::Rat { num: p2, den: q2 }) => {
            if p2 < 0 {
                assert(q1 as int * (-(p2 as int)) <= q2 as int * (-(p1 as int))
                    && -(p1 as int) >= 1) by (nonlinear_arith)
                    requires
                        p1 as int * (q2 as int) <= p2 as int * (q1 as int),
                        p2 < 0,
                        q1 >= 1,
                        q2 >= 1,
                ;
                let x_up = spec_pow_mag(q2 as int, -(p2 as int), n, false);
                let y_dn = spec_pow_mag(q1 as int, -(p1 as int), n, true);
                lemma_pow_cross(q1 as int, -(p1 as int), q2 as int, -(p2 as int), n);
                crate::bound::lemma_bound_neg_le(y_dn, x_up);
            } else if p1 < 0 {
                // the upper operand is zero: the lower endpoint falls to
                // minus infinity; the upper side, if exact, is negative
                let x_up = spec_pow_mag(q1 as int, -(p1 as int), n, true);
                lemma_pow_base_mono(0, q1 as int, n);
                lemma_pow_exp_mono(-(p1 as int), 0, n);
                let zero = Bound::Rat { num: 0i64, den: 1i64 };
                assert(spec_neg_bound(zero) == zero);
                crate::bound::lemma_bound_neg_le(zero, x_up);
            }
        },
        (Bound::NegInf, Bound::Rat { num: p2, den: q2 }) => {
            if p2 < 0 {
                let x_up = spec_pow_mag(q2 as int, -(p2 as int), n, false);
                lemma_pow_base_mono(0, q2 as int, n);
                lemma_pow_exp_mono(-(p2 as int), 0, n);
                let zero = Bound::Rat { num: 0i64, den: 1i64 };
                assert(spec_neg_bound(zero) == zero);
                crate::bound::lemma_bound_neg_le(zero, x_up);
            }
        },
        _ => {},
    }
}

/// The upper power of a nonnegative endpoint lies above zero.
proof fn lemma_pow_abs_up_nonneg(b: Bound, n: nat)
    requires
        crate::bound::bound_wf(b),
        !crate::bound::bound_is_neg(b),
    ensures
        bound_le(Bound::Rat { num: 0, den: 1 }, spec_pow_abs_bound(b, n, false)),
{
    match b {
        Bound::Rat { num, den } => {
            lemma_pow_base_mono(0, num as int, n);
            lemma_pow_exp_mono(den as int, 0, n);
        },
        _ => {},
    }
}

/// The upper reciprocal power of a nonnegative endpoint lies above
/// zero.
proof fn lemma_recip_pow_up_nonneg(b: Bound, n: nat)
    requires
        crate::bound::bound_wf(b),
        !crate::bound::bound_is_neg(b),
    ensures
        bound_le(Bound::Rat { num: 0, den: 1 }, spec_recip_pow_bound(b, n, false)),
{
    match b {
        Bound::Rat { num, den } => {
            if num > 0 {
                lemma_pow_base_mono(0, den as int, n);
                lemma_pow_exp_mono(num as int, 0, n);
            }
        },
        _ => {},
    }
}

/// The lower endpoint of the even power table is never negative.
proof fn lemma_pow_abs_low_nonneg(b: Bound, n: nat)
    requires
        crate::bound::bound_wf(b),
        !crate::bound::bound_is_neg(b),
    ensures
        !crate::bound::bound_is_neg(spec_zero_floored(spec_pow_abs_bound(b, n, true))),
{
    match b {
        Bound::Rat { num, den } => {
            lemma_pow_base_mono(0, num as int, n);
            lemma_pow_exp_mono(den as int, 0, n);
        },
        _ => {},
    }
}

/// The lower endpoint of the even reciprocal power table is never
/// negative.
proof fn lemma_recip_pow_low_nonneg(b: Bound, n: nat)
    requires
        crate::bound::bound_wf(b),
        !crate::bound::bound_is_neg(b),
    ensures
        !crate::bound::bound_is_neg(spec_zero_floored(spec_recip_pow_bound(b, n, true))),
{
    match b {
        Bound::Rat { num, den } => {
            if num > 0 {
                lemma_pow_base_mono(0, den as int, n);
                lemma_pow_exp_mono(num as int, 0, n);
            }
        },
        _ => {},
    }
}

/// Negating the base flips the sign of odd powers and leaves even
/// powers unchanged.
pub(crate) proof fn lemma_pow_neg_base(p: int, n: nat)
    ensures
        n % 2 == 1 ==> pow(-p, n) == -pow(p, n),
        n % 2 == 0 ==> pow(-p, n) == pow(p, n),
    decreases n,
{
    reveal(pow);
    if n > 0 {
        lemma_pow_neg_base(p, (n - 1) as nat);
        if n % 2 == 1 {
            assert((-p) * pow(p, (n - 1) as nat) == -(p * pow(p, (n - 1) as nat)))
                by (nonlinear_arith);
        } else {
            assert((-p) * (-pow(p, (n - 1) as nat)) == p * pow(p, (n - 1) as nat))
                by (nonlinear_arith);
        }
    }
}

/// Negating twice gives the endpoint back.
proof fn lemma_neg_neg_bound(v: Bound)
    requires
        crate::bound::bound_wf(v),
    ensures
        spec_neg_bound(spec_neg_bound(v)) == v,
{
}

/// The signed odd power commutes with negation, the widening direction
/// flipping along.
proof fn lemma_pow_odd_neg_bound(b: Bound, n: nat, down: bool)
    requires
        crate::bound::bound_wf(b),
        n >= 1,
    ensures
        spec_pow_odd_bound(spec_neg_bound(b), n, down) == spec_neg_bound(
            spec_pow_odd_bound(b, n, !down),
        ),
{
    match b {
        Bound::Rat { num, den } => {
            if num == 0 {
                vstd::arithmetic::power::lemma0_pow(n);
            } else if num < 0 {
                lemma_neg_neg_bound(spec_pow_mag(-(num as int), den as int, n, down));
            }
        },
        _ => {},
    }
}

/// The reciprocal power of a negated nonpositive endpoint is the
/// negated reciprocal power, the widening direction flipping along.
proof fn lemma_recip_neg_bound(b: Bound, n: nat, down: bool)
    requires
        crate::bound::bound_wf(b),
        !crate::bound::bound_is_pos(b),
        n >= 1,
    ensures
        spec_recip_pow_bound(spec_neg_bound(b), n, down) == spec_neg_bound(
            spec_recip_pow_neg_bound(b, n, !down),
        ),
{
    match b {
        Bound::Rat { num, den } => {
            if num < 0 {
                lemma_neg_neg_bound(spec_pow_mag(den as int, -(num as int), n, down));
            }
        },
        _ => {},
    }
}

/// The mirrored identity for nonnegative endpoints.
proof fn lemma_recip_pos_neg_bound(b: Bound, n: nat, down: bool)
    requires
        crate::bound::bound_wf(b),
        !crate::bound::bound_is_neg(b),
        n >= 1,
    ensures
        spec_recip_pow_neg_bound(spec_neg_bound(b), n, down) == spec_neg_bound(
            spec_recip_pow_bound(b, n, !down),
        ),
{
}

/// The odd-power antisymmetry law: for odd exponents, raising the
/// mirror image is the mirror image of raising, exactly, widening
/// included.
pub proof fn lemma_powi_odd_neg(x: Interval, rhs: i32)
    requires
        x.wf(),
    ensures
        ({
            let n = (if rhs >= 0 {
                rhs as int
            } else {
                -(rhs as int)
            }) as nat;
            n % 2 == 1 ==> spec_powi(crate::arith::spec_neg(x), rhs) == crate::arith::spec_neg(
                spec_powi(x, rhs),
            )
        }),
{
    let n = (if rhs >= 0 {
        rhs as int
    } else {
        -(rhs as int)
    }) as nat;
    if n % 2 == 1 {
        crate::arith::lemma_neg_wf(x);
        crate::arith::lemma_classify_neg(x);
        crate::classify::lemma_class_facts(x);
        match x {
            Interval::Bounded { lo, hi } => {
                if rhs > 0 {
                    lemma_pow_odd_neg_bound(hi, n, true);
                    lemma_pow_odd_neg_bound(lo, n, false);
                } else {
                    match crate::classify::spec_classify(x) {
                        IntervalClass::N0 | IntervalClass::N1 => {
                            lemma_recip_neg_bound(lo, n, true);
                            lemma_recip_neg_bound(hi, n, false);
                        },
                        IntervalClass::P0 | IntervalClass::P1 => {
                            lemma_recip_pos_neg_bound(lo, n, true);
                            lemma_recip_pos_neg_bound(hi, n, false);
                        },
                        _ => {},
                    }
                }
            },
            _ => {},
        }
    }
}

/// An even power has no negative points, so its interval never has a
/// negative lower endpoint: the zero exponent gives one, and every
/// other even exponent routes through the absolute value, whose powers
/// are floored at zero when widening loses the exact value.
pub proof fn lemma_powi_even_sign(x: Interval, rhs: i32)
    requires
        x.wf(),
    ensures
        ({
            let n = (if rhs >= 0 {
                rhs as int
            } else {
                -(rhs as int)
            }) as nat;
            (n % 2 == 0 && !(spec_powi(x, rhs) is Empty)) ==> !crate::bound::bound_is_neg(
                spec_powi(x, rhs).spec_lo(),
            )
        }),
{
    let n = (if rhs >= 0 {
        rhs as int
    } else {
        -(rhs as int)
    }) as nat;
    match x {
        Interval::Bounded { lo, hi } => {
            if n % 2 == 0 && rhs != 0 {
                lemma_abs_sign(x);
                let m = crate::absmax::spec_abs(x);
                if rhs > 0 {
                    lemma_pow_abs_low_nonneg(m.spec_lo(), n);
                } else {
                    lemma_recip_pow_low_nonneg(m.spec_hi(), n);
                }
            }
        },
        _ => {},
    }
}

/// The absolute value of a nonempty interval is a valid interval with
/// nonnegative endpoints.
pub(crate) proof fn lemma_abs_sign(x: Interval)
    requires
        x.wf(),
        !(x is Empty),
    ensures
        !crate::bound::bound_is_neg(crate::absmax::spec_abs(x).spec_lo()),
        !crate::bound::bound_is_neg(crate::absmax::spec_abs(x).spec_hi()),
        !(crate::absmax::spec_abs(x) is Empty),
        crate::absmax::spec_abs(x).wf(),
{
    crate::classify::lemma_class_facts(x);
    match x {
        Interval::Bounded { lo, hi } => {
            if crate::classify::spec_classify(x) == IntervalClass::M {
                crate::bound::lemma_max_bound_ge(spec_neg_bound(lo), hi);
                match hi {
                    Bound::Rat { num, den } => {
                        crate::bound::lemma_sign(num as int, 1);
                    },
                    _ => {},
                }
                crate::bound::lemma_bound_le_trans(
                    Bound::Rat { num: 0, den: 1 },
                    hi,
                    spec_max_bound(spec_neg_bound(lo), hi),
                );
            } else if crate::classify::spec_classify(x) == IntervalClass::N0
                || crate::classify::spec_classify(x) == IntervalClass::N1 {
                crate::bound::lemma_bound_neg_le(lo, hi);
            }
        },
        _ => {},
    }
}

impl Interval {
    /// Returns `self` raised to the integer power `rhs`: the zero
    /// exponent gives the single point one; even exponents route
    /// through the absolute value, with a lower endpoint that falls
    /// back to zero rather than minus infinity when widening loses the
    /// exact power; negative exponents invert, the point zero base
    /// having no value, a base straddling zero under an odd exponent
    /// giving the whole line, and a base touching zero opening the
    /// matching endpoint to infinity.
    pub fn powi(self, rhs: i32) -> (r: Interval)
        requires
            self.wf(),
        ensures
            r == spec_powi(self, rhs),
            r.wf(),
    {
        let n: u32 = if rhs >= 0 {
            rhs as u32
        } else {
            (-(rhs as i64)) as u32
        };
        match self {
            Interval::Empty => Interval::Empty,
            Interval::Bounded { lo, hi } => {
                proof {
                    crate::classify::lemma_class_facts(self);
                }
                if rhs == 0 {
                    Interval::Bounded {
                        lo: Bound::Rat { num: 1, den: 1 },
                        hi: Bound::Rat { num: 1, den: 1 },
                    }
                } else if rhs > 0 {
                    if n % 2 == 0 {
                        let m = self.abs();
                        proof {
                            lemma_abs_sign(self);
                        }
                        match m {
                            Interval::Bounded { lo: alo, hi: ahi } => {
                                proof {
                                    lemma_pow_abs_le(alo, ahi, n as nat);
                                    lemma_pow_abs_up_nonneg(ahi, n as nat);
                                }
                                Interval::Bounded {
                                    lo: zero_floor(pow_abs_bound(alo, n, true)),
                                    hi: pow_abs_bound(ahi, n, false),
                                }
                            },
                            Interval::Empty => Interval::Empty,
                        }
                    } else {
                        proof {
                            lemma_pow_odd_le(lo, hi, n as nat);
                        }
                        Interval::Bounded {
                            lo: pow_odd_bound(lo, n, true),
                            hi: pow_odd_bound(hi, n, false),
                        }
                    }
                } else {
                    let cls = self.classify();
                    if matches!(cls, IntervalClass::Z) {
                        Interval::Empty
                    } else if n % 2 == 0 {
                        let m = self.abs();
                        proof {
                            lemma_abs_sign(self);
                        }
                        match m {
                            Interval::Bounded { lo: alo, hi: ahi } => {
                                proof {
                                    lemma_recip_pow_le(alo, ahi, n as nat);
                                    lemma_recip_pow_up_nonneg(alo, n as nat);
                                }
                                Interval::Bounded {
                                    lo: zero_floor(recip_pow_bound(ahi, n, true)),
                                    hi: recip_pow_bound(alo, n, false),
                                }
                            },
                            Interval::Empty => Interval::Empty,
                        }
                    } else {
                        match cls {
                            IntervalClass::M => Interval::entire(),
                            IntervalClass::N0 | IntervalClass::N1 => {
                                proof {
                                    lemma_recip_pow_neg_le(lo, hi, n as nat);
                                }
                                Interval::Bounded {
                                    lo: recip_pow_neg_bound(hi, n, true),
                                    hi: recip_pow_neg_bound(lo, n, false),
                                }
                            },
                            _ => {
                                proof {
                                    lemma_recip_pow_le(lo, hi, n as nat);
                                }
                                Interval::Bounded {
                                    lo: recip_pow_bound(hi, n, true),
                                    hi: recip_pow_bound(lo, n, false),
                                }
                            },
                        }
                    }
                }
            },
        }
    }
}

/// The numerators of the rational enclosure of pi / 2 over the
/// denominator `10^15`, shared by the period-index computations.
pub open spec fn half_pi_lo_num() -> int {
    1_570_796_326_794_896
}

pub open spec fn half_pi_hi_num() -> int {
    1_570_796_326_794_897
}

/// The numerators of the rational enclosure of pi over `10^15`.
pub open spec fn pi_lo_num() -> int {
    3_141_592_653_589_793
}

pub open spec fn pi_hi_num() -> int {
    3_141_592_653_589_794
}

/// The floor of `(p / q) / (dn / dd)`: the Euclidean quotient of the
/// cross products.
pub open spec fn spec_floor_quot(p: int, q: int, dn: int, dd: int) -> int {
    (p * dd) / (q * dn)
}

/// Computes the Euclidean quotient of wide integers, the divisor
/// positive.
fn div_floor_wide(n: i128, d: i128) -> (r: i128)
    requires
        -0x4000_0000_0000_0000_0000_0000_0000_0000 <= n
            <= 0x4000_0000_0000_0000_0000_0000_0000_0000,
        1 <= d <= 0x4000_0000_0000_0000_0000_0000_0000_0000,
    ensures
        r == n as int / d as int,
{
    if n >= 0 {
        let t: u128 = (n as u128) / (d as u128);
        proof {
            vstd::arithmetic::div_mod::lemma_fundamental_div_mod(n as int, d as int);
            assert(0 <= n as int / d as int <= n) by (nonlinear_arith)
                requires
                    d >= 1,
                    n >= 0,
                    n == d * (n as int / d as int) + n as int % d as int,
                    0 <= n as int % d as int,
                    (n as int % d as int) < d,
            ;
        }
        t as i128
    } else {
        let m: u128 = (-n) as u128;
        let t: u128 = (m + (d as u128) - 1) / (d as u128);
        proof {
            let mi = m as int;
            let di = d as int;
            let ti = (mi + di - 1) / di;
            vstd::arithmetic::div_mod::lemma_fundamental_div_mod(mi + di - 1, di);
            let ri = (mi + di - 1) % di;
            assert(n as int == di * (-ti) + (di - 1 - ri)) by (nonlinear_arith)
                requires
                    n as int == -mi,
                    mi + di - 1 == di * ti + ri,
            ;
            vstd::arithmetic::div_mod::lemma_fundamental_div_mod_converse(
                n as int,
                di,
                -ti,
                di - 1 - ri,
            );
            assert(ti <= mi) by (nonlinear_arith)
                requires
                    mi >= 1,
                    di >= 1,
                    ti >= 0,
                    mi + di - 1 == di * ti + ri,
                    0 <= ri,
            ;
        }
        -(t as i128)
    }
}

/// Quotients by a divisor of at least one keep within the magnitude of
/// the dividend's numerator.
proof fn lemma_floor_quot_range(p: int, q: int, dn: int, dd: int)
    requires
        -0x7fff_ffff_ffff_ffff <= p <= 0x7fff_ffff_ffff_ffff,
        1 <= q,
        1 <= dd <= dn,
    ensures
        -0x7fff_ffff_ffff_ffff <= spec_floor_quot(p, q, dn, dd) <= 0x7fff_ffff_ffff_ffff,
{
    let top: int = 0x7fff_ffff_ffff_ffff;
    let n = p * dd;
    let d = q * dn;
    crate::bound::lemma_sign(q, dn);
    assert(-top * d <= n <= top * d) by (nonlinear_arith)
        requires
            -top <= p <= top,
            1 <= q,
            1 <= dd <= dn,
            n == p * dd,
            d == q * dn,
    ;
    vstd::arithmetic::div_mod::lemma_fundamental_div_mod(n, d);
    assert(-top <= n / d <= top) by (nonlinear_arith)
        requires
            d >= 1,
            -top * d <= n <= top * d,
            n == d * (n / d) + n % d,
            0 <= n % d,
            (n % d) < d,
    ;
}

/// Computes `floor((p / q) / (dn / dd))` for a rational divisor of at
/// least one.
fn floor_quot(p: i64, q: i64, dn: i64, dd: i64) -> (r: i64)
    requires
        -0x7fff_ffff_ffff_ffff <= p,
        1 <= q,
        1 <= dd <= dn,
    ensures
        r == spec_floor_quot(p as int, q as int, dn as int, dd as int),
        -0x7fff_ffff_ffff_ffff <= r <= 0x7fff_ffff_ffff_ffff,
{
    proof {
        crate::bound::lemma_i64_prod_fits(p as int, dd as int);
        crate::bound::lemma_i64_prod_fits(q as int, dn as int);
        crate::bound::lemma_sign(q as int, dn as int);
        lemma_floor_quot_range(p as int, q as int, dn as int, dd as int);
    }
    let n: i128 = (p as i128) * (dd as i128);
    let d: i128 = (q as i128) * (dn as i128);
    let t = div_floor_wide(n, d);
    t as i64
}

/// Computes the Euclidean residue of `v` modulo a small positive
/// modulus.
pub(crate) fn mod_small(v: i64, m: u64) -> (r: u8)
    requires
        -0x7fff_ffff_ffff_ffff <= v,
        1 <= m <= 4,
    ensures
        r == (v as int) % (m as int),
        r < m,
{
    if v >= 0 {
        ((v as u64) % m) as u8
    } else {
        let k: u64 = ((-v) as u64) % m;
        proof {
            let w = (-v) as int;
            let mi = m as int;
            vstd::arithmetic::div_mod::lemma_fundamental_div_mod(w, mi);
            let t = w / mi;
            if k == 0 {
                assert(v as int == mi * (-t) + 0) by (nonlinear_arith)
                    requires
                        v as int == -w,
                        w == mi * t + 0,
                ;
                vstd::arithmetic::div_mod::lemma_fundamental_div_mod_converse(
                    v as int,
                    mi,
                    -t,
                    0,
                );
            } else {
                assert(v as int == mi * (-t - 1) + (mi - k)) by (nonlinear_arith)
                    requires
                        v as int == -w,
                        w == mi * t + k,
                ;
                vstd::arithmetic::div_mod::lemma_fundamental_div_mod_converse(
                    v as int,
                    mi,
                    -t - 1,
                    mi - k,
                );
            }
        }
        if k == 0 {
            0
        } else {
            (m - k) as u8
        }
    }
}

/// The index of a rational against a divisor enclosure `[ln, un] / d`:
/// the floor of the quotient, decided only when dividing by either
/// endpoint of the enclosure gives the same floor.  The true divisor
/// lies between the endpoints, so a decided index is the index against
/// the true divisor as well.
pub open spec fn spec_quot_index(p: int, q: int, ln: int, un: int, d: int) -> Option<int> {
    let f1 = spec_floor_quot(p, q, un, d);
    let f2 = spec_floor_quot(p, q, ln, d);
    if f1 == f2 {
        Option::Some(f1)
    } else {
        Option::None
    }
}

/// Computes the decided index of `p / q` against the enclosure
/// `[ln, un] / d`.
fn quot_index(p: i64, q: i64, ln: i64, un: i64, d: i64) -> (r: Option<i64>)
    requires
        -0x7fff_ffff_ffff_ffff <= p,
        1 <= q,
        1 <= d <= ln <= un,
    ensures
        ({
            match (r, spec_quot_index(p as int, q as int, ln as int, un as int, d as int)) {
                (Option::Some(f), Option::Some(g)) => f == g,
                (Option::None, Option::None) => true,
                _ => false,
            }
        }),
        r matches Some(f) ==> -0x7fff_ffff_ffff_ffff <= f <= 0x7fff_ffff_ffff_ffff,
{
    let f1 = floor_quot(p, q, un, d);
    let f2 = floor_quot(p, q, ln, d);
    if f1 == f2 {
        Some(f1)
    } else {
        None
    }
}

/// The pair `(q, n)` that keys the sine branch table: the residue
/// modulo four of the lower endpoint's half-period index, and the
/// number of half-periods spanned, zero for a single point and
/// saturated at four.  `None` whenever an endpoint is infinite, an
/// index is undecided under the rational pi/2 enclosure, or the
/// indices come out reversed: the caller then falls back to the full
/// range, which is always sound.
pub open spec fn spec_sin_indices(x: Interval) -> Option<(u8, u8)> {
    match x {
        Interval::Bounded {
            lo: Bound::Rat { num: pa, den: qa },
            hi: Bound::Rat { num: pb, den: qb },
        } => {
            let ia = spec_quot_index(
                pa as int,
                qa as int,
                half_pi_lo_num(),
                half_pi_hi_num(),
                1_000_000_000_000_000,
            );
            let ib = spec_quot_index(
                pb as int,
                qb as int,
                half_pi_lo_num(),
                half_pi_hi_num(),
                1_000_000_000_000_000,
            );
            match (ia, ib) {
                (Option::Some(fa), Option::Some(fb)) => if fb < fa {
                    Option::None
                } else {
                    let n0 = if pa as int * (qb as int) == pb as int * (qa as int) {
                        0
                    } else {
                        fb - fa
                    };
                    Option::Some(
                        (
                            (fa % 4) as u8,
                            (if n0 >= 4 {
                                4
                            } else {
                                n0
                            }) as u8,
                        ),
                    )
                },
                _ => Option::None,
            }
        },
        _ => Option::None,
    }
}

/// The pair `(q, n)` for the cosine branch table: indices against the
/// rational pi enclosure, residue modulo two, span saturated at two.
pub open spec fn spec_cos_indices(x: Interval) -> Option<(u8, u8)> {
    match x {
        Interval::Bounded {
            lo: Bound::Rat { num: pa, den: qa },
            hi: Bound::Rat { num: pb, den: qb },
        } => {
            let ia = spec_quot_index(
                pa as int,
                qa as int,
                pi_lo_num(),
                pi_hi_num(),
                1_000_000_000_000_000,
            );
            let ib = spec_quot_index(
                pb as int,
                qb as int,
                pi_lo_num(),
                pi_hi_num(),
                1_000_000_000_000_000,
            );
            match (ia, ib) {
                (Option::Some(fa), Option::Some(fb)) => if fb < fa {
                    Option::None
                } else {
                    let n0 = if pa as int * (qb as int) == pb as int * (qa as int) {
                        0
                    } else {
                        fb - fa
                    };
                    Option::Some(
                        (
                            (fa % 2) as u8,
                            (if n0 >= 2 {
                                2
                            } else {
                                n0
                            }) as u8,
                        ),
                    )
                },
                _ => Option::None,
            }
        },
        _ => Option::None,
    }
}

/// The triple `(q, n, cont)` for the tangent: indices against the
/// rational pi/2 enclosure with residue modulo two and span saturated
/// at three, and the continuity test, which holds only when the upper
/// endpoint provably lies at or before the next asymptote — the lower
/// endpoint of the upper index times the pi/2 enclosure.
pub open spec fn spec_tan_indices(x: Interval) -> Option<(u8, u8, bool)> {
    match x {
        Interval::Bounded {
            lo: Bound::Rat { num: pa, den: qa },
            hi: Bound::Rat { num: pb, den: qb },
        } => {
            let ia = spec_quot_index(
                pa as int,
                qa as int,
                half_pi_lo_num(),
                half_pi_hi_num(),
                1_000_000_000_000_000,
            );
            let ib = spec_quot_index(
                pb as int,
                qb as int,
                half_pi_lo_num(),
                half_pi_hi_num(),
                1_000_000_000_000_000,
            );
            match (ia, ib) {
                (Option::Some(fa), Option::Some(fb)) => if fb < fa {
                    Option::None
                } else {
                    let n0 = if pa as int * (qb as int) == pb as int * (qa as int) {
                        0
                    } else {
                        fb - fa
                    };
                    let pt = Interval::Bounded {
                        lo: Bound::Rat { num: fb as i64, den: 1 },
                        hi: Bound::Rat { num: fb as i64, den: 1 },
                    };
                    let half_pi = Interval::Bounded {
                        lo: Bound::Rat {
                            num: 1_570_796_326_794_896,
                            den: 1_000_000_000_000_000,
                        },
                        hi: Bound::Rat {
                            num: 1_570_796_326_794_897,
                            den: 1_000_000_000_000_000,
                        },
                    };
                    let cont = match crate::arith::spec_mul(pt, half_pi) {
                        Interval::Bounded { lo, .. } => bound_le(
                            Bound::Rat { num: pb, den: qb },
                            lo,
                        ),
                        Interval::Empty => false,
                    };
                    Option::Some(
                        (
                            (fa % 2) as u8,
                            (if n0 >= 3 {
                                3
                            } else {
                                n0
                            }) as u8,
                            cont,
                        ),
                    )
                },
                _ => Option::None,
            }
        },
        _ => Option::None,
    }
}

impl Interval {
    /// Computes the sine branch-table key of `self`: the half-period
    /// residue and saturated span against the rational pi/2 enclosure,
    /// or `None` when an index cannot be decided, in which case the
    /// full range `[-1, 1]` is the sound answer.
    pub fn sin_indices(self) -> (r: Option<(u8, u8)>)
        requires
            self.wf(),
        ensures
            r == spec_sin_indices(self),
            r matches Some(qn) ==> qn.0 < 4 && qn.1 <= 4,
    {
        match self {
            Interval::Bounded {
                lo: Bound::Rat { num: pa, den: qa },
                hi: Bound::Rat { num: pb, den: qb },
            } => {
                let ia = quot_index(pa, qa, 1_570_796_326_794_896, 1_570_796_326_794_897,
                    1_000_000_000_000_000);
                let ib = quot_index(pb, qb, 1_570_796_326_794_896, 1_570_796_326_794_897,
                    1_000_000_000_000_000);
                match (ia, ib) {
                    (Some(fa), Some(fb)) => {
                        if fb < fa {
                            None
                        } else {
                            let single = crate::bound::eqv(
                                Bound::Rat { num: pa, den: qa },
                                Bound::Rat { num: pb, den: qb },
                            );
                            let diff: i128 = (fb as i128) - (fa as i128);
                            let n0: i128 = if single {
                                0
                            } else {
                                diff
                            };
                            let n8: u8 = if n0 >= 4 {
                                4
                            } else {
                                n0 as u8
                            };
                            Some((mod_small(fa, 4), n8))
                        }
                    },
                    _ => None,
                }
            },
            _ => None,
        }
    }

    /// Computes the cosine branch-table key of `self` against the
    /// rational pi enclosure.
    pub fn cos_indices(self) -> (r: Option<(u8, u8)>)
        requires
            self.wf(),
        ensures
            r == spec_cos_indices(self),
            r matches Some(qn) ==> qn.0 < 2 && qn.1 <= 2,
    {
        match self {
            Interval::Bounded {
                lo: Bound::Rat { num: pa, den: qa },
                hi: Bound::Rat { num: pb, den: qb },
            } => {
                let ia = quot_index(pa, qa, 3_141_592_653_589_793, 3_141_592_653_589_794,
                    1_000_000_000_000_000);
                let ib = quot_index(pb, qb, 3_141_592_653_589_793, 3_141_592_653_589_794,
                    1_000_000_000_000_000);
                match (ia, ib) {
                    (Some(fa), Some(fb)) => {
                        if fb < fa {
                            None
                        } else {
                            let single = crate::bound::eqv(
                                Bound::Rat { num: pa, den: qa },
                                Bound::Rat { num: pb, den: qb },
                            );
                            let diff: i128 = (fb as i128) - (fa as i128);
                            let n0: i128 = if single {
                                0
                            } else {
                                diff
                            };
                            let n8: u8 = if n0 >= 2 {
                                2
                            } else {
                                n0 as u8
                            };
                            Some((mod_small(fa, 2), n8))
                        }
                    },
                    _ => None,
                }
            },
            _ => None,
        }
    }

    /// Computes the tangent branch-table key of `self`: residue, span
    /// and the asymptote-continuity test, carried out exactly over the
    /// rational pi/2 enclosure with the crate's own interval product.
    pub fn tan_indices(self) -> (r: Option<(u8, u8, bool)>)
        requires
            self.wf(),
        ensures
            r == spec_tan_indices(self),
            r matches Some(t) ==> t.0 < 2 && t.1 <= 3,
    {
        match self {
            Interval::Bounded {
                lo: Bound::Rat { num: pa, den: qa },
                hi: Bound::Rat { num: pb, den: qb },
            } => {
                let ia = quot_index(pa, qa, 1_570_796_326_794_896, 1_570_796_326_794_897,
                    1_000_000_000_000_000);
                let ib = quot_index(pb, qb, 1_570_796_326_794_896, 1_570_796_326_794_897,
                    1_000_000_000_000_000);
                match (ia, ib) {
                    (Some(fa), Some(fb)) => {
                        if fb < fa {
                            None
                        } else {
                            let single = crate::bound::eqv(
                                Bound::Rat { num: pa, den: qa },
                                Bound::Rat { num: pb, den: qb },
                            );
                            let diff: i128 = (fb as i128) - (fa as i128);
                            let n0: i128 = if single {
                                0
                            } else {
                                diff
                            };
                            let n8: u8 = if n0 >= 3 {
                                3
                            } else {
                                n0 as u8
                            };
                            let pt = Interval::Bounded {
                                lo: Bound::Rat { num: fb, den: 1 },
                                hi: Bound::Rat { num: fb, den: 1 },
                            };
                            let half_pi = Interval::frac_pi_2();
                            let prod = pt.mul(half_pi);
                            let cont = match prod {
                                Interval::Bounded { lo, .. } => le(
                                    Bound::Rat { num: pb, den: qb },
                                    lo,
                                ),
                                Interval::Empty => false,
                            };
                            Some((mod_small(fa, 2), n8, cont))
                        }
                    },
                    _ => None,
                }
            },
            _ => None,
        }
    }
}

/// How a periodic function behaves over an argument interval that
/// spans a known number of half-periods.
#[derive(Clone, Copy, Debug, PartialEq, Eq, Structural)]
pub enum TrigRange {
    /// Monotonically increasing: map endpoints in order.
    Inc,
    /// Monotonically decreasing: map endpoints in reverse order.
    Dec,
    /// Increasing then decreasing: the maximum is attained.
    IncDec,
    /// Decreasing then increasing: the minimum is attained.
    DecInc,
    /// Both extrema are spanned: the full range.
    Full,
}

/// The branch table for the sine: `q` is the residue of the lower
/// half-period index modulo four, `n` the number of half-periods
/// spanned, saturated at four.
pub open spec fn spec_sin_shape(q: u8, n: u8) -> TrigRange {
    if (q == 0 && n < 1) || (q == 3 && n < 2) {
        TrigRange::Inc
    } else if (q == 1 && n < 2) || (q == 2 && n < 1) {
        TrigRange::Dec
    } else if (q == 0 && n < 3) || (q == 3 && n < 4) {
        TrigRange::IncDec
    } else if (q == 1 && n < 4) || (q == 2 && n < 3) {
        TrigRange::DecInc
    } else {
        TrigRange::Full
    }
}

/// The branch table for the cosine: `q` is the residue of the lower
/// period index modulo two, `n` the number of periods spanned,
/// saturated at two.
pub open spec fn spec_cos_shape(q: u8, n: u8) -> TrigRange {
    if n == 0 {
        if q == 0 {
            TrigRange::Dec
        } else {
            TrigRange::Inc
        }
    } else if n == 1 {
        if q == 0 {
            TrigRange::DecInc
        } else {
            TrigRange::IncDec
        }
    } else {
        TrigRange::Full
    }
}

/// The branch table for the tangent: the argument stays on a single
/// monotonic branch exactly when it spans no asymptote, where `cont`
/// says that the upper endpoint has not crossed the next asymptote.
pub open spec fn spec_tan_single_branch(q: u8, n: u8, cont: bool) -> bool {
    (q == 0 && (n < 1 || (n == 1 && cont))) || (q == 1 && (n < 2 || (n == 2 && cont)))
}

/// Decides the monotonic-branch shape of the sine over an interval
/// whose lower half-period index has residue `q` and which spans `n`
/// half-periods (`n` saturated at four).
pub fn sin_shape(q: u8, n: u8) -> (r: TrigRange)
    requires
        q < 4,
    ensures
        r == spec_sin_shape(q, n),
{
    if (q == 0 && n < 1) || (q == 3 && n < 2) {
        TrigRange::Inc
    } else if (q == 1 && n < 2) || (q == 2 && n < 1) {
        TrigRange::Dec
    } else if (q == 0 && n < 3) || (q == 3 && n < 4) {
        TrigRange::IncDec
    } else if (q == 1 && n < 4) || (q == 2 && n < 3) {
        TrigRange::DecInc
    } else {
        TrigRange::Full
    }
}

/// Decides the monotonic-branch shape of the cosine over an interval
/// whose lower period index has residue `q` and which spans `n`
/// periods (`n` saturated at two).
pub fn cos_shape(q: u8, n: u8) -> (r: TrigRange)
    requires
        q < 2,
    ensures
        r == spec_cos_shape(q, n),
{
    if n == 0 {
        if q == 0 {
            TrigRange::Dec
        } else {
            TrigRange::Inc
        }
    } else if n == 1 {
        if q == 0 {
            TrigRange::DecInc
        } else {
            TrigRange::IncDec
        }
    } else {
        TrigRange::Full
    }
}

/// Decides whether the tangent stays on one monotonic branch over an
/// interval with lower half-period residue `q`, spanning `n`
/// half-periods (saturated at three), where `cont` reports that the
/// upper endpoint lies at or before the next asymptote.
pub fn tan_single_branch(q: u8, n: u8, cont: bool) -> (r: bool)
    requires
        q < 2,
    ensures
        r == spec_tan_single_branch(q, n, cont),
{
    (q == 0 && (n < 1 || (n == 1 && cont))) || (q == 1 && (n < 2 || (n == 2 && cont)))
}

impl Interval {
    /// Clamps `self` to the domain of the logarithms, `[0, +oo)`:
    /// `None` when nothing of the open domain `(0, +oo)` remains, that
    /// is, when the clamped set is empty or its upper endpoint is at or
    /// below zero.
    pub fn log_domain(self) -> (r: Option<Interval>)
        requires
            self.wf(),
        ensures
            ({
                let clamped = spec_intersection(
                    self,
                    Interval::Bounded { lo: Bound::Rat { num: 0, den: 1 }, hi: Bound::PosInf },
                );
                match r {
                    Some(i) => i == clamped && !(clamped is Empty) && !bound_le(
                        clamped.spec_hi(),
                        Bound::Rat { num: 0, den: 1 },
                    ),
                    None => clamped is Empty || bound_le(
                        clamped.spec_hi(),
                        Bound::Rat { num: 0, den: 1 },
                    ),
                }
            }),
            r is Some ==> r.unwrap().wf(),
    {
        let dom = Interval::Bounded { lo: Bound::Rat { num: 0, den: 1 }, hi: Bound::PosInf };
        let x = self.intersection(dom);
        match x {
            Interval::Empty => None,
            Interval::Bounded { lo, hi } => {
                if le(hi, Bound::Rat { num: 0, den: 1 }) {
                    None
                } else {
                    Some(x)
                }
            },
        }
    }

    /// Clamps `self` to `[-1, 1]`, the domain of the inverse sine and
    /// cosine: `None` when nothing remains.
    pub fn unit_domain(self) -> (r: Option<Interval>)
        requires
            self.wf(),
        ensures
            ({
                let clamped = spec_intersection(
                    self,
                    Interval::Bounded {
                        lo: Bound::Rat { num: -1i64, den: 1 },
                        hi: Bound::Rat { num: 1, den: 1 },
                    },
                );
                match r {
                    Some(i) => i == clamped && !(clamped is Empty),
                    None => clamped is Empty,
                }
            }),
            r is Some ==> r.unwrap().wf(),
    {
        let dom = Interval::Bounded {
            lo: Bound::Rat { num: -1i64, den: 1 },
            hi: Bound::Rat { num: 1, den: 1 },
        };
        proof {
            crate::bound::lemma_sign(-1, 1);
        }
        let x = self.intersection(dom);
        if x.is_empty() {
            None
        } else {
            Some(x)
        }
    }

    /// Clamps `self` to `[1, +oo)`, the domain of the inverse
    /// hyperbolic cosine: `None` when nothing remains.
    pub fn acosh_domain(self) -> (r: Option<Interval>)
        requires
            self.wf(),
        ensures
            ({
                let clamped = spec_intersection(
                    self,
                    Interval::Bounded { lo: Bound::Rat { num: 1, den: 1 }, hi: Bound::PosInf },
                );
                match r {
                    Some(i) => i == clamped && !(clamped is Empty),
                    None => clamped is Empty,
                }
            }),
            r is Some ==> r.unwrap().wf(),
    {
        let dom = Interval::Bounded { lo: Bound::Rat { num: 1, den: 1 }, hi: Bound::PosInf };
        proof {
            crate::bound::lemma_sign(-1, 1);
        }
        let x = self.intersection(dom);
        if x.is_empty() {
            None
        } else {
            Some(x)
        }
    }

    /// Clamps `self` to `[-1, 1]` for the inverse hyperbolic tangent:
    /// `None` when the clamped set is empty or degenerates to a domain
    /// boundary with no interior, its upper endpoint at or below `-1`
    /// or its lower endpoint at or above `1`.
    pub fn atanh_domain(self) -> (r: Option<Interval>)
        requires
            self.wf(),
        ensures
            ({
                let clamped = spec_intersection(
                    self,
                    Interval::Bounded {
                        lo: Bound::Rat { num: -1i64, den: 1 },
                        hi: Bound::Rat { num: 1, den: 1 },
                    },
                );
                match r {
                    Some(i) => i == clamped && !(clamped is Empty) && !bound_le(
                        clamped.spec_hi(),
                        Bound::Rat { num: -1i64, den: 1 },
                    ) && !bound_le(Bound::Rat { num: 1, den: 1 }, clamped.spec_lo()),
                    None => clamped is Empty || bound_le(
                        clamped.spec_hi(),
                        Bound::Rat { num: -1i64, den: 1 },
                    ) || bound_le(Bound::Rat { num: 1, den: 1 }, clamped.spec_lo()),
                }
            }),
            r is Some ==> r.unwrap().wf(),
    {
        let dom = Interval::Bounded {
            lo: Bound::Rat { num: -1i64, den: 1 },
            hi: Bound::Rat { num: 1, den: 1 },
        };
        proof {
            crate::bound::lemma_sign(-1, 1);
        }
        let x = self.intersection(dom);
        match x {
            Interval::Empty => None,
            Interval::Bounded { lo, hi } => {
                if le(hi, Bound::Rat { num: -1i64, den: 1 }) || le(Bound::Rat { num: 1, den: 1 }, lo) {
                    None
                } else {
                    Some(x)
                }
            },
        }
    }

    /// Decides the shape of the hyperbolic cosine over `self`: empty
    /// propagates; an interval below zero maps its endpoints in reverse
    /// order; one above zero in order; one straddling zero attains the
    /// minimum one and is bounded by the value at the endpoint of
    /// largest magnitude, `max(-lo, hi)`.
    pub fn cosh_shape(self) -> (r: CoshShape)
        requires
            self.wf(),
        ensures
            r == spec_cosh_shape(self),
    {
        match self {
            Interval::Empty => CoshShape::Empty,
            Interval::Bounded { lo, hi } => {
                let zero = Bound::Rat { num: 0, den: 1 };
                if crate::bound::lt(hi, zero) {
                    CoshShape::Dec
                } else if crate::bound::lt(zero, lo) {
                    CoshShape::Inc
                } else {
                    proof {
                        crate::bound::lemma_bound_neg_le(lo, hi);
                    }
                    CoshShape::FromOne {
                        at: crate::bound::max_bound(crate::bound::neg_bound(lo), hi),
                    }
                }
            },
        }
    }
}

/// The shape of the hyperbolic cosine over an interval.
#[derive(Clone, Copy, Debug, PartialEq, Eq, Structural)]
pub enum CoshShape {
    Empty,
    /// Endpoints map in reverse order.
    Dec,
    /// Endpoints map in order.
    Inc,
    /// The minimum one is attained; the upper endpoint is the value at
    /// `at`, the argument of largest magnitude.
    FromOne { at: Bound },
}

/// The shape of the hyperbolic cosine: dispatch on the sign of the
/// argument interval.
pub open spec fn spec_cosh_shape(x: Interval) -> CoshShape {
    match x {
        Interval::Empty => CoshShape::Empty,
        Interval::Bounded { lo, hi } => if crate::bound::bound_lt(hi, Bound::Rat { num: 0, den: 1 })
             {
            CoshShape::Dec
        } else if crate::bound::bound_lt(Bound::Rat { num: 0, den: 1 }, lo) {
            CoshShape::Inc
        } else {
            CoshShape::FromOne { at: spec_max_bound(crate::bound::spec_neg_bound(lo), hi) }
        },
    }
}

/// The shape of the two-argument arctangent of `(y, x)`: one of the
/// fixed ranges and axis constants, or an endpoint mapping whose
/// arguments are carried along.  Each mapped endpoint names the
/// `(y, x)` pair the angle of which bounds that side.
#[derive(Clone, Copy, Debug, PartialEq, Eq, Structural)]
pub enum Atan2Shape {
    Empty,
    /// The full angular range `[-pi, pi]`.
    FullRange,
    /// The closed upper half plane: `[0, pi]`.
    UpperHalf,
    /// The closed right half plane: `[-pi/2, pi/2]`.
    RightHalf,
    /// The closed first quadrant: `[0, pi/2]`.
    QuadrantOne,
    /// The closed second quadrant: `[pi/2, pi]`.
    QuadrantTwo,
    /// The closed fourth quadrant: `[-pi/2, 0]`.
    QuadrantFour,
    /// The single angle `pi`: the negative axis, approached from either
    /// side of zero, is normalized to `+pi`, never `-pi`.
    PiOnly,
    /// The single angle zero.
    ZeroOnly,
    /// The single angle `pi/2`.
    HalfPiOnly,
    /// The single angle `-pi/2`.
    NegHalfPiOnly,
    /// Both sides map through the point angle of the named pairs.
    MapBoth { lo_y: Bound, lo_x: Bound, hi_y: Bound, hi_x: Bound },
    /// The lower side maps through the named pair; the upper side is
    /// `pi`.
    MapThenPi { lo_y: Bound, lo_x: Bound },
}

/// The 36-way dispatch of the two-argument arctangent over the pair
/// class of `(x, y)`, mirroring the four-quadrant case analysis of the
/// planar angle.
pub open spec fn spec_atan2_shape(y: Interval, x: Interval) -> Atan2Shape {
    let a = x.spec_lo();
    let b = x.spec_hi();
    let c = y.spec_lo();
    let d = y.spec_hi();
    match spec_classify2(x, y) {
        IntervalClass2::E_E | IntervalClass2::E_Z | IntervalClass2::E_M | IntervalClass2::E_N0
            | IntervalClass2::E_N1 | IntervalClass2::E_P0 | IntervalClass2::E_P1
            | IntervalClass2::Z_E | IntervalClass2::M_E | IntervalClass2::N0_E
            | IntervalClass2::N1_E | IntervalClass2::P0_E | IntervalClass2::P1_E
            | IntervalClass2::Z_Z => Atan2Shape::Empty,
        IntervalClass2::M_M | IntervalClass2::M_N0 | IntervalClass2::N0_M
            | IntervalClass2::N0_N0 | IntervalClass2::N1_M | IntervalClass2::N1_N0
            => Atan2Shape::FullRange,
        IntervalClass2::P0_P0 => Atan2Shape::QuadrantOne,
        IntervalClass2::P0_P1 | IntervalClass2::P1_P0 | IntervalClass2::P1_P1
            | IntervalClass2::P1_Z | IntervalClass2::Z_P1 => Atan2Shape::MapBoth {
            lo_y: c,
            lo_x: b,
            hi_y: d,
            hi_x: a,
        },
        IntervalClass2::M_P0 | IntervalClass2::M_Z => Atan2Shape::UpperHalf,
        IntervalClass2::M_P1 => Atan2Shape::MapBoth { lo_y: c, lo_x: b, hi_y: c, hi_x: a },
        IntervalClass2::N0_P0 => Atan2Shape::QuadrantTwo,
        IntervalClass2::N0_P1 | IntervalClass2::N1_P1 => Atan2Shape::MapBoth {
            lo_y: d,
            lo_x: b,
            hi_y: c,
            hi_x: a,
        },
        IntervalClass2::N1_P0 => Atan2Shape::MapThenPi { lo_y: d, lo_x: b },
        IntervalClass2::N0_N1 | IntervalClass2::N1_N1 => Atan2Shape::MapBoth {
            lo_y: d,
            lo_x: a,
            hi_y: c,
            hi_x: b,
        },
        IntervalClass2::M_N1 => Atan2Shape::MapBoth { lo_y: d, lo_x: a, hi_y: d, hi_x: b },
        IntervalClass2::P0_N0 => Atan2Shape::QuadrantFour,
        IntervalClass2::P0_N1 | IntervalClass2::P1_N0 | IntervalClass2::P1_N1
            | IntervalClass2::Z_N1 => Atan2Shape::MapBoth {
            lo_y: c,
            lo_x: a,
            hi_y: d,
            hi_x: b,
        },
        IntervalClass2::P0_M | IntervalClass2::Z_M => Atan2Shape::RightHalf,
        IntervalClass2::P1_M => Atan2Shape::MapBoth { lo_y: c, lo_x: a, hi_y: d, hi_x: a },
        IntervalClass2::N0_Z | IntervalClass2::N1_Z => Atan2Shape::PiOnly,
        IntervalClass2::P0_Z => Atan2Shape::ZeroOnly,
        IntervalClass2::Z_N0 => Atan2Shape::NegHalfPiOnly,
        IntervalClass2::Z_P0 => Atan2Shape::HalfPiOnly,
    }
}

/// The shape of the power function `x^y` over the base interval
/// already clamped to `[0, +oo)`.
#[derive(Clone, Copy, Debug, PartialEq, Eq, Structural)]
pub enum PowShape {
    Empty,
    /// The base is the single point zero and the exponent reaches
    /// positive values: the single point zero.
    ZeroOnly,
    /// Each side maps through the power of the named base-exponent
    /// pair.
    MapBoth { lo_base: Bound, lo_exp: Bound, hi_base: Bound, hi_exp: Bound },
    /// The base straddles one: the bounds are the least of the two
    /// lower corner powers and the greatest of the two upper corner
    /// powers.
    Envelope { lo_base: Bound, hi_base: Bound, lo_exp: Bound, hi_exp: Bound },
}

/// The nine endpoint-selection formulas of the power function, chosen
/// by the sign of the exponent bounds and the position of the base
/// interval against one, plus the boundary rules at the base zero.
pub open spec fn spec_pow_shape(clamped: Interval, y: Interval) -> PowShape {
    match (clamped, y) {
        (Interval::Bounded { lo: a, hi: b }, Interval::Bounded { lo: c, hi: d }) => {
            let one = Bound::Rat { num: 1, den: 1 };
            let zero = Bound::Rat { num: 0, den: 1 };
            if bound_le(d, zero) {
                if crate::bound::bound_is_zero(b) {
                    PowShape::Empty
                } else if crate::bound::bound_lt(b, one) {
                    PowShape::MapBoth { lo_base: b, lo_exp: d, hi_base: a, hi_exp: c }
                } else if crate::bound::bound_lt(one, a) {
                    PowShape::MapBoth { lo_base: b, lo_exp: c, hi_base: a, hi_exp: d }
                } else {
                    PowShape::MapBoth { lo_base: b, lo_exp: c, hi_base: a, hi_exp: c }
                }
            } else if crate::bound::bound_lt(zero, c) {
                if crate::bound::bound_lt(b, one) {
                    PowShape::MapBoth { lo_base: a, lo_exp: d, hi_base: b, hi_exp: c }
                } else if crate::bound::bound_lt(one, a) {
                    PowShape::MapBoth { lo_base: a, lo_exp: c, hi_base: b, hi_exp: d }
                } else {
                    PowShape::MapBoth { lo_base: a, lo_exp: d, hi_base: b, hi_exp: d }
                }
            } else {
                if crate::bound::bound_is_zero(b) {
                    PowShape::ZeroOnly
                } else {
                    PowShape::Envelope { lo_base: a, hi_base: b, lo_exp: c, hi_exp: d }
                }
            }
        },
        _ => PowShape::Empty,
    }
}

impl Interval {
    /// Decides the shape of the two-argument arctangent: the angle of
    /// the point set `(rhs, self)`, `self` being the ordinates.  The
    /// negative axis is normalized to the single angle `+pi` whether
    /// the ordinate set touches zero from above or from below.
    pub fn atan2_shape(self, rhs: Interval) -> (r: Atan2Shape)
        requires
            self.wf(),
            rhs.wf(),
        ensures
            r == spec_atan2_shape(self, rhs),
    {
        let (x, y) = (rhs, self);
        match (x, y) {
            (Interval::Bounded { lo: a, hi: b }, Interval::Bounded { lo: c, hi: d }) => {
                match x.classify2(y) {
                    IntervalClass2::E_E | IntervalClass2::E_Z | IntervalClass2::E_M
                        | IntervalClass2::E_N0 | IntervalClass2::E_N1 | IntervalClass2::E_P0
                        | IntervalClass2::E_P1 | IntervalClass2::Z_E | IntervalClass2::M_E
                        | IntervalClass2::N0_E | IntervalClass2::N1_E | IntervalClass2::P0_E
                        | IntervalClass2::P1_E | IntervalClass2::Z_Z => Atan2Shape::Empty,
                    IntervalClass2::M_M | IntervalClass2::M_N0 | IntervalClass2::N0_M
                        | IntervalClass2::N0_N0 | IntervalClass2::N1_M | IntervalClass2::N1_N0
                        => Atan2Shape::FullRange,
                    IntervalClass2::P0_P0 => Atan2Shape::QuadrantOne,
                    IntervalClass2::P0_P1 | IntervalClass2::P1_P0 | IntervalClass2::P1_P1
                        | IntervalClass2::P1_Z | IntervalClass2::Z_P1 => Atan2Shape::MapBoth {
                        lo_y: c,
                        lo_x: b,
                        hi_y: d,
                        hi_x: a,
                    },
                    IntervalClass2::M_P0 | IntervalClass2::M_Z => Atan2Shape::UpperHalf,
                    IntervalClass2::M_P1 => Atan2Shape::MapBoth {
                        lo_y: c,
                        lo_x: b,
                        hi_y: c,
                        hi_x: a,
                    },
                    IntervalClass2::N0_P0 => Atan2Shape::QuadrantTwo,
                    IntervalClass2::N0_P1 | IntervalClass2::N1_P1 => Atan2Shape::MapBoth {
                        lo_y: d,
                        lo_x: b,
                        hi_y: c,
                        hi_x: a,
                    },
                    IntervalClass2::N1_P0 => Atan2Shape::MapThenPi { lo_y: d, lo_x: b },
                    IntervalClass2::N0_N1 | IntervalClass2::N1_N1 => Atan2Shape::MapBoth {
                        lo_y: d,
                        lo_x: a,
                        hi_y: c,
                        hi_x: b,
                    },
                    IntervalClass2::M_N1 => Atan2Shape::MapBoth {
                        lo_y: d,
                        lo_x: a,
                        hi_y: d,
                        hi_x: b,
                    },
                    IntervalClass2::P0_N0 => Atan2Shape::QuadrantFour,
                    IntervalClass2::P0_N1 | IntervalClass2::P1_N0 | IntervalClass2::P1_N1
                        | IntervalClass2::Z_N1 => Atan2Shape::MapBoth {
                        lo_y: c,
                        lo_x: a,
                        hi_y: d,
                        hi_x: b,
                    },
                    IntervalClass2::P0_M | IntervalClass2::Z_M => Atan2Shape::RightHalf,
                    IntervalClass2::P1_M => Atan2Shape::MapBoth {
                        lo_y: c,
                        lo_x: a,
                        hi_y: d,
                        hi_x: a,
                    },
                    IntervalClass2::N0_Z | IntervalClass2::N1_Z => Atan2Shape::PiOnly,
                    IntervalClass2::P0_Z => Atan2Shape::ZeroOnly,
                    IntervalClass2::Z_N0 => Atan2Shape::NegHalfPiOnly,
                    IntervalClass2::Z_P0 => Atan2Shape::HalfPiOnly,
                }
            },
            _ => Atan2Shape::Empty,
        }
    }

    /// Decides the shape of the power function `self^rhs` with a real
    /// exponent: clamps the base to `[0, +oo)` first, then selects the
    /// endpoint formula from the sign of the exponent bounds and the
    /// position of the base against one.  A zero base with a
    /// nonpositive exponent has no value; a zero base under a positive
    /// exponent is the point zero.
    pub fn pow_shape(self, rhs: Interval) -> (r: PowShape)
        requires
            self.wf(),
            rhs.wf(),
        ensures
            ({
                let clamped = spec_intersection(
                    self,
                    Interval::Bounded { lo: Bound::Rat { num: 0, den: 1 }, hi: Bound::PosInf },
                );
                r == spec_pow_shape(clamped, rhs)
            }),
    {
        let dom = Interval::Bounded { lo: Bound::Rat { num: 0, den: 1 }, hi: Bound::PosInf };
        let x = self.intersection(dom);
        match (x, rhs) {
            (Interval::Bounded { lo: a, hi: b }, Interval::Bounded { lo: c, hi: d }) => {
                let one = Bound::Rat { num: 1, den: 1 };
                let zero = Bound::Rat { num: 0, den: 1 };
                let b_zero = match b {
                    Bound::Rat { num, .. } => num == 0,
                    _ => false,
                };
                if le(d, zero) {
                    if b_zero {
                        PowShape::Empty
                    } else if crate::bound::lt(b, one) {
                        PowShape::MapBoth { lo_base: b, lo_exp: d, hi_base: a, hi_exp: c }
                    } else if crate::bound::lt(one, a) {
                        PowShape::MapBoth { lo_base: b, lo_exp: c, hi_base: a, hi_exp: d }
                    } else {
                        PowShape::MapBoth { lo_base: b, lo_exp: c, hi_base: a, hi_exp: c }
                    }
                } else if crate::bound::lt(zero, c) {
                    if crate::bound::lt(b, one) {
                        PowShape::MapBoth { lo_base: a, lo_exp: d, hi_base: b, hi_exp: c }
                    } else if crate::bound::lt(one, a) {
                        PowShape::MapBoth { lo_base: a, lo_exp: c, hi_base: b, hi_exp: d }
                    } else {
                        PowShape::MapBoth { lo_base: a, lo_exp: d, hi_base: b, hi_exp: d }
                    }
                } else {
                    if b_zero {
                        PowShape::ZeroOnly
                    } else {
                        PowShape::Envelope { lo_base: a, hi_base: b, lo_exp: c, hi_exp: d }
                    }
                }
            },
            _ => PowShape::Empty,
        }
    }
}

} // verus!
