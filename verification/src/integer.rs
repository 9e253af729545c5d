//! Rounding an interval to integers (floor, ceiling, round, truncate)
//! and the sign function.

use vstd::prelude::*;
use vstd::arithmetic::div_mod::{lemma_fundamental_div_mod, lemma_fundamental_div_mod_converse};
use crate::bound::Bound;
use crate::classify::{spec_classify, IntervalClass};
use crate::interval::Interval;

verus! {

/// The floor of the rational `p / q`, with `q > 0`: the Euclidean
/// quotient.
pub open spec fn rat_floor(p: int, q: int) -> int {
    p / q
}

/// The ceiling of the rational `p / q`, with `q > 0`.
pub open spec fn rat_ceil(p: int, q: int) -> int {
    -((-p) / q)
}

/// The nearest integer to `p / q`, ties away from zero.
pub open spec fn rat_round(p: int, q: int) -> int {
    if p >= 0 {
        (2 * p + q) / (2 * q)
    } else {
        -((2 * (-p) + q) / (2 * q))
    }
}

/// The nearest integer to `p / q`, ties to the even integer: below the
/// midpoint of two integers round down, above it round up, and exactly
/// at it take whichever neighbour is even.
pub open spec fn rat_round_even(p: int, q: int) -> int {
    let f = p / q;
    let r = p % q;
    if 2 * r < q {
        f
    } else if 2 * r > q {
        f + 1
    } else if f % 2 == 0 {
        f
    } else {
        f + 1
    }
}

/// The integer part of `p / q`: rounding toward zero.
pub open spec fn rat_trunc(p: int, q: int) -> int {
    if p >= 0 {
        p / q
    } else {
        -((-p) / q)
    }
}

/// Computes the Euclidean quotient of a nonnegative dividend, through
/// unsigned machine division.
fn div_nonneg(m: u64, d: u64) -> (r: u64)
    requires
        1 <= d,
    ensures
        r == m as int / d as int,
        r <= m,
{
    proof {
        lemma_fundamental_div_mod(m as int, d as int);
        assert(m as int / d as int <= m) by (nonlinear_arith)
            requires
                d >= 1,
                m >= 0,
                m == d * (m as int / d as int) + m as int % d as int,
                0 <= m as int % d as int,
        ;
        assert(m as int / d as int >= 0) by (nonlinear_arith)
            requires
                d >= 1,
                m >= 0,
                m == d * (m as int / d as int) + m as int % d as int,
                (m as int % d as int) < d,
        ;
    }
    m / d
}

/// Computes the floor of `num / den` exactly.
fn floor_rat(num: i64, den: i64) -> (r: i64)
    requires
        -0x7fff_ffff_ffff_ffff <= num,
        1 <= den,
    ensures
        r == rat_floor(num as int, den as int),
{
    if num >= 0 {
        let q = div_nonneg(num as u64, den as u64);
        q as i64
    } else {
        let m: u64 = (-num) as u64;
        let t = div_nonneg(m + (den as u64) - 1, den as u64);
        proof {
            let mi = m as int;
            let di = den as int;
            let ti = (mi + di - 1) / di;
            lemma_fundamental_div_mod(mi + di - 1, di);
            let ri = (mi + di - 1) % di;
            assert(num as int == di * (-ti) + (di - 1 - ri)) by (nonlinear_arith)
                requires
                    num as int == -mi,
                    mi + di - 1 == di * ti + ri,
            ;
            lemma_fundamental_div_mod_converse(num as int, di, -ti, di - 1 - ri);
            assert(ti <= mi) by (nonlinear_arith)
                requires
                    mi >= 1,
                    di >= 1,
                    ti >= 0,
                    mi + di - 1 == di * ti + ri,
                    0 <= ri,
            ;
        }
        -(t as i64)
    }
}

/// The floor of an endpoint; infinities stay what they are.
pub open spec fn spec_floor_bound(b: Bound) -> Bound {
    match b {
        Bound::Rat { num, den } => Bound::Rat {
            num: rat_floor(num as int, den as int) as i64,
            den: 1,
        },
        _ => b,
    }
}

/// The ceiling of an endpoint; infinities stay what they are.
pub open spec fn spec_ceil_bound(b: Bound) -> Bound {
    match b {
        Bound::Rat { num, den } => Bound::Rat {
            num: rat_ceil(num as int, den as int) as i64,
            den: 1,
        },
        _ => b,
    }
}

/// The nearest integer to an endpoint, ties away from zero.
pub open spec fn spec_round_bound(b: Bound) -> Bound {
    match b {
        Bound::Rat { num, den } => Bound::Rat {
            num: rat_round(num as int, den as int) as i64,
            den: 1,
        },
        _ => b,
    }
}

/// The nearest integer to an endpoint, ties to the even integer.
pub open spec fn spec_round_even_bound(b: Bound) -> Bound {
    match b {
        Bound::Rat { num, den } => Bound::Rat {
            num: rat_round_even(num as int, den as int) as i64,
            den: 1,
        },
        _ => b,
    }
}

/// The integer part of an endpoint.
pub open spec fn spec_trunc_bound(b: Bound) -> Bound {
    match b {
        Bound::Rat { num, den } => Bound::Rat {
            num: rat_trunc(num as int, den as int) as i64,
            den: 1,
        },
        _ => b,
    }
}

/// The image of an interval under a per-endpoint integer rounding.
pub open spec fn spec_map_bounds(x: Interval, lo: Bound, hi: Bound) -> Interval {
    match x {
        Interval::Empty => Interval::Empty,
        Interval::Bounded { .. } => Interval::Bounded { lo, hi },
    }
}

/// The sign of every point: one of the five intervals over `-1`, `0`
/// and `1`, or empty.
pub open spec fn spec_sign(x: Interval) -> Interval {
    match spec_classify(x) {
        IntervalClass::E => Interval::Empty,
        IntervalClass::M => Interval::Bounded {
            lo: Bound::Rat { num: -1i64, den: 1 },
            hi: Bound::Rat { num: 1, den: 1 },
        },
        IntervalClass::N0 | IntervalClass::N1 => Interval::Bounded {
            lo: Bound::Rat { num: -1i64, den: 1 },
            hi: Bound::Rat { num: -1i64, den: 1 },
        },
        IntervalClass::P0 | IntervalClass::P1 => Interval::Bounded {
            lo: Bound::Rat { num: 1, den: 1 },
            hi: Bound::Rat { num: 1, den: 1 },
        },
        IntervalClass::Z => Interval::Bounded {
            lo: Bound::Rat { num: 0, den: 1 },
            hi: Bound::Rat { num: 0, den: 1 },
        },
    }
}

/// The floor of a rational stays below it, and the relation of two
/// rationals carries to their floors.
pub proof fn lemma_floor_mono(p: int, q: int, r: int, s: int)
    requires
        q >= 1,
        s >= 1,
        p * s <= r * q,
    ensures
        rat_floor(p, q) <= rat_floor(r, s),
{
    lemma_fundamental_div_mod(p, q);
    lemma_fundamental_div_mod(r, s);
    let f1 = p / q;
    let f2 = r / s;
    let m1 = p % q;
    let m2 = r % s;
    assert(f1 <= f2) by (nonlinear_arith)
        requires
            q >= 1,
            s >= 1,
            p * s <= r * q,
            p == q * f1 + m1,
            0 <= m1 < q,
            r == s * f2 + m2,
            0 <= m2 < s,
    ;
}

/// Computes the ceiling of `num / den` exactly.
fn ceil_rat(num: i64, den: i64) -> (r: i64)
    requires
        -0x7fff_ffff_ffff_ffff <= num,
        1 <= den,
    ensures
        r == rat_ceil(num as int, den as int),
        -0x7fff_ffff_ffff_ffff <= r <= 0x7fff_ffff_ffff_ffff,
{
    proof {
        lemma_floor_in_range(-(num as int), den as int);
    }
    -floor_rat(-num, den)
}

/// Computes the nearest integer to `num / den`, ties away from zero.
fn round_rat(num: i64, den: i64) -> (r: i64)
    requires
        -0x7fff_ffff_ffff_ffff <= num,
        1 <= den,
    ensures
        r == rat_round(num as int, den as int),
        -0x7fff_ffff_ffff_ffff <= r <= 0x7fff_ffff_ffff_ffff,
{
    if num >= 0 {
        let t: u128 = (2 * (num as u128) + (den as u128)) / (2 * (den as u128));
        proof {
            lemma_round_half_bound(num as int, den as int);
        }
        t as i64
    } else {
        let m: u128 = (-num) as u128;
        let t: u128 = (2 * m + (den as u128)) / (2 * (den as u128));
        proof {
            lemma_round_half_bound(-(num as int), den as int);
        }
        -(t as i64)
    }
}

/// The half-offset quotient used for rounding keeps within the
/// magnitude of its dividend.
proof fn lemma_round_half_bound(m: int, d: int)
    requires
        m >= 0,
        d >= 1,
    ensures
        0 <= (2 * m + d) / (2 * d) <= m,
{
    lemma_fundamental_div_mod(2 * m + d, 2 * d);
    let t = (2 * m + d) / (2 * d);
    let r = (2 * m + d) % (2 * d);
    assert(0 <= t <= m) by (nonlinear_arith)
        requires
            m >= 0,
            d >= 1,
            2 * m + d == 2 * d * t + r,
            0 <= r < 2 * d,
    ;
}

/// Rounding to the midpoint or beyond keeps the upper neighbour of the
/// floor representable.
proof fn lemma_round_even_in_range(p: int, q: int)
    requires
        q >= 1,
        -0x7fff_ffff_ffff_ffff <= p <= 0x7fff_ffff_ffff_ffff,
    ensures
        -0x7fff_ffff_ffff_ffff <= rat_round_even(p, q) <= 0x7fff_ffff_ffff_ffff,
{
    lemma_floor_in_range(p, q);
    lemma_fundamental_div_mod(p, q);
    let f = p / q;
    let r = p % q;
    if 2 * r >= q {
        // the remainder is at least one, so the floor stays a step
        // below the numerator's cap
        assert(f + 1 <= 0x7fff_ffff_ffff_ffff) by (nonlinear_arith)
            requires
                q >= 1,
                p <= 0x7fff_ffff_ffff_ffff,
                p == q * f + r,
                2 * r >= q,
                r < q,
        ;
    }
}

/// Rounding ties to even is monotone.
pub(crate) proof fn lemma_round_even_mono(p: int, q: int, r: int, s: int)
    requires
        q >= 1,
        s >= 1,
        p * s <= r * q,
    ensures
        rat_round_even(p, q) <= rat_round_even(r, s),
{
    lemma_floor_mono(p, q, r, s);
    lemma_fundamental_div_mod(p, q);
    lemma_fundamental_div_mod(r, s);
    let f1 = p / q;
    let f2 = r / s;
    let m1 = p % q;
    let m2 = r % s;
    if f1 == f2 {
        // with a shared floor, the fractional parts are ordered
        assert(m1 * s <= m2 * q) by (nonlinear_arith)
            requires
                p * s <= r * q,
                p == q * f1 + m1,
                r == s * f2 + m2,
                f1 == f2,
        ;
        if 2 * m1 > q {
            assert(2 * m2 > s) by (nonlinear_arith)
                requires
                    m1 * s <= m2 * q,
                    2 * m1 > q,
                    q >= 1,
                    s >= 1,
            ;
        } else if 2 * m1 == q {
            assert(2 * m2 >= s) by (nonlinear_arith)
                requires
                    m1 * s <= m2 * q,
                    2 * m1 == q,
                    q >= 1,
                    s >= 1,
            ;
        }
    }
}

/// Computes the nearest integer to `num / den`, ties to even, exactly.
fn round_even_rat(num: i64, den: i64) -> (r: i64)
    requires
        -0x7fff_ffff_ffff_ffff <= num,
        1 <= den,
    ensures
        r == rat_round_even(num as int, den as int),
        -0x7fff_ffff_ffff_ffff <= r <= 0x7fff_ffff_ffff_ffff,
{
    proof {
        lemma_floor_in_range(num as int, den as int);
        lemma_round_even_in_range(num as int, den as int);
    }
    let f = floor_rat(num, den);
    proof {
        lemma_fundamental_div_mod(num as int, den as int);
        crate::bound::lemma_i64_prod_fits(den as int, f as int);
    }
    let rem: i128 = (num as i128) - (den as i128) * (f as i128);
    let two_rem: i128 = 2 * rem;
    if two_rem < (den as i128) {
        f
    } else if two_rem > (den as i128) {
        f + 1
    } else {
        if crate::elementary::mod_small(f, 2) == 0 {
            f
        } else {
            f + 1
        }
    }
}

/// Computes the integer part of `num / den` exactly.
fn trunc_rat(num: i64, den: i64) -> (r: i64)
    requires
        -0x7fff_ffff_ffff_ffff <= num,
        1 <= den,
    ensures
        r == rat_trunc(num as int, den as int),
        -0x7fff_ffff_ffff_ffff <= r <= 0x7fff_ffff_ffff_ffff,
{
    if num >= 0 {
        proof {
            lemma_floor_in_range(num as int, den as int);
        }
        floor_rat(num, den)
    } else {
        let t = div_nonneg((-num) as u64, den as u64);
        -(t as i64)
    }
}

/// Rounding to the nearest integer, ties away from zero, is monotone.
pub(crate) proof fn lemma_round_mono(p: int, q: int, r: int, s: int)
    requires
        q >= 1,
        s >= 1,
        p * s <= r * q,
    ensures
        rat_round(p, q) <= rat_round(r, s),
{
    crate::bound::lemma_sign(p as int, s as int);
    crate::bound::lemma_sign(r as int, q as int);
    if p >= 0 && r >= 0 {
        assert((2 * p + q) * (2 * s) <= (2 * r + s) * (2 * q)) by (nonlinear_arith)
            requires
                q >= 1,
                s >= 1,
                p * s <= r * q,
        ;
        lemma_floor_mono(2 * p + q, 2 * q, 2 * r + s, 2 * s);
    } else if p < 0 && r < 0 {
        assert((2 * (-r) + s) * (2 * q) <= (2 * (-p) + q) * (2 * s)) by (nonlinear_arith)
            requires
                q >= 1,
                s >= 1,
                p * s <= r * q,
        ;
        lemma_floor_mono(2 * (-r) + s, 2 * s, 2 * (-p) + q, 2 * q);
    } else {
        lemma_round_half_bound(-p, q);
        lemma_round_half_bound(r, s);
    }
}

/// Truncation toward zero is monotone.
pub(crate) proof fn lemma_trunc_mono(p: int, q: int, r: int, s: int)
    requires
        q >= 1,
        s >= 1,
        p * s <= r * q,
    ensures
        rat_trunc(p, q) <= rat_trunc(r, s),
{
    crate::bound::lemma_sign(p as int, s as int);
    crate::bound::lemma_sign(r as int, q as int);
    if p >= 0 && r >= 0 {
        lemma_floor_mono(p, q, r, s);
    } else if p < 0 && r < 0 {
        assert((-r) * q <= (-p) * s) by (nonlinear_arith)
            requires
                p * s <= r * q,
        ;
        lemma_floor_mono(-r, s, -p, q);
    } else {
        lemma_fundamental_div_mod(-p, q);
        lemma_fundamental_div_mod(r, s);
        let f1 = (-p) / q;
        let f2 = r / s;
        assert(f1 >= 0 && f2 >= 0) by (nonlinear_arith)
            requires
                q >= 1,
                s >= 1,
                -p >= 0,
                r >= 0,
                -p == q * f1 + ((-p) % q),
                0 <= (-p) % q < q,
                r == s * f2 + (r % s),
                0 <= r % s < s,
        ;
    }
}

/// The ceiling is monotone.
pub(crate) proof fn lemma_ceil_mono(p: int, q: int, r: int, s: int)
    requires
        q >= 1,
        s >= 1,
        p * s <= r * q,
    ensures
        rat_ceil(p, q) <= rat_ceil(r, s),
{
    assert((-r) * q <= (-p) * s) by (nonlinear_arith)
        requires
            p * s <= r * q,
    ;
    lemma_floor_mono(-r, s, -p, q);
}

impl Interval {
    /// Maps each endpoint through the floor of `num / den`.
    fn map_floor(self) -> (r: Interval)
        requires
            self.wf(),
        ensures
            r == spec_map_bounds(
                self,
                spec_floor_bound(self.spec_lo()),
                spec_floor_bound(self.spec_hi()),
            ),
    {
        match self {
            Interval::Empty => Interval::Empty,
            Interval::Bounded { lo, hi } => {
                let l = match lo {
                    Bound::Rat { num, den } => Bound::Rat { num: floor_rat(num, den), den: 1 },
                    _ => lo,
                };
                let h = match hi {
                    Bound::Rat { num, den } => Bound::Rat { num: floor_rat(num, den), den: 1 },
                    _ => hi,
                };
                Interval::Bounded { lo: l, hi: h }
            },
        }
    }

    /// Rounds `self` toward minus infinity, per endpoint.
    pub fn floor(self) -> (r: Interval)
        requires
            self.wf(),
        ensures
            r == spec_map_bounds(
                self,
                spec_floor_bound(self.spec_lo()),
                spec_floor_bound(self.spec_hi()),
            ),
            r.wf(),
            r is Empty <==> self is Empty,
    {
        proof {
            lemma_floor_wf(self);
        }
        self.map_floor()
    }

    /// Rounds `self` toward plus infinity, per endpoint.
    pub fn ceil(self) -> (r: Interval)
        requires
            self.wf(),
        ensures
            r == spec_map_bounds(
                self,
                spec_ceil_bound(self.spec_lo()),
                spec_ceil_bound(self.spec_hi()),
            ),
            r.wf(),
            r is Empty <==> self is Empty,
    {
        proof {
            lemma_int_map_wf(self);
        }
        match self {
            Interval::Empty => Interval::Empty,
            Interval::Bounded { lo, hi } => {
                let l = match lo {
                    Bound::Rat { num, den } => Bound::Rat { num: ceil_rat(num, den), den: 1 },
                    _ => lo,
                };
                let h = match hi {
                    Bound::Rat { num, den } => Bound::Rat { num: ceil_rat(num, den), den: 1 },
                    _ => hi,
                };
                Interval::Bounded { lo: l, hi: h }
            },
        }
    }

    /// Rounds `self` to the closest integers, ties away from zero, per
    /// endpoint.
    pub fn round(self) -> (r: Interval)
        requires
            self.wf(),
        ensures
            r == spec_map_bounds(
                self,
                spec_round_bound(self.spec_lo()),
                spec_round_bound(self.spec_hi()),
            ),
            r.wf(),
            r is Empty <==> self is Empty,
    {
        proof {
            lemma_int_map_wf(self);
        }
        match self {
            Interval::Empty => Interval::Empty,
            Interval::Bounded { lo, hi } => {
                let l = match lo {
                    Bound::Rat { num, den } => Bound::Rat { num: round_rat(num, den), den: 1 },
                    _ => lo,
                };
                let h = match hi {
                    Bound::Rat { num, den } => Bound::Rat { num: round_rat(num, den), den: 1 },
                    _ => hi,
                };
                Interval::Bounded { lo: l, hi: h }
            },
        }
    }

    /// Rounds `self` to the closest integers, per endpoint, taking the
    /// even neighbour on exact ties.
    pub fn round_ties_to_even(self) -> (r: Interval)
        requires
            self.wf(),
        ensures
            r == spec_map_bounds(
                self,
                spec_round_even_bound(self.spec_lo()),
                spec_round_even_bound(self.spec_hi()),
            ),
            r.wf(),
            r is Empty <==> self is Empty,
    {
        proof {
            lemma_round_even_map_wf(self);
        }
        match self {
            Interval::Empty => Interval::Empty,
            Interval::Bounded { lo, hi } => {
                let l = match lo {
                    Bound::Rat { num, den } => Bound::Rat {
                        num: round_even_rat(num, den),
                        den: 1,
                    },
                    _ => lo,
                };
                let h = match hi {
                    Bound::Rat { num, den } => Bound::Rat {
                        num: round_even_rat(num, den),
                        den: 1,
                    },
                    _ => hi,
                };
                Interval::Bounded { lo: l, hi: h }
            },
        }
    }

    /// Rounds `self` toward zero, per endpoint.
    pub fn trunc(self) -> (r: Interval)
        requires
            self.wf(),
        ensures
            r == spec_map_bounds(
                self,
                spec_trunc_bound(self.spec_lo()),
                spec_trunc_bound(self.spec_hi()),
            ),
            r.wf(),
            r is Empty <==> self is Empty,
    {
        proof {
            lemma_int_map_wf(self);
        }
        match self {
            Interval::Empty => Interval::Empty,
            Interval::Bounded { lo, hi } => {
                let l = match lo {
                    Bound::Rat { num, den } => Bound::Rat { num: trunc_rat(num, den), den: 1 },
                    _ => lo,
                };
                let h = match hi {
                    Bound::Rat { num, den } => Bound::Rat { num: trunc_rat(num, den), den: 1 },
                    _ => hi,
                };
                Interval::Bounded { lo: l, hi: h }
            },
        }
    }

    /// Returns the sign of `self`: the set of signs of its points, with
    /// the sign of zero being zero.
    pub fn sign(self) -> (r: Interval)
        requires
            self.wf(),
        ensures
            r == spec_sign(self),
            r.wf(),
            r is Empty <==> self is Empty,
    {
        proof {
            crate::classify::lemma_class_facts(self);
        }
        match self.classify() {
            IntervalClass::E => Interval::Empty,
            IntervalClass::M => Interval::Bounded {
                lo: Bound::Rat { num: -1, den: 1 },
                hi: Bound::Rat { num: 1, den: 1 },
            },
            IntervalClass::N0 | IntervalClass::N1 => Interval::Bounded {
                lo: Bound::Rat { num: -1, den: 1 },
                hi: Bound::Rat { num: -1, den: 1 },
            },
            IntervalClass::P0 | IntervalClass::P1 => Interval::Bounded {
                lo: Bound::Rat { num: 1, den: 1 },
                hi: Bound::Rat { num: 1, den: 1 },
            },
            IntervalClass::Z => Interval::Bounded {
                lo: Bound::Rat { num: 0, den: 1 },
                hi: Bound::Rat { num: 0, den: 1 },
            },
        }
    }
}

/// Ranges of the integer roundings of a representable rational.
pub(crate) proof fn lemma_int_in_range(p: int, q: int)
    requires
        q >= 1,
        -0x7fff_ffff_ffff_ffff <= p <= 0x7fff_ffff_ffff_ffff,
    ensures
        -0x7fff_ffff_ffff_ffff <= rat_ceil(p, q) <= 0x7fff_ffff_ffff_ffff,
        -0x7fff_ffff_ffff_ffff <= rat_round(p, q) <= 0x7fff_ffff_ffff_ffff,
        -0x7fff_ffff_ffff_ffff <= rat_trunc(p, q) <= 0x7fff_ffff_ffff_ffff,
        -0x7fff_ffff_ffff_ffff <= rat_round_even(p, q) <= 0x7fff_ffff_ffff_ffff,
{
    lemma_ceil_in_range(p, q);
    lemma_round_in_range(p, q);
    lemma_trunc_in_range(p, q);
    lemma_round_even_in_range(p, q);
}

/// Range of the ceiling of a representable rational.
proof fn lemma_ceil_in_range(p: int, q: int)
    requires
        q >= 1,
        -0x7fff_ffff_ffff_ffff <= p <= 0x7fff_ffff_ffff_ffff,
    ensures
        -0x7fff_ffff_ffff_ffff <= rat_ceil(p, q) <= 0x7fff_ffff_ffff_ffff,
{
    lemma_floor_in_range(-p, q);
}

/// Range of the rounding of a representable rational.
proof fn lemma_round_in_range(p: int, q: int)
    requires
        q >= 1,
        -0x7fff_ffff_ffff_ffff <= p <= 0x7fff_ffff_ffff_ffff,
    ensures
        -0x7fff_ffff_ffff_ffff <= rat_round(p, q) <= 0x7fff_ffff_ffff_ffff,
{
    if p >= 0 {
        lemma_round_half_bound(p, q);
    } else {
        lemma_round_half_bound(-p, q);
    }
}

/// Range of the truncation of a representable rational.
proof fn lemma_trunc_in_range(p: int, q: int)
    requires
        q >= 1,
        -0x7fff_ffff_ffff_ffff <= p <= 0x7fff_ffff_ffff_ffff,
    ensures
        -0x7fff_ffff_ffff_ffff <= rat_trunc(p, q) <= 0x7fff_ffff_ffff_ffff,
{
    if p >= 0 {
        lemma_floor_in_range(p, q);
    } else {
        lemma_floor_in_range(-p, q);
    }
}

/// Mapping the ties-to-even rounding over both endpoints keeps the
/// interval valid.
proof fn lemma_round_even_map_wf(x: Interval)
    requires
        x.wf(),
    ensures
        spec_map_bounds(
            x,
            spec_round_even_bound(x.spec_lo()),
            spec_round_even_bound(x.spec_hi()),
        ).wf(),
{
    match x {
        Interval::Bounded { lo, hi } => {
            match (lo, hi) {
                (Bound::Rat { num: p, den: q }, Bound::Rat { num: r, den: s }) => {
                    lemma_round_even_mono(p as int, q as int, r as int, s as int);
                    lemma_round_even_in_range(p as int, q as int);
                    lemma_round_even_in_range(r as int, s as int);
                },
                (Bound::Rat { num: p, den: q }, _) => {
                    lemma_round_even_in_range(p as int, q as int);
                },
                (_, Bound::Rat { num: r, den: s }) => {
                    lemma_round_even_in_range(r as int, s as int);
                },
                _ => {},
            }
        },
        _ => {},
    }
}

/// Mapping any of the monotone integer roundings over both endpoints
/// keeps the interval valid.
proof fn lemma_int_map_wf(x: Interval)
    requires
        x.wf(),
    ensures
        spec_map_bounds(x, spec_ceil_bound(x.spec_lo()), spec_ceil_bound(x.spec_hi())).wf(),
        spec_map_bounds(x, spec_round_bound(x.spec_lo()), spec_round_bound(x.spec_hi())).wf(),
        spec_map_bounds(x, spec_trunc_bound(x.spec_lo()), spec_trunc_bound(x.spec_hi())).wf(),
{
    match x {
        Interval::Bounded { lo, hi } => {
            match (lo, hi) {
                (Bound::Rat { num: p, den: q }, Bound::Rat { num: r, den: s }) => {
                    lemma_ceil_mono(p as int, q as int, r as int, s as int);
                    lemma_round_mono(p as int, q as int, r as int, s as int);
                    lemma_trunc_mono(p as int, q as int, r as int, s as int);
                    lemma_ceil_in_range(p as int, q as int);
                    lemma_ceil_in_range(r as int, s as int);
                    lemma_round_in_range(p as int, q as int);
                    lemma_round_in_range(r as int, s as int);
                    lemma_trunc_in_range(p as int, q as int);
                    lemma_trunc_in_range(r as int, s as int);
                },
                (Bound::Rat { num: p, den: q }, _) => {
                    lemma_ceil_in_range(p as int, q as int);
                    lemma_round_in_range(p as int, q as int);
                    lemma_trunc_in_range(p as int, q as int);
                },
                (_, Bound::Rat { num: r, den: s }) => {
                    lemma_ceil_in_range(r as int, s as int);
                    lemma_round_in_range(r as int, s as int);
                    lemma_trunc_in_range(r as int, s as int);
                },
                _ => {},
            }
        },
        _ => {},
    }
}

/// Mapping the floor over both endpoints keeps the interval valid.
proof fn lemma_floor_wf(x: Interval)
    requires
        x.wf(),
    ensures
        spec_map_bounds(x, spec_floor_bound(x.spec_lo()), spec_floor_bound(x.spec_hi())).wf(),
{
    match x {
        Interval::Bounded { lo, hi } => {
            match (lo, hi) {
                (Bound::Rat { num: p, den: q }, Bound::Rat { num: r, den: s }) => {
                    lemma_floor_mono(p as int, q as int, r as int, s as int);
                    lemma_floor_in_range(p as int, q as int);
                    lemma_floor_in_range(r as int, s as int);
                },
                (Bound::Rat { num: p, den: q }, _) => {
                    lemma_floor_in_range(p as int, q as int);
                },
                (_, Bound::Rat { num: r, den: s }) => {
                    lemma_floor_in_range(r as int, s as int);
                },
                _ => {},
            }
        },
        _ => {},
    }
}

/// The floor of a well-formed endpoint's value stays within the
/// representable numerators.
pub(crate) proof fn lemma_floor_in_range(p: int, q: int)
    requires
        q >= 1,
        -0x7fff_ffff_ffff_ffff <= p <= 0x7fff_ffff_ffff_ffff,
    ensures
        -0x7fff_ffff_ffff_ffff <= rat_floor(p, q) <= 0x7fff_ffff_ffff_ffff,
{
    lemma_fundamental_div_mod(p, q);
    let f = p / q;
    let m = p % q;
    assert(-0x7fff_ffff_ffff_ffff <= f <= 0x7fff_ffff_ffff_ffff) by (nonlinear_arith)
        requires
            q >= 1,
            -0x7fff_ffff_ffff_ffff <= p <= 0x7fff_ffff_ffff_ffff,
            p == q * f + m,
            0 <= m < q,
    ;
}

} // verus!
