//! Extended-rational endpoints: the scalar type that interval bounds are
//! made of, together with its order, sign tests and exact arithmetic.

use vstd::prelude::*;

verus! {

/// One endpoint of an interval: minus infinity, an exact rational
/// `num / den`, or plus infinity.
///
/// A well-formed rational endpoint has `den >= 1` and `num > i64::MIN`,
/// so that its negation is always representable.  Building a `Bound`
/// directly is the unchecked constructor of this crate: callers that do
/// so must guarantee well-formedness themselves, as the validating
/// interval constructor does for its callers.
#[derive(Clone, Copy, Debug, PartialEq, Eq, Structural)]
pub enum Bound {
    NegInf,
    Rat { num: i64, den: i64 },
    PosInf,
}

/// Well-formedness of an endpoint: the denominator is positive and the
/// numerator avoids `i64::MIN`, keeping negation exact.
pub open spec fn bound_wf(b: Bound) -> bool {
    match b {
        Bound::Rat { num, den } => 1 <= den && -0x7fff_ffff_ffff_ffff <= num,
        _ => true,
    }
}

/// `x <= y` on extended rationals, by cross-multiplication of the
/// (positive) denominators.
pub open spec fn bound_le(x: Bound, y: Bound) -> bool {
    match (x, y) {
        (Bound::NegInf, _) => true,
        (_, Bound::PosInf) => true,
        (_, Bound::NegInf) => false,
        (Bound::PosInf, _) => false,
        (Bound::Rat { num: p, den: q }, Bound::Rat { num: r, den: s }) => p * s <= r * q,
    }
}

/// `x < y` on extended rationals.
pub open spec fn bound_lt(x: Bound, y: Bound) -> bool {
    match (x, y) {
        (Bound::NegInf, Bound::NegInf) => false,
        (Bound::PosInf, Bound::PosInf) => false,
        (Bound::NegInf, _) => true,
        (_, Bound::PosInf) => true,
        (_, Bound::NegInf) => false,
        (Bound::PosInf, _) => false,
        (Bound::Rat { num: p, den: q }, Bound::Rat { num: r, den: s }) => p * s < r * q,
    }
}

/// Value equality on endpoints: `2/4` equals `1/2`.
pub open spec fn bound_eqv(x: Bound, y: Bound) -> bool {
    match (x, y) {
        (Bound::NegInf, Bound::NegInf) => true,
        (Bound::PosInf, Bound::PosInf) => true,
        (Bound::Rat { num: p, den: q }, Bound::Rat { num: r, den: s }) => p * s == r * q,
        _ => false,
    }
}

/// The endpoint is a strictly negative value (or minus infinity).
pub open spec fn bound_is_neg(b: Bound) -> bool {
    match b {
        Bound::NegInf => true,
        Bound::PosInf => false,
        Bound::Rat { num, .. } => num < 0,
    }
}

/// The endpoint is a strictly positive value (or plus infinity).
pub open spec fn bound_is_pos(b: Bound) -> bool {
    match b {
        Bound::NegInf => false,
        Bound::PosInf => true,
        Bound::Rat { num, .. } => num > 0,
    }
}

/// The endpoint is exactly zero.
pub open spec fn bound_is_zero(b: Bound) -> bool {
    match b {
        Bound::Rat { num, .. } => num == 0,
        _ => false,
    }
}

/// The endpoint is a finite rational.
pub open spec fn bound_is_finite(b: Bound) -> bool {
    match b {
        Bound::Rat { .. } => true,
        _ => false,
    }
}

/// `b <= p / q`, for a rational point with `q > 0`.
pub open spec fn below(b: Bound, p: int, q: int) -> bool {
    match b {
        Bound::NegInf => true,
        Bound::PosInf => false,
        Bound::Rat { num, den } => num * q <= p * den,
    }
}

/// `p / q <= b`, for a rational point with `q > 0`.
pub open spec fn above(b: Bound, p: int, q: int) -> bool {
    match b {
        Bound::NegInf => false,
        Bound::PosInf => true,
        Bound::Rat { num, den } => p * den <= num * q,
    }
}

/// Products of two `i64` values stay inside `i128`.
pub(crate) proof fn lemma_i64_prod_fits(a: int, b: int)
    by (nonlinear_arith)
    requires
        -0x8000_0000_0000_0000 <= a <= 0x7fff_ffff_ffff_ffff,
        -0x8000_0000_0000_0000 <= b <= 0x7fff_ffff_ffff_ffff,
    ensures
        -0x4000_0000_0000_0000_0000_0000_0000_0000 <= a * b
            <= 0x4000_0000_0000_0000_0000_0000_0000_0000,
{
}

/// Products of two numerators or denominators of well-formed endpoints
/// leave room for a sum of two such products in `i128`.
proof fn lemma_wf_prod_fits(a: int, b: int)
    by (nonlinear_arith)
    requires
        -0x7fff_ffff_ffff_ffff <= a <= 0x7fff_ffff_ffff_ffff,
        -0x7fff_ffff_ffff_ffff <= b <= 0x7fff_ffff_ffff_ffff,
    ensures
        -0x3fff_ffff_ffff_ffff_0000_0000_0000_0001 <= a * b
            <= 0x3fff_ffff_ffff_ffff_0000_0000_0000_0001,
{
}

/// Exact product of two `i64` values, carried out in `i128`.
pub(crate) fn mul_wide(a: i64, b: i64) -> (r: i128)
    ensures
        r == a as int * b as int,
{
    proof {
        lemma_i64_prod_fits(a as int, b as int);
    }
    (a as i128) * (b as i128)
}

/// Compares two endpoints: `x <= y`.
pub fn le(x: Bound, y: Bound) -> (r: bool)
    ensures
        r == bound_le(x, y),
{
    match (x, y) {
        (Bound::NegInf, _) => true,
        (_, Bound::PosInf) => true,
        (_, Bound::NegInf) => false,
        (Bound::PosInf, _) => false,
        (Bound::Rat { num: p, den: q }, Bound::Rat { num: r, den: s }) => {
            mul_wide(p, s) <= mul_wide(r, q)
        },
    }
}

/// Compares two endpoints: `x < y`.
pub fn lt(x: Bound, y: Bound) -> (r: bool)
    ensures
        r == bound_lt(x, y),
{
    match (x, y) {
        (Bound::NegInf, Bound::NegInf) => false,
        (Bound::PosInf, Bound::PosInf) => false,
        (Bound::NegInf, _) => true,
        (_, Bound::PosInf) => true,
        (_, Bound::NegInf) => false,
        (Bound::PosInf, _) => false,
        (Bound::Rat { num: p, den: q }, Bound::Rat { num: r, den: s }) => {
            mul_wide(p, s) < mul_wide(r, q)
        },
    }
}

/// Compares two endpoints for value equality.
pub fn eqv(x: Bound, y: Bound) -> (r: bool)
    ensures
        r == bound_eqv(x, y),
{
    match (x, y) {
        (Bound::NegInf, Bound::NegInf) => true,
        (Bound::PosInf, Bound::PosInf) => true,
        (Bound::Rat { num: p, den: q }, Bound::Rat { num: r, den: s }) => {
            mul_wide(p, s) == mul_wide(r, q)
        },
        _ => false,
    }
}

/// The endpoint that an unrepresentable result widens to: outward, so
/// that a lower endpoint falls to minus infinity and an upper endpoint
/// rises to plus infinity.
pub open spec fn widened(down: bool) -> Bound {
    if down {
        Bound::NegInf
    } else {
        Bound::PosInf
    }
}

/// The exact rational `n / d` is representable as a well-formed endpoint.
pub open spec fn rat_fits(n: int, d: int) -> bool {
    &&& -0x7fff_ffff_ffff_ffff <= n <= 0x7fff_ffff_ffff_ffff
    &&& 1 <= d <= 0x7fff_ffff_ffff_ffff
}

/// The exact rational `n / d` when it is representable, widened outward
/// otherwise.
pub open spec fn norm_rat(n: int, d: int, down: bool) -> Bound {
    if rat_fits(n, d) {
        Bound::Rat { num: n as i64, den: d as i64 }
    } else {
        widened(down)
    }
}

/// The sum of two endpoints.  Never applied to infinities of opposite
/// sign: interval addition adds lower to lower and upper to upper, and a
/// well-formed interval has no lower endpoint at plus infinity nor upper
/// endpoint at minus infinity.
pub open spec fn spec_add_bound(x: Bound, y: Bound, down: bool) -> Bound {
    match (x, y) {
        (Bound::Rat { num: p, den: q }, Bound::Rat { num: r, den: s }) => norm_rat(
            p * s + r * q,
            q * s,
            down,
        ),
        (Bound::NegInf, _) => Bound::NegInf,
        (_, Bound::NegInf) => Bound::NegInf,
        _ => Bound::PosInf,
    }
}

/// The negation of an endpoint; always exact on well-formed endpoints.
pub open spec fn spec_neg_bound(x: Bound) -> Bound {
    match x {
        Bound::NegInf => Bound::PosInf,
        Bound::PosInf => Bound::NegInf,
        Bound::Rat { num, den } => Bound::Rat { num: -num as i64, den },
    }
}

/// The product of two endpoints.  Never applied to a zero beside an
/// infinity: the multiplication table dispatches on sign classes exactly
/// so that such products cannot arise.
pub open spec fn spec_mul_bound(x: Bound, y: Bound, down: bool) -> Bound {
    match (x, y) {
        (Bound::Rat { num: p, den: q }, Bound::Rat { num: r, den: s }) => norm_rat(
            p * r,
            q * s,
            down,
        ),
        (Bound::PosInf, Bound::PosInf) => Bound::PosInf,
        (Bound::NegInf, Bound::NegInf) => Bound::PosInf,
        (Bound::PosInf, Bound::NegInf) => Bound::NegInf,
        (Bound::NegInf, Bound::PosInf) => Bound::NegInf,
        (Bound::PosInf, Bound::Rat { num: r, .. }) => if r >= 0 {
            Bound::PosInf
        } else {
            Bound::NegInf
        },
        (Bound::NegInf, Bound::Rat { num: r, .. }) => if r >= 0 {
            Bound::NegInf
        } else {
            Bound::PosInf
        },
        (Bound::Rat { num: p, .. }, Bound::PosInf) => if p >= 0 {
            Bound::PosInf
        } else {
            Bound::NegInf
        },
        (Bound::Rat { num: p, .. }, Bound::NegInf) => if p >= 0 {
            Bound::NegInf
        } else {
            Bound::PosInf
        },
    }
}

/// The quotient of two endpoints.  Never applied to a zero divisor, nor
/// to two infinities: the division table dispatches on sign classes so
/// that neither can arise.
pub open spec fn spec_div_bound(x: Bound, y: Bound, down: bool) -> Bound {
    match (x, y) {
        (Bound::Rat { num: p, den: q }, Bound::Rat { num: r, den: s }) => if r > 0 {
            norm_rat(p * s, q * r, down)
        } else {
            norm_rat(-(p * s), -(q * r), down)
        },
        (Bound::Rat { .. }, _) => Bound::Rat { num: 0, den: 1 },
        (Bound::PosInf, Bound::Rat { num: r, .. }) => if r >= 0 {
            Bound::PosInf
        } else {
            Bound::NegInf
        },
        (Bound::NegInf, Bound::Rat { num: r, .. }) => if r >= 0 {
            Bound::NegInf
        } else {
            Bound::PosInf
        },
        _ => Bound::PosInf,
    }
}

/// The smaller of two endpoints; ties keep the left operand.
pub open spec fn spec_min_bound(x: Bound, y: Bound) -> Bound {
    if bound_le(x, y) {
        x
    } else {
        y
    }
}

/// The larger of two endpoints; ties keep the left operand.
pub open spec fn spec_max_bound(x: Bound, y: Bound) -> Bound {
    if bound_le(y, x) {
        x
    } else {
        y
    }
}

/// Positive denominators multiply to a positive denominator.
proof fn lemma_den_prod_pos(q: int, s: int)
    by (nonlinear_arith)
    requires
        1 <= q,
        1 <= s,
    ensures
        1 <= q * s,
{
}

/// Adds two endpoints.
pub fn add_bound(x: Bound, y: Bound, down: bool) -> (r: Bound)
    requires
        bound_wf(x),
        bound_wf(y),
        !(x is NegInf && y is PosInf),
        !(x is PosInf && y is NegInf),
    ensures
        r == spec_add_bound(x, y, down),
        bound_wf(r),
{
    match (x, y) {
        (Bound::Rat { num: p, den: q }, Bound::Rat { num: r, den: s }) => {
            proof {
                lemma_wf_prod_fits(p as int, s as int);
                lemma_wf_prod_fits(r as int, q as int);
            }
            let n: i128 = mul_wide(p, s) + mul_wide(r, q);
            let d: i128 = mul_wide(q, s);
            proof {
                lemma_den_prod_pos(q as int, s as int);
            }
            if -0x7fff_ffff_ffff_ffff <= n && n <= 0x7fff_ffff_ffff_ffff
                && d <= 0x7fff_ffff_ffff_ffff {
                Bound::Rat { num: n as i64, den: d as i64 }
            } else {
                if down {
                    Bound::NegInf
                } else {
                    Bound::PosInf
                }
            }
        },
        (Bound::NegInf, _) => Bound::NegInf,
        (_, Bound::NegInf) => Bound::NegInf,
        _ => Bound::PosInf,
    }
}

/// Negates an endpoint.
pub fn neg_bound(x: Bound) -> (r: Bound)
    requires
        bound_wf(x),
    ensures
        r == spec_neg_bound(x),
        bound_wf(r),
{
    match x {
        Bound::NegInf => Bound::PosInf,
        Bound::PosInf => Bound::NegInf,
        Bound::Rat { num, den } => Bound::Rat { num: -num, den },
    }
}

/// Multiplies two endpoints.
pub fn mul_bound(x: Bound, y: Bound, down: bool) -> (r: Bound)
    requires
        bound_wf(x),
        bound_wf(y),
        !(bound_is_zero(x) && !bound_is_finite(y)),
        !(!bound_is_finite(x) && bound_is_zero(y)),
    ensures
        r == spec_mul_bound(x, y, down),
        bound_wf(r),
{
    match (x, y) {
        (Bound::Rat { num: p, den: q }, Bound::Rat { num: r, den: s }) => {
            let n: i128 = mul_wide(p, r);
            let d: i128 = mul_wide(q, s);
            proof {
                lemma_den_prod_pos(q as int, s as int);
            }
            if -0x7fff_ffff_ffff_ffff <= n && n <= 0x7fff_ffff_ffff_ffff
                && d <= 0x7fff_ffff_ffff_ffff {
                Bound::Rat { num: n as i64, den: d as i64 }
            } else {
                if down {
                    Bound::NegInf
                } else {
                    Bound::PosInf
                }
            }
        },
        (Bound::PosInf, Bound::PosInf) => Bound::PosInf,
        (Bound::NegInf, Bound::NegInf) => Bound::PosInf,
        (Bound::PosInf, Bound::NegInf) => Bound::NegInf,
        (Bound::NegInf, Bound::PosInf) => Bound::NegInf,
        (Bound::PosInf, Bound::Rat { num: r, .. }) => if r >= 0 {
            Bound::PosInf
        } else {
            Bound::NegInf
        },
        (Bound::NegInf, Bound::Rat { num: r, .. }) => if r >= 0 {
            Bound::NegInf
        } else {
            Bound::PosInf
        },
        (Bound::Rat { num: p, .. }, Bound::PosInf) => if p >= 0 {
            Bound::PosInf
        } else {
            Bound::NegInf
        },
        (Bound::Rat { num: p, .. }, Bound::NegInf) => if p >= 0 {
            Bound::NegInf
        } else {
            Bound::PosInf
        },
    }
}

/// Divides two endpoints.
pub fn div_bound(x: Bound, y: Bound, down: bool) -> (r: Bound)
    requires
        bound_wf(x),
        bound_wf(y),
        !bound_is_zero(y),
        bound_is_finite(x) || bound_is_finite(y),
    ensures
        r == spec_div_bound(x, y, down),
        bound_wf(r),
{
    match (x, y) {
        (Bound::Rat { num: p, den: q }, Bound::Rat { num: r, den: s }) => {
            proof {
                lemma_i64_prod_fits(p as int, s as int);
                lemma_i64_prod_fits(q as int, r as int);
            }
            let n0: i128 = mul_wide(p, s);
            let d0: i128 = mul_wide(q, r);
            let (n, d): (i128, i128) = if r > 0 {
                (n0, d0)
            } else {
                (-n0, -d0)
            };
            proof {
                if r > 0 {
                    lemma_den_prod_pos(q as int, r as int);
                } else {
                    lemma_den_prod_pos(q as int, -r as int);
                    assert(q as int * -(r as int) == -(q as int * r as int)) by (nonlinear_arith);
                }
            }
            if -0x7fff_ffff_ffff_ffff <= n && n <= 0x7fff_ffff_ffff_ffff
                && d <= 0x7fff_ffff_ffff_ffff {
                Bound::Rat { num: n as i64, den: d as i64 }
            } else {
                if down {
                    Bound::NegInf
                } else {
                    Bound::PosInf
                }
            }
        },
        (Bound::Rat { .. }, _) => Bound::Rat { num: 0, den: 1 },
        (Bound::PosInf, Bound::Rat { num: r, .. }) => if r >= 0 {
            Bound::PosInf
        } else {
            Bound::NegInf
        },
        (Bound::NegInf, Bound::Rat { num: r, .. }) => if r >= 0 {
            Bound::NegInf
        } else {
            Bound::PosInf
        },
        _ => Bound::PosInf,
    }
}

/// Cross-multiplied order is transitive on well-formed endpoints.
pub proof fn lemma_bound_le_trans(x: Bound, y: Bound, z: Bound)
    requires
        bound_wf(x),
        bound_wf(y),
        bound_wf(z),
        bound_le(x, y),
        bound_le(y, z),
    ensures
        bound_le(x, z),
{
    match (x, y, z) {
        (
            Bound::Rat { num: p, den: q },
            Bound::Rat { num: r, den: s },
            Bound::Rat { num: t, den: u },
        ) => {
            assert(p * u <= t * q) by (nonlinear_arith)
                requires
                    q >= 1,
                    s >= 1,
                    u >= 1,
                    p * s <= r * q,
                    r * u <= t * s,
            ;
        },
        _ => {},
    }
}

/// Negation reverses the order of endpoints.
pub proof fn lemma_bound_neg_le(x: Bound, y: Bound)
    requires
        bound_wf(x),
        bound_wf(y),
    ensures
        bound_le(x, y) == bound_le(spec_neg_bound(y), spec_neg_bound(x)),
{
    match (x, y) {
        (Bound::Rat { num: p, den: q }, Bound::Rat { num: r, den: s }) => {
            assert(-r * q == -(r * q) && -p * s == -(p * s)) by (nonlinear_arith);
        },
        _ => {},
    }
}

/// Negation mirrors the membership predicates: `b <= p/q` exactly when
/// `-p/q <= -b`.
pub proof fn lemma_bound_neg_point(b: Bound, p: int, q: int)
    requires
        bound_wf(b),
        q > 0,
    ensures
        below(b, p, q) == above(spec_neg_bound(b), -p, q),
        above(b, p, q) == below(spec_neg_bound(b), -p, q),
{
    match b {
        Bound::Rat { num, den } => {
            assert(-num * q == -(num * q) && -p * den == -(p * den)) by (nonlinear_arith);
        },
        _ => {},
    }
}

/// Multiplying by a positive factor keeps the sign of the other factor,
/// and conversely.
pub proof fn lemma_sign(p: int, s: int)
    by (nonlinear_arith)
    requires
        s >= 1,
    ensures
        (p > 0 ==> p * s > 0),
        (p < 0 ==> p * s < 0),
        (p == 0 ==> p * s == 0),
        (p * s > 0 ==> p > 0),
        (p * s < 0 ==> p < 0),
{
}

/// The smaller of two endpoints lies below both.
pub proof fn lemma_min_bound_le(x: Bound, y: Bound)
    ensures
        bound_le(spec_min_bound(x, y), x),
        bound_le(spec_min_bound(x, y), y),
{
}

/// The larger of two endpoints lies above both.
pub proof fn lemma_max_bound_ge(x: Bound, y: Bound)
    ensures
        bound_le(x, spec_max_bound(x, y)),
        bound_le(y, spec_max_bound(x, y)),
{
}

/// The smaller of two endpoints.
pub fn min_bound(x: Bound, y: Bound) -> (r: Bound)
    ensures
        r == spec_min_bound(x, y),
{
    if le(x, y) {
        x
    } else {
        y
    }
}

/// The larger of two endpoints.
pub fn max_bound(x: Bound, y: Bound) -> (r: Bound)
    ensures
        r == spec_max_bound(x, y),
{
    if le(y, x) {
        x
    } else {
        y
    }
}

} // verus!
