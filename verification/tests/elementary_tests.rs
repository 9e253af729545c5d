//! The integer power and the decision layer of the elementary
//! functions: domain clamps, periodic branch tables, and the
//! arctangent and power dispatch.

use interval_arith::elementary::{Atan2Shape, CoshShape, PowShape, TrigRange};
use interval_arith::{Bound, Interval};

fn b(n: i64, d: i64) -> Bound {
    Bound::Rat { num: n, den: d }
}

fn iv(lo: i64, hi: i64) -> Interval {
    Interval::try_new(b(lo, 1), b(hi, 1)).unwrap()
}

fn ivr(ln: i64, ld: i64, hn: i64, hd: i64) -> Interval {
    Interval::try_new(b(ln, ld), b(hn, hd)).unwrap()
}

#[test]
fn powi_positive() {
    assert_eq!(iv(2, 3).powi(2), iv(4, 9));
    assert_eq!(iv(-3, 2).powi(2), iv(0, 9));
    assert_eq!(iv(-3, -2).powi(2), iv(4, 9));
    assert_eq!(iv(-3, 2).powi(3), iv(-27, 8));
    assert_eq!(iv(-2, -1).powi(3), iv(-8, -1));
    // (6/5)^5 = 7776/3125
    assert_eq!(
        ivr(-6, 5, 6, 5).powi(5),
        Interval::try_new(b(-7776, 3125), b(7776, 3125)).unwrap()
    );
}

#[test]
fn powi_even_overflow_keeps_sign() {
    // the exact square overflows the representable numerators, but an
    // even power is never negative: the lower endpoint falls to zero,
    // not to minus infinity
    let big = iv(3_037_000_500, 3_037_000_500);
    assert_eq!(big.powi(2), Interval::try_new(b(0, 1), Bound::PosInf).unwrap());
    assert_eq!(big.powi(-2), Interval::try_new(b(0, 1), Bound::PosInf).unwrap());
}

#[test]
fn powi_odd_antisymmetry_samples() {
    // raising the mirror image is the mirror image of raising, for odd
    // exponents
    let samples = [iv(2, 3), iv(-3, 2), iv(-4, -1), iv(0, 2), iv(-2, 0)];
    for x in samples.iter() {
        for rhs in [1i32, 3, 5, -1, -3] {
            assert_eq!(x.neg().powi(rhs), x.powi(rhs).neg());
        }
    }
}

#[test]
fn powi_encloses_points() {
    // 3/2 lies in [1, 2]: its integer powers lie in the interval powers
    let x = Interval::try_new(b(1, 1), b(2, 1)).unwrap();
    assert!(x.powi(2).contains(b(9, 4)));
    assert!(x.powi(3).contains(b(27, 8)));
    assert!(x.powi(-1).contains(b(2, 3)));
    assert!(x.powi(-2).contains(b(4, 9)));
    // -3/2 lies in [-2, -1]
    let y = Interval::try_new(b(-2, 1), b(-1, 1)).unwrap();
    assert!(y.powi(3).contains(b(-27, 8)));
    assert!(y.powi(2).contains(b(9, 4)));
    assert!(y.powi(-3).contains(b(-8, 27)));
}

#[test]
fn powi_zero_exponent() {
    assert_eq!(iv(-3, 2).powi(0), iv(1, 1));
    assert_eq!(Interval::entire().powi(0), iv(1, 1));
    assert!(Interval::empty().powi(0).is_empty());
}

#[test]
fn powi_negative() {
    assert_eq!(iv(2, 4).powi(-1), Interval::try_new(b(1, 4), b(1, 2)).unwrap());
    assert_eq!(iv(2, 4).powi(-2), Interval::try_new(b(1, 16), b(1, 4)).unwrap());
    assert!(iv(0, 0).powi(-1).is_empty());
    assert!(iv(-1, 2).powi(-1).is_entire());
    assert_eq!(
        iv(0, 2).powi(-1),
        Interval::try_new(b(1, 2), Bound::PosInf).unwrap()
    );
    assert_eq!(
        iv(-2, 0).powi(-1),
        Interval::try_new(Bound::NegInf, b(-1, 2)).unwrap()
    );
    assert_eq!(
        iv(0, 2).powi(-2),
        Interval::try_new(b(1, 4), Bound::PosInf).unwrap()
    );
    assert_eq!(
        iv(-2, 2).powi(-2),
        Interval::try_new(b(1, 4), Bound::PosInf).unwrap()
    );
}

#[test]
fn log_domain() {
    assert_eq!(iv(-1, 2).log_domain(), Some(iv(0, 2)));
    assert_eq!(iv(-2, -1).log_domain(), None);
    assert_eq!(iv(-1, 0).log_domain(), None);
    assert_eq!(iv(1, 4).log_domain(), Some(iv(1, 4)));
    assert_eq!(Interval::empty().log_domain(), None);
}

#[test]
fn unit_domain() {
    assert_eq!(ivr(1, 2, 3, 1).unit_domain(), Some(ivr(1, 2, 1, 1)));
    assert_eq!(iv(2, 3).unit_domain(), None);
    assert_eq!(Interval::entire().unit_domain(), Some(iv(-1, 1)));
}

#[test]
fn acosh_domain() {
    assert_eq!(iv(0, 2).acosh_domain(), Some(iv(1, 2)));
    assert_eq!(iv(-3, 0).acosh_domain(), None);
}

#[test]
fn atanh_domain() {
    assert_eq!(ivr(-1, 2, 1, 2).atanh_domain(), Some(ivr(-1, 2, 1, 2)));
    assert_eq!(iv(1, 3).atanh_domain(), None);
    assert_eq!(iv(-3, -1).atanh_domain(), None);
    assert_eq!(iv(0, 3).atanh_domain(), Some(iv(0, 1)));
}

#[test]
fn cosh_shape() {
    assert_eq!(iv(-3, -1).cosh_shape(), CoshShape::Dec);
    assert_eq!(iv(1, 3).cosh_shape(), CoshShape::Inc);
    assert_eq!(iv(-2, 3).cosh_shape(), CoshShape::FromOne { at: b(3, 1) });
    assert_eq!(iv(-3, 2).cosh_shape(), CoshShape::FromOne { at: b(3, 1) });
    assert_eq!(Interval::empty().cosh_shape(), CoshShape::Empty);
}

#[test]
fn trig_shapes() {
    assert_eq!(interval_arith::elementary::sin_shape(0, 0), TrigRange::Inc);
    assert_eq!(interval_arith::elementary::sin_shape(3, 1), TrigRange::Inc);
    assert_eq!(interval_arith::elementary::sin_shape(1, 1), TrigRange::Dec);
    assert_eq!(interval_arith::elementary::sin_shape(0, 2), TrigRange::IncDec);
    assert_eq!(interval_arith::elementary::sin_shape(2, 2), TrigRange::DecInc);
    assert_eq!(interval_arith::elementary::sin_shape(0, 4), TrigRange::Full);
    assert_eq!(interval_arith::elementary::cos_shape(0, 0), TrigRange::Dec);
    assert_eq!(interval_arith::elementary::cos_shape(1, 0), TrigRange::Inc);
    assert_eq!(interval_arith::elementary::cos_shape(0, 1), TrigRange::DecInc);
    assert_eq!(interval_arith::elementary::cos_shape(1, 1), TrigRange::IncDec);
    assert_eq!(interval_arith::elementary::cos_shape(0, 2), TrigRange::Full);
    assert!(interval_arith::elementary::tan_single_branch(0, 0, false));
    assert!(interval_arith::elementary::tan_single_branch(0, 1, true));
    assert!(!interval_arith::elementary::tan_single_branch(0, 1, false));
    assert!(interval_arith::elementary::tan_single_branch(1, 2, true));
    assert!(!interval_arith::elementary::tan_single_branch(1, 3, true));
}

#[test]
fn sin_indices() {
    assert_eq!(iv(0, 1).sin_indices(), Some((0, 0)));
    assert_eq!(iv(2, 2).sin_indices(), Some((1, 0)));
    assert_eq!(iv(0, 4).sin_indices(), Some((0, 2)));
    assert_eq!(Interval::entire().sin_indices(), None);
    // a lower endpoint inside the pi/2 enclosure leaves the index
    // undecided: the caller must fall back to the full range
    let straddle = Interval::try_new(
        b(3_141_592_653_589_793, 2_000_000_000_000_000),
        b(2, 1),
    )
    .unwrap();
    assert_eq!(straddle.sin_indices(), None);
}

#[test]
fn cos_indices() {
    assert_eq!(iv(0, 1).cos_indices(), Some((0, 0)));
    assert_eq!(iv(-1, 1).cos_indices(), Some((1, 1)));
    assert_eq!(iv(0, 7).cos_indices(), Some((0, 2)));
    assert_eq!(Interval::entire().cos_indices(), None);
}

#[test]
fn tan_indices() {
    assert_eq!(iv(1, 3).tan_indices(), Some((0, 1, false)));
    assert_eq!(iv(-1, 1).tan_indices(), Some((1, 1, false)));
    assert_eq!(iv(-3, -2).tan_indices(), Some((0, 0, false)));
    assert_eq!(Interval::entire().tan_indices(), None);
}

#[test]
fn atan2_shapes() {
    // the negative axis is normalized to +pi from either side
    let y_zero = iv(0, 0);
    let x_neg = iv(-3, -1);
    assert_eq!(y_zero.atan2_shape(x_neg), Atan2Shape::PiOnly);
    let y_touch = iv(-2, 0);
    assert_eq!(y_touch.atan2_shape(iv(-2, 3)), Atan2Shape::FullRange);
    assert_eq!(y_zero.atan2_shape(iv(0, 2)), Atan2Shape::ZeroOnly);
    assert_eq!(iv(0, 2).atan2_shape(iv(0, 0)), Atan2Shape::HalfPiOnly);
    assert_eq!(iv(-2, 0).atan2_shape(iv(0, 0)), Atan2Shape::NegHalfPiOnly);
    assert_eq!(iv(0, 2).atan2_shape(iv(0, 2)), Atan2Shape::QuadrantOne);
    assert_eq!(
        iv(1, 2).atan2_shape(iv(3, 4)),
        Atan2Shape::MapBoth { lo_y: b(1, 1), lo_x: b(4, 1), hi_y: b(2, 1), hi_x: b(3, 1) }
    );
    assert_eq!(Interval::empty().atan2_shape(iv(1, 2)), Atan2Shape::Empty);
    assert_eq!(iv(0, 0).atan2_shape(iv(0, 0)), Atan2Shape::Empty);
}

#[test]
fn pow_shapes() {
    // base clamped to [0, oo): [1, 4]^[1, 2] maps through the corner
    // powers with the exponent's upper endpoint
    assert_eq!(
        iv(1, 4).pow_shape(iv(1, 2)),
        PowShape::MapBoth { lo_base: b(1, 1), lo_exp: b(2, 1), hi_base: b(4, 1), hi_exp: b(2, 1) }
    );
    assert_eq!(
        iv(2, 4).pow_shape(iv(1, 2)),
        PowShape::MapBoth { lo_base: b(2, 1), lo_exp: b(1, 1), hi_base: b(4, 1), hi_exp: b(2, 1) }
    );
    assert_eq!(iv(0, 0).pow_shape(iv(-1, -1)), PowShape::Empty);
    assert_eq!(iv(0, 0).pow_shape(iv(-1, 1)), PowShape::ZeroOnly);
    assert_eq!(
        iv(-1, 2).pow_shape(iv(-1, 1)),
        PowShape::Envelope { lo_base: b(0, 1), hi_base: b(2, 1), lo_exp: b(-1, 1), hi_exp: b(1, 1) }
    );
    assert_eq!(Interval::empty().pow_shape(iv(1, 2)), PowShape::Empty);
    assert_eq!(iv(-3, -2).pow_shape(iv(1, 2)), PowShape::Empty);
}
