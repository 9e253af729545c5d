use interval_arith::{Bound, Interval};

fn b(n: i64, d: i64) -> Bound {
    Bound::Rat { num: n, den: d }
}

fn iv(lo: i64, hi: i64) -> Interval {
    Interval::try_new(b(lo, 1), b(hi, 1)).unwrap()
}

#[test]
fn add_assign() {
    let mut i = iv(3, 4);
    i.add_assign(iv(1, 2));
    assert_eq!(i, iv(4, 6));
}

#[test]
fn sub_assign() {
    let mut i = iv(3, 4);
    i.sub_assign(iv(1, 2));
    assert_eq!(i, iv(1, 3));
}

#[test]
fn mul_assign() {
    let mut i = iv(3, 4);
    i.mul_assign(iv(1, 2));
    assert_eq!(i, iv(3, 8));
}

#[test]
fn div_assign() {
    let mut i = iv(3, 4);
    i.div_assign(iv(1, 2));
    assert_eq!(i, Interval::try_new(b(3, 2), b(4, 1)).unwrap());
}

#[test]
fn arith_empty() {
    let e = Interval::empty();
    let pi = Interval::pi();

    assert!(e.neg().is_empty());

    assert!(e.add(pi).is_empty());
    assert!(pi.add(e).is_empty());

    assert!(e.sub(pi).is_empty());
    assert!(pi.sub(e).is_empty());

    assert!(e.mul(pi).is_empty());
    assert!(pi.mul(e).is_empty());

    assert!(e.div(pi).is_empty());
    assert!(pi.div(e).is_empty());
}

#[test]
fn scenarios() {
    assert_eq!(iv(3, 4).add(iv(1, 2)), iv(4, 6));
    assert_eq!(iv(3, 4).sub(iv(1, 2)), iv(1, 3));
    assert_eq!(iv(3, 4).mul(iv(1, 2)), iv(3, 8));
    // [3, 4] / [1, 2] = [1.5, 4]
    assert_eq!(iv(3, 4).div(iv(1, 2)), Interval::try_new(b(3, 2), b(4, 1)).unwrap());
}

#[test]
fn neg_mirrors() {
    assert_eq!(iv(1, 3).neg(), iv(-3, -1));
    assert_eq!(Interval::entire().neg(), Interval::entire());
}

#[test]
fn equal_values_compare_equal() {
    // 1/2 and 2/4 denote the same endpoint
    let x = Interval::try_new(b(1, 2), b(3, 1)).unwrap();
    let y = Interval::try_new(b(2, 4), b(6, 2)).unwrap();
    assert_eq!(x, y);
}

#[test]
fn division_by_zero_point_is_empty() {
    let z = iv(0, 0);
    assert!(iv(1, 2).div(z).is_empty());
    assert_eq!(z.div(iv(1, 2)), iv(0, 0));
    assert!(z.div(z).is_empty());
}

#[test]
fn division_by_straddling_is_entire() {
    assert!(iv(1, 2).div(iv(-1, 1)).is_entire());
    assert_eq!(
        iv(-3, -1).div(iv(0, 2)),
        Interval::try_new(Bound::NegInf, b(-1, 2)).unwrap()
    );
}

#[test]
fn results_enclose_point_values() {
    // 3/2 in [1,2] and 5/2 in [2,3]: sum, difference, product and
    // quotient of the points lie in the corresponding result intervals
    let x = iv(1, 2);
    let y = iv(2, 3);
    assert!(x.add(y).contains(b(4, 1)));
    assert!(x.sub(y).contains(b(-1, 1)));
    assert!(x.mul(y).contains(b(15, 4)));
    assert!(x.div(y).contains(b(3, 5)));
    assert!(x.neg().contains(b(-3, 2)));
}

#[test]
fn addition_widens_on_overflow() {
    let top = i64::MAX;
    let big = iv(top - 1, top - 1);
    let sum = big.add(big);
    assert_eq!(sum.inf(), Some(Bound::NegInf));
    assert_eq!(sum.sup(), Some(Bound::PosInf));
}

#[test]
fn polynomial_enclosure() {
    // 2 x^5 - 4 x^3 + x + 1 over x = [-1.2, 1.2], evaluated exactly
    let x = Interval::try_new(b(-6, 5), b(6, 5)).unwrap();
    let two = Interval::point(2, 1).unwrap();
    let minus_four = Interval::point(-4, 1).unwrap();
    let one = Interval::point(1, 1).unwrap();
    let value = two.mul(x.powi(5)).add(minus_four.mul(x.powi(3))).add(x).add(one);
    assert_eq!(
        value,
        Interval::try_new(b(-37777, 3125), b(44027, 3125)).unwrap()
    );
}

#[test]
fn widening_falls_to_infinity() {
    // the exact square of this interval has no representable endpoint,
    // so the upper endpoint widens to plus infinity
    let big = iv(0x4000_0000_0000_0000, 0x4000_0000_0000_0000);
    let sq = big.mul(big);
    assert_eq!(sq.sup(), Some(Bound::PosInf));
    assert_eq!(sq.inf(), Some(Bound::NegInf));
}
