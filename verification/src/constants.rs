//! Named mathematical constants, each as a tight two-endpoint rational
//! enclosure of the named real number, over the common denominator
//! `10^15`.

use vstd::prelude::*;
use crate::bound::Bound;
use crate::interval::Interval;

verus! {

/// Scaling an ordered pair of numerators by the shared positive
/// denominator keeps their order.
proof fn lemma_le_same_den(a: int, b: int, d: int)
    by (nonlinear_arith)
    requires
        a <= b,
        d >= 1,
    ensures
        a * d <= b * d,
{
}

/// Builds the enclosure `[lo, hi] / 10^15`.
fn dec15(lo: i64, hi: i64) -> (r: Interval)
    requires
        0 <= lo <= hi,
    ensures
        r == (Interval::Bounded {
            lo: Bound::Rat { num: lo, den: 1_000_000_000_000_000 },
            hi: Bound::Rat { num: hi, den: 1_000_000_000_000_000 },
        }),
        r.wf(),
{
    proof {
        lemma_le_same_den(lo as int, hi as int, 1_000_000_000_000_000);
    }
    Interval::Bounded {
        lo: Bound::Rat { num: lo, den: 1_000_000_000_000_000 },
        hi: Bound::Rat { num: hi, den: 1_000_000_000_000_000 },
    }
}

impl Interval {
    /// A tight enclosure of pi.
    pub fn pi() -> (r: Interval)
        ensures
            r == (Interval::Bounded {
                lo: Bound::Rat { num: 3_141_592_653_589_793, den: 1_000_000_000_000_000 },
                hi: Bound::Rat { num: 3_141_592_653_589_794, den: 1_000_000_000_000_000 },
            }),
            r.wf(),
    {
        dec15(3_141_592_653_589_793, 3_141_592_653_589_794)
    }

    /// A tight enclosure of pi / 2.
    pub fn frac_pi_2() -> (r: Interval)
        ensures
            r == (Interval::Bounded {
                lo: Bound::Rat { num: 1_570_796_326_794_896, den: 1_000_000_000_000_000 },
                hi: Bound::Rat { num: 1_570_796_326_794_897, den: 1_000_000_000_000_000 },
            }),
            r.wf(),
    {
        dec15(1_570_796_326_794_896, 1_570_796_326_794_897)
    }

    /// A tight enclosure of pi / 3.
    pub fn frac_pi_3() -> (r: Interval)
        ensures
            r == (Interval::Bounded {
                lo: Bound::Rat { num: 1_047_197_551_196_597, den: 1_000_000_000_000_000 },
                hi: Bound::Rat { num: 1_047_197_551_196_598, den: 1_000_000_000_000_000 },
            }),
            r.wf(),
    {
        dec15(1_047_197_551_196_597, 1_047_197_551_196_598)
    }

    /// A tight enclosure of pi / 4.
    pub fn frac_pi_4() -> (r: Interval)
        ensures
            r == (Interval::Bounded {
                lo: Bound::Rat { num: 785_398_163_397_448, den: 1_000_000_000_000_000 },
                hi: Bound::Rat { num: 785_398_163_397_449, den: 1_000_000_000_000_000 },
            }),
            r.wf(),
    {
        dec15(785_398_163_397_448, 785_398_163_397_449)
    }

    /// A tight enclosure of pi / 6.
    pub fn frac_pi_6() -> (r: Interval)
        ensures
            r == (Interval::Bounded {
                lo: Bound::Rat { num: 523_598_775_598_298, den: 1_000_000_000_000_000 },
                hi: Bound::Rat { num: 523_598_775_598_299, den: 1_000_000_000_000_000 },
            }),
            r.wf(),
    {
        dec15(523_598_775_598_298, 523_598_775_598_299)
    }

    /// A tight enclosure of pi / 8.
    pub fn frac_pi_8() -> (r: Interval)
        ensures
            r == (Interval::Bounded {
                lo: Bound::Rat { num: 392_699_081_698_724, den: 1_000_000_000_000_000 },
                hi: Bound::Rat { num: 392_699_081_698_725, den: 1_000_000_000_000_000 },
            }),
            r.wf(),
    {
        dec15(392_699_081_698_724, 392_699_081_698_725)
    }

    /// A tight enclosure of 1 / pi.
    pub fn frac_1_pi() -> (r: Interval)
        ensures
            r == (Interval::Bounded {
                lo: Bound::Rat { num: 318_309_886_183_790, den: 1_000_000_000_000_000 },
                hi: Bound::Rat { num: 318_309_886_183_791, den: 1_000_000_000_000_000 },
            }),
            r.wf(),
    {
        dec15(318_309_886_183_790, 318_309_886_183_791)
    }

    /// A tight enclosure of 2 / pi.
    pub fn frac_2_pi() -> (r: Interval)
        ensures
            r == (Interval::Bounded {
                lo: Bound::Rat { num: 636_619_772_367_581, den: 1_000_000_000_000_000 },
                hi: Bound::Rat { num: 636_619_772_367_582, den: 1_000_000_000_000_000 },
            }),
            r.wf(),
    {
        dec15(636_619_772_367_581, 636_619_772_367_582)
    }

    /// A tight enclosure of 1 / sqrt(2).
    pub fn frac_1_sqrt_2() -> (r: Interval)
        ensures
            r == (Interval::Bounded {
                lo: Bound::Rat { num: 707_106_781_186_547, den: 1_000_000_000_000_000 },
                hi: Bound::Rat { num: 707_106_781_186_548, den: 1_000_000_000_000_000 },
            }),
            r.wf(),
    {
        dec15(707_106_781_186_547, 707_106_781_186_548)
    }

    /// A tight enclosure of 2 / sqrt(pi).
    pub fn frac_2_sqrt_pi() -> (r: Interval)
        ensures
            r == (Interval::Bounded {
                lo: Bound::Rat { num: 1_128_379_167_095_512, den: 1_000_000_000_000_000 },
                hi: Bound::Rat { num: 1_128_379_167_095_513, den: 1_000_000_000_000_000 },
            }),
            r.wf(),
    {
        dec15(1_128_379_167_095_512, 1_128_379_167_095_513)
    }

    /// A tight enclosure of the base of natural logarithms.
    pub fn euler() -> (r: Interval)
        ensures
            r == (Interval::Bounded {
                lo: Bound::Rat { num: 2_718_281_828_459_045, den: 1_000_000_000_000_000 },
                hi: Bound::Rat { num: 2_718_281_828_459_046, den: 1_000_000_000_000_000 },
            }),
            r.wf(),
    {
        dec15(2_718_281_828_459_045, 2_718_281_828_459_046)
    }

    /// A tight enclosure of ln 2.
    pub fn ln_2() -> (r: Interval)
        ensures
            r == (Interval::Bounded {
                lo: Bound::Rat { num: 693_147_180_559_945, den: 1_000_000_000_000_000 },
                hi: Bound::Rat { num: 693_147_180_559_946, den: 1_000_000_000_000_000 },
            }),
            r.wf(),
    {
        dec15(693_147_180_559_945, 693_147_180_559_946)
    }

    /// A tight enclosure of ln 10.
    pub fn ln_10() -> (r: Interval)
        ensures
            r == (Interval::Bounded {
                lo: Bound::Rat { num: 2_302_585_092_994_045, den: 1_000_000_000_000_000 },
                hi: Bound::Rat { num: 2_302_585_092_994_046, den: 1_000_000_000_000_000 },
            }),
            r.wf(),
    {
        dec15(2_302_585_092_994_045, 2_302_585_092_994_046)
    }

    /// A tight enclosure of log10 2.
    pub fn log10_2() -> (r: Interval)
        ensures
            r == (Interval::Bounded {
                lo: Bound::Rat { num: 301_029_995_663_981, den: 1_000_000_000_000_000 },
                hi: Bound::Rat { num: 301_029_995_663_982, den: 1_000_000_000_000_000 },
            }),
            r.wf(),
    {
        dec15(301_029_995_663_981, 301_029_995_663_982)
    }

    /// A tight enclosure of log10 e.
    pub fn log10_e() -> (r: Interval)
        ensures
            r == (Interval::Bounded {
                lo: Bound::Rat { num: 434_294_481_903_251, den: 1_000_000_000_000_000 },
                hi: Bound::Rat { num: 434_294_481_903_252, den: 1_000_000_000_000_000 },
            }),
            r.wf(),
    {
        dec15(434_294_481_903_251, 434_294_481_903_252)
    }

    /// A tight enclosure of log2 10.
    pub fn log2_10() -> (r: Interval)
        ensures
            r == (Interval::Bounded {
                lo: Bound::Rat { num: 3_321_928_094_887_362, den: 1_000_000_000_000_000 },
                hi: Bound::Rat { num: 3_321_928_094_887_363, den: 1_000_000_000_000_000 },
            }),
            r.wf(),
    {
        dec15(3_321_928_094_887_362, 3_321_928_094_887_363)
    }

    /// A tight enclosure of log2 e.
    pub fn log2_e() -> (r: Interval)
        ensures
            r == (Interval::Bounded {
                lo: Bound::Rat { num: 1_442_695_040_888_963, den: 1_000_000_000_000_000 },
                hi: Bound::Rat { num: 1_442_695_040_888_964, den: 1_000_000_000_000_000 },
            }),
            r.wf(),
    {
        dec15(1_442_695_040_888_963, 1_442_695_040_888_964)
    }

    /// A tight enclosure of sqrt(2).
    pub fn sqrt_2() -> (r: Interval)
        ensures
            r == (Interval::Bounded {
                lo: Bound::Rat { num: 1_414_213_562_373_095, den: 1_000_000_000_000_000 },
                hi: Bound::Rat { num: 1_414_213_562_373_096, den: 1_000_000_000_000_000 },
            }),
            r.wf(),
    {
        dec15(1_414_213_562_373_095, 1_414_213_562_373_096)
    }

    /// A tight enclosure of 2 pi.
    pub fn tau() -> (r: Interval)
        ensures
            r == (Interval::Bounded {
                lo: Bound::Rat { num: 6_283_185_307_179_586, den: 1_000_000_000_000_000 },
                hi: Bound::Rat { num: 6_283_185_307_179_587, den: 1_000_000_000_000_000 },
            }),
            r.wf(),
    {
        dec15(6_283_185_307_179_586, 6_283_185_307_179_587)
    }
}

} // verus!
