//! What holds of shares in percent.

use crate::number;
use crate::rounding;
use crate::rounding::{BEYOND, LEAST};
use vstd::prelude::*;

verus! {

/// A whole number is rounded by at most one part in 2 to the power of 53.
pub proof fn lemma_rounded_whole(n: nat, unit: nat)
    requires
        0 < unit,
        unit == 1 || n >= unit * LEAST,
    ensures
        ({
            let r = rounding::rounded_whole(n, unit);
            &&& BEYOND * (r - n) <= n
            &&& BEYOND * (n - r) <= n
            &&& n > 0 ==> r > 0
        }),
    decreases n - unit,
{
    if n >= unit * BEYOND {
        lemma_rounded_whole(n, 2 * unit);
    } else {
        let q = n / unit;
        let r = n % unit;
        let m = rounding::nearest_whole(n, unit);
        vstd::arithmetic::div_mod::lemma_fundamental_div_mod(n as int, unit as int);
        assert(n == unit * q + r && r < unit);
        assert(unit * (q + 1) == unit * q + unit) by (nonlinear_arith);
        let diff = unit * m - n;
        assert(-unit <= 2 * diff <= unit);
        if unit == 1 {
            assert(r == 0);
        }
        if n > 0 && m == 0 {
            assert(q == 0);
            assert(unit * q == 0);
        }
        assert(n > 0 ==> unit * m > 0) by (nonlinear_arith)
            requires
                unit > 0,
                n > 0 ==> m > 0,
        ;
    }
}

/// Nothing out of something is written as `0.0` percent.
pub proof fn law_no_share_is_zero_percent(whole: nat)
    requires
        whole > 0,
    ensures
        rounding::percentage(0, whole) == "0.0"@,
{
    reveal_strlit("0.0");
    reveal_strlit(".");
    assert(rounding::rounded_whole(0, 1) == 0);
    assert(rounding::percentage(0, whole) == rounding::one_decimal(0, 1));
    assert(rounding::one_decimal(0, 1) == "0.0"@);
}

/// Everything is written as `100.0` percent.
pub proof fn law_the_full_share_is_a_hundred_percent(whole: nat)
    requires
        whole > 0,
    ensures
        rounding::percentage(whole, whole) == "100.0"@,
{
    let w = rounding::rounded_whole(whole, 1);
    lemma_rounded_whole(whole, 1);
    let h = rounding::rounded_whole(100 * w, 1);
    lemma_rounded_whole(100 * w, 1);
    assert(99 * w <= h <= 101 * w);
    rounding::lemma_rounded_ratio(h, w);
    let (n, d) = rounding::rounded_ratio(h, w);
    assert(0x1000_0000 <= d) by (nonlinear_arith)
        requires
            w * LEAST <= h * d,
            h <= 101 * w,
            w > 0,
            LEAST == 4503599627370496,
    ;
    assert(BEYOND * (h * d - 100 * (w * d)) <= 100 * (w * d) && BEYOND * (100 * (w * d) - h * d)
        <= 100 * (w * d)) by (nonlinear_arith)
        requires
            BEYOND * (h - 100 * w) <= 100 * w,
            BEYOND * (100 * w - h) <= 100 * w,
            d >= 0,
    ;
    assert(0x1000_0000 * w <= w * d) by (nonlinear_arith)
        requires
            0x1000_0000 <= d,
            w >= 0,
    ;
    assert(20 * (n * w - 100 * (w * d)) < w * d && 20 * (100 * (w * d) - n * w) < w * d);
    assert(20 * (n - 100 * d) < d && 20 * (100 * d - n) < d) by (nonlinear_arith)
        requires
            20 * (n * w - 100 * (w * d)) < w * d,
            20 * (100 * (w * d) - n * w) < w * d,
            w > 0,
    ;
    let tenths = rounding::nearest_whole(10 * n, d);
    assert(tenths == 1000) by {
        if 10 * n >= 1000 * d {
            vstd::arithmetic::div_mod::lemma_fundamental_div_mod_converse(
                10 * n as int,
                d as int,
                1000,
                10 * n - 1000 * d,
            );
        } else {
            vstd::arithmetic::div_mod::lemma_fundamental_div_mod_converse(
                10 * n as int,
                d as int,
                999,
                10 * n - 999 * d,
            );
        }
    }
    reveal_strlit("100.0");
    reveal_strlit(".");
    reveal_with_fuel(number::decimal, 3);
    assert(rounding::one_decimal(n, d) == "100.0"@);
}

} // verus!
