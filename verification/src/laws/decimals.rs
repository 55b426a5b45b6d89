//! How near the written shares and durations are to the true ones.

use crate::laws::rounding::lemma_rounded_whole;
use crate::number;
use crate::rounding;
use crate::rounding::{Elapsed, BEYOND, LEAST};
use crate::text;
use vstd::prelude::*;

verus! {

/// A text that reads as a number of tenths: whole digits, a point, and one digit.
pub open spec fn reads_as(s: Seq<char>, tenths: nat) -> bool {
    s == number::decimal(tenths / 10) + "."@ + number::decimal(tenths % 10)
}

/// A text reads as one number of tenths alone.
pub proof fn lemma_reads_as_one(s: Seq<char>, a: nat, b: nat)
    requires
        reads_as(s, a),
        reads_as(s, b),
    ensures
        a == b,
{
    lemma_point(a);
    lemma_point(b);
    number::lemma_decimal_value(a / 10);
    number::lemma_decimal_value(b / 10);
    number::lemma_decimal_value(a % 10);
    number::lemma_decimal_value(b % 10);
}

proof fn lemma_point(tenths: nat)
    ensures
        text::parted(
            number::decimal(tenths / 10) + "."@ + number::decimal(tenths % 10),
            '.',
        ) == Some((number::decimal(tenths / 10), number::decimal(tenths % 10))),
{
    let whole = number::decimal(tenths / 10);
    number::lemma_decimal_value(tenths / 10);
    reveal_strlit(".");
    assert("."@ == seq!['.']);
    assert(!whole.contains('.')) by {
        assert forall|i: int| 0 <= i < whole.len() implies whole[i] != '.' by {
            assert(number::is_digit(whole[i]));
        }
    }
    text::lemma_parted(whole, '.', number::decimal(tenths % 10));
}

/// The nearest whole number is within a half.
proof fn lemma_nearest(num: nat, den: nat)
    requires
        0 < den,
    ensures
        -den <= 2 * (rounding::nearest_whole(num, den) * den - num) <= den,
{
    vstd::arithmetic::div_mod::lemma_fundamental_div_mod(num as int, den as int);
    let q = num / den;
    assert(den * q == q * den) by (nonlinear_arith);
    assert((q + 1) * den == q * den + den) by (nonlinear_arith);
}

/// Whole numbers below 2 to the power of 53 are doubles.
proof fn lemma_small_whole(n: nat)
    requires
        n < BEYOND,
    ensures
        rounding::rounded_whole(n, 1) == n,
{
    assert(n / 1 == n && n % 1 == 0);
}

/// How far apart two numbers are.
pub open spec fn apart(a: nat, b: nat) -> int {
    if a < b {
        b - a
    } else {
        a - b
    }
}

/// The tenths of a percent that stand for a share, and how near they are.
proof fn lemma_share(part: nat, whole: nat)
    requires
        part < 0x400_0000_0000,
        0 < whole < BEYOND,
    ensures
        exists|t: nat|
            #[trigger] reads_as(rounding::percentage(part, whole), t) && 2 * apart(
                t * whole,
                1000 * part,
            ) <= whole,
{
    lemma_small_whole(part);
    lemma_small_whole(100 * part);
    lemma_small_whole(whole);
    let big = 100 * part;
    let (n, d) = rounding::rounded_ratio(big, whole);
    let t = rounding::nearest_whole(10 * n, d);
    assert(reads_as(rounding::percentage(part, whole), t));
    if part == 0 {
        assert((n, d) == (0nat, 1nat));
        assert(t == 0);
        assert(t * whole == 0) by (nonlinear_arith)
            requires
                t == 0,
        ;
    } else {
        assert(big < whole * BEYOND) by (nonlinear_arith)
            requires
                big < BEYOND,
                whole > 0,
        ;
        rounding::lemma_rounded_ratio(big, whole);
        lemma_nearest(10 * n, d);
        assert(10 * whole < d) by (nonlinear_arith)
            requires
                whole * LEAST <= big * d,
                10 * big < LEAST,
                whole > 0,
                d > 0,
        ;
        assert(-(d * whole) <= 2 * ((t * d) * whole - 10 * (n * whole)) <= d * whole)
            by (nonlinear_arith)
            requires
                -d <= 2 * (t * d - 10 * n) <= d,
                whole > 0,
        ;
        let x = 2 * (t * whole - 10 * big);
        assert(x * d == 2 * ((t * d) * whole) - 20 * (big * d)) by (nonlinear_arith)
            requires
                x == 2 * (t * whole - 10 * big),
        ;
        assert(-(d * whole) - 10 * whole <= x * d <= d * whole + 10 * whole);
        assert(-whole - 1 < x < whole + 1) by (nonlinear_arith)
            requires
                -(d * whole) - 10 * whole <= x * d <= d * whole + 10 * whole,
                10 * whole < d,
        ;
    }
}

/// A share is written in percent, with one decimal: read back, it is within half of a tenth of
/// the true one, for every part below 2 to the power of 42 of every whole below 2 to the power of
/// 53.
pub proof fn law_a_share_is_written_as_it_is(part: usize, whole: usize, r: String)
    requires
        call_ensures(rounding::write_percentage, (part, whole), r),
        part < 0x400_0000_0000,
        0 < whole < BEYOND,
    ensures
        exists|t: nat|
            #[trigger] reads_as(r@, t) && 2 * apart(t * whole as nat, 1000 * part as nat) <= whole,
{
    lemma_share(part as nat, whole as nat);
}

/// A share of any whole is within half of a tenth of a percent, and another part in 2 to the power
/// of 39 of it.
pub proof fn law_any_share_is_written_as_near(part: usize, whole: usize, r: String)
    requires
        call_ensures(rounding::write_percentage, (part, whole), r),
        part <= whole,
        0 < whole,
    ensures
        exists|t: nat|
            #[trigger] reads_as(r@, t) && LEAST * (2 * apart(
                t * whole as nat,
                1000 * part as nat,
            ) - whole) <= 8000 * whole,
{
    let p = part as int;
    let w = whole as int;
    let p1 = rounding::rounded_whole(part as nat, 1);
    let h = rounding::rounded_whole(100 * p1, 1);
    let w1 = rounding::rounded_whole(whole as nat, 1);
    lemma_rounded_whole(part as nat, 1);
    lemma_rounded_whole(100 * p1, 1);
    lemma_rounded_whole(whole as nat, 1);
    let (n, d) = rounding::rounded_ratio(h, w1);
    let t = rounding::nearest_whole(10 * n, d);
    assert(reads_as(r@, t));
    assert(LEAST == 4503599627370496 && BEYOND == 9007199254740992);
    if part == 0 {
        assert((n, d) == (0nat, 1nat));
        assert(t == 0);
        assert(t * whole == 0) by (nonlinear_arith)
            requires
                t == 0,
        ;
    } else {
        assert(h <= 102 * w1);
        assert(h < w1 * BEYOND);
        rounding::lemma_rounded_ratio(h, w1);
        lemma_nearest(10 * n, d);
        let x = 2 * (t * w1 - 10 * h);
        lemma_scaled(t as int, n as int, d as int, h as int, w1 as int, x);
        assert(LEAST * (x - w1) <= 1020 * w1 && LEAST * (-x - w1) <= 1020 * w1);
        assert(t <= 1030) by (nonlinear_arith)
            requires
                2 * (t * w1 - 10 * h) == x,
                x <= 2 * w1,
                h <= 102 * w1,
                w1 > 0,
        ;
        let off = t * (w1 - w);
        assert(BEYOND * off <= 1030 * w && -(1030 * w) <= BEYOND * off) by (nonlinear_arith)
            requires
                off == t * (w1 - w),
                BEYOND * (w1 - w) <= w,
                BEYOND * (w - w1) <= w,
                0 <= t <= 1030,
                w > 0,
        ;
        assert(t * w == t * w1 - off) by (nonlinear_arith)
            requires
                off == t * (w1 - w),
        ;
    }
}

/// A share and its tenths, over a common denominator.
proof fn lemma_scaled(t: int, n: int, d: int, h: int, w: int, x: int)
    requires
        0 < d,
        0 < w,
        0 < h <= 102 * w,
        x == 2 * (t * w - 10 * h),
        w * LEAST <= h * d,
        2 * (h * d) - w <= 2 * (n * w) <= 2 * (h * d) + w,
        -d <= 2 * (t * d - 10 * n) <= d,
    ensures
        LEAST * (x - w) <= 1020 * w,
        LEAST * (-x - w) <= 1020 * w,
        x <= 2 * w,
{
    let u = 2 * (t * d - 10 * n);
    let v = 2 * (n * w) - 2 * (h * d);
    assert(x * d == u * w + 10 * v) by (nonlinear_arith)
        requires
            x == 2 * (t * w - 10 * h),
            u == 2 * (t * d - 10 * n),
            v == 2 * (n * w) - 2 * (h * d),
    ;
    assert(-(d * w) <= u * w <= d * w) by (nonlinear_arith)
        requires
            -d <= u <= d,
            w > 0,
    ;
    assert(LEAST <= 102 * d) by (nonlinear_arith)
        requires
            w * LEAST <= h * d,
            h <= 102 * w,
            w > 0,
            d > 0,
    ;
    assert((x - w) * d <= 10 * w && (-x - w) * d <= 10 * w) by (nonlinear_arith)
        requires
            x * d == u * w + 10 * v,
            -(d * w) <= u * w <= d * w,
            -w <= v <= w,
    ;
    assert(LEAST * (x - w) <= 1020 * w) by (nonlinear_arith)
        requires
            (x - w) * d <= 10 * w,
            0 < LEAST <= 102 * d,
            w > 0,
    ;
    assert(LEAST * (-x - w) <= 1020 * w) by (nonlinear_arith)
        requires
            (-x - w) * d <= 10 * w,
            0 < LEAST <= 102 * d,
            w > 0,
    ;
    assert(x - w <= w) by (nonlinear_arith)
        requires
            LEAST * (x - w) <= 1020 * w,
            LEAST == 4503599627370496,
            w > 0,
    ;
}

/// Out of nothing, nothing is no share, and something is more than any.
pub proof fn law_nothing_has_no_shares(part: usize, r: String)
    requires
        call_ensures(rounding::write_percentage, (part, 0usize), r),
    ensures
        part == 0 ==> r@ == "NaN"@,
        part > 0 ==> r@ == "inf"@,
{
}

/// A larger part of the same whole is never written as a smaller share.
pub proof fn law_shares_grow_with_their_parts(
    less: usize,
    more: usize,
    whole: usize,
    r: String,
    q: String,
    s: nat,
    t: nat,
)
    requires
        call_ensures(rounding::write_percentage, (less, whole), r),
        call_ensures(rounding::write_percentage, (more, whole), q),
        less <= more < 0x400_0000_0000,
        0 < whole < BEYOND,
        reads_as(r@, s),
        reads_as(q@, t),
    ensures
        s <= t,
{
    lemma_share(less as nat, whole as nat);
    let a = choose|a: nat|
        #[trigger] reads_as(rounding::percentage(less as nat, whole as nat), a) && 2 * apart(
            a * whole as nat,
            1000 * less as nat,
        ) <= whole;
    lemma_share(more as nat, whole as nat);
    let b = choose|b: nat|
        #[trigger] reads_as(rounding::percentage(more as nat, whole as nat), b) && 2 * apart(
            b * whole as nat,
            1000 * more as nat,
        ) <= whole;
    lemma_reads_as_one(r@, s, a);
    lemma_reads_as_one(q@, t, b);
    if less == more {
        lemma_reads_as_one(r@, s, t);
    } else if t < s {
        assert(s * whole >= t * whole + whole) by (nonlinear_arith)
            requires
                s >= t + 1,
                whole > 0,
        ;
    }
}

/// The nanoseconds of a span.
pub open spec fn nanoseconds(e: Elapsed) -> nat {
    (e.secs * 1_000_000_000 + e.nanos) as nat
}

/// What remains of a sum of two rounded ratios and their tenths.
proof fn lemma_combined(
    secs: nat,
    nanos: nat,
    n: nat,
    d: nat,
    num: nat,
    den: nat,
    t: nat,
    slack: nat,
)
    requires
        d > 0,
        den > 0,
        -slack <= 2 * (nanos * d - n * 1_000_000_000) <= slack,
        slack <= 1_000_000_000,
        slack > 0 ==> LEAST <= d,
        -d <= 2 * ((secs * d + n) * den - num * d) <= d,
        d * LEAST <= (secs * d + n) * den,
        n <= d,
        -den <= 2 * (t * den - 10 * num) <= den,
    ensures
        LEAST * (2 * apart(
            t * 1_000_000_000,
            10 * (secs * 1_000_000_000 + nanos),
        ) - 1_000_000_000) <= 10_000_000_000 * (secs + 2),
{
    let g: int = 1_000_000_000;
    let x = 2 * (t * g - 10 * (secs * g + nanos));
    let total = secs * d + n;
    assert(total <= (secs + 1) * d) by (nonlinear_arith)
        requires
            total == secs * d + n,
            n <= d,
    ;
    assert(LEAST <= (secs + 1) * den) by (nonlinear_arith)
        requires
            d * LEAST <= total * den,
            total <= (secs + 1) * d,
            d > 0,
            den > 0,
    ;
    let u = 2 * (t * den - 10 * num);
    let v = 2 * (total * den - num * d);
    let w = 2 * (nanos * d - n * g);
    assert(u * d == 2 * (t * den * d) - 20 * (num * d)) by (nonlinear_arith)
        requires
            u == 2 * (t * den - 10 * num),
    ;
    assert(v == 2 * (secs * d * den) + 2 * (n * den) - 2 * (num * d)) by (nonlinear_arith)
        requires
            v == 2 * (total * den - num * d),
            total == secs * d + n,
    ;
    assert(w * den == 2 * (nanos * d * den) - 2 * g * (n * den)) by (nonlinear_arith)
        requires
            w == 2 * (nanos * d - n * g),
    ;
    let k = den * d;
    assert(t * den * d == t * k && secs * d * den == secs * k && nanos * d * den == nanos * k)
        by (nonlinear_arith)
        requires
            k == den * d,
    ;
    assert(x == 2_000_000_000 * t - 20_000_000_000 * secs - 20 * nanos);
    assert(x * k == 2_000_000_000 * (t * k) - 20_000_000_000 * (secs * k) - 20 * (nanos * k))
        by (nonlinear_arith)
        requires
            x == 2_000_000_000 * t - 20_000_000_000 * secs - 20 * nanos,
    ;
    assert(x * (den * d) == g * (u * d) - 10 * g * v - 10 * (w * den));
    assert(0 < den * d) by (nonlinear_arith)
        requires
            den > 0,
            d > 0,
    ;
    assert(-(den * d) <= u * d <= den * d) by (nonlinear_arith)
        requires
            -den <= u <= den,
            d > 0,
    ;
    assert(-(slack * den) <= w * den <= slack * den) by (nonlinear_arith)
        requires
            -slack <= w <= slack,
            den > 0,
    ;
    let most = 10 * (d * g) + 10 * (slack * den);
    assert(-(g * (den * d)) - most <= x * (den * d) <= g * (den * d) + most);
    assert(LEAST * most <= 10 * g * (secs + 2) * (den * d)) by {
        assert(LEAST * (d * g) <= g * (secs + 1) * (den * d)) by (nonlinear_arith)
            requires
                LEAST <= (secs + 1) * den,
                d > 0,
                g > 0,
        ;
        assert(LEAST * (slack * den) <= g * (den * d)) by (nonlinear_arith)
            requires
                slack <= g,
                slack > 0 ==> LEAST <= d,
                den > 0,
                d > 0,
                slack >= 0,
                g > 0,
        ;
        assert(LEAST * most == 10 * (LEAST * (d * g)) + 10 * (LEAST * (slack * den)));
        assert(10 * g * (secs + 2) * (den * d) == 10 * (g * (secs + 1) * (den * d)) + 10 * (g * (den
            * d))) by (nonlinear_arith);
    }
    let y = if x < 0 {
        -x
    } else {
        x
    };
    assert(y * (den * d) <= g * (den * d) + most) by (nonlinear_arith)
        requires
            -(g * (den * d)) - most <= x * (den * d) <= g * (den * d) + most,
            y == x || y == -x,
    ;
    assert(LEAST * (y - g) <= 10 * g * (secs + 2)) by (nonlinear_arith)
        requires
            y * (den * d) <= g * (den * d) + most,
            LEAST * most <= 10 * g * (secs + 2) * (den * d),
            0 < den * d,
            LEAST > 0,
    ;
}

/// The tenths of a second that stand for a span, and how near they are.
proof fn lemma_span(e: Elapsed)
    requires
        e.valid(),
        e.secs < LEAST,
    ensures
        exists|t: nat|
            #[trigger] reads_as(e.seconds(), t) && LEAST * (2 * apart(
                t * 1_000_000_000,
                10 * nanoseconds(e),
            ) - 1_000_000_000) <= 10_000_000_000 * (e.secs + 2),
{
    let secs = e.secs as nat;
    let nanos = e.nanos as nat;
    let g: nat = 1_000_000_000;
    lemma_small_whole(secs);
    let (n, d) = rounding::rounded_ratio(nanos, g);
    let slack: nat = if nanos == 0 {
        0
    } else {
        g
    };
    if nanos > 0 {
        rounding::lemma_rounded_ratio(nanos, g);
        assert(LEAST <= d && n <= d) by (nonlinear_arith)
            requires
                0 < nanos < g,
                g * LEAST <= nanos * d,
                2 * (n * g) <= 2 * (nanos * d) + g,
                g == 1_000_000_000,
                LEAST == 4503599627370496,
        ;
    } else {
        assert((n, d) == (0nat, 1nat));
    }
    assert(-slack <= 2 * (nanos * d - n * g) <= slack) by {
        if nanos == 0 {
            assert(nanos * d == 0 && n * g == 0) by (nonlinear_arith)
                requires
                    nanos == 0,
                    n == 0,
            ;
        }
    }
    let (num, den) = rounding::rounded_sum(secs, n, d);
    let t = rounding::nearest_whole(10 * num, den);
    assert(reads_as(e.seconds(), t));
    let total = secs * d + n;
    if secs == 0 {
        lemma_nearest(10 * n, d);
        lemma_below_a_second(nanos, n, d, t, slack);
    } else {
        assert(0 < total < d * BEYOND) by (nonlinear_arith)
            requires
                total == secs * d + n,
                0 < secs < LEAST,
                n <= d,
                d > 0,
                LEAST == 4503599627370496,
                BEYOND == 9007199254740992,
        ;
        rounding::lemma_rounded_ratio(total, d);
        lemma_nearest(10 * num, den);
        lemma_combined(secs, nanos, n, d, num, den, t, slack);
    }
}

proof fn lemma_below_a_second(nanos: nat, n: nat, d: nat, t: nat, slack: nat)
    requires
        d > 0,
        -slack <= 2 * (nanos * d - n * 1_000_000_000) <= slack,
        slack <= 1_000_000_000,
        slack > 0 ==> LEAST <= d,
        -d <= 2 * (t * d - 10 * n) <= d,
    ensures
        LEAST * (2 * apart(t * 1_000_000_000, 10 * nanos) - 1_000_000_000) <= 20_000_000_000,
{
    let g: int = 1_000_000_000;
    let x = 2 * (t * g - 10 * nanos);
    let u = 2 * (t * d - 10 * n);
    let w = 2 * (nanos * d - n * g);
    assert(x * d == u * g - 10 * w) by (nonlinear_arith)
        requires
            x == 2 * (t * g - 10 * nanos),
            u == 2 * (t * d - 10 * n),
            w == 2 * (nanos * d - n * g),
    ;
    let y = if x < 0 {
        -x
    } else {
        x
    };
    assert(y * d <= d * g + 10 * slack) by (nonlinear_arith)
        requires
            x * d == u * g - 10 * w,
            -d <= u <= d,
            -slack <= w <= slack,
            y == x || y == -x,
            g > 0,
    ;
    assert(LEAST * (y - g) <= 20 * g) by (nonlinear_arith)
        requires
            y * d <= d * g + 10 * slack,
            slack > 0 ==> LEAST <= d,
            0 <= slack <= g,
            d > 0,
            LEAST > 0,
            g > 0,
    ;
}

/// The tenths are within a twentieth of a second of a span, up to a hundred days; up to 2 to the
/// power of 40 seconds within a quarter of a millisecond more than that; and always within a
/// twentieth of a second and one part in 2 to the power of 53 of the whole seconds and two more.
pub open spec fn is_near(tenths: nat, e: Elapsed) -> bool {
    let doubled = 2 * apart(tenths * 1_000_000_000, 10 * nanoseconds(e));
    &&& e.secs < 9_000_000 ==> doubled <= 1_000_000_000
    &&& e.secs < 0x100_0000_0000 ==> doubled <= 1_005_000_000
    &&& LEAST * (doubled - 1_000_000_000) <= 10_000_000_000 * (e.secs + 2)
}

/// The seconds of a span are near to it.
pub proof fn lemma_span_is_near(e: Elapsed)
    requires
        e.valid(),
        e.secs < LEAST,
    ensures
        exists|t: nat| #[trigger] reads_as(e.seconds(), t) && is_near(t, e),
{
    lemma_span(e);
    let t = choose|t: nat|
        #[trigger] reads_as(e.seconds(), t) && LEAST * (2 * apart(
            t * 1_000_000_000,
            10 * nanoseconds(e),
        ) - 1_000_000_000) <= 10_000_000_000 * (e.secs + 2);
    let x = apart(t * 1_000_000_000, 10 * nanoseconds(e));
    assert(LEAST == 4503599627370496);
    if e.secs < 9_000_000 {
        assert(2 * x - 1_000_000_000 < 20);
        assert(x % 10 == 0);
    }
    assert(reads_as(e.seconds(), t) && is_near(t, e));
}

/// A span of time is written in seconds, with one decimal: read back, it is the whole of the span,
/// as near as a tenth of a second can be.
pub proof fn law_a_span_is_written_as_it_is(e: Elapsed, r: String)
    requires
        e.valid(),
        call_ensures(Elapsed::write_seconds, (&e,), r),
        e.secs < LEAST,
    ensures
        exists|t: nat| #[trigger] reads_as(r@, t) && is_near(t, e),
{
    lemma_span_is_near(e);
}

/// As time passes, the seconds that are written never fall.
pub proof fn law_time_never_falls(
    earlier: Elapsed,
    later: Elapsed,
    r: String,
    q: String,
    s: nat,
    t: nat,
)
    requires
        earlier.valid(),
        later.valid(),
        call_ensures(Elapsed::write_seconds, (&earlier,), r),
        call_ensures(Elapsed::write_seconds, (&later,), q),
        nanoseconds(earlier) <= nanoseconds(later),
        later.secs < 9_000_000,
        reads_as(r@, s),
        reads_as(q@, t),
    ensures
        s <= t,
{
    assert(earlier.secs < 9_000_000);
    law_a_span_is_written_as_it_is(earlier, r);
    law_a_span_is_written_as_it_is(later, q);
    let a = choose|a: nat| #[trigger] reads_as(r@, a) && is_near(a, earlier);
    let b = choose|b: nat| #[trigger] reads_as(q@, b) && is_near(b, later);
    lemma_reads_as_one(r@, s, a);
    lemma_reads_as_one(q@, t, b);
    if nanoseconds(earlier) == nanoseconds(later) {
        assert(earlier.secs == later.secs && earlier.nanos == later.nanos);
        lemma_reads_as_one(r@, s, t);
    }
}

} // verus!
