//! Shares and durations as double-precision arithmetic yields them, written with one
//! decimal. A double-precision number has 53 significant bits, and every operation
//! rounds to the nearest such number, halves to the even one.

use crate::number;
use vstd::prelude::*;

verus! {

/// 2 to the power of 52, the least significand.
pub const LEAST: u128 = 4503599627370496;

/// 2 to the power of 53, the first number above all significands.
pub const BEYOND: u128 = 9007199254740992;

pub const NANOS_PER_SEC: u128 = 1_000_000_000;

/// The whole number nearest to `num / den`, of two the even one.
pub open spec fn nearest_whole(num: nat, den: nat) -> nat {
    let q = num / den;
    let r = num % den;
    if 2 * r < den || (2 * r == den && q % 2 == 0) {
        q
    } else {
        q + 1
    }
}

/// The double nearest to the whole number `n`: a multiple of the least power of two, from
/// `unit` on, of which `n` holds fewer than 2 to the power of 53.
pub open spec fn rounded_whole(n: nat, unit: nat) -> nat
    decreases n - unit,
{
    if 0 < unit && n >= unit * BEYOND {
        rounded_whole(n, 2 * unit)
    } else {
        unit * nearest_whole(n, unit)
    }
}

/// The double nearest to `num / den`, as a numerator and a denominator: the ratio is
/// scaled by powers of two until it lies between the least significand and the greatest,
/// rounded there, and scaled back.
pub open spec fn rounded_ratio(num: nat, den: nat) -> (nat, nat)
    decreases
        if num < den * LEAST {
            den * LEAST - num
        } else if num >= den * BEYOND {
            num - den
        } else {
            0
        },
{
    if num == 0 || den == 0 {
        (0, 1)
    } else if num < den * LEAST {
        let (n, d) = rounded_ratio(2 * num, den);
        (n, 2 * d)
    } else if num >= den * BEYOND {
        let (n, d) = rounded_ratio(num, 2 * den);
        (2 * n, d)
    } else {
        (nearest_whole(num, den), 1)
    }
}

/// The sum of a whole number and a fraction `num / den` below one, both doubles.
pub open spec fn rounded_sum(whole: nat, num: nat, den: nat) -> (nat, nat) {
    if whole == 0 {
        (num, den)
    } else {
        rounded_ratio(whole * den + num, den)
    }
}

/// `num / den` with one decimal.
pub open spec fn one_decimal(num: nat, den: nat) -> Seq<char> {
    let tenths = nearest_whole(10 * num, den);
    number::decimal(tenths / 10) + "."@ + number::decimal(tenths % 10)
}

/// `part` in percent of `whole`, with one decimal.
pub open spec fn percentage(part: nat, whole: nat) -> Seq<char> {
    if whole == 0 {
        if part == 0 {
            "NaN"@
        } else {
            "inf"@
        }
    } else {
        let hundredfold = rounded_whole(100 * rounded_whole(part, 1), 1);
        let (num, den) = rounded_ratio(hundredfold, rounded_whole(whole, 1));
        one_decimal(num, den)
    }
}

/// A span of time: whole seconds and the nanoseconds beyond them.
#[derive(Clone, Copy, Debug)]
pub struct Elapsed {
    pub secs: u64,
    pub nanos: u32,
}

impl Elapsed {
    /// The nanoseconds make no full second.
    pub open spec fn valid(self) -> bool {
        self.nanos < NANOS_PER_SEC
    }

    /// The seconds of the span, with one decimal.
    pub open spec fn seconds(self) -> Seq<char> {
        let (n, d) = rounded_ratio(self.nanos as nat, NANOS_PER_SEC as nat);
        let (num, den) = rounded_sum(rounded_whole(self.secs as nat, 1), n, d);
        one_decimal(num, den)
    }
}

/// Rounds `num / den` to the nearest whole number.
fn to_nearest_whole(num: u128, den: u128) -> (r: u128)
    requires
        0 < den <= 0x4000_0000_0000_0000_0000_0000_0000_0000,
    ensures
        r == nearest_whole(num as nat, den as nat),
{
    let q = num / den;
    let r = num % den;
    if 2 * r < den || (2 * r == den && q % 2 == 0) {
        q
    } else {
        assert(q <= num / 2) by (nonlinear_arith)
            requires
                q == num / den,
                den >= 2,
        ;
        q + 1
    }
}

/// A bound of everything that is rounded here, 2 to the power of 73.
const LIMIT: u128 = 0x200_0000_0000_0000_0000;

/// Rounds a whole number to the nearest double.
fn round_whole(n: u128) -> (r: u128)
    requires
        n <= LIMIT,
    ensures
        r == rounded_whole(n as nat, 1),
        r <= 2 * n,
        n > 0 ==> r > 0,
{
    let mut unit: u128 = 1;
    while n >= unit * BEYOND
        invariant
            0 < unit,
            unit * BEYOND <= 2 * LIMIT,
            n <= LIMIT,
            unit == 1 || n >= unit * LEAST,
            rounded_whole(n as nat, unit as nat) == rounded_whole(n as nat, 1),
        decreases n - unit,
    {
        unit = 2 * unit;
    }
    let m = to_nearest_whole(n, unit);
    proof {
        assert(unit * (n / unit) <= n && (n > 0 && unit == 1 ==> n / unit > 0)) by (nonlinear_arith)
            requires
                unit > 0,
        ;
        if unit > 1 {
            assert(n / unit >= LEAST && unit * (n / unit) + unit <= 2 * n) by (nonlinear_arith)
                requires
                    unit > 0,
                    n >= unit * LEAST,
                    LEAST == 4503599627370496,
            ;
        }
        assert(unit * (n / unit + 1) == unit * (n / unit) + unit) by (nonlinear_arith);
        assert(unit * m > 0 || n == 0) by (nonlinear_arith)
            requires
                unit > 0,
                m > 0 || n == 0,
        ;
    }
    unit * m
}

/// Rounds `num / den` to the nearest double.
fn round_ratio(num: u128, den: u128) -> (r: (u128, u128))
    requires
        num <= LIMIT,
        0 < den <= LIMIT,
    ensures
        (r.0 as nat, r.1 as nat) == rounded_ratio(num as nat, den as nat),
        r.0 <= 0x400_0000_0000_0000_0000,
        0 < r.1 <= 0x4000_0000_0000_0000_0000_0000_0000_0000,
{
    if num == 0 {
        return (0, 1);
    }
    let mut n: u128 = num;
    let mut down: u128 = 1;
    while n < den * LEAST
        invariant
            0 < num,
            0 < den <= LIMIT,
            n == num * down,
            0 < down <= n,
            n <= LIMIT || n < den * BEYOND,
            down == 1 || n < den * BEYOND,
            ({
                let (x, y) = rounded_ratio(n as nat, den as nat);
                rounded_ratio(num as nat, den as nat) == (x, y * down as nat)
            }),
        decreases den * BEYOND - n,
    {
        proof {
            let (x, y) = rounded_ratio((2 * n) as nat, den as nat);
            assert((2 * y) * down == y * (2 * down)) by (nonlinear_arith);
            assert(2 * (num * down) == num * (2 * down)) by (nonlinear_arith);
        }
        n = 2 * n;
        down = 2 * down;
    }
    let mut d: u128 = den;
    let mut up: u128 = 1;
    while n >= d * BEYOND
        invariant
            down == 1 || n < den * BEYOND,
            0 < n,
            d == den || n <= LIMIT,
            n <= LIMIT || n < den * BEYOND,
            n >= d * LEAST,
            0 < den <= LIMIT,
            d == den * up,
            0 < up <= d <= 2 * LIMIT,
            up == 1 || down == 1,
            ({
                let (x, y) = rounded_ratio(n as nat, d as nat);
                rounded_ratio(num as nat, den as nat) == (x * up as nat, y * down as nat)
            }),
        decreases n - d,
    {
        proof {
            let (x, y) = rounded_ratio(n as nat, (2 * d) as nat);
            assert((2 * x) * up == x * (2 * up)) by (nonlinear_arith);
            assert(2 * (den * up) == den * (2 * up)) by (nonlinear_arith);
        }
        d = 2 * d;
        up = 2 * up;
    }
    let m = to_nearest_whole(n, d);
    proof {
        assert(n / d < BEYOND) by (nonlinear_arith)
            requires
                n < d * BEYOND,
                d > 0,
        ;
        assert(up <= 0x20_0000) by {
            assert(up == 1 || up * LEAST <= LIMIT);
        }
        assert(m * up <= 0x20_0000 * BEYOND) by (nonlinear_arith)
            requires
                m <= BEYOND,
                up <= 0x20_0000,
        ;
        assert(rounded_ratio(n as nat, d as nat) == (m as nat, 1nat));
        assert(1 * down == down);
    }
    (m * up, down)
}

/// Adds a fraction `num / den` below one to a whole number. The products with the whole
/// number, which may be too large, are never formed.
fn round_sum(whole: u128, num: u128, den: u128) -> (r: (u128, u128))
    requires
        whole <= LIMIT,
        num < den <= LIMIT * 0x1000,
        num <= BEYOND,
    ensures
        (r.0 as nat, r.1 as nat) == rounded_sum(whole as nat, num as nat, den as nat),
        r.0 <= 0x400_0000_0000_0000_0000,
        0 < r.1 <= LIMIT * 0x1000,
{
    if whole == 0 {
        return (num, den);
    }
    let ghost total: nat = (whole * den + num) as nat;
    proof {
        vstd::arithmetic::power2::lemma2_to64_rest();
        vstd::arithmetic::power2::lemma2_to64();
    }
    if whole < BEYOND {
        let mut down: u128 = 1;
        let mut step: u128 = LEAST;
        let ghost mut k: nat = 52;
        while whole < step
            invariant
                0 < whole < 2 * step,
                num < den,
                total == whole * den + num,
                k <= 52,
                step == vstd::arithmetic::power2::pow2(k),
                down == vstd::arithmetic::power2::pow2((52 - k) as nat),
                ({
                    let (x, y) = rounded_ratio(total * down as nat, den as nat);
                    rounded_ratio(total, den as nat) == (x, y * down as nat)
                }),
            decreases step,
        {
            proof {
                lemma_parts_of_least(k);
                let (x, y) = rounded_ratio((total * (2 * down)) as nat, den as nat);
                assert((2 * y) * down == y * (2 * down)) by (nonlinear_arith);
                assert(2 * (total * down) == total * (2 * down)) by (nonlinear_arith);
                assert(0 < total * down < den * LEAST) by (nonlinear_arith)
                    requires
                        total == whole * den + num,
                        num < den,
                        0 < whole,
                        whole + 1 <= step,
                        0 < down,
                        down * step == LEAST,
                ;
                k = (k - 1) as nat;
            }
            down = 2 * down;
            step = step / 2;
        }
        proof {
            lemma_parts_of_least(k);
            assert(den * LEAST <= total * down < den * BEYOND) by (nonlinear_arith)
                requires
                    total == whole * den + num,
                    num < den,
                    step <= whole,
                    whole + 1 <= 2 * step,
                    0 < down,
                    down * step == LEAST,
                    BEYOND == 2 * LEAST,
            ;
            assert(whole * down < BEYOND) by (nonlinear_arith)
                requires
                    whole < 2 * step,
                    0 < down,
                    down * step == LEAST,
                    BEYOND == 2 * LEAST,
            ;
            assert(num * down <= BEYOND * LEAST) by (nonlinear_arith)
                requires
                    num <= BEYOND,
                    down <= LEAST,
            ;
            assert(num * down / (den as int) < down) by (nonlinear_arith)
                requires
                    num < den,
                    0 < down,
            ;
        }
        let q = whole * down + num * down / den;
        let r = num * down % den;
        proof {
            assert(total * down == q * den + r) by (nonlinear_arith)
                requires
                    total == whole * den + num,
                    q == whole * down + num * down / (den as int),
                    r == num * down % (den as int),
                    den > 0,
            ;
            vstd::arithmetic::div_mod::lemma_fundamental_div_mod_converse(total * down, den as int, q as int, r as int);
        }
        let m = if 2 * r < den || (2 * r == den && q % 2 == 0) {
            q
        } else {
            q + 1
        };
        proof {
            assert(rounded_ratio(total * down as nat, den as nat) == (m as nat, 1nat));
            assert(1 * down == down);
        }
        (m, down)
    } else {
        let mut up: u128 = 1;
        while whole >= up * BEYOND
            invariant
                0 < up,
                up * BEYOND <= 2 * LIMIT,
                whole <= LIMIT,
                whole >= up * LEAST,
                0 <= num < den,
                total == whole * den + num,
                ({
                    let (x, y) = rounded_ratio(total, den as nat * up as nat);
                    rounded_ratio(total, den as nat) == (x * up as nat, y)
                }),
            decreases whole - up,
        {
            proof {
                let (x, y) = rounded_ratio(total, den as nat * (2 * up) as nat);
                assert((2 * x) * up == x * (2 * up)) by (nonlinear_arith);
                assert(2 * (den * up) == den * (2 * up)) by (nonlinear_arith);
                assert(total >= (den * up) * BEYOND && den * up > 0) by (nonlinear_arith)
                    requires
                        total == whole * den + num,
                        whole >= up * BEYOND,
                        den > 0,
                        up > 0,
                ;
            }
            up = 2 * up;
        }
        let q = whole / up;
        proof {
            assert(whole % up * den <= 0x200_0000 * (LIMIT * 0x1000) && up * den <= 0x200_0000 * (
            LIMIT * 0x1000)) by (nonlinear_arith)
                requires
                    whole % up <= up <= 0x200_0000,
                    den <= LIMIT * 0x1000,
            ;
        }
        let r = whole % up * den + num;
        let full = up * den;
        proof {
            assert(total == q * full + r && r < full) by (nonlinear_arith)
                requires
                    total == whole * den + num,
                    q == whole / up,
                    r == whole % up * den + num,
                    full == up * den,
                    up > 0,
                    num < den,
            ;
            assert(full * LEAST <= total < full * BEYOND) by (nonlinear_arith)
                requires
                    total == whole * den + num,
                    full == up * den,
                    up * LEAST <= whole,
                    whole + 1 <= up * BEYOND,
                    num < den,
            ;
            vstd::arithmetic::div_mod::lemma_fundamental_div_mod_converse(
                total as int,
                full as int,
                q as int,
                r as int,
            );
            assert(q < BEYOND) by (nonlinear_arith)
                requires
                    q == whole / up,
                    whole < up * BEYOND,
                    up > 0,
            ;
            assert((q + 1) * up <= BEYOND * 0x20_0000 && q * up <= BEYOND * 0x20_0000)
                by (nonlinear_arith)
                requires
                    q < BEYOND,
                    up <= 0x20_0000,
            ;
        }
        let m = if 2 * r < full || (2 * r == full && q % 2 == 0) {
            q
        } else {
            q + 1
        };
        proof {
            assert(den * up == full) by (nonlinear_arith)
                requires
                    full == up * den,
            ;
            assert(rounded_ratio(total, den as nat * up as nat) == (m as nat, 1nat));
        }
        (m * up, 1)
    }
}

/// The powers of two up to the least significand divide it.
proof fn lemma_parts_of_least(k: nat)
    requires
        k <= 52,
    ensures
        vstd::arithmetic::power2::pow2((52 - k) as nat) * vstd::arithmetic::power2::pow2(k) == LEAST,
        0 < vstd::arithmetic::power2::pow2(k) <= LEAST,
        0 < vstd::arithmetic::power2::pow2((52 - k) as nat) <= LEAST,
        k == 0 ==> vstd::arithmetic::power2::pow2(k) == 1,
        k > 0 ==> vstd::arithmetic::power2::pow2(k) == 2 * vstd::arithmetic::power2::pow2((k - 1) as nat),
        k > 0 ==> vstd::arithmetic::power2::pow2((53 - k) as nat) == 2 * vstd::arithmetic::power2::pow2((52 - k) as nat),
{
    vstd::arithmetic::power2::lemma2_to64();
    vstd::arithmetic::power2::lemma2_to64_rest();
    vstd::arithmetic::power2::lemma_pow2_adds((52 - k) as nat, k);
    vstd::arithmetic::power2::lemma_pow2_pos(k);
    vstd::arithmetic::power2::lemma_pow2_pos((52 - k) as nat);
    if k > 0 {
        vstd::arithmetic::power2::lemma_pow2_unfold(k);
        vstd::arithmetic::power2::lemma_pow2_unfold((53 - k) as nat);
    }
    let a = vstd::arithmetic::power2::pow2(k);
    let b = vstd::arithmetic::power2::pow2((52 - k) as nat);
    assert(a <= b * a && b <= b * a) by (nonlinear_arith)
        requires
            a > 0,
            b > 0,
    ;
}

/// A ratio below 2 to the power of 53 is rounded to a significand over a power of two
/// that scales the ratio to a significand, and the error is at most half of one part.
pub proof fn lemma_rounded_ratio(num: nat, den: nat)
    requires
        0 < num < den * BEYOND,
        0 < den,
    ensures
        ({
            let (n, d) = rounded_ratio(num, den);
            &&& n <= BEYOND
            &&& 0 < d
            &&& den * LEAST <= num * d < den * BEYOND
            &&& 2 * (num * d) - den <= 2 * (n * den) <= 2 * (num * d) + den
        }),
    decreases den * BEYOND - num,
{
    let (n, d) = rounded_ratio(num, den);
    if num < den * LEAST {
        lemma_rounded_ratio(2 * num, den);
        let (m, e) = rounded_ratio(2 * num, den);
        assert((2 * num) * e == num * (2 * e)) by (nonlinear_arith);
    } else {
        assert(num / den < BEYOND) by (nonlinear_arith)
            requires
                num < den * BEYOND,
                0 < den,
        ;
        vstd::arithmetic::div_mod::lemma_fundamental_div_mod(num as int, den as int);
        assert((num / den) * den == den * (num / den)) by (nonlinear_arith);
        assert((num / den + 1) * den == den * (num / den) + den) by (nonlinear_arith);
        assert(num % den < den);
    }
}

/// Writes `num / den` with one decimal.
fn write_one_decimal(num: u128, den: u128) -> (r: String)
    requires
        num <= 0x400_0000_0000_0000_0000,
        0 < den <= 0x4000_0000_0000_0000_0000_0000_0000_0000,
    ensures
        r@ == one_decimal(num as nat, den as nat),
{
    let tenths = to_nearest_whole(10 * num, den);
    let mut r = number::write_decimal(tenths / 10);
    r.append(".");
    let last = number::write_decimal(tenths % 10);
    r.append(last.as_str());
    r
}

/// Writes `part` in percent of `whole`, with one decimal.
pub fn write_percentage(part: usize, whole: usize) -> (r: String)
    ensures
        r@ == percentage(part as nat, whole as nat),
{
    if whole == 0 {
        return if part == 0 {
            "NaN".to_owned()
        } else {
            "inf".to_owned()
        };
    }
    let hundredfold = round_whole(100 * round_whole(part as u128));
    let (num, den) = round_ratio(hundredfold, round_whole(whole as u128));
    write_one_decimal(num, den)
}

impl Elapsed {
    /// Writes the seconds of the span, with one decimal.
    pub fn write_seconds(&self) -> (r: String)
        requires
            self.valid(),
        ensures
            r@ == self.seconds(),
    {
        let nanos = self.nanos as u128;
        let (n, d) = round_ratio(nanos, NANOS_PER_SEC);
        proof {
            if nanos > 0 {
                lemma_rounded_ratio(nanos as nat, NANOS_PER_SEC as nat);
                assert(LEAST < d && n < d && d <= LIMIT * 0x1000) by (nonlinear_arith)
                    requires
                        0 < nanos < NANOS_PER_SEC,
                        NANOS_PER_SEC * LEAST <= nanos * d < NANOS_PER_SEC * BEYOND,
                        2 * (n * NANOS_PER_SEC) <= 2 * (nanos * d) + NANOS_PER_SEC,
                        NANOS_PER_SEC == 1_000_000_000,
                        LEAST == 4503599627370496,
                        BEYOND == 9007199254740992,
                        LIMIT == 0x200_0000_0000_0000_0000,
                ;
            }
        }
        let (num, den) = round_sum(round_whole(self.secs as u128), n, d);
        write_one_decimal(num, den)
    }
}

} // verus!
