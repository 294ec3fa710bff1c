//! What binary64 numbers and numerals mean.

use vstd::arithmetic::mul::*;
use vstd::arithmetic::power2::*;
use vstd::prelude::*;

use crate::binary64::{self, Binary64, Dyadic};
use crate::detector;
use crate::laws;
use crate::profiler::{self, RequestView};
use crate::text;

verus! {

// ---- rounding -----------------------------------------------------------

/// How far apart two integers are.
pub open spec fn distance(a: int, b: int) -> int {
    if a <= b {
        b - a
    } else {
        a - b
    }
}

/// How many times the least positive number `2^-1074` goes into the number with the given bit
/// pattern, whose sign bit is clear: eleven bits of exponent, and 52 bits of the significand.
pub open spec fn units(bits: u64) -> nat {
    let exponent = bits as nat / 0x10_0000_0000_0000;
    let fraction = bits as nat % 0x10_0000_0000_0000;
    if exponent == 0 {
        fraction
    } else {
        (0x10_0000_0000_0000 + fraction) * pow2((exponent - 1) as nat)
    }
}

/// Whether a bit pattern is that of the finite number closest to `x / d` units, and of two that are
/// equally close the one that is even.
pub open spec fn is_closest(bits: u64, x: nat, d: nat) -> bool {
    &&& bits < 0x7FF0_0000_0000_0000
    &&& forall|other: u64|
        #![trigger units(other)]
        other < 0x7FF0_0000_0000_0000 && other != bits ==> {
            let here = distance((units(bits) * d) as int, x as int);
            let there = distance((units(other) * d) as int, x as int);
            here < there || (here == there && bits % 2 == 0)
        }
}

/// Whether `k` is the integer closest to `x / d`, and of two that are equally close the even one.
pub open spec fn is_closest_integer(k: nat, x: nat, d: nat) -> bool {
    forall|j: nat|
        j != k ==> {
            let here = distance((k * d) as int, x as int);
            let there = distance(#[trigger] (j * d) as int, x as int);
            here < there || (here == there && k % 2 == 0)
        }
}

/// The integer `n` in units.
pub open spec fn in_units(n: nat) -> nat {
    n * pow2(1074)
}

proof fn lemma_closest_integer(x: nat, d: nat)
    requires
        d > 0,
    ensures
        is_closest_integer(binary64::nearest_even(x, d), x, d),
{
    let q = (x / d) as int;
    let r = (x % d) as int;
    let k = binary64::nearest_even(x, d) as int;
    vstd::arithmetic::div_mod::lemma_fundamental_div_mod(x as int, d as int);
    lemma_mul_is_commutative(d as int, q);
    assert((q + 1) * d == q * d + d) by (nonlinear_arith);
    assert forall|j: nat| j != k implies {
        let here = distance((k * d) as int, x as int);
        let there = distance(#[trigger] (j * d) as int, x as int);
        here < there || (here == there && k % 2 == 0)
    } by {
        if j < q {
            assert(j * d + d <= q * d) by (nonlinear_arith)
                requires
                    j + 1 <= q,
                    d > 0,
            ;
        } else if j > q + 1 {
            assert((q + 1) * d + d <= j * d) by (nonlinear_arith)
                requires
                    q + 2 <= j,
                    d > 0,
            ;
        }
    }
}

/// Rounding picks the scale at which the integer part has 53 bits, and the closest integer at that
/// scale.
proof fn lemma_round_scale(n: nat, d: nat, k: int) -> (scale: (nat, nat, int, nat))
    requires
        n > 0,
        d > 0,
    ensures
        ({
            let (num, den, e, t) = scale;
            let m = binary64::nearest_even(num, den);
            let f = binary64::round(n, d, k);
            &&& 0x10_0000_0000_0000 * den <= num < 0x20_0000_0000_0000 * den
            &&& den > 0
            &&& (e == k - t && num == n * pow2(t) && den == d) || (e == k + t && num == n && den == d
                * pow2(t))
            &&& f.mant > 0
            &&& if m == 0x20_0000_0000_0000 {
                f.mant == 0x10_0000_0000_0000 && f.exp == e + 1
            } else {
                f.mant == m && f.exp == e
            }
        }),
    decreases
            if n < 0x10_0000_0000_0000 * d {
                0x10_0000_0000_0000 * d - n
            } else if n >= 0x20_0000_0000_0000 * d {
                n - d
            } else {
                0
            },
{
    lemma2_to64();
    if n < 0x10_0000_0000_0000 * d {
        let (num, den, e, t) = lemma_round_scale(2 * n, d, k - 1);
        lemma_pow2_unfold(t + 1);
        if e == k - 1 - t && num == (2 * n) * pow2(t) && den == d {
            assert((2 * n) * pow2(t) == n * pow2(t + 1)) by (nonlinear_arith)
                requires
                    pow2(t + 1) == 2 * pow2(t),
            ;
            (num, den, e, t + 1)
        } else {
            // A quotient below 2^53 is not scaled down.
            lemma_pow2_pos(t);
            if t > 0 {
                lemma_pow2_unfold(t);
                lemma_pow2_pos((t - 1) as nat);
                assert(0x10_0000_0000_0000 * (d * pow2(t)) >= 0x20_0000_0000_0000 * d)
                    by (nonlinear_arith)
                    requires
                        pow2(t) >= 2,
                        d > 0,
                ;
            }
            assert(t == 0);
            assert(d * pow2(0) == d && n * pow2(1) == 2 * n) by (nonlinear_arith)
                requires
                    pow2(0) == 1,
                    pow2(1) == 2,
            ;
            (num, den, e, 1)
        }
    } else if n >= 0x20_0000_0000_0000 * d {
        let (num, den, e, t) = lemma_round_scale(n, 2 * d, k + 1);
        lemma_pow2_unfold(t + 1);
        if e == k + 1 + t && num == n && den == (2 * d) * pow2(t) {
            assert((2 * d) * pow2(t) == d * pow2(t + 1)) by (nonlinear_arith)
                requires
                    pow2(t + 1) == 2 * pow2(t),
            ;
            (num, den, e, t + 1)
        } else {
            // A quotient of at least 2^52 is not scaled up.
            lemma_pow2_pos(t);
            if t > 0 {
                lemma_pow2_unfold(t);
                lemma_pow2_pos((t - 1) as nat);
                assert(n * pow2(t) >= 2 * n) by (nonlinear_arith)
                    requires
                        pow2(t) >= 2,
                ;
            }
            assert(t == 0);
            assert(d * pow2(1) == 2 * d && n * pow2(0) == n) by (nonlinear_arith)
                requires
                    pow2(0) == 1,
                    pow2(1) == 2,
            ;
            (num, den, e, 1)
        }
    } else {
        assert(n * pow2(0) == n) by (nonlinear_arith)
            requires
                pow2(0) == 1,
        ;
        let m = binary64::nearest_even(n, d) as int;
        vstd::arithmetic::div_mod::lemma_fundamental_div_mod(n as int, d as int);
        if m == 0 {
            assert(false) by {
                let q = n as int / d as int;
                assert(q == 0);
                assert(d * q == 0) by (nonlinear_arith)
                    requires
                        q == 0,
                ;
            }
        }
        (n, d, k, 0)
    }
}

/// The bit patterns of the numbers whose significand stands at the exponent `e`.
proof fn lemma_units_at(e: int, m: nat) -> (bits: u64)
    requires
        -1074 <= e <= 970,
        0x10_0000_0000_0000 <= m <= 0x20_0000_0000_0000,
    ensures
        bits == (e + 1074) * 0x10_0000_0000_0000 + m,
        bits < 0x7FF0_0000_0000_0000,
        units(bits) == m * pow2((e + 1074) as nat),
        bits % 2 == m % 2,
{
    let unit: int = 0x10_0000_0000_0000;
    let bits = ((e + 1074) * 0x10_0000_0000_0000 + m) as u64;
    let p = pow2((e + 1074) as nat) as int;
    if m < 2 * unit {
        vstd::arithmetic::div_mod::lemma_fundamental_div_mod_converse(
            bits as int,
            unit,
            e + 1075,
            m - unit,
        );
    } else {
        vstd::arithmetic::div_mod::lemma_fundamental_div_mod_converse(
            bits as int,
            unit,
            e + 1076,
            0,
        );
        lemma_pow2_unfold((e + 1075) as nat);
        assert(unit * (2 * p) == (2 * unit) * p) by (nonlinear_arith);
    }
    bits
}

/// The greater bit pattern is the greater number.
pub proof fn law_units_keep_order(a: u64, b: u64)
    ensures
        a < b ==> units(a) < units(b),
{
    binary64::lemma_magnitude_order(a as nat, b as nat);
}

/// Rounding `(n / d) * 2^k` gives the closest binary64 number.
pub proof fn law_rounding_is_closest(n: nat, d: nat, k: int)
    requires
        0 < d <= 0x2_0000_0000_0000_0000,
        n <= 0x100_0000_0000_0000_0000_0000_0000_0000,
        -700 <= k <= 700,
    ensures
        0 <= binary64::pattern(binary64::round(n, d, k)) < 0x7FF0_0000_0000_0000,
        is_closest(
            binary64::pattern(binary64::round(n, d, k)) as u64,
            n * pow2((k + 1074) as nat),
            d,
        ),
        n > 0 ==> units(binary64::pattern(binary64::round(n, d, k)) as u64) == binary64::round(
            n,
            d,
            k,
        ).mant * pow2((binary64::round(n, d, k).exp + 1074) as nat),
        n > 0 ==> {
            &&& 0x10_0000_0000_0000 <= binary64::round(n, d, k).mant < 0x20_0000_0000_0000
            &&& k - 128 < binary64::round(n, d, k).exp <= k + 128
        },
        n == 0 ==> binary64::round(n, d, k) == (Dyadic { mant: 0, exp: 0 }),
{
    let x = n * pow2((k + 1074) as nat);
    if n == 0 {
        assert(0 * pow2((k + 1074) as nat) == 0 && 0 * d == 0) by (nonlinear_arith);
        assert forall|other: u64|
            #![trigger units(other)]
            other < 0x7FF0_0000_0000_0000 && other != 0 implies {
            let here = distance((units(0) * d) as int, x as int);
            let there = distance((units(other) * d) as int, x as int);
            here < there
        } by {
            law_units_keep_order(0, other);
            assert(units(0) == 0);
            lemma_mul_strictly_positive(units(other) as int, d as int);
        }
    } else {
        let (num, den, e, t) = lemma_round_scale(n, d, k);
        let m = binary64::nearest_even(num, den);
        lemma_scale_bound(n, d, k, num, den, e, t);
        let low: nat = 0x10_0000_0000_0000;
        assert(low <= m <= 2 * low) by {
            vstd::arithmetic::div_mod::lemma_fundamental_div_mod(num as int, den as int);
            lemma_quotient_between(num, den, low);
        }
        let bits = lemma_units_at(e, m);
        let lowest = lemma_units_at(e, low);
        let highest = lemma_units_at(e, 2 * low);
        let f = binary64::round(n, d, k);
        assert(binary64::pattern(f) == bits);
        if m == 2 * low {
            lemma_pow2_unfold((e + 1075) as nat);
            let p = pow2((e + 1074) as nat) as int;
            assert(low * (2 * p) == (2 * low) * p) by (nonlinear_arith);
        }
        let u = pow2((e + 1074) as nat);
        // For every integer j: j * u * d - x == c * (j * den - num).
        let c = lemma_common_factor(n, d, k, num, den, e, t);
        lemma_closest_integer(num, den);
        assert forall|other: u64|
            #![trigger units(other)]
            other < 0x7FF0_0000_0000_0000 && other != bits implies {
            let here = distance((units(bits) * d) as int, x as int);
            let there = distance((units(other) * d) as int, x as int);
            here < there || (here == there && bits % 2 == 0)
        } by {
            lemma_scaled_distance(m, u, d, x, c, num, den);
            if other < lowest {
                law_units_keep_order(other, lowest);
                lemma_scaled_distance(low, u, d, x, c, num, den);
                lemma_mul_strict_inequality(units(other) as int, units(lowest) as int, d as int);
                if m != low {
                    assert(low * den == low * den);
                    lemma_order_scaled(
                        distance((m * den) as int, num as int),
                        distance((low * den) as int, num as int),
                        c as int,
                    );
                }
                assert(c * (low * den - num) <= 0) by (nonlinear_arith)
                    requires
                        low * den <= num,
                ;
            } else if other > highest {
                law_units_keep_order(highest, other);
                lemma_scaled_distance(2 * low, u, d, x, c, num, den);
                lemma_mul_strict_inequality(units(highest) as int, units(other) as int, d as int);
                if m != 2 * low {
                    assert((2 * low) * den == (2 * low) * den);
                    lemma_order_scaled(
                        distance((m * den) as int, num as int),
                        distance(((2 * low) * den) as int, num as int),
                        c as int,
                    );
                }
                assert(c * ((2 * low) * den - num) >= 0) by (nonlinear_arith)
                    requires
                        num <= (2 * low) * den,
                ;
            } else {
                let j = (other - (e + 1074) * 0x10_0000_0000_0000) as nat;
                let same = lemma_units_at(e, j);
                assert(same == other);
                lemma_scaled_distance(j, u, d, x, c, num, den);
                assert(j * den == j * den);
                lemma_order_scaled(
                    distance((m * den) as int, num as int),
                    distance((j * den) as int, num as int),
                    c as int,
                );
            }
        }
    }
}

/// A greater distance is a greater distance at every scale.
proof fn lemma_order_scaled(a: int, b: int, c: int)
    by (nonlinear_arith)
    requires
        c > 0,
    ensures
        a < b ==> c * a < c * b,
        a == b ==> c * a == c * b,
        c * a < c * b ==> a < b,
{
}

proof fn lemma_quotient_between(num: nat, den: nat, low: nat)
    requires
        den > 0,
        low * den <= num < (2 * low) * den,
    ensures
        low <= binary64::nearest_even(num, den) <= 2 * low,
{
    let q = (num / den) as int;
    vstd::arithmetic::div_mod::lemma_fundamental_div_mod(num as int, den as int);
    assert(low <= q < 2 * low) by (nonlinear_arith)
        requires
            num == den * q + num as int % den as int,
            0 <= num as int % den as int,
            (num as int % den as int) < den,
            low * den <= num,
            num < (2 * low) * den,
            den > 0,
    ;
}

/// The exponent stays far inside the range of normal numbers.
proof fn lemma_scale_bound(n: nat, d: nat, k: int, num: nat, den: nat, e: int, t: nat)
    requires
        0 < n <= 0x100_0000_0000_0000_0000_0000_0000_0000,
        0 < d <= 0x2_0000_0000_0000_0000,
        -700 <= k <= 700,
        0x10_0000_0000_0000 * den <= num < 0x20_0000_0000_0000 * den,
        (e == k - t && num == n * pow2(t) && den == d) || (e == k + t && num == n && den == d * pow2(
            t,
        )),
    ensures
        -1074 < e < 970,
        t < 128,
{
    lemma2_to64();
    lemma2_to64_rest();
    lemma_pow2_adds(64, 64);
    if t >= 128 {
        if t > 128 {
            lemma_pow2_strictly_increases(128, t);
        }
        if num == n * pow2(t) && den == d {
            assert(n * pow2(t) >= pow2(t)) by (nonlinear_arith)
                requires
                    n > 0,
            ;
        } else {
            assert(d * pow2(t) >= pow2(t)) by (nonlinear_arith)
                requires
                    d > 0,
            ;
        }
    }
}

/// At the scale of a rounded number, distances are those of integers times a common factor.
proof fn lemma_common_factor(n: nat, d: nat, k: int, num: nat, den: nat, e: int, t: nat) -> (c: nat)
    requires
        -700 <= k <= 700,
        -1074 < e < 970,
        t < 200,
        (e == k - t && num == n * pow2(t) && den == d) || (e == k + t && num == n && den == d * pow2(
            t,
        )),
    ensures
        c > 0,
        pow2((e + 1074) as nat) * d == c * den,
        n * pow2((k + 1074) as nat) == c * num,
{
    let u = pow2((e + 1074) as nat);
    let s = pow2((k + 1074) as nat);
    lemma_pow2_pos((e + 1074) as nat);
    lemma_pow2_pos((k + 1074) as nat);
    if e == k - t && num == n * pow2(t) && den == d {
        lemma_pow2_adds((e + 1074) as nat, t);
        assert(n * s == u * (n * pow2(t))) by (nonlinear_arith)
            requires
                s == u * pow2(t),
        ;
        u
    } else {
        lemma_pow2_adds((k + 1074) as nat, t);
        assert(u * d == s * (d * pow2(t))) by (nonlinear_arith)
            requires
                u == s * pow2(t),
        ;
        lemma_mul_is_commutative(n as int, s as int);
        s
    }
}

proof fn lemma_scaled_distance(j: nat, u: nat, d: nat, x: nat, c: nat, num: nat, den: nat)
    requires
        c > 0,
        u * d == c * den,
        x == c * num,
    ensures
        j * u * d - x == c * (j * den - num),
        distance((j * u * d) as int, x as int) == c * distance((j * den) as int, num as int),
{
    assert(j * u * d - x == c * (j * den - num)) by (nonlinear_arith)
        requires
            u * d == c * den,
            x == c * num,
    ;
    assert(c * (num - j * den) == -(c * (j * den - num))) by (nonlinear_arith);
    assert(j * den <= num ==> c * (j * den - num) <= 0) by (nonlinear_arith);
    assert(j * den >= num ==> c * (j * den - num) >= 0) by (nonlinear_arith);
}

// ---- integers -----------------------------------------------------------

/// Whether `r` is the integer that the binary64 number closest to `n` denotes.
pub open spec fn is_rounded_integer(n: nat, r: nat) -> bool {
    exists|bits: u64| #[trigger] is_closest(bits, in_units(n), 1) && units(bits) == in_units(r)
}

/// An integer of more than 53 bits is rounded to a multiple of a power of two as a quotient is
/// rounded.
proof fn lemma_multiple_is_round(n: nat, unit: nat, k: int)
    requires
        unit > 0,
        0x10_0000_0000_0000 * unit <= n,
    ensures
        binary64::round(n, unit, k).exp >= k,
        binary64::round(n, unit, k).mant * pow2((binary64::round(n, unit, k).exp - k) as nat) * unit
            == binary64::to_multiple(n, unit),
    decreases n - unit,
{
    lemma2_to64();
    let f = binary64::round(n, unit, k);
    if n < 0x20_0000_0000_0000 * unit {
        let m = binary64::nearest_even(n, unit);
        if m == 0x20_0000_0000_0000 {
            assert(0x10_0000_0000_0000 * 2 * unit == m * unit) by (nonlinear_arith)
                requires
                    m == 0x20_0000_0000_0000,
            ;
        } else {
            assert(m * 1 * unit == m * unit) by (nonlinear_arith);
        }
    } else {
        lemma_multiple_is_round(n, 2 * unit, k + 1);
        let e = (f.exp - k) as nat;
        lemma_pow2_unfold(e);
        let p = pow2((e - 1) as nat);
        let m = f.mant;
        assert(m * p * (2 * unit) == m * (2 * p) * unit) by (nonlinear_arith);
    }
}

/// A counter is taken as the closest binary64 number, which is the counter itself where it has at
/// most 53 bits.
pub proof fn law_counters_are_rounded(n: nat)
    requires
        n <= 0x100_0000_0000_0000_0000_0000_0000_0000,
    ensures
        is_rounded_integer(n, binary64::as_double(n)),
        n < 0x20_0000_0000_0000 ==> binary64::as_double(n) == n,
{
    law_rounding_is_closest(n, 1, 0);
    let f = binary64::round(n, 1, 0);
    let bits = binary64::pattern(f) as u64;
    assert(units(bits) == in_units(binary64::as_double(n))) by {
        if n < 0x20_0000_0000_0000 {
            binary64::lemma_as_double_exact(n);
        }
        if n == 0 {
            assert(0 * pow2(1074) == 0) by (nonlinear_arith);
        } else if n < 0x20_0000_0000_0000 {
            let (num, den, e, t) = lemma_round_scale(n, 1, 0);
            lemma_scale_bound(n, 1, 0, num, den, e, t);
            lemma_pow2_pos(t);
            if e == -t && num == n * pow2(t) && den == 1 {
                lemma_pow2_adds(t, (1074 - t) as nat);
                lemma_mul_is_associative(n as int, pow2(t) as int, pow2((1074 - t) as nat) as int);
            } else {
                lemma2_to64();
                if t > 0 {
                    lemma_pow2_unfold(t);
                    lemma_pow2_pos((t - 1) as nat);
                    assert(false) by (nonlinear_arith)
                        requires
                            den == 1 * pow2(t),
                            pow2(t) >= 2,
                            0x10_0000_0000_0000 * den <= n,
                            n < 0x20_0000_0000_0000,
                    ;
                }
            }
        } else {
            lemma_multiple_is_round(n, 1, 0);
            let e = f.exp as nat;
            lemma_pow2_adds(e, 1074);
            let p = pow2(e);
            let s = pow2(1074);
            let m = f.mant;
            assert(m * (p * s) == (m * p * 1) * s) by (nonlinear_arith);
        }
    }
    assert(n * pow2(1074) == in_units(n));
}

/// A number up to a power of two, or little more, is rounded to at most that power of two.
proof fn lemma_multiple_bound(n: nat, j: nat, b: nat, slack: nat)
    requires
        53 <= b,
        j <= b - 52,
        slack < pow2((b - 53) as nat),
        n <= pow2(b) + slack,
    ensures
        binary64::to_multiple(n, pow2(j)) <= pow2(b),
    decreases b - j,
{
    let unit = pow2(j);
    lemma_pow2_pos(j);
    lemma2_to64();
    lemma2_to64_rest();
    lemma_pow2_unfold((b - 52) as nat);
    lemma_pow2_adds(52, (b - 52) as nat);
    if n < 0x20_0000_0000_0000 * unit {
        let q = binary64::nearest_even(n, unit);
        if j == b - 52 {
            let c: nat = 0x10_0000_0000_0000;
            assert(pow2(b) == c * unit && (2 * c + 1) * unit == 2 * (c * unit) + unit)
                by (nonlinear_arith)
                requires
                    pow2(b) == pow2(52) * unit,
                    pow2(52) == c,
            ;
            lemma_nearest_limit(n, unit, 0x10_0000_0000_0000);
            lemma_mul_inequality(q as int, 0x10_0000_0000_0000, unit as int);
        } else {
            lemma_nearest_limit(n, unit, 0x20_0000_0000_0000);
            lemma_mul_inequality(q as int, 0x20_0000_0000_0000, unit as int);
            lemma_pow2_adds(53, j);
            if 53 + j < b {
                lemma_pow2_strictly_increases(53 + j, b);
            }
        }
    } else {
        if j == b - 52 {
            lemma_pow2_pos((b - 53) as nat);
            assert(false);
        }
        lemma_pow2_unfold(j + 1);
        lemma_multiple_bound(n, j + 1, b, slack);
    }
}

proof fn lemma_nearest_limit(n: nat, d: nat, c: nat)
    requires
        d > 0,
        2 * n < (2 * c + 1) * d || n <= c * d,
    ensures
        binary64::nearest_even(n, d) <= c,
{
    let q = (n / d) as int;
    vstd::arithmetic::div_mod::lemma_fundamental_div_mod(n as int, d as int);
    assert((2 * c + 1) * d == 2 * (c * d) + d) by (nonlinear_arith);
    if q > c {
        assert(d * q >= c * d + d) by (nonlinear_arith)
            requires
                q >= c + 1,
                d > 0,
        ;
    } else if q == c {
        assert(d * q == c * d) by (nonlinear_arith)
            requires
                q == c,
        ;
    }
}

/// A counter of 64 bits is rounded to at most `2^64`, and to zero only if it is zero.
proof fn lemma_counter_bound(n: nat)
    requires
        n <= u64::MAX,
    ensures
        binary64::as_double(n) <= 0x1_0000_0000_0000_0000,
        n > 0 ==> binary64::as_double(n) > 0,
{
    lemma2_to64();
    lemma2_to64_rest();
    lemma_multiple_bound(n, 0, 64, 0);
    if n < 0x20_0000_0000_0000 {
        binary64::lemma_as_double_exact(n);
    } else {
        lemma_multiple_is_round(n, 1, 0);
        law_rounding_is_closest(n, 1, 0);
        let f = binary64::round(n, 1, 0);
        lemma_pow2_pos(f.exp as nat);
        lemma_mul_strictly_positive(f.mant as int, pow2(f.exp as nat) as int);
        lemma_mul_strictly_positive((f.mant * pow2(f.exp as nat)) as int, 1);
    }
}

// ---- quotients, percentages, averages -----------------------------------

/// The quotient of two counters is the binary64 number closest to the quotient of their binary64
/// numbers.
pub proof fn law_quotients_are_closest(a: nat, b: nat) -> (parts: (nat, nat, u64))
    requires
        a <= u64::MAX,
        0 < b <= u64::MAX,
    ensures
        is_rounded_integer(a, parts.0),
        is_rounded_integer(b, parts.1),
        is_closest(parts.2, in_units(parts.0), parts.1),
        parts.2 == binary64::pattern(binary64::quotient(a, b)),
        a < 0x20_0000_0000_0000 ==> parts.0 == a,
        b < 0x20_0000_0000_0000 ==> parts.1 == b,
{
    law_counters_are_rounded(a);
    law_counters_are_rounded(b);
    lemma_counter_bound(a);
    lemma_counter_bound(b);
    law_rounding_is_closest(binary64::as_double(a), binary64::as_double(b), 0);
    (
        binary64::as_double(a),
        binary64::as_double(b),
        binary64::pattern(binary64::quotient(a, b)) as u64,
    )
}

/// A percentage is the binary64 number closest to a hundred times the one that is closest to the
/// quotient.
pub proof fn law_percentages_are_closest(a: nat, b: nat) -> (parts: (u64, u64))
    requires
        a <= u32::MAX,
        0 < b <= u32::MAX,
    ensures
        is_closest(parts.0, in_units(a), b),
        is_closest(parts.1, 100 * units(parts.0), 1),
        parts.1 == binary64::pattern(binary64::percent(a, b)),
{
    let (ra, rb, q) = law_quotients_are_closest(a, b);
    let f = binary64::quotient(a, b);
    law_rounding_is_closest(a, b, 0);
    law_rounding_is_closest(100 * f.mant, 1, f.exp);
    if a == 0 {
        assert(units(0) == 0);
        assert(100 * f.mant == 0);
        assert(0 * pow2(1074) == 0) by (nonlinear_arith);
    } else {
        let p = pow2((f.exp + 1074) as nat);
        lemma_mul_is_associative(100, f.mant as int, p as int);
    }
    (q, binary64::pattern(binary64::percent(a, b)) as u64)
}

/// Whether adding a counter to a sum gives the next sum, where the counter and the sum are rounded to
/// the closest binary64 number.
pub open spec fn is_next_sum(sum: nat, x: nat, next: nat) -> bool {
    exists|r: nat| #[trigger] is_rounded_integer(x, r) && is_rounded_integer(sum + r, next)
}

/// Whether `sums` are the sums of more and more of the counters, from the first one on.
pub open spec fn are_running_sums(sums: Seq<nat>, xs: Seq<nat>) -> bool {
    &&& sums.len() == xs.len() + 1
    &&& sums[0] == 0
    &&& forall|i: int| 0 <= i < xs.len() ==> is_next_sum(sums[i], #[trigger] xs[i], sums[i + 1])
}

/// The counters as natural numbers.
pub open spec fn as_nats(xs: Seq<u64>) -> Seq<nat> {
    Seq::new(xs.len(), |i: int| xs[i] as nat)
}

proof fn lemma_running_sums(xs: Seq<u64>) -> (sums: Seq<nat>)
    ensures
        are_running_sums(sums, as_nats(xs)),
        sums.last() == binary64::double_sum(xs),
        binary64::double_sum(xs) <= 0x40_0000_0000_0000_0000_0000_0000_0000,
    decreases xs.len(),
{
    if xs.len() == 0 {
        let sums = seq![0nat];
        assert(are_running_sums(sums, as_nats(xs)));
        sums
    } else {
        let fewer = xs.drop_last();
        let before = lemma_running_sums(fewer);
        let sums = before.push(binary64::double_sum(xs));
        let x = xs.last() as nat;
        let r = binary64::as_double(x);
        law_counters_are_rounded(x);
        lemma_counter_bound(x);
        law_counters_are_rounded(binary64::double_sum(fewer) + r);
        lemma2_to64();
        lemma2_to64_rest();
        lemma_pow2_unfold(65);
        lemma_pow2_adds(54, 64);
        lemma_multiple_bound(binary64::double_sum(fewer) + r, 0, 118, 0x1_0000_0000_0000_0000);
        let all = as_nats(xs);
        assert forall|i: int| 0 <= i < all.len() implies is_next_sum(
            sums[i],
            #[trigger] all[i],
            sums[i + 1],
        ) by {
            if i < fewer.len() {
                assert(all[i] == as_nats(fewer)[i]);
                assert(sums[i] == before[i] && sums[i + 1] == before[i + 1]);
            } else {
                assert(all[i] == x);
                assert(sums[i] == before.last());
            }
        }
        assert(sums[0] == before[0]);
        sums
    }
}

/// An average is the binary64 number closest to the quotient of the running sum and the number of
/// counters, and zero where there are none.
pub proof fn law_averages_are_closest(xs: Seq<u64>) -> (parts: (Seq<nat>, nat, u64))
    requires
        0 < xs.len() <= u64::MAX,
    ensures
        are_running_sums(parts.0, as_nats(xs)),
        is_rounded_integer(xs.len(), parts.1),
        is_closest(parts.2, in_units(parts.0.last()), parts.1),
        parts.2 == binary64::pattern(binary64::mean(xs)),
{
    let sums = lemma_running_sums(xs);
    law_counters_are_rounded(xs.len());
    lemma_counter_bound(xs.len());
    law_rounding_is_closest(binary64::double_sum(xs), binary64::as_double(xs.len()), 0);
    (sums, binary64::as_double(xs.len()), binary64::pattern(binary64::mean(xs)) as u64)
}

/// The wall times of requests, added up.
pub open spec fn wall_sum(requests: Seq<RequestView>) -> nat
    decreases requests.len(),
{
    if requests.len() == 0 {
        0
    } else {
        wall_sum(requests.drop_last()) + requests.last().wall_ms as nat
    }
}

/// The fetch calls of requests, added up.
pub open spec fn fetch_sum(requests: Seq<RequestView>) -> nat
    decreases requests.len(),
{
    if requests.len() == 0 {
        0
    } else {
        fetch_sum(requests.drop_last()) + requests.last().fetch_calls as nat
    }
}

proof fn lemma_exact_sums(requests: Seq<RequestView>)
    ensures
        laws::exact_sum(profiler::wall_times(requests)) == wall_sum(requests),
        laws::exact_sum(profiler::fetch_counts(requests)) == fetch_sum(requests),
        profiler::wall_times(requests).len() == requests.len(),
        profiler::fetch_counts(requests).len() == requests.len(),
    decreases requests.len(),
{
    if requests.len() > 0 {
        let fewer = requests.drop_last();
        lemma_exact_sums(fewer);
        assert(profiler::wall_times(requests).drop_last() =~= profiler::wall_times(fewer));
        assert(profiler::fetch_counts(requests).drop_last() =~= profiler::fetch_counts(fewer));
    }
}

/// The average wall time is the binary64 number closest to the sum of the wall times divided by the
/// number of requests, and the average number of fetch calls is the one closest to the sum of the
/// fetch calls divided by it, where these sums have at most 53 bits. Nothing else of a request
/// matters.
pub proof fn law_averages_of_requests(requests: Seq<RequestView>)
    requires
        0 < requests.len() < 0x20_0000_0000_0000,
    ensures
        wall_sum(requests) < 0x20_0000_0000_0000 ==> is_closest(
            binary64::pattern(binary64::mean(profiler::wall_times(requests))) as u64,
            in_units(wall_sum(requests)),
            requests.len(),
        ),
        fetch_sum(requests) < 0x20_0000_0000_0000 ==> is_closest(
            binary64::pattern(binary64::mean(profiler::fetch_counts(requests))) as u64,
            in_units(fetch_sum(requests)),
            requests.len(),
        ),
{
    lemma_exact_sums(requests);
    if wall_sum(requests) < 0x20_0000_0000_0000 {
        laws::law_averages_are_nearest(profiler::wall_times(requests));
        law_rounding_is_closest(wall_sum(requests), requests.len(), 0);
    }
    if fetch_sum(requests) < 0x20_0000_0000_0000 {
        laws::law_averages_are_nearest(profiler::fetch_counts(requests));
        law_rounding_is_closest(fetch_sum(requests), requests.len(), 0);
    }
}

/// Sums of any size are rounded one request after the other, in the order of the requests.
pub proof fn law_averages_add_up_in_order(requests: Seq<RequestView>) -> (sums: (
    Seq<nat>,
    Seq<nat>,
    nat,
))
    requires
        0 < requests.len() <= u64::MAX,
    ensures
        are_running_sums(
            sums.0,
            Seq::new(requests.len(), |i: int| requests[i].wall_ms as nat),
        ),
        are_running_sums(
            sums.1,
            Seq::new(requests.len(), |i: int| requests[i].fetch_calls as nat),
        ),
        is_rounded_integer(requests.len(), sums.2),
        is_closest(
            binary64::pattern(binary64::mean(profiler::wall_times(requests))) as u64,
            in_units(sums.0.last()),
            sums.2,
        ),
        is_closest(
            binary64::pattern(binary64::mean(profiler::fetch_counts(requests))) as u64,
            in_units(sums.1.last()),
            sums.2,
        ),
{
    lemma_exact_sums(requests);
    let (walls, n, _wall) = law_averages_are_closest(profiler::wall_times(requests));
    let (calls, m, _call) = law_averages_are_closest(profiler::fetch_counts(requests));
    assert(as_nats(profiler::wall_times(requests)) =~= Seq::new(
        requests.len(),
        |i: int| requests[i].wall_ms as nat,
    ));
    assert(as_nats(profiler::fetch_counts(requests)) =~= Seq::new(
        requests.len(),
        |i: int| requests[i].fetch_calls as nat,
    ));
    lemma_rounded_integers_are_unique(requests.len(), n, m);
    (walls, calls, n)
}

/// Only one binary64 number is closest.
pub proof fn law_closest_is_unique(a: u64, b: u64, x: nat, d: nat)
    requires
        d > 0,
        is_closest(a, x, d),
        is_closest(b, x, d),
    ensures
        a == b,
{
    if a != b {
        let low = if a < b {
            a
        } else {
            b
        };
        let high = if a < b {
            b
        } else {
            a
        };
        assert(units(a) == units(a) && units(b) == units(b));
        law_units_keep_order(low, high);
        // Both are even and equally close, so there is a number between them.
        let between = (low + 1) as u64;
        law_units_keep_order(low, between);
        law_units_keep_order(between, high);
        lemma_mul_strict_inequality(units(low) as int, units(between) as int, d as int);
        lemma_mul_strict_inequality(units(between) as int, units(high) as int, d as int);
        assert(units(between) == units(between));
    }
}

proof fn lemma_rounded_integers_are_unique(n: nat, a: nat, b: nat)
    requires
        is_rounded_integer(n, a),
        is_rounded_integer(n, b),
    ensures
        a == b,
{
    let x = choose|bits: u64| #[trigger]
        is_closest(bits, in_units(n), 1) && units(bits) == in_units(a);
    let y = choose|bits: u64| #[trigger]
        is_closest(bits, in_units(n), 1) && units(bits) == in_units(b);
    law_closest_is_unique(x, y, in_units(n), 1);
    lemma_pow2_pos(1074);
    let s = pow2(1074) as int;
    assert(a == b) by (nonlinear_arith)
        requires
            a * s == b * s,
            s > 0,
    ;
}

/// Where all requests have the same wall time, that is the average, and where all of them made the
/// same number of fetch calls, that is the average.
pub proof fn law_average_of_equals(requests: Seq<RequestView>, ms: u64, calls: u32)
    requires
        0 < requests.len() < 0x20_0000_0000_0000,
    ensures
        (forall|i: int| 0 <= i < requests.len() ==> (#[trigger] requests[i]).wall_ms == ms)
            && requests.len() * ms < 0x20_0000_0000_0000 ==> units(
            binary64::pattern(binary64::mean(profiler::wall_times(requests))) as u64,
        ) == in_units(ms as nat),
        (forall|i: int| 0 <= i < requests.len() ==> (#[trigger] requests[i]).fetch_calls == calls)
            && requests.len() * calls < 0x20_0000_0000_0000 ==> units(
            binary64::pattern(binary64::mean(profiler::fetch_counts(requests))) as u64,
        ) == in_units(calls as nat),
{
    law_averages_of_requests(requests);
    let n = requests.len();
    if (forall|i: int| 0 <= i < requests.len() ==> (#[trigger] requests[i]).wall_ms == ms)
        && requests.len() * ms < 0x20_0000_0000_0000 {
        lemma_sum_of_equals(requests, ms, 0);
        lemma_exact_quotient(
            binary64::pattern(binary64::mean(profiler::wall_times(requests))) as u64,
            ms as nat,
            n,
        );
    }
    if (forall|i: int| 0 <= i < requests.len() ==> (#[trigger] requests[i]).fetch_calls == calls)
        && requests.len() * calls < 0x20_0000_0000_0000 {
        lemma_sum_of_equals(requests, 0, calls);
        lemma_exact_quotient(
            binary64::pattern(binary64::mean(profiler::fetch_counts(requests))) as u64,
            calls as nat,
            n,
        );
    }
}

proof fn lemma_sum_of_equals(requests: Seq<RequestView>, ms: u64, calls: u32)
    ensures
        (forall|i: int| 0 <= i < requests.len() ==> (#[trigger] requests[i]).wall_ms == ms)
            ==> wall_sum(requests) == requests.len() * ms,
        (forall|i: int| 0 <= i < requests.len() ==> (#[trigger] requests[i]).fetch_calls == calls)
            ==> fetch_sum(requests) == requests.len() * calls,
    decreases requests.len(),
{
    if requests.len() > 0 {
        let fewer = requests.drop_last();
        assert forall|i: int| 0 <= i < fewer.len() implies #[trigger] fewer[i] == requests[i] by {
        }
        lemma_sum_of_equals(fewer, ms, calls);
        assert(requests[requests.len() - 1] == requests.last());
        let n = fewer.len();
        assert((n + 1) * ms == n * ms + ms && (n + 1) * calls == n * calls + calls)
            by (nonlinear_arith);
    } else {
        assert(0 * ms == 0 && 0 * calls == 0) by (nonlinear_arith);
    }
}

/// A quotient that is a number of at most 53 bits is that number.
proof fn lemma_exact_quotient(bits: u64, v: nat, n: nat)
    requires
        n > 0,
        v < 0x20_0000_0000_0000 || n * v < 0x20_0000_0000_0000,
        is_closest(bits, in_units(n * v), n),
    ensures
        units(bits) == in_units(v),
{
    assert(v <= n * v) by (nonlinear_arith)
        requires
            n > 0,
    ;
    law_counters_are_rounded(v);
    let exact = choose|exact: u64| #[trigger]
        is_closest(exact, in_units(v), 1) && units(exact) == in_units(v);
    let s = pow2(1074);
    assert((v * s) * n == (n * v) * s) by (nonlinear_arith);
    if exact != bits {
        assert(units(exact) == units(exact));
        assert(distance((units(exact) * n) as int, in_units(n * v) as int) == 0);
        assert(distance((units(bits) * n) as int, in_units(n * v) as int) == 0);
        assert(units(bits) == units(exact)) by (nonlinear_arith)
            requires
                units(bits) * n == units(exact) * n,
                n > 0,
        ;
    }
}

// ---- comparison ---------------------------------------------------------

/// Whether a bit pattern is that of no number: all bits of the exponent are set, and some bit of the
/// fraction is.
pub open spec fn is_no_number(bits: u64) -> bool {
    bits as nat % 0x8000_0000_0000_0000 > 0x7FF0_0000_0000_0000
}

/// The number with the given bit pattern, in units. The highest bit is the sign.
pub open spec fn signed_units(bits: u64) -> int {
    if bits < 0x8000_0000_0000_0000 {
        units(bits) as int
    } else {
        -(units((bits - 0x8000_0000_0000_0000) as u64) as int)
    }
}

/// Binary64 numbers are compared as numbers, and what is no number is neither less nor greater.
pub proof fn law_less_compares_numbers(a: u64, b: u64)
    ensures
        binary64::less(a, b) <==> !is_no_number(a) && !is_no_number(b) && signed_units(a)
            < signed_units(b),
{
}

/// A share is below a threshold exactly if the binary64 number closest to it is less than the
/// threshold. No share is below what is no number.
pub proof fn law_shares_are_compared_as_numbers(
    part: nat,
    whole: nat,
    threshold: Binary64,
) -> (share: u64)
    requires
        part < 0x20_0000_0000_0000,
        0 < whole < 0x20_0000_0000_0000,
    ensures
        is_closest(share, in_units(part), whole),
        detector::share_below(part, whole, threshold) <==> !is_no_number(threshold.bits) && units(
            share,
        ) < signed_units(threshold.bits),
{
    let (_a, _b, share) = law_quotients_are_closest(part, whole);
    share
}

// ---- numerals -----------------------------------------------------------

/// The number that a sequence of decimal digits denotes.
pub open spec fn digits_value(s: Seq<char>) -> int
    decreases s.len(),
{
    if s.len() == 0 {
        0
    } else {
        10 * digits_value(s.drop_last()) + (s.last() as int - '0' as int)
    }
}

/// Whether a text is the decimal numeral of a number: digits without a leading zero.
pub open spec fn is_numeral(s: Seq<char>, n: nat) -> bool {
    &&& s.len() > 0
    &&& forall|i: int| 0 <= i < s.len() ==> '0' as int <= #[trigger] s[i] as int <= '9' as int
    &&& s.len() > 1 ==> s[0] != '0'
    &&& digits_value(s) == n
}

/// A numeral denotes its number.
pub proof fn law_numerals_denote(n: nat)
    ensures
        is_numeral(text::decimal(n), n),
    decreases n,
{
    let s = text::decimal(n);
    if n >= 10 {
        law_numerals_denote(n / 10);
        let t = text::decimal(n / 10);
        assert(s.drop_last() =~= t);
        assert forall|i: int| 0 <= i < s.len() implies '0' as int <= #[trigger] s[i] as int
            <= '9' as int by {
            if i < t.len() {
                assert(s[i] == t[i]);
            }
        }
        assert(s[0] == t[0]);
        if t.len() == 1 && t[0] == '0' {
            assert(t.last() == t[0]);
            assert(digits_value(t.drop_last()) == 0);
        }
    } else {
        assert(s.drop_last() =~= Seq::<char>::empty());
        assert(digits_value(s.drop_last()) == 0);
    }
}

/// Whether a text is the numeral of a number of tenths: the ones, a point, and one digit.
pub open spec fn is_tenths_numeral(s: Seq<char>, tenths: nat) -> bool {
    &&& s.len() >= 3
    &&& s[s.len() - 2] == '.'
    &&& is_numeral(s.take(s.len() - 2), tenths / 10)
    &&& is_numeral(s.skip(s.len() - 1), tenths % 10)
}

/// Whether this is zero, or a number with 53 bits that is neither too large nor too small.
spec fn is_normal(f: Dyadic) -> bool {
    ||| f == (Dyadic { mant: 0, exp: 0 })
    ||| 0x10_0000_0000_0000 <= f.mant < 0x20_0000_0000_0000 && -900 <= f.exp <= 900
}

/// Multiplying by a small integer and rounding gives the closest integer.
proof fn lemma_scaled_is_closest(f: Dyadic, c: nat)
    requires
        is_normal(f),
    ensures
        is_closest_integer(
            binary64::scaled(f, c),
            c * units(binary64::pattern(f) as u64),
            pow2(1074),
        ),
{
    let k = binary64::scaled(f, c);
    let m = f.mant;
    let s = pow2(1074);
    lemma_pow2_pos(1074);
    let bits = binary64::pattern(f) as u64;
    let x = c * units(bits);
    if m == 0 {
        lemma2_to64();
        assert(units(0) == 0);
        assert(m * c == 0 && m * c * 1 == 0 && c * 0 == 0) by (nonlinear_arith)
            requires
                m == 0,
        ;
        assert(k == 0);
        lemma_closest_integer(0, s);
        assert(binary64::nearest_even(0, s) == 0) by {
            vstd::arithmetic::div_mod::lemma_fundamental_div_mod(0, s as int);
            lemma_nearest_limit(0, s, 0);
        }
    } else {
        let same = lemma_units_at(f.exp, m);
        assert(bits == same);
        let p = pow2((f.exp + 1074) as nat);
        lemma_pow2_pos((f.exp + 1074) as nat);
        assert(c * (m * p) == (m * c) * p) by (nonlinear_arith);
        if f.exp >= 0 {
            lemma_pow2_adds(f.exp as nat, 1074);
            let e = pow2(f.exp as nat);
            assert((m * c) * (e * s) == (m * c * e) * s) by (nonlinear_arith);
            assert(x == k * s);
            lemma_multiple_is_closest(k, s);
        } else {
            let d = pow2((-f.exp) as nat);
            lemma_pow2_pos((-f.exp) as nat);
            lemma_pow2_adds((-f.exp) as nat, (f.exp + 1074) as nat);
            lemma_closest_integer(m * c, d);
            lemma_closest_expanded(k, m * c, d, p);
        }
    }
}

proof fn lemma_multiple_is_closest(k: nat, d: nat)
    requires
        d > 0,
    ensures
        is_closest_integer(k, k * d, d),
{
    assert forall|j: nat| j != k implies {
        let here = distance((k * d) as int, (k * d) as int);
        let there = distance(#[trigger] (j * d) as int, (k * d) as int);
        here < there || (here == there && k % 2 == 0)
    } by {
        if j < k {
            lemma_mul_strict_inequality(j as int, k as int, d as int);
        } else {
            lemma_mul_strict_inequality(k as int, j as int, d as int);
        }
    }
}

/// Which integer is closest does not depend on how the fraction is written.
proof fn lemma_closest_expanded(k: nat, x: nat, d: nat, p: nat)
    requires
        p > 0,
        is_closest_integer(k, x, d),
    ensures
        is_closest_integer(k, x * p, d * p),
{
    assert forall|j: nat| j != k implies {
        let here = distance((k * (d * p)) as int, (x * p) as int);
        let there = distance(#[trigger] (j * (d * p)) as int, (x * p) as int);
        here < there || (here == there && k % 2 == 0)
    } by {
        assert(j * d == j * d);
        lemma_expanded_distance(k, x, d, p);
        lemma_expanded_distance(j, x, d, p);
        lemma_order_scaled(
            distance((k * d) as int, x as int),
            distance((j * d) as int, x as int),
            p as int,
        );
    }
}

proof fn lemma_expanded_distance(j: nat, x: nat, d: nat, p: nat)
    requires
        p > 0,
    ensures
        distance((j * (d * p)) as int, (x * p) as int) == p * distance((j * d) as int, x as int),
{
    assert(j * (d * p) - x * p == p * (j * d - x)) by (nonlinear_arith);
    assert(p * (x - j * d) == -(p * (j * d - x))) by (nonlinear_arith);
    assert(j * d <= x ==> p * (j * d - x) <= 0) by (nonlinear_arith);
    assert(j * d >= x ==> p * (j * d - x) >= 0) by (nonlinear_arith);
}

/// A percentage is shown as the numeral of the integer closest to it.
pub proof fn law_percentages_are_shown(a: nat, b: nat) -> (parts: (u64, u64, nat))
    requires
        a <= u32::MAX,
        0 < b <= u32::MAX,
    ensures
        is_closest(parts.0, in_units(a), b),
        is_closest(parts.1, 100 * units(parts.0), 1),
        is_closest_integer(parts.2, units(parts.1), pow2(1074)),
        is_numeral(binary64::whole_text(binary64::percent(a, b)), parts.2),
{
    let (q, p) = law_percentages_are_closest(a, b);
    let g = binary64::quotient(a, b);
    let f = binary64::percent(a, b);
    let (_ra, _rb, _q) = law_quotients_are_closest(a, b);
    law_rounding_is_closest(a, b, 0);
    law_rounding_is_closest(100 * g.mant, 1, g.exp);
    lemma_scaled_is_closest(f, 1);
    assert(1 * units(p) == units(p));
    law_numerals_denote(binary64::scaled(f, 1));
    (q, p, binary64::scaled(f, 1))
}

proof fn lemma_tenths_shown(f: Dyadic)
    requires
        is_normal(f),
    ensures
        is_closest_integer(
            binary64::scaled(f, 10),
            10 * units(binary64::pattern(f) as u64),
            pow2(1074),
        ),
        is_tenths_numeral(binary64::tenths_text(f), binary64::scaled(f, 10)),
{
    let k = binary64::scaled(f, 10);
    lemma_scaled_is_closest(f, 10);
    law_numerals_denote(k / 10);
    law_numerals_denote(k % 10);
    reveal_strlit(".");
    let s = binary64::tenths_text(f);
    assert(text::decimal(k % 10).len() == 1);
    assert(s.take(s.len() - 2) =~= text::decimal(k / 10));
    assert(s.skip(s.len() - 1) =~= text::decimal(k % 10));
}

/// A quotient of counters is shown with one decimal, as the number of tenths closest to it.
pub proof fn law_quotients_are_shown(a: nat, b: nat) -> (parts: (nat, nat, u64, nat))
    requires
        a <= u64::MAX,
        0 < b <= u64::MAX,
    ensures
        is_rounded_integer(a, parts.0),
        is_rounded_integer(b, parts.1),
        is_closest(parts.2, in_units(parts.0), parts.1),
        is_closest_integer(parts.3, 10 * units(parts.2), pow2(1074)),
        is_tenths_numeral(binary64::tenths_text(binary64::quotient(a, b)), parts.3),
        a < 0x20_0000_0000_0000 ==> parts.0 == a,
        b < 0x20_0000_0000_0000 ==> parts.1 == b,
{
    let (ra, rb, q) = law_quotients_are_closest(a, b);
    lemma_counter_bound(a);
    lemma_counter_bound(b);
    law_rounding_is_closest(binary64::as_double(a), binary64::as_double(b), 0);
    lemma_tenths_shown(binary64::quotient(a, b));
    (ra, rb, q, binary64::scaled(binary64::quotient(a, b), 10))
}

/// An average is shown with one decimal, as the number of tenths closest to it.
pub proof fn law_averages_are_shown(xs: Seq<u64>) -> (tenths: nat)
    requires
        xs.len() <= u64::MAX,
    ensures
        is_closest_integer(
            tenths,
            10 * units(binary64::pattern(binary64::mean(xs)) as u64),
            pow2(1074),
        ),
        is_tenths_numeral(binary64::tenths_text(binary64::mean(xs)), tenths),
{
    if xs.len() > 0 {
        let sums = lemma_running_sums(xs);
        lemma_counter_bound(xs.len());
        law_rounding_is_closest(binary64::double_sum(xs), binary64::as_double(xs.len()), 0);
    }
    lemma_tenths_shown(binary64::mean(xs));
    binary64::scaled(binary64::mean(xs), 10)
}

/// Without requests both averages are zero.
pub proof fn law_averages_of_nothing()
    ensures
        binary64::pattern(binary64::mean(profiler::wall_times(Seq::empty()))) == 0,
        binary64::pattern(binary64::mean(profiler::fetch_counts(Seq::empty()))) == 0,
{
    lemma_exact_sums(Seq::empty());
}

} // verus!
