//! IEEE 754 binary64 arithmetic, carried out on integers.
//!
//! Averages and percentages are binary64 numbers: every operation rounds its exact result to 53
//! significant bits, to the nearest number and, halfway between two, to the one with the even
//! significand. The numbers that occur here are quotients and sums of counters, so they are never
//! negative, and their exponents stay far inside the range of normal numbers.

use vstd::arithmetic::mul::*;
use vstd::arithmetic::power2::*;
use vstd::prelude::*;

use crate::text::{self, push_decimal};

verus! {

/// The least significand of a normal number.
pub const MIN_MANT: u64 = 0x10_0000_0000_0000;

/// The bit pattern of positive infinity.
pub const INFINITY_BITS: u64 = 0x7FF0_0000_0000_0000;

/// The bit pattern of negative zero: the sign bit alone.
pub const SIGN_BIT: u64 = 0x8000_0000_0000_0000;

/// The number `mant * 2^exp`.
pub struct Dyadic {
    pub mant: nat,
    pub exp: int,
}

/// The integer nearest to `n / d`, and the even one of two that are equally near.
pub open spec fn nearest_even(n: nat, d: nat) -> nat
    recommends
        d > 0,
{
    let q = n / d;
    let r = n % d;
    if 2 * r > d || (2 * r == d && q % 2 == 1) {
        q + 1
    } else {
        q
    }
}

/// `n` rounded to a multiple of `unit`, or of the least `unit * 2^j` for which the multiple has at
/// most 53 bits.
pub open spec fn to_multiple(n: nat, unit: nat) -> nat
    decreases n - unit,
{
    if unit == 0 {
        0
    } else if n < 0x20_0000_0000_0000 * unit {
        nearest_even(n, unit) * unit
    } else {
        to_multiple(n, 2 * unit)
    }
}

/// The binary64 number nearest to the integer `n`, which is an integer again.
pub open spec fn as_double(n: nat) -> nat {
    to_multiple(n, 1)
}

/// The binary64 number nearest to `(n / d) * 2^k`: the quotient is scaled by powers of two until
/// its integer part has 53 bits, and then rounded to an integer.
pub open spec fn round(n: nat, d: nat, k: int) -> Dyadic
    recommends
        d > 0,
    decreases
            if n < 0x10_0000_0000_0000 * d {
                0x10_0000_0000_0000 * d - n
            } else if n >= 0x20_0000_0000_0000 * d {
                n - d
            } else {
                0
            },
{
    if n == 0 || d == 0 {
        Dyadic { mant: 0, exp: 0 }
    } else if n < 0x10_0000_0000_0000 * d {
        round(2 * n, d, k - 1)
    } else if n >= 0x20_0000_0000_0000 * d {
        round(n, 2 * d, k + 1)
    } else if nearest_even(n, d) == 0x20_0000_0000_0000 {
        Dyadic { mant: 0x10_0000_0000_0000, exp: k + 1 }
    } else {
        Dyadic { mant: nearest_even(n, d), exp: k }
    }
}

/// The quotient of two counters, each taken as a binary64 number first.
pub open spec fn quotient(a: nat, b: nat) -> Dyadic {
    round(as_double(a), as_double(b), 0)
}

/// The quotient of two counters in percent.
pub open spec fn percent(a: nat, b: nat) -> Dyadic {
    let q = quotient(a, b);
    round(100 * q.mant, 1, q.exp)
}

/// The sum of counters, added up from the first to the last and rounded at each step.
pub open spec fn double_sum(xs: Seq<u64>) -> nat
    decreases xs.len(),
{
    if xs.len() == 0 {
        0
    } else {
        as_double(double_sum(xs.drop_last()) + as_double(xs.last() as nat))
    }
}

/// The average of counters, and zero where there are none.
pub open spec fn mean(xs: Seq<u64>) -> Dyadic {
    if xs.len() == 0 {
        Dyadic { mant: 0, exp: 0 }
    } else {
        round(double_sum(xs), as_double(xs.len()), 0)
    }
}

/// `f * c` rounded to the nearest integer, and to the even one of two that are equally near.
pub open spec fn scaled(f: Dyadic, c: nat) -> nat {
    if f.exp >= 0 {
        f.mant * c * pow2(f.exp as nat)
    } else {
        nearest_even(f.mant * c, pow2((-f.exp) as nat))
    }
}

/// The numeral of `f` without decimals.
pub open spec fn whole_text(f: Dyadic) -> Seq<char> {
    text::decimal(scaled(f, 1))
}

/// The numeral of `f` with one decimal.
pub open spec fn tenths_text(f: Dyadic) -> Seq<char> {
    text::decimal(scaled(f, 10) / 10) + "."@ + text::decimal(scaled(f, 10) % 10)
}

/// The bit pattern of `f`, which is zero or has a significand of 53 bits.
pub open spec fn pattern(f: Dyadic) -> int {
    if f.mant == 0 {
        0
    } else {
        (f.exp + 1075) * 0x10_0000_0000_0000 + (f.mant - 0x10_0000_0000_0000)
    }
}

/// Whether a bit pattern is that of a NaN.
pub open spec fn is_nan(bits: u64) -> bool {
    bits % SIGN_BIT > INFINITY_BITS
}

/// The number with the bit pattern `m`, whose sign bit is clear, as a multiple of the least
/// positive number. Infinity counts as the multiple that follows the greatest finite one.
pub open spec fn magnitude(m: nat) -> nat {
    let field = m / 0x10_0000_0000_0000;
    let fraction = m % 0x10_0000_0000_0000;
    if field == 0 {
        fraction
    } else {
        (0x10_0000_0000_0000 + fraction) * pow2((field - 1) as nat)
    }
}

/// The number with the bit pattern `bits`, as a multiple of the least positive number.
pub open spec fn signed_magnitude(bits: u64) -> int {
    if bits < SIGN_BIT {
        magnitude(bits as nat) as int
    } else {
        -(magnitude((bits - SIGN_BIT) as nat) as int)
    }
}

/// Whether the number with the bit pattern `a` is less than the one with the bit pattern `b`. A
/// NaN is neither less nor greater than any number.
pub open spec fn less(a: u64, b: u64) -> bool {
    &&& !is_nan(a)
    &&& !is_nan(b)
    &&& signed_magnitude(a) < signed_magnitude(b)
}

/// A binary64 number, held as its bit pattern.
#[derive(Debug, Clone, Copy)]
pub struct Binary64 {
    pub bits: u64,
}

impl Binary64 {
    /// Whether this number is less than `other`.
    pub fn is_less(self, other: Binary64) -> (result: bool)
        ensures
            result == less(self.bits, other.bits),
    {
        let a: u64 = self.bits % SIGN_BIT;
        let b: u64 = other.bits % SIGN_BIT;
        if a > INFINITY_BITS || b > INFINITY_BITS {
            return false;
        }
        proof {
            lemma_magnitude_order(a as nat, b as nat);
            lemma_magnitude_order(b as nat, a as nat);
            lemma_magnitude_order(0, a as nat);
            lemma_magnitude_order(0, b as nat);
        }
        if self.bits < SIGN_BIT {
            other.bits < SIGN_BIT && a < b
        } else if other.bits < SIGN_BIT {
            a != 0 || b != 0
        } else {
            b < a
        }
    }
}

/// A number that is zero or has a significand of 53 bits.
#[derive(Debug, Clone, Copy)]
pub struct Rounded {
    pub mant: u64,
    pub exp: i32,
}

impl View for Rounded {
    type V = Dyadic;

    open spec fn view(&self) -> Dyadic {
        Dyadic { mant: self.mant as nat, exp: self.exp as int }
    }
}

/// Among bit patterns with a clear sign bit, the greater pattern is the greater number.
pub proof fn lemma_magnitude_order(a: nat, b: nat)
    ensures
        magnitude(0) == 0,
        a < b ==> magnitude(a) < magnitude(b),
{
    let unit: int = 0x10_0000_0000_0000;
    if a < b {
        let (fa, ra) = (a as int / unit, a as int % unit);
        let (fb, rb) = (b as int / unit, b as int % unit);
        if fa == fb {
            if fa > 0 {
                let p = pow2((fa - 1) as nat) as int;
                lemma_pow2_pos((fa - 1) as nat);
                lemma_mul_strict_inequality(unit + ra, unit + rb, p);
            }
        } else {
            let p = pow2((fb - 1) as nat) as int;
            lemma_pow2_pos((fb - 1) as nat);
            lemma_mul_inequality(unit, unit + rb, p);
            if fa > 0 {
                let s = pow2((fa - 1) as nat) as int;
                lemma_pow2_pos((fa - 1) as nat);
                lemma_mul_strict_inequality(unit + ra, 2 * unit, s);
                lemma_pow2_unfold(fa as nat);
                if fa < fb - 1 {
                    lemma_pow2_strictly_increases(fa as nat, (fb - 1) as nat);
                }
            }
        }
    }
}

/// The powers of two that bound the numbers of this module.
proof fn lemma_powers()
    ensures
        pow2(11) == 0x800,
        pow2(12) == 0x1000,
        pow2(52) == MIN_MANT,
        pow2(53) == 2 * MIN_MANT,
        pow2(64) == 0x1_0000_0000_0000_0000,
        pow2(65) == 0x2_0000_0000_0000_0000,
        pow2(66) == 0x4_0000_0000_0000_0000,
        pow2(118) == 0x40_0000_0000_0000_0000_0000_0000_0000,
{
    lemma2_to64();
    lemma2_to64_rest();
    lemma_pow2_unfold(65);
    lemma_pow2_unfold(66);
    lemma_pow2_adds(52, 66);
}

/// An exponent is below `t` where its power of two is below that of `t`.
proof fn lemma_exponent_below(s: nat, t: nat)
    requires
        pow2(s) < pow2(t),
    ensures
        s < t,
{
    if t < s {
        lemma_pow2_strictly_increases(t, s);
    }
}

/// A quotient less than halfway beyond the integer `c` rounds to at most `c`.
proof fn lemma_nearest_at_most(n: nat, d: nat, c: nat)
    requires
        d > 0,
        2 * n < (2 * c + 1) * d || n <= c * d,
    ensures
        nearest_even(n, d) <= c,
{
    let q = n / d;
    let r = n % d;
    vstd::arithmetic::div_mod::lemma_fundamental_div_mod(n as int, d as int);
    if q > c {
        assert(d * q >= (c + 1) * d) by (nonlinear_arith)
            requires
                q >= c + 1,
                d > 0,
        ;
        assert((c + 1) * d == c * d + d && (2 * c + 1) * d == 2 * (c * d) + d) by (nonlinear_arith);
    } else if q == c {
        assert(d * q == c * d && (2 * c + 1) * d == 2 * (c * d) + d) by (nonlinear_arith)
            requires
                q == c,
        ;
    }
}

/// Divides with rounding.
fn nearest(n: u128, d: u128) -> (q: u128)
    requires
        0 < d < 0x4000_0000_0000_0000_0000_0000_0000_0000,
        n < 0x4000_0000_0000_0000_0000_0000_0000_0000,
    ensures
        q == nearest_even(n as nat, d as nat),
{
    let q: u128 = n / d;
    let r: u128 = n % d;
    proof {
        assert(n / d <= n) by (nonlinear_arith)
            requires
                d > 0,
        ;
    }
    if 2 * r > d || (2 * r == d && q % 2 == 1) {
        q + 1
    } else {
        q
    }
}

/// A quotient of at least the integer `c` rounds to at least `c`.
proof fn lemma_nearest_at_least(n: nat, d: nat, c: nat)
    requires
        d > 0,
        c * d <= n,
    ensures
        nearest_even(n, d) >= c,
{
    let q = n / d;
    vstd::arithmetic::div_mod::lemma_fundamental_div_mod(n as int, d as int);
    if q < c {
        assert(d * q + d <= c * d) by (nonlinear_arith)
            requires
                q + 1 <= c,
                d > 0,
        ;
    }
}

/// Rounds an integer to a binary64 number. A number up to a power of two stays up to it, and a
/// sum that has reached `2^118` stays there when a counter is added.
fn round_integer(n: u128) -> (r: u128)
    requires
        n <= 0x40_0000_0000_0001_0000_0000_0000_0000,
    ensures
        r == as_double(n as nat),
        r <= 0x40_0000_0000_0000_0000_0000_0000_0000,
        n <= 0x1_0000_0000_0000_0000 ==> r <= 0x1_0000_0000_0000_0000,
        n > 0 ==> r > 0,
{
    let mut unit: u128 = 1;
    let ghost mut j: nat = 0;
    proof {
        lemma2_to64();
    }
    while n >= 0x20_0000_0000_0000 * unit
        invariant
            n <= 0x40_0000_0000_0001_0000_0000_0000_0000,
            unit == pow2(j),
            1 <= unit <= 0x4_0000_0000_0000_0000,
            unit <= 0x2_0000_0000_0000_0000 || unit == 0x4_0000_0000_0000_0000,
            unit <= 0x800 || unit >= 0x1000,
            unit == 1 || n >= 0x10_0000_0000_0000 * unit,
            to_multiple(n as nat, unit as nat) == as_double(n as nat),
        decreases n - unit,
    {
        proof {
            lemma_powers();
            lemma_exponent_below(j, 66);
            if j < 65 {
                lemma_pow2_strictly_increases(j, 65);
            }
            lemma_pow2_unfold(j + 1);
            if j + 1 < 12 {
                if j + 1 < 11 {
                    lemma_pow2_strictly_increases(j + 1, 11);
                }
            } else if j + 1 > 12 {
                lemma_pow2_strictly_increases(12, j + 1);
            }
            if j + 1 < 65 {
                lemma_pow2_strictly_increases(j + 1, 65);
            }
            j = j + 1;
        }
        unit = 2 * unit;
    }
    let q: u128 = nearest(n, unit);
    proof {
        let low: nat = 0x10_0000_0000_0000;
        lemma_nearest_at_most(n as nat, unit as nat, 2 * low);
        if unit == 0x4_0000_0000_0000_0000 {
            lemma_nearest_at_most(n as nat, unit as nat, low);
        } else {
            lemma_mul_upper_bound(q as int, 0x20_0000_0000_0000, unit as int, 0x2_0000_0000_0000_0000);
        }
        if n <= 0x1_0000_0000_0000_0000 {
            if unit >= 0x1000 {
                lemma_nearest_at_most(n as nat, unit as nat, low);
            } else {
                lemma_mul_upper_bound(q as int, 0x20_0000_0000_0000, unit as int, 0x800);
            }
        }
        if n > 0 {
            if unit == 1 {
                lemma_nearest_at_least(n as nat, 1, 1);
            } else {
                lemma_nearest_at_least(n as nat, unit as nat, low);
            }
            lemma_mul_strictly_positive(q as int, unit as int);
        }
    }
    q * unit
}

/// Rounds `(n / d) * 2^k` to a binary64 number.
fn round_ratio(n: u128, d: u128, k: i32) -> (r: Rounded)
    requires
        n <= 0x40_0000_0000_0000_0000_0000_0000_0000,
        0 < d <= 0x1_0000_0000_0000_0000,
        -500 <= k <= 500,
    ensures
        r@ == round(n as nat, d as nat, k as int),
        r.mant == 0 || 0x10_0000_0000_0000 <= r.mant < 0x20_0000_0000_0000,
        r.mant == 0 ==> r.exp == 0,
        -650 <= r.exp <= 650,
        r.mant != 0 ==> k - 120 <= r.exp <= k + 67,
        r.mant != 0 && n < 0x20_0000_0000_0000 * d ==> r.exp <= k + 1,
        r.mant != 0 && n < 0x1_0000_0000_0000_0000 * d ==> r.exp <= k + 12,
{
    if n == 0 {
        return Rounded { mant: 0, exp: 0 };
    }
    let mut num: u128 = n;
    let mut den: u128 = d;
    let mut exp: i32 = k;
    proof {
        lemma2_to64();
    }
    while num < 0x10_0000_0000_0000 * den
        invariant
            0 < num <= 0x40_0000_0000_0000_0000_0000_0000_0000,
            den == d,
            0 < d <= 0x1_0000_0000_0000_0000,
            -500 <= k <= 500,
            exp <= k,
            pow2((k - exp) as nat) <= num,
            exp == k ==> num == n,
            exp < k ==> num < 0x20_0000_0000_0000 * den,
            k - exp < 119,
            round(num as nat, den as nat, exp as int) == round(n as nat, d as nat, k as int),
        decreases 0x20_0000_0000_0000 * den - num,
    {
        proof {
            lemma_powers();
            lemma_exponent_below((k - exp) as nat, 118);
            lemma_pow2_unfold((k - exp + 1) as nat);
        }
        num = 2 * num;
        exp = exp - 1;
    }
    let ghost scaled_up = exp < k;
    while num >= 0x20_0000_0000_0000 * den
        invariant
            0 < num <= 0x40_0000_0000_0000_0000_0000_0000_0000,
            num >= 0x10_0000_0000_0000 * den,
            0 < d <= den <= 0x4_0000_0000_0000_0000,
            -500 <= k <= 500,
            k - 119 < exp <= k + 66,
            scaled_up ==> num < 0x20_0000_0000_0000 * den && exp < k,
            !scaled_up ==> num == n && exp >= k && den == d * pow2((exp - k) as nat),
            round(num as nat, den as nat, exp as int) == round(n as nat, d as nat, k as int),
        decreases num - den,
    {
        proof {
            let t = (exp - k) as nat;
            lemma_powers();
            lemma_pow2_pos(t);
            lemma_mul_inequality(1, d as int, pow2(t) as int);
            lemma_exponent_below(t, 66);
            lemma_pow2_unfold(t + 1);
            lemma_mul_is_associative(d as int, 2, pow2(t) as int);
            lemma_mul_is_commutative(d as int, 2);
            lemma_mul_is_associative(2, d as int, pow2(t) as int);
        }
        den = 2 * den;
        exp = exp + 1;
    }
    let q: u128 = nearest(num, den);
    proof {
        lemma_nearest_at_least(num as nat, den as nat, 0x10_0000_0000_0000);
        lemma_nearest_at_most(num as nat, den as nat, 0x20_0000_0000_0000);
        if !scaled_up {
            let t = (exp - k) as nat;
            lemma_powers();
            lemma_mul_is_commutative(d as int, pow2(t) as int);
            if n < 0x1_0000_0000_0000_0000 * d {
                // 2^52 * 2^t * d <= n < 2^64 * d
                if t >= 12 {
                    if t > 12 {
                        lemma_pow2_strictly_increases(12, t);
                    }
                    lemma_mul_inequality(0x1000, pow2(t) as int, d as int);
                }
            }
            if n < 0x20_0000_0000_0000 * d {
                if t >= 1 {
                    lemma2_to64();
                    if t > 1 {
                        lemma_pow2_strictly_increases(1, t);
                    }
                    lemma_mul_inequality(2, pow2(t) as int, d as int);
                }
            }
        }
    }
    if q == 0x20_0000_0000_0000 {
        Rounded { mant: MIN_MANT, exp: exp + 1 }
    } else {
        Rounded { mant: q as u64, exp }
    }
}

/// An integer of at most 53 bits is a binary64 number.
pub proof fn lemma_as_double_exact(n: nat)
    requires
        n < 0x20_0000_0000_0000,
    ensures
        as_double(n) == n,
{
    assert(to_multiple(n, 1) == nearest_even(n, 1));
}

impl Rounded {
    /// Whether this is zero or a number with a significand of 53 bits that is neither too large to
    /// be printed nor too small to have a bit pattern of its own.
    pub open spec fn in_range(self) -> bool {
        &&& self.mant == 0 || 0x10_0000_0000_0000 <= self.mant < 0x20_0000_0000_0000
        &&& -650 <= self.exp <= 70
    }

    /// This number as a bit pattern.
    pub fn to_binary64(self) -> (r: Binary64)
        requires
            self.in_range(),
        ensures
            r.bits == pattern(self@),
    {
        if self.mant == 0 {
            Binary64 { bits: 0 }
        } else {
            let field: u64 = (self.exp + 1075) as u64;
            Binary64 { bits: field * MIN_MANT + (self.mant - MIN_MANT) }
        }
    }

    /// Multiplies by a small integer and rounds to an integer.
    fn times(self, c: u64) -> (r: u128)
        requires
            self.in_range(),
            c <= 10,
        ensures
            r == scaled(self@, c as nat),
    {
        proof {
            lemma_mul_upper_bound(self.mant as int, 0x20_0000_0000_0000, c as int, 10);
        }
        let n: u128 = self.mant as u128 * c as u128;
        if self.exp >= 0 {
            let p: u128 = power(self.exp as u32);
            proof {
                lemma_mul_upper_bound(n as int, 0x140_0000_0000_0000, p as int, 0x40_0000_0000_0000_0000);
            }
            n * p
        } else {
            let shift: u32 = (-self.exp) as u32;
            if shift >= 60 {
                proof {
                    let d = pow2(shift as nat);
                    lemma2_to64_rest();
                    if shift > 60 {
                        lemma_pow2_strictly_increases(60, shift as nat);
                    }
                    assert((2 * 0 + 1) * d == d) by (nonlinear_arith);
                    lemma_nearest_at_most(n as nat, d, 0);
                }
                0
            } else {
                nearest(n, power(shift))
            }
        }
    }

    /// Appends this number without decimals.
    pub fn push_whole(self, out: &mut String)
        requires
            self.in_range(),
        ensures
            final(out)@ == old(out)@ + whole_text(self@),
    {
        push_decimal(out, self.times(1));
    }

    /// Appends this number with one decimal.
    pub fn push_tenths(self, out: &mut String)
        requires
            self.in_range(),
        ensures
            final(out)@ == old(out)@ + tenths_text(self@),
    {
        let tenths: u128 = self.times(10);
        push_decimal(out, tenths / 10);
        out.append(".");
        push_decimal(out, tenths % 10);
    }
}

/// A power of two.
fn power(e: u32) -> (p: u128)
    requires
        e <= 70,
    ensures
        p == pow2(e as nat),
        0 < p <= 0x40_0000_0000_0000_0000,
{
    let mut p: u128 = 1;
    let mut i: u32 = 0;
    proof {
        lemma2_to64();
    }
    while i < e
        invariant
            i <= e <= 70,
            p == pow2(i as nat),
            0 < p <= 0x40_0000_0000_0000_0000,
        decreases e - i,
    {
        proof {
            lemma_powers();
            lemma_pow2_adds(4, 66);
            lemma2_to64();
            lemma_pow2_unfold((i + 1) as nat);
            if i + 1 < 70 {
                lemma_pow2_strictly_increases((i + 1) as nat, 70);
            }
        }
        p = 2 * p;
        i += 1;
    }
    p
}

/// Divides one counter by another.
pub fn divide(a: u64, b: u64) -> (r: Rounded)
    requires
        b > 0,
    ensures
        r@ == quotient(a as nat, b as nat),
        r.in_range(),
        a <= u32::MAX ==> -120 <= r.exp <= 1,
{
    let n: u128 = round_integer(a as u128);
    let d: u128 = round_integer(b as u128);
    proof {
        if a <= u32::MAX {
            lemma_as_double_exact(a as nat);
        }
    }
    round_ratio(n, d, 0)
}

/// Divides one counter by another, in percent.
pub fn divide_percent(a: u32, b: u32) -> (r: Rounded)
    requires
        b > 0,
    ensures
        r@ == percent(a as nat, b as nat),
        r.in_range(),
{
    let q = divide(a as u64, b as u64);
    round_ratio(100 * q.mant as u128, 1, q.exp)
}

/// Averages counters.
pub fn average(xs: &Vec<u64>) -> (r: Rounded)
    ensures
        r@ == mean(xs@),
        r.in_range(),
{
    if xs.len() == 0 {
        return Rounded { mant: 0, exp: 0 };
    }
    let mut sum: u128 = 0;
    let mut i: usize = 0;
    while i < xs.len()
        invariant
            i <= xs.len(),
            sum == double_sum(xs@.take(i as int)),
            sum <= 0x40_0000_0000_0000_0000_0000_0000_0000,
        decreases xs.len() - i,
    {
        let x: u128 = round_integer(xs[i] as u128);
        sum = round_integer(sum + x);
        i += 1;
        proof {
            let upto = xs@.take(i as int);
            assert(upto.drop_last() =~= xs@.take(i - 1));
        }
    }
    proof {
        assert(xs@.take(xs.len() as int) =~= xs@);
    }
    round_ratio(sum, round_integer(xs.len() as u128), 0)
}

// ---- what rounding does to fractions ------------------------------------

/// Scaling a quotient of at most one up by `2^t`, until its integer part has 53 bits, and rounding
/// it then gives its binary64 number.
pub proof fn lemma_round_scaled(n: nat, d: nat, k: int, t: nat)
    requires
        0 < d,
        0x10_0000_0000_0000 * d <= n * pow2(t) < 0x20_0000_0000_0000 * d,
    ensures
        ({
            let m = nearest_even(n * pow2(t), d);
            &&& 0x10_0000_0000_0000 <= m <= 0x20_0000_0000_0000
            &&& pattern(round(n, d, k)) == (k - t + 1074) * 0x10_0000_0000_0000 + m
            &&& round(n, d, k).mant > 0
        }),
    decreases t,
{
    lemma2_to64();
    lemma_nearest_at_least(n * pow2(t), d, 0x10_0000_0000_0000);
    lemma_nearest_at_most(n * pow2(t), d, 0x20_0000_0000_0000);
    if t > 0 {
        lemma_pow2_unfold(t);
        lemma_pow2_pos((t - 1) as nat);
        let p = pow2((t - 1) as nat);
        assert(n * pow2(t) == (2 * n) * p && n * pow2(t) == 2 * (n * p)) by (nonlinear_arith)
            requires
                pow2(t) == 2 * p,
        ;
        assert(n <= n * p) by (nonlinear_arith)
            requires
                p > 0,
        ;
        lemma_round_scaled(2 * n, d, k - 1, (t - 1) as nat);
    } else {
        assert(n * pow2(t) == n) by (nonlinear_arith)
            requires
                pow2(t) == 1,
        ;
    }
}

/// A positive quotient of at most one is scaled into the range of 53-bit integers by some power of
/// two, which is at least `2^52`.
proof fn lemma_scale_exists(n: nat, d: nat) -> (t: nat)
    requires
        0 < n <= d,
    ensures
        0x10_0000_0000_0000 * d <= n * pow2(t) < 0x20_0000_0000_0000 * d,
        pow2(t) >= 0x10_0000_0000_0000,
    decreases d - n,
{
    if 2 * n <= d {
        let s = lemma_scale_exists(2 * n, d);
        lemma_pow2_unfold(s + 1);
        assert(n * pow2(s + 1) == (2 * n) * pow2(s)) by (nonlinear_arith)
            requires
                pow2(s + 1) == 2 * pow2(s),
        ;
        s + 1
    } else if n == d {
        lemma_powers();
        assert(n * pow2(52) == 0x10_0000_0000_0000 * n) by (nonlinear_arith)
            requires
                pow2(52) == 0x10_0000_0000_0000,
        ;
        52
    } else {
        lemma_powers();
        assert(n * pow2(53) == 0x20_0000_0000_0000 * n) by (nonlinear_arith)
            requires
                pow2(53) == 0x20_0000_0000_0000,
        ;
        53
    }
}

/// What `nearest_even` says in terms of halves: `m` is at most half a unit away.
proof fn lemma_nearest_halves(n: nat, d: nat)
    requires
        d > 0,
    ensures
        2 * n <= (2 * nearest_even(n, d) + 1) * d,
        (2 * nearest_even(n, d) - 1) * d <= 2 * n,
{
    let q = (n / d) as int;
    let r = (n % d) as int;
    vstd::arithmetic::div_mod::lemma_fundamental_div_mod(n as int, d as int);
    lemma_mul_is_commutative(d as int, q);
    assert((2 * q + 1) * d == 2 * (q * d) + d) by (nonlinear_arith);
    assert((2 * q - 1) * d == 2 * (q * d) - d) by (nonlinear_arith);
    assert((2 * (q + 1) + 1) * d == 2 * (q * d) + 3 * d) by (nonlinear_arith);
    assert((2 * (q + 1) - 1) * d == 2 * (q * d) + d) by (nonlinear_arith);
}

/// Rounding a fraction does not depend on how the fraction is written.
proof fn lemma_nearest_expand(n: nat, d: nat, c: nat)
    requires
        d > 0,
        c > 0,
    ensures
        nearest_even(n * c, d * c) == nearest_even(n, d),
{
    let q = (n / d) as int;
    let r = (n % d) as int;
    vstd::arithmetic::div_mod::lemma_fundamental_div_mod(n as int, d as int);
    assert(n * c == q * (d * c) + r * c) by (nonlinear_arith)
        requires
            n == d * q + r,
    ;
    assert(0 <= r * c < d * c) by (nonlinear_arith)
        requires
            0 <= r < d,
            c > 0,
    ;
    vstd::arithmetic::div_mod::lemma_fundamental_div_mod_converse(
        (n * c) as int,
        (d * c) as int,
        q,
        r * c,
    );
    assert(2 * (r * c) > d * c <==> 2 * r > d) by (nonlinear_arith)
        requires
            c > 0,
    ;
    assert(2 * (r * c) == d * c <==> 2 * r == d) by (nonlinear_arith)
        requires
            c > 0,
    ;
}

/// Of two fractions up to one that are not greater than one another, the smaller one needs at least
/// the scaling that the greater one needs.
proof fn lemma_scale_order(a: nat, b: nat, ta: nat, c: nat, d: nat, tc: nat)
    requires
        0 < b,
        0 < d,
        a * d <= c * b,
        0x10_0000_0000_0000 * b <= a * pow2(ta),
        c * pow2(tc) < 0x20_0000_0000_0000 * d,
    ensures
        tc <= ta,
{
    if ta < tc {
        let p = pow2(ta);
        lemma_pow2_unfold(tc);
        lemma_pow2_pos(ta);
        if ta < tc - 1 {
            lemma_pow2_strictly_increases(ta, (tc - 1) as nat);
        }
        let q = pow2((tc - 1) as nat);
        assert(c * q * 2 < 0x20_0000_0000_0000 * d) by (nonlinear_arith)
            requires
                c * pow2(tc) < 0x20_0000_0000_0000 * d,
                pow2(tc) == 2 * q,
        ;
        assert(c * p <= c * q) by (nonlinear_arith)
            requires
                p <= q,
        ;
        assert((c * p) * b < (0x10_0000_0000_0000 * d) * b) by (nonlinear_arith)
            requires
                c * p < 0x10_0000_0000_0000 * d,
                0 < b,
        ;
        assert((0x10_0000_0000_0000 * b) * d <= (a * p) * d) by (nonlinear_arith)
            requires
                0x10_0000_0000_0000 * b <= a * p,
        ;
        assert((a * d) * p <= (c * b) * p) by (nonlinear_arith)
            requires
                a * d <= c * b,
        ;
        assert((a * p) * d == (a * d) * p && (c * p) * b == (c * b) * p && (0x10_0000_0000_0000 * b)
            * d == (0x10_0000_0000_0000 * d) * b) by (nonlinear_arith);
    }
}

/// Two fractions up to one whose denominators have a product below `2^52` are too far apart to be
/// rounded to the same number, so rounding keeps their order.
pub proof fn law_rounding_keeps_order(a: nat, b: nat, c: nat, d: nat)
    requires
        0 < a <= b,
        0 < c <= d,
        b * d < 0x10_0000_0000_0000,
    ensures
        pattern(round(a, b, 0)) < pattern(round(c, d, 0)) <==> a * d < c * b,
        pattern(round(a, b, 0)) == pattern(round(c, d, 0)) <==> a * d == c * b,
{
    if a * d < c * b {
        lemma_rounding_below(a, b, c, d);
    } else if c * b < a * d {
        lemma_mul_is_commutative(b as int, d as int);
        lemma_rounding_below(c, d, a, b);
    } else {
        let ta = lemma_scale_exists(a, b);
        let tc = lemma_scale_exists(c, d);
        lemma_scale_order(a, b, ta, c, d, tc);
        lemma_scale_order(c, d, tc, a, b, ta);
        lemma_round_scaled(a, b, 0, ta);
        lemma_round_scaled(c, d, 0, tc);
        let p = pow2(ta);
        lemma_nearest_expand(a * p, b, d);
        lemma_nearest_expand(c * p, d, b);
        assert((a * p) * d == (c * p) * b) by (nonlinear_arith)
            requires
                a * d == c * b,
        ;
        lemma_mul_is_commutative(b as int, d as int);
    }
}

proof fn lemma_rounding_below(a: nat, b: nat, c: nat, d: nat)
    requires
        0 < a <= b,
        0 < c <= d,
        b * d < 0x10_0000_0000_0000,
        a * d < c * b,
    ensures
        pattern(round(a, b, 0)) < pattern(round(c, d, 0)),
{
    let ta = lemma_scale_exists(a, b);
    let tc = lemma_scale_exists(c, d);
    lemma_scale_order(a, b, ta, c, d, tc);
    lemma_round_scaled(a, b, 0, ta);
    lemma_round_scaled(c, d, 0, tc);
    lemma_nearest_halves(a * pow2(ta), b);
    lemma_nearest_halves(c * pow2(tc), d);
    let ma = nearest_even(a * pow2(ta), b) as int;
    let mc = nearest_even(c * pow2(tc), d) as int;
    let p = pow2(tc) as int;
    if ta == tc {
        if mc <= ma {
            // 2^t / (b * d) <= 2^t * (c / d - a / b) <= 1
            assert(2 * p * (c * b - a * d) <= 2 * (b * d)) by (nonlinear_arith)
                requires
                    2 * (c * p) <= (2 * mc + 1) * d,
                    (2 * ma - 1) * b <= 2 * (a * p),
                    mc <= ma,
                    b > 0,
                    d > 0,
            ;
            assert(p <= p * (c * b - a * d)) by (nonlinear_arith)
                requires
                    p > 0,
                    c * b - a * d >= 1,
            ;
            assert(2 * p * (c * b - a * d) == 2 * (p * (c * b - a * d))) by (nonlinear_arith);
        }
    } else if ta == tc + 1 {
        lemma_pow2_unfold(ta);
        if ma == 0x20_0000_0000_0000 && mc == 0x10_0000_0000_0000 {
            assert(4 * p * (c * b - a * d) <= 3 * (b * d)) by (nonlinear_arith)
                requires
                    2 * (c * p) <= (2 * mc + 1) * d,
                    (2 * ma - 1) * b <= 2 * (a * (2 * p)),
                    ma == 0x20_0000_0000_0000,
                    mc == 0x10_0000_0000_0000,
                    b > 0,
                    d > 0,
            ;
            assert(p <= p * (c * b - a * d)) by (nonlinear_arith)
                requires
                    p > 0,
                    c * b - a * d >= 1,
            ;
            assert(4 * p * (c * b - a * d) == 4 * (p * (c * b - a * d))) by (nonlinear_arith);
        }
    }
}

/// Whether `f` is at most half a unit of its last place away from `(n / d) * 2^k`.
pub open spec fn is_near(n: nat, d: nat, k: int, f: Dyadic) -> bool {
    let up = if f.exp >= k {
        pow2((f.exp - k) as nat)
    } else {
        1
    };
    let down = if f.exp < k {
        pow2((k - f.exp) as nat)
    } else {
        1
    };
    -(up * d) <= 2 * (n * down - f.mant * up * d) <= up * d
}

/// The rounded number has a significand of 53 bits, and no number with such a significand and the
/// same exponent is nearer to the exact one.
pub proof fn law_round_is_nearest(n: nat, d: nat, k: int)
    requires
        n > 0,
        d > 0,
    ensures
        0x10_0000_0000_0000 <= round(n, d, k).mant < 0x20_0000_0000_0000,
        is_near(n, d, k, round(n, d, k)),
    decreases
            if n < 0x10_0000_0000_0000 * d {
                0x10_0000_0000_0000 * d - n
            } else if n >= 0x20_0000_0000_0000 * d {
                n - d
            } else {
                0
            },
{
    let f = round(n, d, k);
    let m = f.mant as int;
    lemma2_to64();
    if n < 0x10_0000_0000_0000 * d {
        law_round_is_nearest(2 * n, d, k - 1);
        if f.exp >= k {
            let e = (f.exp - k) as nat;
            lemma_pow2_unfold(e + 1);
            let u = pow2(e) as int;
            assert(m * (2 * u) * d == 2 * (m * u * d) && (2 * u) * d == 2 * (u * d))
                by (nonlinear_arith);
        } else {
            let e = (k - f.exp) as nat;
            lemma_pow2_unfold(e);
            let v = pow2((e - 1) as nat) as int;
            assert((2 * n) * v == n * (2 * v)) by (nonlinear_arith);
        }
    } else if n >= 0x20_0000_0000_0000 * d {
        law_round_is_nearest(n, 2 * d, k + 1);
        if f.exp >= k + 1 {
            let e = (f.exp - k) as nat;
            lemma_pow2_unfold(e);
            let u = pow2((e - 1) as nat) as int;
            assert(m * u * (2 * d) == m * (2 * u) * d && u * (2 * d) == (2 * u) * d)
                by (nonlinear_arith);
        } else {
            let e = (k + 1 - f.exp) as nat;
            lemma_pow2_unfold(e);
            let v = pow2((e - 1) as nat) as int;
            assert(n * (2 * v) == 2 * (n * v) && m * 1 * (2 * d) == 2 * (m * 1 * d))
                by (nonlinear_arith);
        }
    } else {
        lemma_nearest_at_least(n, d, 0x10_0000_0000_0000);
        lemma_nearest_at_most(n, d, 0x20_0000_0000_0000);
        lemma_nearest_halves(n, d);
        let q = nearest_even(n, d) as int;
        assert((2 * q + 1) * d == 2 * (q * d) + d && (2 * q - 1) * d == 2 * (q * d) - d)
            by (nonlinear_arith);
        if q == 0x20_0000_0000_0000 {
            assert(m * 2 * d == q * d) by (nonlinear_arith)
                requires
                    m == 0x10_0000_0000_0000,
                    q == 0x20_0000_0000_0000,
            ;
        } else {
            assert(m * 1 * d == q * d) by (nonlinear_arith)
                requires
                    m == q,
            ;
        }
    }
}

/// The bit pattern of a number that is neither zero nor subnormal denotes that number.
pub proof fn law_pattern_denotes(f: Dyadic)
    requires
        0x10_0000_0000_0000 <= f.mant < 0x20_0000_0000_0000,
        -1074 <= f.exp <= 971,
    ensures
        0 <= pattern(f) < INFINITY_BITS,
        magnitude(pattern(f) as nat) == f.mant * pow2((f.exp + 1074) as nat),
{
    let bits = pattern(f);
    let unit: int = 0x10_0000_0000_0000;
    vstd::arithmetic::div_mod::lemma_fundamental_div_mod_converse(
        bits,
        unit,
        f.exp + 1075,
        f.mant - unit,
    );
}

/// A fraction of counters up to one has a bit pattern below that of infinity.
proof fn lemma_fraction_pattern(a: nat, b: nat)
    requires
        0 < a <= b <= u32::MAX,
    ensures
        0 <= pattern(round(a, b, 0)) < INFINITY_BITS,
{
    let t = lemma_scale_exists(a, b);
    lemma_round_scaled(a, b, 0, t);
    lemma_powers();
    lemma2_to64();
    assert(pow2(t) <= a * pow2(t)) by (nonlinear_arith)
        requires
            a > 0,
    ;
    lemma_exponent_below(t, 118);
    lemma_pow2_pos(t);
}

/// Whether one fraction up to one is less than another does not depend on whether the exact or the
/// rounded fractions are compared, where they are fractions of counters and the denominator of one
/// of them is small.
pub proof fn law_less_compares_fractions(a: nat, b: nat, c: nat, d: nat)
    requires
        0 < a <= b <= u32::MAX,
        0 < c <= d <= 1000,
    ensures
        less(pattern(round(a, b, 0)) as u64, pattern(round(c, d, 0)) as u64) <==> a * d < c * b,
        less(pattern(round(c, d, 0)) as u64, pattern(round(a, b, 0)) as u64) <==> c * b < a * d,
        as_double(a) == a,
        as_double(b) == b,
{
    lemma_as_double_exact(a);
    lemma_as_double_exact(b);
    lemma_mul_upper_bound(b as int, u32::MAX as int, d as int, 1000);
    law_rounding_keeps_order(a, b, c, d);
    lemma_fraction_pattern(a, b);
    lemma_fraction_pattern(c, d);
    let x = pattern(round(a, b, 0));
    let y = pattern(round(c, d, 0));
    lemma_magnitude_order(x as nat, y as nat);
    lemma_magnitude_order(y as nat, x as nat);
}

} // verus!
