//! Binary64 arithmetic on whole numbers, in integers: the double nearest to a
//! number, the double nearest to a quotient, and the decimal that it prints as.

use vstd::arithmetic::power2::{lemma2_to64, lemma_pow2_adds, lemma_pow2_strictly_increases, lemma_pow2_unfold, pow2};
use vstd::prelude::*;

verus! {

/// 2^52.
pub const HALF_MANTISSA: u128 = 0x10_0000_0000_0000;

/// 2^53: whole numbers below it are doubles.
pub const MANTISSA: u128 = 0x20_0000_0000_0000;

/// The whole number nearest to `a / b`; of two equally near the even one.
pub open spec fn nearest(a: nat, b: nat) -> nat {
    let q = a / b;
    let r = a % b;
    if 2 * r < b {
        q
    } else if 2 * r > b {
        q + 1
    } else if q % 2 == 0 {
        q
    } else {
        q + 1
    }
}

/// How many binary digits `n` has beyond the 53 that a double holds.
pub open spec fn excess(n: nat) -> nat
    decreases n,
{
    if n < MANTISSA {
        0
    } else {
        1 + excess(n / 2)
    }
}

/// The double nearest to `n`.
pub open spec fn double_of(n: nat) -> nat {
    nearest(n, pow2(excess(n))) * pow2(excess(n))
}

/// The least shift that brings `a / d` to 53 binary digits.
pub open spec fn shift_of(a: nat, d: nat) -> nat
    decreases (if a < HALF_MANTISSA * d {
        HALF_MANTISSA * d - a
    } else {
        0
    }),
    when a > 0
{
    if a >= HALF_MANTISSA * d {
        0
    } else {
        1 + shift_of(2 * a, d)
    }
}

/// The double nearest to `n / d`, times a power of two that makes it whole.
pub open spec fn quotient_mantissa(n: nat, d: nat) -> nat {
    nearest(double_of(n) * pow2(shift_of(double_of(n), d)), d)
}

/// The double nearest to `n / d`, rounded to a whole number of `1 / scale`.
pub open spec fn scaled_quotient(n: nat, d: nat, scale: nat) -> nat {
    nearest(quotient_mantissa(n, d) * scale, pow2(shift_of(double_of(n), d)))
}

fn round_nearest(a: u128, b: u128) -> (r: u128)
    requires
        0 < b <= 0x8000_0000_0000_0000_0000_0000_0000_0000,
        a <= 0x8000_0000_0000_0000_0000_0000_0000_0000,
    ensures
        r == nearest(a as nat, b as nat),
        r <= a / b + 1,
{
    let q: u128 = a / b;
    let r: u128 = a % b;
    assert(q <= a) by (nonlinear_arith)
        requires
            q == a / b,
            b >= 1,
    ;
    if r < b - r {
        q
    } else if r > b - r {
        q + 1
    } else if q % 2 == 0 {
        q
    } else {
        q + 1
    }
}

fn excess_of(n: u128) -> (r: (u32, u128))
    requires
        n < 0x10_0000_0000_0000_0000,
    ensures
        r.0 == excess(n as nat),
        r.1 == pow2(r.0 as nat),
        0 < r.1 <= 32768,
{
    proof {
        lemma2_to64();
        assert(pow2(68) == 0x10_0000_0000_0000_0000) by {
            lemma_pow2_adds(64, 4);
        }
        assert(pow2(53) == 0x20_0000_0000_0000) by {
            lemma_pow2_adds(32, 21);
        }
        assert(pow2(15) == 32768);
    }
    let mut t: u128 = n;
    let mut e: u32 = 0;
    let mut p: u128 = 1;
    while t >= MANTISSA
        invariant
            excess(n as nat) == e + excess(t as nat),
            e <= 15,
            t < pow2((68 - e) as nat),
            p == pow2(e as nat),
            0 < p <= 32768,
            pow2(15) == 32768,
            pow2(53) == 0x20_0000_0000_0000,
        decreases t,
    {
        proof {
            if e >= 15 {
                assert(68 - e <= 53);
                if 68 - e < 53 {
                    lemma_pow2_strictly_increases((68 - e) as nat, 53);
                }
            }
            lemma_pow2_unfold((68 - e) as nat);
            lemma_pow2_unfold((e + 1) as nat);
            if e + 1 < 15 {
                lemma_pow2_strictly_increases((e + 1) as nat, 15);
            }
        }
        t = t / 2;
        e = e + 1;
        p = p * 2;
    }
    (e, p)
}

/// The double nearest to `n`.
fn nearest_double(n: u128) -> (r: u128)
    requires
        n < 0x10_0000_0000_0000_0000,
    ensures
        r == double_of(n as nat),
        n <= r + 32768,
        r <= n + 32768,
        n < MANTISSA ==> r == n,
{
    let (e, p) = excess_of(n);
    let m = round_nearest(n, p);
    proof {
        lemma2_to64();
        let q = (n as nat / p as nat) as int;
        let x = (n as nat % p as nat) as int;
        assert(n == q * p + x && 0 <= x < p) by {
            vstd::arithmetic::div_mod::lemma_fundamental_div_mod(n as int, p as int);
            assert(q * p == p * q) by (nonlinear_arith);
        }
        assert(m == q || m == q + 1);
        assert(m * p <= q * p + p && m * p >= q * p) by (nonlinear_arith)
            requires
                m == q || m == q + 1,
                p > 0,
        ;
        if n < MANTISSA {
            assert(e == 0 && p == 1);
            assert(q * p == q) by (nonlinear_arith)
                requires
                    p == 1,
            ;
        }
    }
    m * p
}

proof fn scaled_bound(a0: int, d: int, p: int, scale: int, m: int)
    requires
        0 <= a0,
        0 < d,
        0 < p,
        0 < scale,
        0 <= m <= (a0 * p) / d + 1,
    ensures
        (m * scale) / p <= (a0 / d + 1) * scale,
{
    let w = a0 / d;
    let q = (a0 * p) / d;
    assert(a0 < (w + 1) * d) by (nonlinear_arith)
        requires
            w == a0 / d,
            d > 0,
            a0 >= 0,
    ;
    assert(a0 * p < (w + 1) * d * p) by (nonlinear_arith)
        requires
            a0 < (w + 1) * d,
            p > 0,
    ;
    assert((w + 1) * d * p == (w + 1) * p * d) by (nonlinear_arith);
    assert(q * d <= a0 * p) by (nonlinear_arith)
        requires
            q == (a0 * p) / d,
            d > 0,
    ;
    assert(q < (w + 1) * p) by (nonlinear_arith)
        requires
            q * d < (w + 1) * p * d,
            d > 0,
    ;
    assert(m * scale <= (w + 1) * p * scale) by (nonlinear_arith)
        requires
            m <= (w + 1) * p,
            scale > 0,
    ;
    assert((w + 1) * p * scale == ((w + 1) * scale) * p) by (nonlinear_arith);
    assert((m * scale) / p <= (w + 1) * scale) by (nonlinear_arith)
        requires
            m * scale <= ((w + 1) * scale) * p,
            p > 0,
    ;
}

/// The double nearest to `n / d`, rounded to a whole number of `1 / scale`.
pub fn round_quotient(n: u64, d: u64, scale: u64) -> (r: u64)
    requires
        0 < d <= 1_000_000_000,
        d <= n,
        1 <= scale <= 100,
        n / d < 0x1_0000_0000_0000,
    ensures
        r == scaled_quotient(n as nat, d as nat, scale as nat),
{
    let a0 = nearest_double(n as u128);
    let bound: u128 = HALF_MANTISSA * d as u128;
    let mut a: u128 = a0;
    let mut s: u32 = 0;
    let mut p: u128 = 1;
    proof {
        lemma2_to64();
        lemma_pow2_adds(32, 20);
        assert(a0 >= d);
        assert(a0 * p == a0) by (nonlinear_arith)
            requires
                p == 1,
        ;
    }
    while a < bound
        invariant
            0 < d <= 1_000_000_000,
            d <= a0 <= 0x1_0000_0000_0000_8000,
            bound == HALF_MANTISSA * d,
            a == a0 * p,
            a > 0,
            p == pow2(s as nat),
            0 < p <= 0x20_0000_0000_0000,
            s <= 53,
            pow2(52) == HALF_MANTISSA,
            a <= 0x8000_0000_0000_0000_0000_0000,
            shift_of(a0 as nat, d as nat) == s + shift_of(a as nat, d as nat),
        decreases (if a < bound {
            bound - a
        } else {
            0
        }),
    {
        proof {
            assert(p < HALF_MANTISSA) by (nonlinear_arith)
                requires
                    a0 * p < HALF_MANTISSA * d,
                    d <= a0,
                    d > 0,
                    p > 0,
                    HALF_MANTISSA > 0,
            ;
            if s > 52 {
                lemma_pow2_strictly_increases(52, s as nat);
            }
            lemma_pow2_unfold((s + 1) as nat);
            assert(a0 * (p * 2) == (a0 * p) * 2) by (nonlinear_arith);
            assert(bound <= 0x4000_0000_0000_0000_0000_0000);
        }
        a = a * 2;
        p = p * 2;
        s = s + 1;
    }
    let m = round_nearest(a, d as u128);
    proof {
        scaled_bound(a0 as int, d as int, p as int, scale as int, m as int);
        assert(m <= 0x8000_0000_0000_0000_0000_0001) by (nonlinear_arith)
            requires
                m <= a / (d as u128) + 1,
                d > 0,
                a <= 0x8000_0000_0000_0000_0000_0000,
        ;
        assert(m * scale <= 0x8000_0000_0000_0000_0000_0001 * 100) by (nonlinear_arith)
            requires
                m <= 0x8000_0000_0000_0000_0000_0001,
                scale <= 100,
        ;
        let w = a0 as int / d as int;
        assert(w <= n as int / d as int + 32769) by {
            vstd::arithmetic::div_mod::lemma_div_is_ordered(
                a0 as int,
                n as int + 32768,
                d as int,
            );
            vstd::arithmetic::div_mod::lemma_div_is_ordered(
                n as int + 32768,
                n as int + 32768 * d as int,
                d as int,
            );
            vstd::arithmetic::div_mod::lemma_hoist_over_denominator(n as int, 32768, d as nat);
        }
        assert((w + 1) * scale <= 0x1_0000_0001_0000 * 100) by (nonlinear_arith)
            requires
                0 <= w + 1 <= 0x1_0000_0001_0000,
                scale <= 100,
        ;
    }
    let r = round_nearest(m * scale as u128, p);
    r as u64
}

/// Three quarters of the double nearest to `n`, as a double, without its
/// fraction.
pub open spec fn three_quarters_of(n: nat) -> nat {
    double_of(3 * double_of(n)) / 4
}

/// Three quarters of `n` in binary64, without the fraction.
pub fn three_quarters(n: u64) -> (r: u64)
    ensures
        r == three_quarters_of(n as nat),
        n < 0x8_0000_0000_0000 ==> r == 3 * n / 4,
{
    let a = nearest_double(n as u128);
    let b = nearest_double(3 * a);
    assert(b <= 3 * (n + 32768) + 32768);
    (b / 4) as u64
}

/// Whole numbers of at most 53 binary digits are doubles.
pub proof fn small_numbers_are_doubles(n: nat)
    requires
        n < MANTISSA,
    ensures
        double_of(n) == n,
{
    lemma2_to64();
    assert(excess(n) == 0);
    assert(pow2(0) == 1);
    assert(n / 1 == n && n % 1 == 0);
}

/// Tenths of a gibibyte, nearest to `n` bytes as a double. A double is divided by
/// a power of two without rounding.
pub open spec fn gib_tenths_of(n: nat) -> nat {
    nearest(10 * double_of(n), 0x4000_0000)
}

/// Tenths of a gibibyte, nearest to `n` bytes as a double.
pub fn gib_tenths(n: u64) -> (r: u64)
    ensures
        r == gib_tenths_of(n as nat),
{
    let a = nearest_double(n as u128);
    round_nearest(10 * a, 0x4000_0000) as u64
}

/// The nearest multiple is at most half away, and of two that are equally near it is
/// the even one.
pub proof fn the_nearest_is_at_most_half_away(a: nat, b: nat)
    requires
        b > 0,
    ensures
        2 * (nearest(a, b) * b) <= 2 * a + b,
        2 * a <= 2 * (nearest(a, b) * b) + b,
        2 * (nearest(a, b) * b) == 2 * a + b || 2 * a == 2 * (nearest(a, b) * b) + b ==> nearest(a, b)
            % 2 == 0,
        a % b == 0 ==> nearest(a, b) * b == a,
{
    let q = a / b;
    let r = a % b;
    assert(a == q * b + r) by (nonlinear_arith)
        requires
            q == a / b,
            r == a % b,
            b > 0,
    ;
    assert((q + 1) * b == q * b + b) by (nonlinear_arith);
    assert(r < b);
}

/// Three quarters of a number below the doubles' limit are three quarters of it,
/// without the fraction.
pub proof fn three_quarters_are_three_quarters(n: nat)
    requires
        n < 0x8_0000_0000_0000,
    ensures
        three_quarters_of(n) == 3 * n / 4,
{
    small_numbers_are_doubles(n);
    small_numbers_are_doubles((3 * n) as nat);
}

/// A number of bytes below the doubles' limit is told to within half a tenth of a
/// gibibyte.
pub proof fn gibibytes_are_told_to_the_tenth(n: nat)
    requires
        n < MANTISSA,
    ensures
        20 * n <= 2 * (gib_tenths_of(n) * 0x4000_0000) + 0x4000_0000,
        2 * (gib_tenths_of(n) * 0x4000_0000) <= 20 * n + 0x4000_0000,
{
    small_numbers_are_doubles(n);
    the_nearest_is_at_most_half_away((10 * n) as nat, 0x4000_0000);
}

} // verus!
