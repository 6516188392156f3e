//! Ratios of counts in single precision, carried out in integers.
//!
//! A value is a fraction of two integers. Every operation yields the exact result rounded to the
//! nearest number with a significand of 24 bits, and of two that are equally near to the one whose
//! significand is even. Over the range of a count neither overflow nor underflow can occur, so
//! this is what IEEE 754 arithmetic on `binary32` numbers yields.
use vstd::arithmetic::div_mod::{
    lemma_fundamental_div_mod, lemma_fundamental_div_mod_converse,
};
use vstd::arithmetic::mul::lemma_mul_upper_bound;
use vstd::prelude::*;

verus! {

/// The least significand of 24 bits.
pub const LEAST: u128 = 0x80_0000;

/// The least significand that takes 25 bits.
pub const LIMIT: u128 = 0x100_0000;

/// The greatest divisor that `round` takes.
pub const DIVISOR_MAX: u128 = 0x80_0000_0000_0000_0000_0000_0000;

/// The integer nearest to `n / d`, the even one of two that are equally near.
pub open spec fn round_half_even(n: nat, d: nat) -> nat {
    let q = n / d;
    let r = n % d;
    if 2 * r < d || (2 * r == d && q % 2 == 0) {
        q
    } else {
        q + 1
    }
}

/// The single-precision value nearest to `n / d`, as numerator and denominator.
pub open spec fn rounded(n: nat, d: nat) -> (nat, nat)
    decreases
            (if n < LEAST * d {
                LEAST * d - n
            } else if n >= LIMIT * d {
                n - LIMIT * d + 1
            } else {
                0
            }),
{
    if n == 0 || d == 0 {
        (0, 1)
    } else if n < LEAST * d {
        let v = rounded(2 * n, d);
        (v.0, 2 * v.1)
    } else if n >= LIMIT * d {
        let v = rounded(n, 2 * d);
        (2 * v.0, v.1)
    } else {
        (round_half_even(n, d), 1)
    }
}

/// The quotient of two counts, each first taken as a single-precision number.
pub open spec fn quotient(a: nat, b: nat) -> (nat, nat) {
    let x = rounded(a, 1);
    let y = rounded(b, 1);
    rounded(x.0 * y.1, x.1 * y.0)
}

/// The integer part of `20 * (a / b)`.
pub open spec fn twenty_fold(a: nat, b: nat) -> nat {
    let q = quotient(a, b);
    let p = rounded(20 * q.0, q.1);
    p.0 / p.1
}

/// The integer part of `1.5 * (a / b - 5)` where `a / b` is over 5, else 0.
pub open spec fn excess_over_five(a: nat, b: nat) -> nat {
    let q = quotient(a, b);
    if q.0 > 5 * q.1 {
        let r = rounded((q.0 - 5 * q.1) as nat, q.1);
        let p = rounded(3 * r.0, 2 * r.1);
        p.0 / p.1
    } else {
        0
    }
}

/// The integer nearest to `n / d`, where that is a significand.
fn nearest(n: u128, d: u128) -> (res: u128)
    requires
        0 < d <= DIVISOR_MAX,
        LEAST * d <= n < LIMIT * d,
    ensures
        res == round_half_even(n as nat, d as nat),
        LEAST <= res <= LIMIT,
{
    let q: u128 = n / d;
    let r: u128 = n % d;
    proof {
        assert(LEAST <= q < LIMIT) by (nonlinear_arith)
            requires
                0 < d,
                LEAST * d <= n < LIMIT * d,
                q == n / d,
        ;
    }
    if 2 * r < d || (2 * r == d && q % 2 == 0) {
        q
    } else {
        q + 1
    }
}

/// The single-precision value nearest to `n / d`.
fn round(n: u128, d: u128) -> (res: (u128, u128))
    requires
        0 < d <= DIVISOR_MAX,
        n <= DIVISOR_MAX,
    ensures
        (res.0 as nat, res.1 as nat) == rounded(n as nat, d as nat),
        res.1 >= 1,
        n > 0 ==> res.0 >= LEAST,
        n == 0 ==> res.0 == 0 && res.1 == 1,
        res.1 == 1 || res.1 * n <= LIMIT * d,
        res.1 == 1 || res.0 <= LIMIT,
        res.0 <= LIMIT || res.0 * d <= 2 * n,
{
    if n == 0 {
        return (0, 1);
    }
    if n < LEAST * d {
        let mut a: u128 = n;
        let mut scale: u128 = 1;
        while a < LEAST * d
            invariant
                0 < d <= DIVISOR_MAX,
                0 < n,
                a == n * scale,
                1 <= scale,
                0 < a < LIMIT * d,
                rounded(n as nat, d as nat) == (
                    rounded(a as nat, d as nat).0,
                    scale as nat * rounded(a as nat, d as nat).1,
                ),
            decreases LIMIT * d - a,
        {
            proof {
                let v = rounded((2 * a) as nat, d as nat);
                assert(2 * a == n * (2 * scale)) by (nonlinear_arith)
                    requires
                        a == n * scale,
                ;
                assert(scale <= a) by (nonlinear_arith)
                    requires
                        a == n * scale,
                        n >= 1,
                ;
                assert(scale as nat * (2 * v.1) == (2 * scale) as nat * v.1) by (nonlinear_arith);
            }
            a = 2 * a;
            scale = 2 * scale;
        }
        assert(scale * n == a) by (nonlinear_arith)
            requires
                a == n * scale,
        ;
        let m: u128 = nearest(a, d);
        assert(rounded(a as nat, d as nat) == (m as nat, 1nat));
        assert((scale as nat) * 1 == scale) by (nonlinear_arith);
        assert(rounded(n as nat, d as nat) == (m as nat, scale as nat));
        (m, scale)
    } else {
        let mut b: u128 = d;
        let mut scale: u128 = 1;
        while n >= LIMIT * b
            invariant
                0 < d,
                0 < n <= DIVISOR_MAX,
                b == d * scale,
                1 <= scale,
                0 < b,
                LEAST * b <= n,
                rounded(n as nat, d as nat) == (
                    scale as nat * rounded(n as nat, b as nat).0,
                    rounded(n as nat, b as nat).1,
                ),
            decreases n - b,
        {
            proof {
                let v = rounded(n as nat, (2 * b) as nat);
                assert(2 * b == d * (2 * scale)) by (nonlinear_arith)
                    requires
                        b == d * scale,
                ;
                assert(scale <= b) by (nonlinear_arith)
                    requires
                        b == d * scale,
                        d >= 1,
                ;
                assert(scale as nat * (2 * v.0) == (2 * scale) as nat * v.0) by (nonlinear_arith);
            }
            b = 2 * b;
            scale = 2 * scale;
        }
        let m: u128 = nearest(n, b);
        proof {
            assert(m * scale <= m * b) by (nonlinear_arith)
                requires
                    b == d * scale,
                    d >= 1,
            ;
            assert(m * b <= LIMIT * b) by (nonlinear_arith)
                requires
                    m <= LIMIT,
            ;
            assert((m * scale) * d == m * b) by (nonlinear_arith)
                requires
                    b == d * scale,
            ;
            assert(rounded(n as nat, b as nat) == (m as nat, 1nat));
            assert((scale as nat) * (m as nat) == m * scale) by (nonlinear_arith);
            assert(m * scale >= m) by (nonlinear_arith)
                requires
                    scale >= 1,
            ;
        }
        assert(rounded(n as nat, d as nat) == ((m * scale) as nat, 1nat));
        (m * scale, 1)
    }
}

/// The quotient of two counts.
fn divide(a: u128, b: u128) -> (res: (u128, u128))
    requires
        a <= u64::MAX + u64::MAX,
        0 < b <= u64::MAX + u64::MAX,
    ensures
        (res.0 as nat, res.1 as nat) == quotient(a as nat, b as nat),
        1 <= res.1 <= 0x4000_0000_0000_0000_0000_0000,
        res.0 <= 0x4000_0000_0000_0000_0000_0000,
        res.1 == 1 || res.0 <= LIMIT,
{
    let x = round(a, 1);
    let y = round(b, 1);
    proof {
        assert(x.1 <= LIMIT) by (nonlinear_arith)
            requires
                x.1 == 1 || x.1 * a <= LIMIT * 1,
                a == 0 ==> x.1 == 1,
        ;
        assert(y.1 <= LIMIT) by (nonlinear_arith)
            requires
                y.1 == 1 || y.1 * b <= LIMIT * 1,
                b > 0,
        ;
        assert(x.0 * y.1 <= 0x10_0000_0000_0000_0000 * LIMIT) by (nonlinear_arith)
            requires
                x.0 <= 0x10_0000_0000_0000_0000,
                y.1 <= LIMIT,
        ;
        assert(x.1 * y.0 <= 0x10_0000_0000_0000_0000 * LIMIT) by (nonlinear_arith)
            requires
                y.0 <= 0x10_0000_0000_0000_0000,
                x.1 <= LIMIT,
        ;
        assert(x.1 * y.0 >= LEAST) by (nonlinear_arith)
            requires
                x.1 >= 1,
                y.0 >= LEAST,
        ;
        assert(a > 0 ==> x.0 * y.1 >= LEAST) by (nonlinear_arith)
            requires
                a > 0 ==> x.0 >= LEAST,
                y.1 >= 1,
        ;
        assert(a == 0 ==> x.0 * y.1 == 0) by (nonlinear_arith)
            requires
                a == 0 ==> x.0 == 0,
        ;
    }
    let n: u128 = x.0 * y.1;
    let d: u128 = x.1 * y.0;
    let q = round(n, d);
    proof {
        assert(q.1 <= 0x10_0000_0000_0000_0000 * LIMIT * 2) by (nonlinear_arith)
            requires
                q.1 == 1 || q.1 * n <= LIMIT * d,
                n == 0 ==> q.1 == 1,
                n == 0 || n >= LEAST,
                d <= 0x10_0000_0000_0000_0000 * LIMIT,
                LIMIT == 2 * LEAST,
        ;
        assert(q.0 <= LIMIT || q.0 <= 2 * n) by (nonlinear_arith)
            requires
                q.0 <= LIMIT || q.0 * d <= 2 * n,
                d >= 1,
        ;
    }
    q
}

/// The integer part of `20 * (a / b)` in single precision.
pub fn twenty_times(a: usize, b: usize) -> (res: u128)
    requires
        b > 0,
    ensures
        res == twenty_fold(a as nat, b as nat),
{
    let q = divide(a as u128, b as u128);
    let p = round(20 * q.0, q.1);
    p.0 / p.1
}

/// The integer part of `1.5 * (a / b - 5)` in single precision, where `a / b` is over 5, else 0.
pub fn over_five(a: usize, b: u128) -> (res: u128)
    requires
        0 < b <= u64::MAX + u64::MAX,
    ensures
        res == excess_over_five(a as nat, b as nat),
{
    let q = divide(a as u128, b);
    if q.0 > 5 * q.1 {
        let n: u128 = q.0 - 5 * q.1;
        let r = round(n, q.1);
        proof {
            assert(r.1 <= LIMIT * LIMIT) by (nonlinear_arith)
                requires
                    r.1 == 1 || r.1 * n <= LIMIT * q.1,
                    n >= 1,
                    q.1 <= LIMIT,
                    LIMIT >= 1,
            ;
            assert(r.0 <= LIMIT || r.0 <= 2 * n) by (nonlinear_arith)
                requires
                    r.0 <= LIMIT || r.0 * q.1 <= 2 * n,
                    q.1 >= 1,
            ;
        }
        let p = round(3 * r.0, 2 * r.1);
        p.0 / p.1
    } else {
        0
    }
}

// ── Laws ─────────────────────────────────────────────────────────────────────
/// The value of the first fraction is no more than that of the second.
pub open spec fn at_most(x: (nat, nat), y: (nat, nat)) -> bool {
    x.0 * y.1 <= y.0 * x.1
}

proof fn lemma_rounded_positive(n: nat, d: nat)
    requires
        d > 0,
    ensures
        rounded(n, d).1 > 0,
        n > 0 ==> rounded(n, d).0 > 0,
        n == 0 ==> rounded(n, d).0 == 0,
    decreases
            (if n < LEAST * d {
                LEAST * d - n
            } else if n >= LIMIT * d {
                n - LIMIT * d + 1
            } else {
                0
            }),
{
    if n == 0 {
    } else if n < LEAST * d {
        lemma_rounded_positive(2 * n, d);
    } else if n >= LIMIT * d {
        lemma_rounded_positive(n, 2 * d);
    } else {
        assert(n / d >= LEAST) by (nonlinear_arith)
            requires
                n >= LEAST * d,
                d > 0,
        ;
    }
}

/// A common factor of numerator and denominator makes no difference.
proof fn lemma_rounded_scaled(n: nat, d: nat, k: nat)
    requires
        d > 0,
        k > 0,
    ensures
        rounded(k * n, k * d) == rounded(n, d),
    decreases
            (if n < LEAST * d {
                LEAST * d - n
            } else if n >= LIMIT * d {
                n - LIMIT * d + 1
            } else {
                0
            }),
{
    assert(k * d > 0) by (nonlinear_arith)
        requires
            k > 0,
            d > 0,
    ;
    assert((k * n < LEAST * (k * d)) == (n < LEAST * d)) by (nonlinear_arith)
        requires
            k > 0,
    ;
    assert((k * n >= LIMIT * (k * d)) == (n >= LIMIT * d)) by (nonlinear_arith)
        requires
            k > 0,
    ;
    assert((k * n == 0) == (n == 0)) by (nonlinear_arith)
        requires
            k > 0,
    ;
    if n == 0 {
    } else if n < LEAST * d {
        lemma_rounded_scaled(2 * n, d, k);
        assert(k * (2 * n) == 2 * (k * n)) by (nonlinear_arith);
    } else if n >= LIMIT * d {
        lemma_rounded_scaled(n, 2 * d, k);
        assert(k * (2 * d) == 2 * (k * d)) by (nonlinear_arith);
    } else {
        let q = n / d;
        let r = n % d;
        assert(n == d * q + r) by {
            lemma_fundamental_div_mod(n as int, d as int);
        }
        assert(k * n == q * (k * d) + k * r) by (nonlinear_arith)
            requires
                n == d * q + r,
        ;
        assert(0 <= k * r < k * d) by (nonlinear_arith)
            requires
                0 <= r < d,
                k > 0,
        ;
        lemma_fundamental_div_mod_converse(
            (k * n) as int,
            (k * d) as int,
            q as int,
            (k * r) as int,
        );
        assert((2 * (k * r) < k * d) == (2 * r < d)) by (nonlinear_arith)
            requires
                k > 0,
        ;
        assert((2 * (k * r) == k * d) == (2 * r == d)) by (nonlinear_arith)
            requires
                k > 0,
        ;
    }
}

proof fn lemma_nearest_bounds(n: nat, d: nat, low: nat, high: nat)
    requires
        d > 0,
        low * d <= n <= high * d,
    ensures
        low <= round_half_even(n, d) <= high,
{
    let q = n / d;
    let r = n % d;
    lemma_fundamental_div_mod(n as int, d as int);
    assert(low <= q) by (nonlinear_arith)
        requires
            low * d <= n,
            n == d * q + r,
            r < d,
            d > 0,
    ;
    assert(q < high || (q == high && r == 0)) by (nonlinear_arith)
        requires
            n <= high * d,
            n == d * q + r,
            0 <= r,
            d > 0,
    ;
}

proof fn lemma_nearest_monotone(m: nat, n: nat, d: nat)
    requires
        d > 0,
        m <= n,
    ensures
        round_half_even(m, d) <= round_half_even(n, d),
{
    let q = m / d;
    let r = m % d;
    let p = n / d;
    let t = n % d;
    lemma_fundamental_div_mod(m as int, d as int);
    lemma_fundamental_div_mod(n as int, d as int);
    assert(q < p || (q == p && r <= t)) by (nonlinear_arith)
        requires
            m <= n,
            m == d * q + r,
            n == d * p + t,
            0 <= r < d,
            0 <= t < d,
    ;
}

/// What is no more than the least significand is not rounded to more.
proof fn lemma_rounded_low(n: nat, d: nat)
    requires
        d > 0,
        n <= LEAST * d,
    ensures
        rounded(n, d).0 <= LEAST * rounded(n, d).1,
    decreases LEAST * d - n,
{
    if n == 0 {
    } else if n < LEAST * d {
        let v = rounded(2 * n, d);
        lemma_rounded_positive(2 * n, d);
        if 2 * n <= LEAST * d {
            lemma_rounded_low(2 * n, d);
        } else {
            assert(LEAST * d <= 2 * n < LIMIT * d);
            lemma_nearest_bounds(2 * n, d, LEAST as nat, LIMIT as nat);
        }
    } else {
        assert(n < LIMIT * d);
        lemma_nearest_bounds(n, d, LEAST as nat, LEAST as nat);
    }
}

/// What is no less than the least significand is not rounded to less.
proof fn lemma_rounded_high(n: nat, d: nat)
    requires
        d > 0,
        n >= LEAST * d,
    ensures
        rounded(n, d).0 >= LEAST * rounded(n, d).1,
    decreases n - LEAST * d + 1,
{
    if n >= LIMIT * d {
        lemma_rounded_high(n, 2 * d);
    } else {
        lemma_nearest_bounds(n, d, LEAST as nat, LIMIT as nat);
    }
}

proof fn lemma_rounded_monotone_same(m: nat, n: nat, d: nat)
    requires
        d > 0,
        m <= n,
    ensures
        at_most(rounded(m, d), rounded(n, d)),
    decreases
            (if n < LEAST * d {
                LEAST * d - n
            } else if m >= LIMIT * d {
                m - LIMIT * d + 1
            } else {
                0
            }),
{
    let x = rounded(m, d);
    let y = rounded(n, d);
    lemma_rounded_positive(m, d);
    lemma_rounded_positive(n, d);
    if m == 0 {
        assert(x.0 * y.1 == 0) by (nonlinear_arith)
            requires
                x.0 == 0,
        ;
        assert(y.0 * x.1 >= 0) by (nonlinear_arith);
    } else if n < LEAST * d {
        lemma_rounded_monotone_same(2 * m, 2 * n, d);
        let u = rounded(2 * m, d);
        let v = rounded(2 * n, d);
        assert(u.0 * (2 * v.1) <= v.0 * (2 * u.1)) by (nonlinear_arith)
            requires
                u.0 * v.1 <= v.0 * u.1,
        ;
    } else if m >= LIMIT * d {
        lemma_rounded_monotone_same(m, n, 2 * d);
        let u = rounded(m, 2 * d);
        let v = rounded(n, 2 * d);
        assert((2 * u.0) * v.1 <= (2 * v.0) * u.1) by (nonlinear_arith)
            requires
                u.0 * v.1 <= v.0 * u.1,
        ;
    } else if m < LEAST * d {
        lemma_rounded_low(m, d);
        lemma_rounded_high(n, d);
        assert(x.0 * y.1 <= y.0 * x.1) by (nonlinear_arith)
            requires
                x.0 <= LEAST * x.1,
                y.0 >= LEAST * y.1,
        ;
    } else if n >= LIMIT * d {
        lemma_nearest_bounds(m, d, LEAST as nat, LIMIT as nat);
        lemma_rounded_high(n, 2 * d);
        assert(x.0 * y.1 <= y.0 * x.1) by (nonlinear_arith)
            requires
                x.0 <= LIMIT,
                x.1 == 1,
                y.0 >= LIMIT * y.1,
        ;
    } else {
        lemma_nearest_monotone(m, n, d);
        assert(x.0 * 1 <= y.0 * 1);
    }
}

/// Rounding keeps the order of two values.
pub proof fn law_rounding_keeps_order(m: nat, c: nat, n: nat, d: nat)
    requires
        c > 0,
        d > 0,
        at_most((m, c), (n, d)),
    ensures
        at_most(rounded(m, c), rounded(n, d)),
{
    lemma_rounded_scaled(m, c, d);
    lemma_rounded_scaled(n, d, c);
    assert(d * c == c * d) by (nonlinear_arith);
    assert(d * m <= c * n) by (nonlinear_arith)
        requires
            m * d <= n * c,
    ;
    assert(c * d > 0) by (nonlinear_arith)
        requires
            c > 0,
            d > 0,
    ;
    lemma_rounded_monotone_same(d * m, c * n, c * d);
}

proof fn lemma_floor_monotone(x: (nat, nat), y: (nat, nat))
    requires
        x.1 > 0,
        y.1 > 0,
        at_most(x, y),
    ensures
        x.0 / x.1 <= y.0 / y.1,
{
    let a = x.0;
    let b = x.1;
    let c = y.0;
    let d = y.1;
    let q = a / b;
    assert(q * b <= a) by {
        lemma_fundamental_div_mod(a as int, b as int);
        assert(q * b == b * q) by (nonlinear_arith);
    }
    assert(q * d <= c) by (nonlinear_arith)
        requires
            q * b <= a,
            a * d <= c * b,
            b > 0,
    ;
    assert(q <= c / d) by (nonlinear_arith)
        requires
            q * d <= c,
            d > 0,
    ;
}

proof fn lemma_quotient_monotone(a: nat, b: nat, c: nat, d: nat)
    requires
        b > 0,
        d > 0,
        a <= c,
        d <= b,
    ensures
        at_most(quotient(a, b), quotient(c, d)),
        quotient(a, b).1 > 0,
        quotient(c, d).1 > 0,
{
    let x = rounded(a, 1);
    let y = rounded(b, 1);
    let u = rounded(c, 1);
    let v = rounded(d, 1);
    lemma_rounded_positive(a, 1);
    lemma_rounded_positive(b, 1);
    lemma_rounded_positive(c, 1);
    lemma_rounded_positive(d, 1);
    lemma_rounded_monotone_same(a, c, 1);
    lemma_rounded_monotone_same(d, b, 1);
    assert(x.1 * y.0 > 0) by (nonlinear_arith)
        requires
            x.1 > 0,
            y.0 > 0,
    ;
    assert(u.1 * v.0 > 0) by (nonlinear_arith)
        requires
            u.1 > 0,
            v.0 > 0,
    ;
    assert((x.0 * y.1) * (u.1 * v.0) <= (u.0 * v.1) * (x.1 * y.0)) by {
        assert((x.0 * u.1) * (v.0 * y.1) <= (u.0 * x.1) * (y.0 * v.1)) by {
            lemma_mul_upper_bound(
                (x.0 * u.1) as int,
                (u.0 * x.1) as int,
                (v.0 * y.1) as int,
                (y.0 * v.1) as int,
            );
        }
        assert((x.0 * y.1) * (u.1 * v.0) == (x.0 * u.1) * (v.0 * y.1)) by (nonlinear_arith);
        assert((u.0 * v.1) * (x.1 * y.0) == (u.0 * x.1) * (y.0 * v.1)) by (nonlinear_arith);
    }
    law_rounding_keeps_order(x.0 * y.1, x.1 * y.0, u.0 * v.1, u.1 * v.0);
    lemma_rounded_positive(x.0 * y.1, x.1 * y.0);
    lemma_rounded_positive(u.0 * v.1, u.1 * v.0);
}

/// A greater part of a smaller whole is no less.
pub proof fn law_ratios_keep_order(a: nat, b: nat, c: nat, d: nat)
    requires
        0 < d <= b,
        a <= c,
    ensures
        twenty_fold(a, b) <= twenty_fold(c, d),
        excess_over_five(a, b) <= excess_over_five(c, d),
{
    let q = quotient(a, b);
    let p = quotient(c, d);
    lemma_quotient_monotone(a, b, c, d);
    assert((20 * q.0) * p.1 <= (20 * p.0) * q.1) by (nonlinear_arith)
        requires
            q.0 * p.1 <= p.0 * q.1,
    ;
    law_rounding_keeps_order(20 * q.0, q.1, 20 * p.0, p.1);
    lemma_rounded_positive(20 * q.0, q.1);
    lemma_rounded_positive(20 * p.0, p.1);
    lemma_floor_monotone(rounded(20 * q.0, q.1), rounded(20 * p.0, p.1));
    if q.0 > 5 * q.1 {
        assert(p.0 > 5 * p.1) by (nonlinear_arith)
            requires
                q.0 * p.1 <= p.0 * q.1,
                q.0 > 5 * q.1,
                p.1 > 0,
                q.1 > 0,
        ;
        let m = (q.0 - 5 * q.1) as nat;
        let n = (p.0 - 5 * p.1) as nat;
        assert(m * p.1 <= n * q.1) by (nonlinear_arith)
            requires
                m == q.0 - 5 * q.1,
                n == p.0 - 5 * p.1,
                q.0 * p.1 <= p.0 * q.1,
        ;
        law_rounding_keeps_order(m, q.1, n, p.1);
        lemma_rounded_positive(m, q.1);
        lemma_rounded_positive(n, p.1);
        let r = rounded(m, q.1);
        let t = rounded(n, p.1);
        assert((3 * r.0) * (2 * t.1) <= (3 * t.0) * (2 * r.1)) by (nonlinear_arith)
            requires
                r.0 * t.1 <= t.0 * r.1,
        ;
        law_rounding_keeps_order(3 * r.0, 2 * r.1, 3 * t.0, 2 * t.1);
        lemma_rounded_positive(3 * r.0, 2 * r.1);
        lemma_rounded_positive(3 * t.0, 2 * t.1);
        lemma_floor_monotone(rounded(3 * r.0, 2 * r.1), rounded(3 * t.0, 2 * t.1));
    }
}

/// A whole number whose significand fits is not changed by rounding.
proof fn lemma_rounded_whole(k: nat, d: nat)
    requires
        d > 0,
        0 < k < LIMIT,
    ensures
        rounded(k * d, d).0 == k * rounded(k * d, d).1,
    decreases LIMIT - k,
{
    assert(k * d > 0) by (nonlinear_arith)
        requires
            d > 0,
            k > 0,
    ;
    assert((k * d < LEAST * d) == (k < LEAST)) by (nonlinear_arith)
        requires
            d > 0,
    ;
    assert(k * d < LIMIT * d) by (nonlinear_arith)
        requires
            d > 0,
            k < LIMIT,
    ;
    if k < LEAST {
        lemma_rounded_whole(2 * k, d);
        assert((2 * k) * d == 2 * (k * d)) by (nonlinear_arith);
        let v = rounded(2 * (k * d), d);
        assert((2 * k) * v.1 == k * (2 * v.1)) by (nonlinear_arith);
    } else {
        lemma_nearest_bounds(k * d, d, k, k);
        assert(k * 1 == k);
    }
}

/// The whole of a count gives twenty, nothing of it gives nothing.
pub proof fn law_ratio_ends(n: nat)
    requires
        n > 0,
    ensures
        twenty_fold(n, n) == 20,
        twenty_fold(0, n) == 0,
{
    let x = rounded(n, 1);
    lemma_rounded_positive(n, 1);
    let m = x.0 * x.1;
    assert(m > 0) by (nonlinear_arith)
        requires
            x.0 > 0,
            x.1 > 0,
            m == x.0 * x.1,
    ;
    assert(x.1 * x.0 == m) by (nonlinear_arith)
        requires
            m == x.0 * x.1,
    ;
    lemma_rounded_whole(1, m);
    assert(1 * m == m);
    let q = quotient(n, n);
    assert(q == rounded(m, m));
    lemma_rounded_positive(m, m);
    assert(q.0 == q.1);
    lemma_rounded_whole(20, q.1);
    lemma_rounded_positive(20 * q.1, q.1);
    let p = rounded(20 * q.1, q.1);
    assert(p.0 / p.1 == 20) by (nonlinear_arith)
        requires
            p.0 == 20 * p.1,
            p.1 > 0,
    ;
    let z = rounded(0, 1);
    assert(z.0 * x.1 == 0) by (nonlinear_arith)
        requires
            z.0 == 0,
    ;
    assert(quotient(0, n) == (0nat, 1nat));
    assert(rounded(20 * 0, 1) == (0nat, 1nat));
}

/// The rounded value is off by no more than one part in two to the 24th.
proof fn lemma_rounded_near(n: nat, d: nat)
    requires
        d > 0,
    ensures
        rounded(n, d).0 * d * LIMIT <= n * rounded(n, d).1 * (LIMIT + 1),
        rounded(n, d).0 * d * LIMIT >= n * rounded(n, d).1 * (LIMIT - 1),
    decreases
            (if n < LEAST * d {
                LEAST * d - n
            } else if n >= LIMIT * d {
                n - LIMIT * d + 1
            } else {
                0
            }),
{
    if n == 0 {
        assert(0 * d * LIMIT == 0) by (nonlinear_arith);
    } else if n < LEAST * d {
        lemma_rounded_near(2 * n, d);
        let v = rounded(2 * n, d);
        assert((2 * n) * v.1 == n * (2 * v.1)) by (nonlinear_arith);
    } else if n >= LIMIT * d {
        lemma_rounded_near(n, 2 * d);
        let v = rounded(n, 2 * d);
        assert(v.0 * (2 * d) == (2 * v.0) * d) by (nonlinear_arith);
    } else {
        let m = round_half_even(n, d);
        let q = n / d;
        let r = n % d;
        lemma_fundamental_div_mod(n as int, d as int);
        assert(2 * (m * d) <= 2 * n + d && 2 * (m * d) >= 2 * n - d) by (nonlinear_arith)
            requires
                n == d * q + r,
                r < d,
                (m == q && 2 * r <= d) || (m == q + 1 && 2 * r >= d),
        ;
        assert(LIMIT == 2 * LEAST);
        assert(m * d * LIMIT <= n * 1 * (LIMIT + 1)) by (nonlinear_arith)
            requires
                2 * (m * d) <= 2 * n + d,
                n >= LEAST * d,
                LIMIT == 2 * LEAST,
        ;
        assert(m * d * LIMIT >= n * 1 * (LIMIT - 1)) by (nonlinear_arith)
            requires
                2 * (m * d) >= 2 * n - d,
                n >= LEAST * d,
                LIMIT == 2 * LEAST,
        ;
    }
}

/// A count below two to the 24th is exact, so the quotient of two of them is rounded once.
proof fn lemma_quotient_exact(a: nat, b: nat)
    requires
        a < LIMIT,
        0 < b < LIMIT,
    ensures
        quotient(a, b) == rounded(a, b),
{
    let x = rounded(a, 1);
    let y = rounded(b, 1);
    lemma_rounded_positive(a, 1);
    lemma_rounded_positive(b, 1);
    lemma_rounded_whole(b, 1);
    assert(b * 1 == b && a * 1 == a);
    if a > 0 {
        lemma_rounded_whole(a, 1);
    }
    assert(x.0 == a * x.1) by (nonlinear_arith)
        requires
            x.0 == a * x.1 || (a == 0 && x.0 == 0),
    ;
    let k = x.1 * y.1;
    assert(k > 0) by (nonlinear_arith)
        requires
            x.1 > 0,
            y.1 > 0,
            k == x.1 * y.1,
    ;
    assert(x.0 * y.1 == k * a) by (nonlinear_arith)
        requires
            x.0 == a * x.1,
            k == x.1 * y.1,
    ;
    assert(x.1 * y.0 == k * b) by (nonlinear_arith)
        requires
            y.0 == b * y.1,
            k == x.1 * y.1,
    ;
    lemma_rounded_scaled(a, b, k);
}

/// Twenty times a ratio is the integer part of the exact value, for a part of a count below two
/// to the 18th. Only where the exact value is an integer may it be one less.
pub proof fn law_twenty_fold(a: nat, b: nat)
    requires
        a <= b,
        0 < b < 0x4_0000,
    ensures
        20 * a % b != 0 ==> twenty_fold(a, b) == 20 * a / b,
        20 * a % b == 0 ==> 20 * a / b - 1 <= twenty_fold(a, b) <= 20 * a / b,
{
    let q = quotient(a, b);
    lemma_quotient_exact(a, b);
    lemma_rounded_near(a, b);
    lemma_rounded_positive(a, b);
    let p = rounded(20 * q.0, q.1);
    lemma_rounded_near(20 * q.0, q.1);
    lemma_rounded_positive(20 * q.0, q.1);
    let k: int = LIMIT as int;
    let f = 20 * a / b;
    let r = 20 * a % b;
    lemma_fundamental_div_mod((20 * a) as int, b as int);
    assert(p.0 * b * (k * k) <= 20 * a * p.1 * ((k + 1) * (k + 1))) by {
        lemma_chain_up(a as int, b as int, q.0 as int, q.1 as int, p.0 as int, p.1 as int, k);
    }
    assert(p.0 * b * (k * k) >= 20 * a * p.1 * ((k - 1) * (k - 1))) by {
        lemma_chain_down(a as int, b as int, q.0 as int, q.1 as int, p.0 as int, p.1 as int, k);
    }
    lemma_near_floor(a as int, b as int, p.0 as int, p.1 as int, k, f as int, r as int);
    assert(p.0 / p.1 <= f) by (nonlinear_arith)
        requires
            p.0 < (f + 1) * p.1,
            p.1 > 0,
    ;
    if r != 0 {
        assert(p.0 / p.1 >= f) by (nonlinear_arith)
            requires
                p.0 >= f * p.1,
                p.1 > 0,
        ;
    } else {
        assert(p.0 / p.1 >= f - 1) by (nonlinear_arith)
            requires
                p.0 >= (f - 1) * p.1,
                p.1 > 0,
        ;
    }
}

proof fn lemma_chain_up(a: int, b: int, q0: int, q1: int, p0: int, p1: int, k: int)
    requires
        a >= 0,
        b > 0,
        q0 >= 0,
        q1 > 0,
        p0 >= 0,
        p1 > 0,
        k > 0,
        q0 * b * k <= a * q1 * (k + 1),
        p0 * q1 * k <= (20 * q0) * p1 * (k + 1),
    ensures
        p0 * b * (k * k) <= 20 * a * p1 * ((k + 1) * (k + 1)),
{
    assert((p0 * q1 * k) * (b * k) <= ((20 * q0) * p1 * (k + 1)) * (b * k)) by (nonlinear_arith)
        requires
            p0 * q1 * k <= (20 * q0) * p1 * (k + 1),
            b > 0,
            k > 0,
    ;
    assert((q0 * b * k) * (20 * p1 * (k + 1)) <= (a * q1 * (k + 1)) * (20 * p1 * (k + 1)))
        by (nonlinear_arith)
        requires
            q0 * b * k <= a * q1 * (k + 1),
            p1 > 0,
            k > 0,
    ;
    assert(((20 * q0) * p1 * (k + 1)) * (b * k) == (q0 * b * k) * (20 * p1 * (k + 1)))
        by (nonlinear_arith);
    let left = p0 * b * (k * k);
    let right = 20 * a * p1 * ((k + 1) * (k + 1));
    assert((p0 * q1 * k) * (b * k) == left * q1) by (nonlinear_arith)
        requires
            left == p0 * b * (k * k),
    ;
    assert((a * q1 * (k + 1)) * (20 * p1 * (k + 1)) == right * q1) by (nonlinear_arith)
        requires
            right == 20 * a * p1 * ((k + 1) * (k + 1)),
    ;
    assert(left <= right) by (nonlinear_arith)
        requires
            left * q1 <= right * q1,
            q1 > 0,
    ;
}

proof fn lemma_chain_down(a: int, b: int, q0: int, q1: int, p0: int, p1: int, k: int)
    requires
        a >= 0,
        b > 0,
        q0 >= 0,
        q1 > 0,
        p0 >= 0,
        p1 > 0,
        k > 1,
        q0 * b * k >= a * q1 * (k - 1),
        p0 * q1 * k >= (20 * q0) * p1 * (k - 1),
    ensures
        p0 * b * (k * k) >= 20 * a * p1 * ((k - 1) * (k - 1)),
{
    assert((p0 * q1 * k) * (b * k) >= ((20 * q0) * p1 * (k - 1)) * (b * k)) by (nonlinear_arith)
        requires
            p0 * q1 * k >= (20 * q0) * p1 * (k - 1),
            b > 0,
            k > 1,
    ;
    assert((q0 * b * k) * (20 * p1 * (k - 1)) >= (a * q1 * (k - 1)) * (20 * p1 * (k - 1)))
        by (nonlinear_arith)
        requires
            q0 * b * k >= a * q1 * (k - 1),
            p1 > 0,
            k > 1,
    ;
    assert(((20 * q0) * p1 * (k - 1)) * (b * k) == (q0 * b * k) * (20 * p1 * (k - 1)))
        by (nonlinear_arith);
    let left = p0 * b * (k * k);
    let right = 20 * a * p1 * ((k - 1) * (k - 1));
    assert((p0 * q1 * k) * (b * k) == left * q1) by (nonlinear_arith)
        requires
            left == p0 * b * (k * k),
    ;
    assert((a * q1 * (k - 1)) * (20 * p1 * (k - 1)) == right * q1) by (nonlinear_arith)
        requires
            right == 20 * a * p1 * ((k - 1) * (k - 1)),
    ;
    assert(left >= right) by (nonlinear_arith)
        requires
            left * q1 >= right * q1,
            q1 > 0,
    ;
}

proof fn lemma_near_floor(a: int, b: int, p0: int, p1: int, k: int, f: int, r: int)
    requires
        0 <= a <= b < 0x4_0000,
        b > 0,
        p0 >= 0,
        p1 > 0,
        k == 0x100_0000,
        20 * a == b * f + r,
        0 <= r < b,
        p0 * b * (k * k) <= 20 * a * p1 * ((k + 1) * (k + 1)),
        p0 * b * (k * k) >= 20 * a * p1 * ((k - 1) * (k - 1)),
    ensures
        p0 < (f + 1) * p1,
        r != 0 ==> p0 >= f * p1,
        p0 >= (f - 1) * p1,
{
    let up = (f + 1) * b;
    assert(up == 20 * a + (b - r)) by (nonlinear_arith)
        requires
            up == (f + 1) * b,
            20 * a == b * f + r,
    ;
    let bk = b * (k * k);
    assert(bk > 0) by (nonlinear_arith)
        requires
            b > 0,
            k > 0,
            bk == b * (k * k),
    ;
    // 20 a (k + 1)² < (f + 1) b k²
    assert(20 * a * ((k + 1) * (k + 1)) < up * (k * k)) by {
        assert((k + 1) * (k + 1) == k * k + 2 * k + 1) by (nonlinear_arith);
        assert(20 * a * (k * k + 2 * k + 1) == 20 * a * (k * k) + 20 * a * (2 * k + 1))
            by (nonlinear_arith);
        assert((20 * a + (b - r)) * (k * k) == 20 * a * (k * k) + (b - r) * (k * k))
            by (nonlinear_arith);
        assert(20 * a * (2 * k + 1) < k * k);
        assert((b - r) * (k * k) >= k * k) by (nonlinear_arith)
            requires
                b - r >= 1,
                k > 0,
        ;
    }
    let x = 20 * a * ((k + 1) * (k + 1));
    let y = up * (k * k);
    assert(x * p1 < y * p1) by (nonlinear_arith)
        requires
            x < y,
            p1 > 0,
    ;
    assert(20 * a * p1 * ((k + 1) * (k + 1)) == x * p1) by (nonlinear_arith)
        requires
            x == 20 * a * ((k + 1) * (k + 1)),
    ;
    assert(y * p1 == ((f + 1) * p1) * bk) by (nonlinear_arith)
        requires
            y == up * (k * k),
            up == (f + 1) * b,
            bk == b * (k * k),
    ;
    assert(p0 * b * (k * k) == p0 * bk) by (nonlinear_arith)
        requires
            bk == b * (k * k),
    ;
    let top = (f + 1) * p1;
    assert(p0 < top) by (nonlinear_arith)
        requires
            p0 * bk < top * bk,
            bk > 0,
    ;
    // 20 a (k - 1)² against f b k² and (f - 1) b k²
    let z = 20 * a * ((k - 1) * (k - 1));
    assert(20 * a * p1 * ((k - 1) * (k - 1)) == z * p1) by (nonlinear_arith)
        requires
            z == 20 * a * ((k - 1) * (k - 1)),
    ;
    assert(z == 20 * a * (k * k) - 20 * a * (2 * k - 1)) by (nonlinear_arith)
        requires
            z == 20 * a * ((k - 1) * (k - 1)),
    ;
    assert(20 * a * (2 * k - 1) <= k * k);
    let fb = f * b;
    assert(fb == 20 * a - r) by (nonlinear_arith)
        requires
            fb == f * b,
            20 * a == b * f + r,
    ;
    if r != 0 {
        assert(z >= fb * (k * k)) by (nonlinear_arith)
            requires
                z == 20 * a * (k * k) - 20 * a * (2 * k - 1),
                20 * a * (2 * k - 1) <= k * k,
                fb == 20 * a - r,
                r >= 1,
        ;
        let w = fb * (k * k);
        assert(z * p1 >= w * p1) by (nonlinear_arith)
            requires
                z >= w,
                p1 > 0,
        ;
        let low = f * p1;
        assert(w * p1 == low * bk) by (nonlinear_arith)
            requires
                w == fb * (k * k),
                fb == f * b,
                low == f * p1,
                bk == b * (k * k),
        ;
        assert(p0 >= low) by (nonlinear_arith)
            requires
                p0 * bk >= low * bk,
                bk > 0,
        ;
        assert((f - 1) * p1 <= f * p1) by (nonlinear_arith)
            requires
                p1 > 0,
        ;
    } else {
        let gb = (f - 1) * b;
        assert(gb == 20 * a - b) by (nonlinear_arith)
            requires
                gb == (f - 1) * b,
                fb == f * b,
                fb == 20 * a,
        ;
        assert(z >= gb * (k * k)) by (nonlinear_arith)
            requires
                z == 20 * a * (k * k) - 20 * a * (2 * k - 1),
                20 * a * (2 * k - 1) <= k * k,
                gb == 20 * a - b,
                b >= 1,
        ;
        let w = gb * (k * k);
        assert(z * p1 >= w * p1) by (nonlinear_arith)
            requires
                z >= w,
                p1 > 0,
        ;
        let low = (f - 1) * p1;
        assert(w * p1 == low * bk) by (nonlinear_arith)
            requires
                w == gb * (k * k),
                gb == (f - 1) * b,
                low == (f - 1) * p1,
                bk == b * (k * k),
        ;
        assert(p0 >= low) by (nonlinear_arith)
            requires
                p0 * bk >= low * bk,
                bk > 0,
        ;
    }
}

proof fn lemma_rounded_half(n: nat)
    requires
        0 < n < LIMIT,
    ensures
        2 * rounded(n, 2).0 == n * rounded(n, 2).1,
{
    lemma_rounded_whole(n, 2);
    let v = rounded(2 * n, 2);
    assert(n * 2 == 2 * n);
    assert(2 * v.0 == n * (2 * v.1)) by (nonlinear_arith)
        requires
            v.0 == n * v.1,
    ;
}

/// Where there are `k` calls for each turn, `k` over five, one and a half times `k - 5` is taken
/// off, rounded down; where there are five or less, nothing.
pub proof fn law_whole_ratio(k: nat, b: nat)
    requires
        b > 0,
        k * b < LIMIT,
        3 * k < LIMIT,
    ensures
        k > 5 ==> excess_over_five(k * b, b) == 3 * (k - 5) / 2,
        k <= 5 ==> excess_over_five(k * b, b) == 0,
{
    assert(k > 0 ==> b < LIMIT) by (nonlinear_arith)
        requires
            k * b < LIMIT,
            b > 0,
    ;
    let q = quotient(k * b, b);
    if k == 0 {
        assert(k * b == 0) by (nonlinear_arith)
            requires
                k == 0,
        ;
        let y = rounded(b, 1);
        assert(0 * y.1 == 0) by (nonlinear_arith);
        assert(q == (0nat, 1nat));
    } else {
        lemma_quotient_exact(k * b, b);
        lemma_rounded_whole(k, b);
        lemma_rounded_positive(k * b, b);
        assert((q.0 > 5 * q.1) == (k > 5)) by (nonlinear_arith)
            requires
                q.0 == k * q.1,
                q.1 > 0,
        ;
        if k > 5 {
            let n = (k - 5) as nat;
            assert(q.0 - 5 * q.1 == n * q.1) by (nonlinear_arith)
                requires
                    q.0 == k * q.1,
                    n == k - 5,
            ;
            lemma_rounded_whole(n, q.1);
            lemma_rounded_positive(n * q.1, q.1);
            let r = rounded(n * q.1, q.1);
            assert(3 * r.0 == r.1 * (3 * n)) by (nonlinear_arith)
                requires
                    r.0 == n * r.1,
            ;
            assert(2 * r.1 == r.1 * 2);
            lemma_rounded_scaled(3 * n, 2, r.1);
            let p = rounded(3 * n, 2);
            lemma_rounded_half(3 * n);
            lemma_rounded_positive(3 * n, 2);
            assert(p.0 / p.1 == (3 * n) / 2) by (nonlinear_arith)
                requires
                    2 * p.0 == (3 * n) * p.1,
                    p.1 > 0,
            ;
        }
    }
}

} // verus!
