//! Fixed-point scalars: an `i64` raw value stands for the real number
//! `raw / SCALE`. All rounding is truncation toward zero, so negation
//! commutes with every operation and contracts can state results exactly.

use vstd::arithmetic::div_mod::lemma_div_is_ordered;
use vstd::prelude::*;

verus! {

/// Number of raw units in 1.0.
pub const SCALE: i64 = 65536;

/// Absolute value.
pub open spec fn sabs(a: int) -> int {
    if a >= 0 {
        a
    } else {
        -a
    }
}

/// Truncating division (toward zero) for a positive divisor.
/// This is the rounding used by every fixed-point operation.
pub open spec fn tdiv(a: int, b: int) -> int
    recommends
        b > 0,
{
    if a >= 0 {
        a / b
    } else {
        -((-a) / b)
    }
}

/// Fixed-point product: `(a * b) / SCALE`, truncated toward zero.
pub open spec fn fmul(a: int, b: int) -> int {
    tdiv(a * b, SCALE as int)
}

/// Fixed-point quotient: `(a * SCALE) / b`, truncated toward zero.
pub open spec fn fdiv(a: int, b: int) -> int
    recommends
        b > 0,
{
    tdiv(a * SCALE as int, b)
}

/// Largest integer whose square does not exceed `n`, by the classical
/// base-4 digit recursion.
pub open spec fn sqrt_floor(n: nat) -> nat
    decreases n,
{
    if n < 1 {
        0
    } else {
        let s = 2 * sqrt_floor(n / 4);
        if (s + 1) * (s + 1) <= n {
            s + 1
        } else {
            s
        }
    }
}

/// Square root of a fixed-point value: `sqrt(a / SCALE) * SCALE`, rounded
/// down, equals `sqrt_floor(a * SCALE)`.
pub open spec fn fsqrt(a: int) -> int
    recommends
        a >= 0,
{
    sqrt_floor((a * SCALE as int) as nat) as int
}

/// `sqrt_floor` returns exactly the floor of the square root.
pub proof fn lemma_sqrt_floor(n: nat)
    ensures
        sqrt_floor(n) * sqrt_floor(n) <= n,
        n < (sqrt_floor(n) + 1) * (sqrt_floor(n) + 1),
    decreases n,
{
    if n < 1 {
        assert(sqrt_floor(n) == 0);
        assert(n < (sqrt_floor(n) + 1) * (sqrt_floor(n) + 1)) by (nonlinear_arith)
            requires
                n == 0,
                sqrt_floor(n) == 0,
        ;
    } else {
        lemma_sqrt_floor(n / 4);
        let r = sqrt_floor(n / 4);
        let s = 2 * r;
        assert(4 * (n / 4) <= n && n <= 4 * (n / 4) + 3) by (nonlinear_arith);
        assert(s * s <= n) by (nonlinear_arith)
            requires
                r * r <= n / 4,
                s == 2 * r,
                4 * (n / 4) <= n,
        ;
        assert(n < (s + 2) * (s + 2)) by (nonlinear_arith)
            requires
                n / 4 < (r + 1) * (r + 1),
                s == 2 * r,
                n <= 4 * (n / 4) + 3,
        ;
        if (s + 1) * (s + 1) <= n {
            assert(sqrt_floor(n) == s + 1);
            assert(sqrt_floor(n) * sqrt_floor(n) <= n);
            assert(n < (sqrt_floor(n) + 1) * (sqrt_floor(n) + 1));
        } else {
            assert(sqrt_floor(n) == s);
            assert(sqrt_floor(n) * sqrt_floor(n) <= n);
            assert(n < (sqrt_floor(n) + 1) * (sqrt_floor(n) + 1));
        }
    }
}

/// Any integer bracketing `n` between consecutive squares is its floor root.
pub proof fn lemma_sqrt_floor_unique(n: nat, r: nat)
    requires
        r * r <= n,
        n < (r + 1) * (r + 1),
    ensures
        r == sqrt_floor(n),
{
    lemma_sqrt_floor(n);
    let q = sqrt_floor(n);
    assert(r == q) by (nonlinear_arith)
        requires
            r * r <= n,
            n < (r + 1) * (r + 1),
            q * q <= n,
            n < (q + 1) * (q + 1),
    ;
}

/// `sqrt_floor` never decreases.
pub proof fn lemma_sqrt_floor_monotone(m: nat, n: nat)
    requires
        m <= n,
    ensures
        sqrt_floor(m) <= sqrt_floor(n),
{
    lemma_sqrt_floor(m);
    lemma_sqrt_floor(n);
    let a = sqrt_floor(m);
    let b = sqrt_floor(n);
    assert(a <= b) by (nonlinear_arith)
        requires
            a * a <= m,
            m < (a + 1) * (a + 1),
            b * b <= n,
            n < (b + 1) * (b + 1),
            m <= n,
    ;
}

/// Truncating division is monotone in the dividend.
pub proof fn lemma_tdiv_ordered(a1: int, a2: int, b: int)
    requires
        a1 <= a2,
        b > 0,
    ensures
        tdiv(a1, b) <= tdiv(a2, b),
{
    if a1 >= 0 {
        lemma_div_is_ordered(a1, a2, b);
    } else if a2 < 0 {
        lemma_div_is_ordered(-a2, -a1, b);
    } else {
        assert((-a1) / b >= 0 && a2 / b >= 0) by (nonlinear_arith)
            requires
                b > 0,
                a1 < 0,
                a2 >= 0,
        ;
    }
}

/// The magnitude of a truncating quotient is bounded by the quotient of
/// a bound on the dividend's magnitude.
pub proof fn lemma_tdiv_abs_bound(a: int, b: int, m: int)
    requires
        b > 0,
        sabs(a) <= m,
    ensures
        sabs(tdiv(a, b)) <= m / b,
        sabs(tdiv(a, b)) <= m,
{
    assert(sabs(tdiv(a, b)) == tdiv(sabs(a), b));
    lemma_tdiv_ordered(sabs(a), m, b);
    assert(m / b <= m) by (nonlinear_arith)
        requires
            b > 0,
            m >= 0,
    ;
}

/// Bound on a fixed-point product from bounds on its factors.
pub proof fn lemma_fmul_abs_bound(a: int, b: int, m1: int, m2: int)
    requires
        sabs(a) <= m1,
        sabs(b) <= m2,
    ensures
        sabs(fmul(a, b)) <= m1 * m2 / SCALE as int,
        sabs(fmul(a, b)) <= m1 * m2,
{
    assert(sabs(a * b) <= m1 * m2) by (nonlinear_arith)
        requires
            sabs(a) <= m1,
            sabs(b) <= m2,
    ;
    lemma_tdiv_abs_bound(a * b, SCALE as int, m1 * m2);
}

/// A truncating quotient, multiplied back, misses the dividend by less
/// than the divisor.
pub proof fn lemma_tdiv_mul_error(a: int, b: int)
    requires
        b > 0,
    ensures
        sabs(tdiv(a, b) * b - a) < b,
{
    if a >= 0 {
        vstd::arithmetic::div_mod::lemma_fundamental_div_mod(a, b);
        assert(tdiv(a, b) * b == b * (a / b)) by (nonlinear_arith)
            requires
                a >= 0,
                b > 0,
        ;
    } else {
        vstd::arithmetic::div_mod::lemma_fundamental_div_mod(-a, b);
        assert(tdiv(a, b) * b == -(b * ((-a) / b))) by (nonlinear_arith)
            requires
                a < 0,
                b > 0,
        ;
    }
}

/// Dividing an exact multiple is exact, whatever the sign.
pub proof fn lemma_tdiv_multiple(a: int, b: int)
    requires
        b > 0,
    ensures
        tdiv(a * b, b) == a,
{
    if a >= 0 {
        vstd::arithmetic::div_mod::lemma_div_multiples_vanish(a, b);
        assert(a * b == b * a) by (nonlinear_arith);
    } else {
        vstd::arithmetic::div_mod::lemma_div_multiples_vanish(-a, b);
        assert(-(a * b) == b * (-a)) by (nonlinear_arith);
    }
}

/// Multiplying by zero gives zero, on either side.
pub proof fn lemma_fmul_zero(k: int)
    ensures
        fmul(0, k) == 0,
        fmul(k, 0) == 0,
{
    assert(0 * k == 0 && k * 0 == 0) by (nonlinear_arith);
}

/// Multiplying by one is the identity, on either side.
pub proof fn lemma_fmul_one(a: int)
    ensures
        fmul(a, SCALE as int) == a,
        fmul(SCALE as int, a) == a,
{
    lemma_tdiv_multiple(a, SCALE as int);
    assert(a * SCALE as int == SCALE as int * a) by (nonlinear_arith);
}

/// The square root of 1 is 1.
pub proof fn lemma_fsqrt_one()
    ensures
        fsqrt(SCALE as int) == SCALE as int,
{
    assert(0x10000nat * 0x10000 == 0x100000000 && (0x10000nat + 1) * (0x10000nat + 1)
        == 0x100020001) by (nonlinear_arith);
    lemma_sqrt_floor_unique(0x100000000nat, 0x10000nat);
    assert((SCALE as int * SCALE as int) as nat == 0x100000000nat);
}

/// A product of two factors from `[0, 1]` stays in `[0, 1]`.
pub proof fn lemma_fmul_unit_interval(a: int, b: int)
    requires
        0 <= a <= SCALE as int,
        0 <= b <= SCALE as int,
    ensures
        0 <= fmul(a, b) <= SCALE as int,
{
    assert(0 <= a * b <= 0x10000 * 0x10000int) by (nonlinear_arith)
        requires
            0 <= a <= 0x10000,
            0 <= b <= 0x10000,
    ;
    lemma_tdiv_ordered(0, a * b, SCALE as int);
    lemma_tdiv_ordered(a * b, 0x10000 * 0x10000int, SCALE as int);
}

/// Truncating division on machine integers, for a positive divisor.
pub(crate) fn tdiv_i128(a: i128, b: i128) -> (r: i128)
    requires
        b > 0,
        a > i128::MIN,
    ensures
        r == tdiv(a as int, b as int),
{
    if a >= 0 {
        ((a as u128) / (b as u128)) as i128
    } else {
        let m: u128 = ((-a) as u128) / (b as u128);
        -(m as i128)
    }
}

/// Truncating division on `i64`, for a positive divisor.
pub fn tdiv_i64(a: i64, b: i64) -> (r: i64)
    requires
        b > 0,
        a > i64::MIN,
    ensures
        r == tdiv(a as int, b as int),
{
    if a >= 0 {
        ((a as u64) / (b as u64)) as i64
    } else {
        let m: u64 = ((-a) as u64) / (b as u64);
        -(m as i64)
    }
}

/// Scale a wide intermediate back down by `SCALE`, truncating toward zero.
pub fn tdiv_scale(p: i128) -> (r: i64)
    requires
        p > i128::MIN,
        i64::MIN <= tdiv(p as int, SCALE as int) <= i64::MAX,
    ensures
        r == tdiv(p as int, SCALE as int),
{
    tdiv_i128(p, SCALE as i128) as i64
}

/// Strict upper bound for a fixed-point square root.
pub proof fn lemma_fsqrt_upper(a: int, b: int)
    requires
        0 <= a,
        0 <= b,
        a * SCALE < b * b,
    ensures
        fsqrt(a) < b,
{
    lemma_sqrt_floor((a * SCALE as int) as nat);
    let q = sqrt_floor((a * SCALE as int) as nat);
    assert(q < b) by (nonlinear_arith)
        requires
            q * q <= a * (SCALE as int),
            a * (SCALE as int) < b * b,
            q >= 0,
            b >= 0,
    ;
}

/// Fixed-point multiplication, exact per `fmul`.
pub fn fx_mul(a: i64, b: i64) -> (r: i64)
    requires
        i64::MIN <= fmul(a as int, b as int) <= i64::MAX,
    ensures
        r == fmul(a as int, b as int),
{
    proof {
        assert((a as int) * (b as int) < i128::MAX && (a as int) * (b as int) > i128::MIN)
            by (nonlinear_arith)
            requires
                i64::MIN <= a <= i64::MAX,
                i64::MIN <= b <= i64::MAX,
        ;
    }
    let p: i128 = (a as i128) * (b as i128);
    tdiv_i128(p, SCALE as i128) as i64
}

/// Fixed-point division, exact per `fdiv`; the divisor must be positive.
pub fn fx_div(a: i64, b: i64) -> (r: i64)
    requires
        b > 0,
        i64::MIN <= fdiv(a as int, b as int) <= i64::MAX,
    ensures
        r == fdiv(a as int, b as int),
{
    proof {
        assert((a as int) * (SCALE as int) < i128::MAX && (a as int) * (SCALE as int)
            > i128::MIN) by (nonlinear_arith)
            requires
                i64::MIN <= a <= i64::MAX,
        ;
    }
    let p: i128 = (a as i128) * (SCALE as i128);
    tdiv_i128(p, b as i128) as i64
}

/// Floor square root of a machine integer, by bisection.
pub fn isqrt(x: u128) -> (r: u64)
    requires
        x < 0x40000000000000000000000000000000u128,
    ensures
        r == sqrt_floor(x as nat),
{
    let mut lo: u128 = 0;
    let mut hi: u128 = 0x8000000000000000u128;
    proof {
        assert((0x8000000000000000u128 as int) * (0x8000000000000000u128 as int)
            == 0x40000000000000000000000000000000) by (nonlinear_arith);
    }
    while hi - lo > 1
        invariant
            lo < hi,
            hi <= 0x8000000000000000u128,
            (lo as int) * (lo as int) <= x,
            x < (hi as int) * (hi as int),
        decreases hi - lo,
    {
        let mid: u128 = lo + (hi - lo) / 2;
        proof {
            assert((mid as int) * (mid as int) < 0x40000000000000000000000000000000)
                by (nonlinear_arith)
                requires
                    mid < 0x8000000000000000u128,
            ;
        }
        if mid * mid <= x {
            lo = mid;
        } else {
            hi = mid;
        }
    }
    proof {
        lemma_sqrt_floor_unique(x as nat, lo as nat);
    }
    lo as u64
}

/// Square root of a nonnegative fixed-point value, exact per `fsqrt`.
pub fn fx_sqrt(a: i64) -> (r: i64)
    requires
        a >= 0,
    ensures
        r == fsqrt(a as int),
        0 <= r <= 0x10000000000,
{
    proof {
        assert((a as int) * (SCALE as int) < 0x40000000000000000000000000000000)
            by (nonlinear_arith)
            requires
                0 <= a <= i64::MAX,
        ;
        lemma_sqrt_floor((a * SCALE as int) as nat);
        let q = sqrt_floor((a * SCALE as int) as nat);
        assert(q <= 0x10000000000) by (nonlinear_arith)
            requires
                q * q <= (a as int) * (SCALE as int),
                (a as int) * (SCALE as int) <= 0x80000000000000000000,
        ;
    }
    let p: u128 = (a as u128) * (SCALE as u128);
    isqrt(p) as i64
}

} // verus!
