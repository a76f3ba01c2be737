//! Fixed-point scalar arithmetic: an `i64` carries a real value scaled by
//! `SCALE` (2^16). Multiplication and division rescale and truncate toward
//! zero; the spec functions here state that rounding exactly.

use vstd::prelude::*;

verus! {

/// Number of fixed-point quanta in 1.0.
pub const SCALE: i64 = 65536;

/// Truncated (round-toward-zero) division by a positive divisor, the
/// semantics of Rust's `/` on signed integers.
pub open spec fn tdiv(a: int, b: int) -> int
    recommends
        b > 0,
{
    if a >= 0 {
        a / b
    } else {
        -((-a) / b)
    }
}

/// Fixed-point product: the integer product rescaled, truncated toward zero.
pub open spec fn fmul_s(a: int, b: int) -> int {
    tdiv(a * b, SCALE as int)
}

/// Fixed-point quotient by a positive divisor.
pub open spec fn fdiv_s(a: int, b: int) -> int
    recommends
        b > 0,
{
    tdiv(a * SCALE, b)
}

/// Floor integer square root.
pub open spec fn isqrt_s(n: nat) -> nat
    decreases n,
{
    if n == 0 {
        0
    } else {
        let s = 2 * isqrt_s(n / 4);
        if (s + 1) * (s + 1) <= n {
            s + 1
        } else {
            s
        }
    }
}

/// Fixed-point square root of a non-negative fixed-point value.
pub open spec fn sqrt_fx_s(x: int) -> int
    recommends
        x >= 0,
{
    isqrt_s((x * SCALE) as nat) as int
}

pub proof fn lemma_isqrt(n: nat)
    ensures
        isqrt_s(n) * isqrt_s(n) <= n,
        n < (isqrt_s(n) + 1) * (isqrt_s(n) + 1),
    decreases n,
{
    if n == 0 {
        assert(isqrt_s(0) == 0);
        assert(n < (isqrt_s(n) + 1) * (isqrt_s(n) + 1)) by (nonlinear_arith)
            requires
                n == 0,
                isqrt_s(n) == 0,
        ;
    } else {
        let m = n / 4;
        lemma_isqrt(m);
        let r = isqrt_s(m);
        let s = 2 * r;
        assert(4 * m <= n <= 4 * m + 3) by {
            vstd::arithmetic::div_mod::lemma_fundamental_div_mod(n as int, 4);
            vstd::arithmetic::div_mod::lemma_mod_bound(n as int, 4);
        };
        assert(s * s <= 4 * m) by (nonlinear_arith)
            requires
                r * r <= m,
                s == 2 * r,
        ;
        assert(n < (s + 2) * (s + 2)) by (nonlinear_arith)
            requires
                m < (r + 1) * (r + 1),
                s == 2 * r,
                n <= 4 * m + 3,
        ;
        if (s + 1) * (s + 1) <= n {
            assert(isqrt_s(n) == s + 1);
            assert(isqrt_s(n) * isqrt_s(n) <= n);
            assert(n < (isqrt_s(n) + 1) * (isqrt_s(n) + 1)) by (nonlinear_arith)
                requires
                    isqrt_s(n) == s + 1,
                    n < (s + 2) * (s + 2),
            ;
        } else {
            assert(isqrt_s(n) == s);
            assert(isqrt_s(n) * isqrt_s(n) <= n);
            assert(n < (isqrt_s(n) + 1) * (isqrt_s(n) + 1));
        }
    }
}

/// The floor square root is unique: any `a` sitting under `n` and over it at
/// `a + 1` is `isqrt_s(n)`.
pub proof fn lemma_isqrt_unique(n: nat, a: nat)
    requires
        a * a <= n,
        n < (a + 1) * (a + 1),
    ensures
        a == isqrt_s(n),
{
    lemma_isqrt(n);
    let b = isqrt_s(n);
    assert(a == b) by (nonlinear_arith)
        requires
            a * a <= n,
            n < (a + 1) * (a + 1),
            b * b <= n,
            n < (b + 1) * (b + 1),
    ;
}

/// Exec fixed-point multiply. The wide product always fits in `i128`; the
/// caller guarantees the rescaled result fits back in an `i64`.
pub fn fmul(a: i64, b: i64) -> (r: i64)
    requires
        -0x7fff_ffff_ffff_ffff <= fmul_s(a as int, b as int) <= 0x7fff_ffff_ffff_ffff,
    ensures
        r as int == fmul_s(a as int, b as int),
{
    proof {
        assert((a as int) * (b as int) <= 0x4000_0000_0000_0000_0000_0000_0000_0000
            && -0x4000_0000_0000_0000_0000_0000_0000_0000 <= (a as int) * (b as int))
            by (nonlinear_arith)
            requires
                -0x8000_0000_0000_0000 <= a as int <= 0x7fff_ffff_ffff_ffff,
                -0x8000_0000_0000_0000 <= b as int <= 0x7fff_ffff_ffff_ffff,
        ;
    }
    let p: i128 = (a as i128) * (b as i128);
    let q: i128 = if p >= 0 {
        ((p as u128) / 65536) as i128
    } else {
        -((((-p) as u128) / 65536) as i128)
    };
    q as i64
}

/// Exec fixed-point divide by a positive divisor.
pub fn fdiv(a: i64, b: i64) -> (r: i64)
    requires
        b > 0,
        -0x7fff_ffff_ffff_ffff <= fdiv_s(a as int, b as int) <= 0x7fff_ffff_ffff_ffff,
    ensures
        r as int == fdiv_s(a as int, b as int),
{
    let p: i128 = (a as i128) * (SCALE as i128);
    let q: i128 = if p >= 0 {
        ((p as u128) / (b as u128)) as i128
    } else {
        -((((-p) as u128) / (b as u128)) as i128)
    };
    q as i64
}

/// Exec fixed-point square root: floor of the square root of `x` interpreted
/// as a fixed-point value, returned in the same scale.
pub fn sqrt_fx(x: i64) -> (r: i64)
    requires
        0 <= x,
    ensures
        r as int == sqrt_fx_s(x as int),
        0 <= r,
        (r as int) * (r as int) <= (x as int) * (SCALE as int),
        (x as int) * (SCALE as int) < ((r as int) + 1) * ((r as int) + 1),
{
    let n: u128 = (x as u128) * 65536;
    if n == 0 {
        proof {
            assert(isqrt_s(0) == 0);
        }
        return 0;
    }
    let mut lo: u128 = 0;
    let mut hi: u128 = 0x1000_0000_0000;
    proof {
        assert((n as int) < (hi as int) * (hi as int)) by (nonlinear_arith)
            requires
                n as int <= 0x7fff_ffff_ffff_ffff * 65536,
                hi == 0x1000_0000_0000,
        ;
    }
    while lo + 1 < hi
        invariant
            (lo as int) * (lo as int) <= n as int,
            (n as int) < (hi as int) * (hi as int),
            lo < hi,
            hi <= 0x1000_0000_0000,
        decreases hi - lo,
    {
        let mid: u128 = lo + (hi - lo) / 2;
        proof {
            assert((mid as int) * (mid as int) <= 0x1000_0000_0000 * 0x1000_0000_0000)
                by (nonlinear_arith)
                requires
                    0 <= mid as int <= 0x1000_0000_0000,
            ;
        }
        let sq: u128 = mid * mid;
        if sq <= n {
            lo = mid;
        } else {
            hi = mid;
        }
    }
    proof {
        assert(hi == lo + 1);
        lemma_isqrt_unique(n as nat, lo as nat);
        assert((x as int) * (SCALE as int) == n as int);
    }
    lo as i64
}

/// Bound on the floor square root: if `n <= b*b` then `isqrt_s(n) <= b`.
pub proof fn lemma_isqrt_le(n: nat, b: nat)
    requires
        n <= b * b,
    ensures
        isqrt_s(n) <= b,
{
    lemma_isqrt(n);
    let r = isqrt_s(n);
    assert(r <= b) by (nonlinear_arith)
        requires
            r * r <= n,
            n <= b * b,
    ;
}

/// Range bound for the fixed-point product from ranges of its factors.
pub proof fn lemma_fmul_range(a: int, b: int, ca: int, cb: int)
    requires
        -ca <= a <= ca,
        -cb <= b <= cb,
        0 <= ca,
        0 <= cb,
    ensures
        -tdiv(ca * cb, SCALE as int) <= fmul_s(a, b) <= tdiv(ca * cb, SCALE as int),
{
    assert(-(ca * cb) <= a * b <= ca * cb) by (nonlinear_arith)
        requires
            -ca <= a <= ca,
            -cb <= b <= cb,
            0 <= ca,
            0 <= cb,
    ;
    lemma_tdiv_range(a * b, ca * cb, SCALE as int);
}

/// Range bound for truncated division: shrinking the numerator's magnitude
/// never grows the quotient's.
pub proof fn lemma_tdiv_range(m: int, c: int, d: int)
    requires
        -c <= m <= c,
        0 <= c,
        0 < d,
    ensures
        -tdiv(c, d) <= tdiv(m, d) <= tdiv(c, d),
{
    if m >= 0 {
        vstd::arithmetic::div_mod::lemma_div_is_ordered(m, c, d);
        vstd::arithmetic::div_mod::lemma_div_pos_is_pos(m, d);
        vstd::arithmetic::div_mod::lemma_div_pos_is_pos(c, d);
    } else {
        vstd::arithmetic::div_mod::lemma_div_is_ordered(-m, c, d);
        vstd::arithmetic::div_mod::lemma_div_pos_is_pos(-m, d);
        vstd::arithmetic::div_mod::lemma_div_pos_is_pos(c, d);
    }
}

/// Truncated division recovers an exact multiple.
pub proof fn lemma_tdiv_exact(q: int, d: int)
    requires
        d > 0,
    ensures
        tdiv(q * d, d) == q,
{
    if q >= 0 {
        assert(q * d >= 0) by (nonlinear_arith)
            requires
                q >= 0,
                d > 0,
        ;
        assert(q * d / d == q) by (nonlinear_arith)
            requires
                d > 0,
        ;
    } else {
        assert(q * d < 0) by (nonlinear_arith)
            requires
                q < 0,
                d > 0,
        ;
        assert(-(q * d) == (-q) * d) by (nonlinear_arith);
        assert((-q) * d / d == -q) by (nonlinear_arith)
            requires
                d > 0,
        ;
    }
}


/// Range bound for the fixed-point quotient: with a divisor of at least one
/// and a bounded numerator, the result fits in an `i64`.
pub proof fn lemma_fdiv_range(a: int, b: int, c: int)
    requires
        -c <= a <= c,
        0 <= c <= 0x7fff_ffff_ffff,
        1 <= b,
    ensures
        -0x7fff_ffff_ffff_ffff <= fdiv_s(a, b) <= 0x7fff_ffff_ffff_ffff,
{
    assert(-(c * SCALE) <= a * SCALE <= c * SCALE) by (nonlinear_arith)
        requires
            -c <= a <= c,
            SCALE == 65536,
    ;
    lemma_tdiv_range(a * SCALE, c * SCALE, b);
    assert(0 <= c * (SCALE as int)) by (nonlinear_arith)
        requires
            0 <= c,
    ;
    let m: int = c * (SCALE as int);
    vstd::arithmetic::div_mod::lemma_div_is_ordered_by_denominator(m, 1, b);
    vstd::arithmetic::div_mod::lemma_fundamental_div_mod(m, 1);
    vstd::arithmetic::div_mod::lemma_mod_bound(m, 1);
    assert(c * SCALE <= 0x7fff_ffff_ffff * 65536) by (nonlinear_arith)
        requires
            c <= 0x7fff_ffff_ffff,
            SCALE == 65536,
    ;
}

/// Multiplying by one in fixed point is exact.
pub proof fn lemma_fmul_one(a: int)
    ensures
        fmul_s(a, SCALE as int) == a,
        fmul_s(SCALE as int, a) == a,
{
    if a >= 0 {
        assert(a * SCALE / (SCALE as int) == a) by (nonlinear_arith);
        assert((SCALE as int) * a / (SCALE as int) == a) by (nonlinear_arith);
    } else {
        assert((-(a * (SCALE as int))) == (-a) * (SCALE as int)) by (nonlinear_arith);
        assert((-a) * (SCALE as int) / (SCALE as int) == -a) by (nonlinear_arith);
        assert((-((SCALE as int) * a)) == (SCALE as int) * (-a)) by (nonlinear_arith);
        assert((SCALE as int) * (-a) / (SCALE as int) == -a) by (nonlinear_arith);
    }
}

/// Multiplying by zero in fixed point is exactly zero.
pub proof fn lemma_fmul_zero(a: int)
    ensures
        fmul_s(a, 0) == 0,
        fmul_s(0, a) == 0,
{
    assert(a * 0 == 0) by (nonlinear_arith);
    assert(0 * a == 0) by (nonlinear_arith);
}

/// Truncated division is monotone in the numerator.
pub proof fn lemma_tdiv_mono(m1: int, m2: int, d: int)
    requires
        m1 <= m2,
        0 < d,
    ensures
        tdiv(m1, d) <= tdiv(m2, d),
{
    if m1 >= 0 {
        vstd::arithmetic::div_mod::lemma_div_is_ordered(m1, m2, d);
    } else if m2 < 0 {
        vstd::arithmetic::div_mod::lemma_div_is_ordered(-m2, -m1, d);
    } else {
        vstd::arithmetic::div_mod::lemma_div_pos_is_pos(m2, d);
        vstd::arithmetic::div_mod::lemma_div_pos_is_pos(-m1, d);
    }
}

/// Multiplying by negative one in fixed point is exact.
pub proof fn lemma_fmul_neg_one(a: int)
    ensures
        fmul_s(a, -(SCALE as int)) == -a,
        fmul_s(-(SCALE as int), a) == -a,
{
    assert(a * (-(SCALE as int)) == (-a) * (SCALE as int)) by (nonlinear_arith);
    assert((-(SCALE as int)) * a == (-a) * (SCALE as int)) by (nonlinear_arith);
    lemma_tdiv_exact(-a, SCALE as int);
}

/// A fixed-point product with a factor in `[0, 1]` never exceeds the other
/// factor.
pub proof fn lemma_fmul_le_left(a: int, b: int)
    requires
        0 <= a,
        0 <= b <= SCALE as int,
    ensures
        0 <= fmul_s(a, b) <= a,
{
    assert(0 <= a * b <= a * (SCALE as int)) by (nonlinear_arith)
        requires
            0 <= a,
            0 <= b <= SCALE as int,
    ;
    vstd::arithmetic::div_mod::lemma_div_pos_is_pos(a * b, SCALE as int);
    vstd::arithmetic::div_mod::lemma_div_is_ordered(a * b, a * (SCALE as int), SCALE as int);
    lemma_tdiv_exact(a, SCALE as int);
}

/// A fixed-point product of factors in `[0, 1]` stays in `[0, 1]`.
pub proof fn lemma_fmul_unit_interval(a: int, b: int)
    requires
        0 <= a <= SCALE as int,
        0 <= b <= SCALE as int,
    ensures
        0 <= fmul_s(a, b) <= SCALE as int,
{
    assert(0 <= a * b <= (SCALE as int) * (SCALE as int)) by (nonlinear_arith)
        requires
            0 <= a <= SCALE as int,
            0 <= b <= SCALE as int,
    ;
    vstd::arithmetic::div_mod::lemma_div_pos_is_pos(a * b, SCALE as int);
    vstd::arithmetic::div_mod::lemma_div_is_ordered(a * b, (SCALE as int) * (SCALE as int), SCALE as int);
    assert((SCALE as int) * (SCALE as int) / (SCALE as int) == SCALE as int) by (nonlinear_arith);
}

} // verus!
