//! Fixed-point scalar arithmetic.
//!
//! Continuous coordinates are held as `i64` values scaled by [`SCALE`]:
//! a stored value `v` stands for the real number `v / SCALE`. All rounding
//! is truncation toward zero, which [`tdiv`] captures exactly.

use vstd::prelude::*;

verus! {

/// Number of fixed-point units per whole pixel.
pub const SCALE: i64 = 1000;

/// Truncating (toward-zero) division, the rounding used throughout the
/// fixed-point arithmetic of this crate.
pub open spec fn tdiv(a: int, b: int) -> int
    recommends
        b > 0,
{
    if a >= 0 {
        a / b
    } else {
        -((-a) / b)
    }
}

/// Truncating division never grows the magnitude of the dividend.
pub proof fn lemma_tdiv_abs(a: int, b: int)
    requires
        b >= 1,
    ensures
        a >= 0 ==> 0 <= tdiv(a, b) <= a,
        a < 0 ==> a <= tdiv(a, b) <= 0,
{
    if a >= 0 {
        vstd::arithmetic::div_mod::lemma_div_is_ordered_by_denominator(a, 1, b);
        vstd::arithmetic::div_mod::lemma_div_pos_is_pos(a, b);
    } else {
        vstd::arithmetic::div_mod::lemma_div_is_ordered_by_denominator(-a, 1, b);
        vstd::arithmetic::div_mod::lemma_div_pos_is_pos(-a, b);
    }
}

/// If `|a| <= m * b` then `|tdiv(a, b)| <= m`.
pub proof fn lemma_tdiv_scale_bound(a: int, b: int, m: int)
    requires
        b >= 1,
        m >= 0,
        -(m * b) <= a <= m * b,
    ensures
        -m <= tdiv(a, b) <= m,
{
    assert(m * b == b * m) by (nonlinear_arith);
    if a >= 0 {
        vstd::arithmetic::div_mod::lemma_div_is_ordered(a, m * b, b);
        vstd::arithmetic::div_mod::lemma_div_multiples_vanish(m, b);
        vstd::arithmetic::div_mod::lemma_div_pos_is_pos(a, b);
    } else {
        vstd::arithmetic::div_mod::lemma_div_is_ordered(-a, m * b, b);
        vstd::arithmetic::div_mod::lemma_div_multiples_vanish(m, b);
        vstd::arithmetic::div_mod::lemma_div_pos_is_pos(-a, b);
    }
}

/// Truncating division is monotone in the dividend.
pub proof fn lemma_tdiv_mono(a: int, b: int, d: int)
    requires
        a <= b,
        d >= 1,
    ensures
        tdiv(a, d) <= tdiv(b, d),
{
    if a >= 0 {
        vstd::arithmetic::div_mod::lemma_div_is_ordered(a, b, d);
    } else if b < 0 {
        vstd::arithmetic::div_mod::lemma_div_is_ordered(-b, -a, d);
        vstd::arithmetic::div_mod::lemma_div_pos_is_pos(-b, d);
    } else {
        vstd::arithmetic::div_mod::lemma_div_pos_is_pos(-a, d);
        vstd::arithmetic::div_mod::lemma_div_pos_is_pos(b, d);
    }
}

/// Truncating division of `i64` values, computed on magnitudes so that the
/// executable rounding provably matches [`tdiv`].
pub fn tdiv64(a: i64, b: i64) -> (r: i64)
    requires
        b > 0,
        a > i64::MIN,
    ensures
        r == tdiv(a as int, b as int),
{
    if a >= 0 {
        ((a as u64) / (b as u64)) as i64
    } else {
        let m = ((-a) as u64) / (b as u64);
        proof {
            vstd::arithmetic::div_mod::lemma_div_is_ordered_by_denominator(-a as int, 1, b as int);
        }
        -(m as i64)
    }
}

/// Truncating division of `i128` values.
pub fn tdiv128(a: i128, b: i128) -> (r: i128)
    requires
        b > 0,
        a > i128::MIN,
    ensures
        r == tdiv(a as int, b as int),
{
    if a >= 0 {
        ((a as u128) / (b as u128)) as i128
    } else {
        let m = ((-a) as u128) / (b as u128);
        proof {
            vstd::arithmetic::div_mod::lemma_div_is_ordered_by_denominator(
                -a as int,
                1,
                b as int,
            );
        }
        -(m as i128)
    }
}

/// Product of two values bounded by `ma` and `mb` in magnitude is bounded
/// by `ma * mb` in magnitude.
pub proof fn lemma_mul_bounds_abs(a: int, b: int, ma: int, mb: int)
    requires
        -ma <= a <= ma,
        -mb <= b <= mb,
        0 <= ma,
        0 <= mb,
    ensures
        -(ma * mb) <= a * b <= ma * mb,
{
    if a >= 0 && b >= 0 {
        vstd::arithmetic::mul::lemma_mul_upper_bound(a, ma, b, mb);
        vstd::arithmetic::mul::lemma_mul_nonnegative(a, b);
        vstd::arithmetic::mul::lemma_mul_nonnegative(ma, mb);
    } else if a >= 0 && b < 0 {
        vstd::arithmetic::mul::lemma_mul_upper_bound(a, ma, -b, mb);
        vstd::arithmetic::mul::lemma_mul_nonnegative(a, -b);
        vstd::arithmetic::mul::lemma_mul_nonnegative(ma, mb);
        assert(a * (-b) == -(a * b)) by (nonlinear_arith);
    } else if a < 0 && b >= 0 {
        vstd::arithmetic::mul::lemma_mul_upper_bound(-a, ma, b, mb);
        vstd::arithmetic::mul::lemma_mul_nonnegative(-a, b);
        vstd::arithmetic::mul::lemma_mul_nonnegative(ma, mb);
        assert((-a) * b == -(a * b)) by (nonlinear_arith);
    } else {
        vstd::arithmetic::mul::lemma_mul_upper_bound(-a, ma, -b, mb);
        vstd::arithmetic::mul::lemma_mul_nonnegative(-a, -b);
        vstd::arithmetic::mul::lemma_mul_nonnegative(ma, mb);
        assert((-a) * (-b) == a * b) by (nonlinear_arith);
    }
}

/// `tdiv(a * b, d)` with the product carried in 128 bits, so the only
/// range obligation is on the final quotient.
pub fn mul_div(a: i64, b: i64, d: i64) -> (r: i64)
    requires
        d > 0,
        -i64::MAX <= tdiv(a as int * b as int, d as int) <= i64::MAX,
    ensures
        r == tdiv(a as int * b as int, d as int),
{
    proof {
        lemma_mul_bounds_abs(a as int, b as int, i64::MAX as int + 1, i64::MAX as int + 1);
        assert((i64::MAX as int + 1) * (i64::MAX as int + 1) < (i128::MAX as int)) by (nonlinear_arith);
    }
    let p: i128 = (a as i128) * (b as i128);
    let q = tdiv128(p, d as i128);
    q as i64
}

/// Floor integer square root by bisection.
///
/// The result is the greatest integer whose square does not exceed `n`.
pub fn isqrt_u128(n: u128) -> (r: u128)
    ensures
        (r as int) * (r as int) <= n as int,
        (n as int) < (r as int + 1) * (r as int + 1),
{
    if n == 0 {
        return 0;
    }
    let mut lo: u128 = 0;
    let mut hi: u128 = 0x1_0000_0000_0000_0000u128;
    assert((hi as int) * (hi as int) > n as int) by {
        assert((n as int) <= (u128::MAX as int));
        assert(0x1_0000_0000_0000_0000int * 0x1_0000_0000_0000_0000int > u128::MAX as int)
            by (nonlinear_arith);
    };
    while lo + 1 < hi
        invariant
            lo < hi,
            hi <= 0x1_0000_0000_0000_0000u128,
            (lo as int) * (lo as int) <= n as int,
            (hi as int) * (hi as int) > n as int,
        decreases hi - lo,
    {
        let mid = lo + (hi - lo) / 2;
        assert(mid < hi);
        assert((mid as int) * (mid as int) <= u128::MAX as int) by {
            vstd::arithmetic::mul::lemma_mul_upper_bound(
                mid as int,
                0xFFFF_FFFF_FFFF_FFFFint,
                mid as int,
                0xFFFF_FFFF_FFFF_FFFFint,
            );
            assert(0xFFFF_FFFF_FFFF_FFFFint * 0xFFFF_FFFF_FFFF_FFFFint <= u128::MAX as int)
                by (nonlinear_arith);
        };
        if mid * mid <= n {
            lo = mid;
        } else {
            hi = mid;
        }
    }
    lo
}

/// `r` is the floor of the square root of `n`.
pub open spec fn is_sqrt_floor(n: int, r: int) -> bool {
    0 <= r && r * r <= n && n < (r + 1) * (r + 1)
}

/// Floor square root as a mathematical function, pinned down by its
/// defining inequalities.
pub open spec fn sqrt_floor(n: int) -> int
    recommends
        n >= 0,
{
    choose|r: int| is_sqrt_floor(n, r)
}

/// A floor square root exists for every nonnegative integer.
pub proof fn lemma_sqrt_exists(n: int)
    requires
        n >= 0,
    ensures
        exists|r: int| is_sqrt_floor(n, r),
    decreases n,
{
    if n == 0 {
        assert(is_sqrt_floor(n, 0));
    } else {
        lemma_sqrt_exists(n - 1);
        let m = n - 1;
        let r = choose|r: int| is_sqrt_floor(m, r);
        if n < (r + 1) * (r + 1) {
            assert(is_sqrt_floor(n, r));
        } else {
            assert(n == (r + 1) * (r + 1));
            assert(((r + 1) + 1) * ((r + 1) + 1) > n) by (nonlinear_arith)
                requires
                    n == (r + 1) * (r + 1),
                    r >= 0,
            ;
            assert(is_sqrt_floor(n, r + 1));
        }
    }
}

/// The floor square root is unique, so any witness of the defining
/// inequalities equals `sqrt_floor`.
pub proof fn lemma_sqrt_floor_is(n: int, r: int)
    requires
        0 <= r,
        r * r <= n,
        n < (r + 1) * (r + 1),
    ensures
        sqrt_floor(n) == r,
{
    assert(is_sqrt_floor(n, r));
    let s = sqrt_floor(n);
    assert(is_sqrt_floor(n, s));
    if s < r {
        assert((s + 1) * (s + 1) <= r * r) by (nonlinear_arith)
            requires
                0 <= s,
                s < r,
        ;
    }
    if r < s {
        assert((r + 1) * (r + 1) <= s * s) by (nonlinear_arith)
            requires
                0 <= r,
                r < s,
        ;
    }
}

} // verus!
