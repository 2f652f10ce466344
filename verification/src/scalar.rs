//! Fixed-point scalars.
//!
//! Every length, speed, time and colour channel of the simulation is an `i64`
//! counted in millionths: `UNIT` stands for 1.0. A mass is the square of a
//! length and is therefore counted in millionths of a millionth.

use vstd::prelude::*;

verus! {

/// The fixed-point representation of 1.0.
pub const UNIT: i64 = 1_000_000;

/// `r` is the square root of `n`, rounded down.
pub open spec fn is_sqrt_floor(n: int, r: int) -> bool {
    0 <= r && r * r <= n && n < (r + 1) * (r + 1)
}

/// The square root of `n`, rounded down to an integer.
pub open spec fn sqrt_floor(n: int) -> int {
    choose|r: int| is_sqrt_floor(n, r)
}

/// The quotient of `a` by a positive `b`, rounded toward zero.
pub open spec fn div_trunc(a: int, b: int) -> int {
    if a >= 0 {
        a / b
    } else {
        -((-a) / b)
    }
}

/// `value` held between `lo` and `hi`.
pub open spec fn clamp_int(value: int, lo: int, hi: int) -> int {
    if value < lo {
        lo
    } else if value > hi {
        hi
    } else {
        value
    }
}

/// The absolute value of `a`.
pub open spec fn abs_int(a: int) -> int {
    if a >= 0 {
        a
    } else {
        -a
    }
}

/// Every natural number has a rounded-down square root.
proof fn lemma_sqrt_floor_exists(n: int)
    requires
        n >= 0,
    ensures
        exists|r: int| is_sqrt_floor(n, r),
    decreases n,
{
    if n == 0 {
        assert(is_sqrt_floor(0, 0));
    } else {
        lemma_sqrt_floor_exists(n - 1);
        let r = sqrt_floor(n - 1);
        if (r + 1) * (r + 1) <= n {
            assert((r + 1) * (r + 1) < (r + 2) * (r + 2)) by (nonlinear_arith)
                requires
                    r >= 0,
            ;
            assert(is_sqrt_floor(n, r + 1));
        } else {
            assert(is_sqrt_floor(n, r));
        }
    }
}

/// Two rounded-down square roots of one number are equal.
pub proof fn lemma_sqrt_floor_unique(n: int, r: int, s: int)
    requires
        is_sqrt_floor(n, r),
        is_sqrt_floor(n, s),
    ensures
        r == s,
{
    if r < s {
        assert((r + 1) * (r + 1) <= s * s) by (nonlinear_arith)
            requires
                0 <= r,
                r + 1 <= s,
        ;
    } else if s < r {
        assert((s + 1) * (s + 1) <= r * r) by (nonlinear_arith)
            requires
                0 <= s,
                s + 1 <= r,
        ;
    }
}

/// Every natural number has a rounded-down square root, and `sqrt_floor` is it.
pub proof fn lemma_sqrt_floor(n: int)
    requires
        n >= 0,
    ensures
        is_sqrt_floor(n, sqrt_floor(n)),
{
    lemma_sqrt_floor_exists(n);
}

/// A number that passes the test for the rounded-down root is `sqrt_floor`.
pub proof fn lemma_sqrt_floor_is(n: int, r: int)
    requires
        is_sqrt_floor(n, r),
    ensures
        sqrt_floor(n) == r,
{
    lemma_sqrt_floor(n);
    lemma_sqrt_floor_unique(n, r, sqrt_floor(n));
}

/// The rounded-down square root never decreases when its argument grows.
pub proof fn lemma_sqrt_floor_monotone(a: int, b: int)
    requires
        0 <= a <= b,
    ensures
        sqrt_floor(a) <= sqrt_floor(b),
{
    lemma_sqrt_floor(a);
    lemma_sqrt_floor(b);
    let r = sqrt_floor(a);
    let s = sqrt_floor(b);
    if s < r {
        assert((s + 1) * (s + 1) <= r * r) by (nonlinear_arith)
            requires
                0 <= s,
                s + 1 <= r,
        ;
    }
}

/// The rounded-down square root of a perfect square is its root.
pub proof fn lemma_sqrt_floor_square(r: int)
    requires
        r >= 0,
    ensures
        sqrt_floor(r * r) == r,
{
    assert(r * r < (r + 1) * (r + 1)) by (nonlinear_arith)
        requires
            r >= 0,
    ;
    lemma_sqrt_floor_is(r * r, r);
}

/// A product is bounded by the product of the bounds of its factors.
pub proof fn lemma_mul_bounds(a: int, a_max: int, b: int, b_max: int)
    by (nonlinear_arith)
    requires
        -a_max <= a <= a_max,
        -b_max <= b <= b_max,
    ensures
        -(a_max * b_max) <= a * b <= a_max * b_max,
{
}

/// The product of two scalars fits the wide integers: it is at most 2^126
/// in magnitude.
pub proof fn lemma_wide_product(a: i64, b: i64)
    ensures
        -0x4000_0000_0000_0000_0000_0000_0000_0000 <= a * b
            <= 0x4000_0000_0000_0000_0000_0000_0000_0000,
{
    lemma_mul_bounds(a as int, 0x8000_0000_0000_0000, b as int, 0x8000_0000_0000_0000);
    assert(0x8000_0000_0000_0000int * 0x8000_0000_0000_0000int
        == 0x4000_0000_0000_0000_0000_0000_0000_0000int) by (nonlinear_arith);
}

/// Dividing toward zero never grows a number, and keeps its sign.
pub proof fn lemma_div_trunc_bounds(a: int, b: int)
    requires
        b > 0,
    ensures
        a >= 0 ==> 0 <= div_trunc(a, b) <= a,
        a <= 0 ==> a <= div_trunc(a, b) <= 0,
        div_trunc(-a, b) == -div_trunc(a, b),
{
    if a >= 0 {
        assert(0 <= a / b <= a) by (nonlinear_arith)
            requires
                a >= 0,
                b > 0,
        ;
    } else {
        assert(0 <= (-a) / b <= -a) by (nonlinear_arith)
            requires
                a < 0,
                b > 0,
        ;
    }
}

/// Scaling by a ratio of at most one never grows a number, and keeps its
/// sign: `a * num / den` lies between zero and `a` when `0 <= num <= den`.
pub proof fn lemma_ratio_bounds(a: int, num: int, den: int)
    requires
        0 <= num <= den,
        den > 0,
    ensures
        a >= 0 ==> 0 <= div_trunc(a * num, den) <= a,
        a <= 0 ==> a <= div_trunc(a * num, den) <= 0,
{
    if a >= 0 {
        assert(0 <= a * num && (a * num) / den <= a) by (nonlinear_arith)
            requires
                a >= 0,
                0 <= num <= den,
                den > 0,
        ;
        lemma_div_trunc_bounds(a * num, den);
    } else {
        assert(0 <= -(a * num) && (-(a * num)) / den <= -a && (a * num == 0 ==> (a * num) / den
            == 0)) by (nonlinear_arith)
            requires
                a < 0,
                0 <= num <= den,
                den > 0,
        ;
        lemma_div_trunc_bounds(a * num, den);
    }
}

/// The square root of `n`, rounded down.
pub fn isqrt(n: u128) -> (r: u64)
    ensures
        r == sqrt_floor(n as int),
        is_sqrt_floor(n as int, r as int),
{
    let mut lo: u128 = 0;
    let mut hi: u128 = 0x1_0000_0000_0000_0000;
    assert(0x1_0000_0000_0000_0000int * 0x1_0000_0000_0000_0000int
        == 0x1_0000_0000_0000_0000_0000_0000_0000_0000int) by (nonlinear_arith);
    while hi - lo > 1
        invariant
            lo < hi <= 0x1_0000_0000_0000_0000,
            lo * lo <= n < hi * hi,
        decreases hi - lo,
    {
        let mid: u128 = lo + (hi - lo) / 2;
        assert(mid * mid <= 0xffff_ffff_ffff_ffffint * 0xffff_ffff_ffff_ffffint
            <= 0xffff_ffff_ffff_ffff_ffff_ffff_ffff_ffffint) by (nonlinear_arith)
            requires
                0 <= mid <= 0xffff_ffff_ffff_ffff,
        ;
        if mid * mid <= n {
            lo = mid;
        } else {
            hi = mid;
        }
    }
    proof {
        lemma_sqrt_floor_is(n as int, lo as int);
    }
    lo as u64
}

/// `a * b / c`, rounded toward zero, computed without overflow in between.
pub fn mul_div(a: i64, b: i64, c: i64) -> (r: i64)
    requires
        c > 0,
        i64::MIN <= div_trunc(a * b, c as int) <= i64::MAX,
    ensures
        r == div_trunc(a * b, c as int),
{
    proof {
        lemma_wide_product(a, b);
    }
    let wide: i128 = (a as i128) * (b as i128);
    (wide / (c as i128)) as i64
}

} // verus!
