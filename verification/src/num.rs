//! Integer arithmetic underneath the fixed-point scalar: saturation, division
//! that rounds toward zero, and the integer square root.

use vstd::prelude::*;

verus! {

/// Number of raw units in one whole unit: a scalar with raw value `n` stands
/// for the number `n / SCALE`.
pub const SCALE: i64 = 65536;

/// Least raw value of a scalar.
pub const RAW_MIN: i64 = -0x8000_0000;

/// Greatest raw value of a scalar.
pub const RAW_MAX: i64 = 0x7fff_ffff;

/// `v` brought into the raw range: values beyond either end stick to it.
pub open spec fn clamp(v: int) -> int {
    if v < RAW_MIN {
        RAW_MIN as int
    } else if v > RAW_MAX {
        RAW_MAX as int
    } else {
        v
    }
}

/// -1, 0 or 1 as `v` is negative, zero or positive.
pub open spec fn sign(v: int) -> int {
    if v > 0 {
        1
    } else if v < 0 {
        -1
    } else {
        0
    }
}

/// The absolute value of `v`.
pub open spec fn magnitude(v: int) -> int {
    if v < 0 {
        -v
    } else {
        v
    }
}

/// The quotient of `a` by `b` rounded toward zero, for `b != 0`.
pub open spec fn div_trunc(a: int, b: int) -> int {
    if a >= 0 {
        a / b
    } else {
        -((-a) / b)
    }
}

/// `v` lies in the raw range, so that saturation leaves it as it is.
pub open spec fn in_raw_range(v: int) -> bool {
    RAW_MIN <= v <= RAW_MAX
}

/// A product is no longer than the product of bounds on its factors.
pub proof fn lemma_mul_bound(a: int, b: int, p: int, q: int)
    by (nonlinear_arith)
    requires
        magnitude(a) <= p,
        magnitude(b) <= q,
    ensures
        magnitude(a * b) <= p * q,
        a * b <= p * q,
        a * b >= -(p * q),
{
}

/// A product with a sign is the other factor, its negative, or zero.
pub proof fn lemma_sign_mul(s: int, v: int)
    ensures
        sign(s) * v == if s > 0 {
            v
        } else if s < 0 {
            -v
        } else {
            0
        },
{
    let side = sign(s);
    assert(side * v == if side == 1 {
        v
    } else if side == -1 {
        -v
    } else {
        0
    }) by (nonlinear_arith)
        requires
            side == 1 || side == -1 || side == 0,
    ;
}

/// What rounding toward zero leaves over is shorter than the divisor.
pub proof fn lemma_div_trunc_remainder(a: int, b: int)
    requires
        b != 0,
    ensures
        magnitude(a - div_trunc(a, b) * b) < magnitude(b),
{
    let n = magnitude(a);
    assert(0 <= n - (n / b) * b < magnitude(b)) by (nonlinear_arith)
        requires
            n >= 0,
            b != 0,
    ;
    if a < 0 {
        assert((-(n / b)) * b == -((n / b) * b)) by (nonlinear_arith);
    }
}

/// A whole multiple of the divisor is divided without rounding.
pub proof fn lemma_div_trunc_exact(m: int, d: int)
    requires
        d > 0,
    ensures
        div_trunc(m * d, d) == m,
{
    let n = magnitude(m);
    assert((n * d) / d == n) by (nonlinear_arith)
        requires
            d > 0,
            n >= 0,
    ;
    assert(n * d >= 0) by (nonlinear_arith)
        requires
            d > 0,
            n >= 0,
    ;
    if m < 0 {
        assert(-(m * d) == n * d) by (nonlinear_arith)
            requires
                n == -m,
        ;
        assert(m * d < 0) by (nonlinear_arith)
            requires
                m < 0,
                d > 0,
        ;
    }
}

/// Rounding toward zero never lengthens a quotient beyond its dividend, and
/// keeps zero at zero.
pub proof fn lemma_div_trunc_bound(a: int, b: int)
    requires
        b != 0,
    ensures
        magnitude(div_trunc(a, b)) <= magnitude(a),
        a == 0 ==> div_trunc(a, b) == 0,
{
    let n = magnitude(a);
    assert(-n <= n / b <= n) by (nonlinear_arith)
        requires
            n >= 0,
            b != 0,
    ;
}

/// `r` is the square root of `n` rounded down.
pub open spec fn is_sqrt_floor(n: int, r: int) -> bool {
    0 <= r && r * r <= n < (r + 1) * (r + 1)
}

/// The square root of `n` rounded down, for `n >= 0`.
pub open spec fn sqrt_floor(n: int) -> int {
    choose|r: int| is_sqrt_floor(n, r)
}

/// At most one number is the rounded-down square root of `n`.
pub proof fn lemma_sqrt_floor_unique(n: int, r: int, s: int)
    requires
        is_sqrt_floor(n, r),
        is_sqrt_floor(n, s),
    ensures
        r == s,
{
    assert(r * r < (s + 1) * (s + 1) && 0 <= r && 0 <= s ==> r <= s) by (nonlinear_arith);
    assert(s * s < (r + 1) * (r + 1) && 0 <= r && 0 <= s ==> s <= r) by (nonlinear_arith);
}

/// Every natural number has a rounded-down square root, and `sqrt_floor` is it.
pub proof fn lemma_sqrt_floor(n: int)
    requires
        n >= 0,
    ensures
        is_sqrt_floor(n, sqrt_floor(n)),
    decreases n,
{
    if n == 0 {
        assert(is_sqrt_floor(0, 0));
    } else {
        lemma_sqrt_floor(n - 1);
        let r = sqrt_floor(n - 1);
        if (r + 1) * (r + 1) <= n {
            assert((r + 2) * (r + 2) > (r + 1) * (r + 1)) by (nonlinear_arith)
                requires
                    r >= 0,
            ;
            assert(is_sqrt_floor(n, r + 1));
        } else {
            assert(is_sqrt_floor(n, r));
        }
    }
}

/// A number that fits the definition is the value of `sqrt_floor`.
pub proof fn lemma_sqrt_floor_is(n: int, r: int)
    requires
        is_sqrt_floor(n, r),
    ensures
        sqrt_floor(n) == r,
{
    lemma_sqrt_floor_unique(n, r, sqrt_floor(n));
}

/// The square root of `n`, rounded down.
pub fn isqrt(n: u128) -> (r: u64)
    ensures
        r == sqrt_floor(n as int),
        is_sqrt_floor(n as int, r as int),
{
    let mut lo: u128 = 0;
    let mut hi: u128 = 0x1_0000_0000_0000_0000;
    while hi - lo > 1
        invariant
            lo < hi <= 0x1_0000_0000_0000_0000,
            lo * lo <= n,
            n < hi * hi,
        decreases hi - lo,
    {
        let mid: u128 = lo + (hi - lo) / 2;
        assert(mid * mid <= 0xffff_ffff_ffff_ffff * 0xffff_ffff_ffff_ffff) by (nonlinear_arith)
            requires
                mid <= 0xffff_ffff_ffff_ffff,
        ;
        if mid * mid <= n {
            lo = mid;
        } else {
            hi = mid;
        }
    }
    proof {
        lemma_sqrt_floor_is(n as int, lo as int);
    }
    lo as u64
}

/// The absolute value of `v`.
pub(crate) fn magnitude_of(v: i128) -> (m: u128)
    requires
        v > i128::MIN,
    ensures
        m == magnitude(v as int),
{
    if v < 0 {
        (-v) as u128
    } else {
        v as u128
    }
}

/// `v` saturated to the raw range.
pub(crate) fn saturate(v: i128) -> (r: i32)
    ensures
        r == clamp(v as int),
{
    if v < RAW_MIN as i128 {
        i32::MIN
    } else if v > RAW_MAX as i128 {
        i32::MAX
    } else {
        v as i32
    }
}

} // verus!
