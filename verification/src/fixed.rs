//! The scalar of the simulation: a signed fixed-point number.

use vstd::prelude::*;
use crate::num::{clamp, div_trunc, lemma_div_trunc_bound, lemma_mul_bound, saturate, SCALE};

verus! {

/// A number with sixteen fractional bits. The raw value `raw` stands for
/// `raw / SCALE`, so the type covers the whole units from -32768 up to, but not
/// including, 32768. Arithmetic rounds toward zero and saturates at both ends.
#[derive(Clone, Copy, PartialEq, Eq, Structural, Debug)]
pub struct Fixed {
    pub raw: i32,
}

impl View for Fixed {
    type V = int;

    /// The raw value as a mathematical integer.
    open spec fn view(&self) -> int {
        self.raw as int
    }
}

/// The scalar whose raw value is `v` saturated to the raw range.
pub open spec fn fixed(v: int) -> Fixed {
    Fixed { raw: clamp(v) as i32 }
}

impl Fixed {
    /// `self + other`, saturated.
    pub open spec fn plus(self, other: Fixed) -> Fixed {
        fixed(self@ + other@)
    }

    /// `self + rate * dt / per`: the product is exact, the quotient is rounded
    /// toward zero once, and the sum is saturated. With `per == SCALE` this is
    /// `self + rate * dt` for scalars `rate` and `dt`; with the raw value of a
    /// scalar `m` for `per` it is `self + (rate / m) * dt`.
    pub open spec fn advanced(self, rate: Fixed, dt: Fixed, per: int) -> Fixed {
        fixed(self@ + div_trunc(rate@ * dt@, per))
    }

    /// The number zero.
    pub fn zero() -> (z: Fixed)
        ensures
            z == fixed(0),
    {
        Fixed { raw: 0 }
    }

    /// The whole number `n`, saturated.
    pub fn from_int(n: i32) -> (f: Fixed)
        ensures
            f == fixed(n * SCALE),
    {
        let wide: i64 = n as i64;
        Fixed { raw: saturate((wide * SCALE) as i128) }
    }

    /// The quotient `num / den` rounded toward zero to the nearest multiple of
    /// `1 / SCALE` and saturated, or `None` when `den` is zero.
    pub fn from_ratio(num: i32, den: i32) -> (f: Option<Fixed>)
        ensures
            den == 0 ==> f is None,
            den != 0 ==> f == Some(fixed(div_trunc(num * SCALE, den as int))),
    {
        if den == 0 {
            None
        } else {
            let wide: i64 = num as i64;
            proof {
                lemma_div_trunc_bound(wide * SCALE, den as int);
            }
            let q: i64 = (wide * SCALE) / (den as i64);
            Some(Fixed { raw: saturate(q as i128) })
        }
    }

    /// The sum of two scalars, saturated.
    pub fn saturating_add(self, other: Fixed) -> (s: Fixed)
        ensures
            s == self.plus(other),
    {
        let sum: i64 = self.raw as i64 + other.raw as i64;
        Fixed { raw: saturate(sum as i128) }
    }

    /// `self + rate * dt / per`, rounded toward zero and saturated.
    pub(crate) fn advance(self, rate: Fixed, dt: Fixed, per: i64) -> (r: Fixed)
        requires
            per > 0,
        ensures
            r == self.advanced(rate, dt, per as int),
    {
        let a: i64 = rate.raw as i64;
        let b: i64 = dt.raw as i64;
        proof {
            lemma_mul_bound(a as int, b as int, 0x8000_0000, 0x8000_0000);
            lemma_div_trunc_bound(a * b, per as int);
        }
        let step: i64 = (a * b) / per;
        Fixed { raw: saturate(self.raw as i128 + step as i128) }
    }
}

} // verus!
