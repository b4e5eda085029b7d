//! Points and vectors of the plane, with the two operations on directions that
//! the collision response needs: the unit vector along a direction, and the
//! mirror image of a vector about a normal.

use vstd::prelude::*;
use crate::fixed::{fixed, Fixed};
use crate::num::{
    div_trunc, in_raw_range, isqrt, lemma_div_trunc_bound, lemma_div_trunc_exact,
    lemma_div_trunc_remainder, lemma_mul_bound, lemma_sign_mul, lemma_sqrt_floor, magnitude,
    saturate, sign, sqrt_floor, SCALE,
};

verus! {

/// A point or a vector of the plane.
#[derive(Clone, Copy, PartialEq, Eq, Structural, Debug)]
pub struct Vec2 {
    pub x: Fixed,
    pub y: Fixed,
}

/// Raw value of the first entry of the unit vector along the direction
/// `(x, y)`, rounded toward zero: `SCALE * x / sqrt(x * x + y * y)`. It is zero
/// where `x` is, so the zero direction has the zero vector for its unit vector.
pub open spec fn unit_component(x: int, y: int) -> int {
    if x == 0 {
        0
    } else {
        sign(x) * sqrt_floor(x * x * (SCALE * SCALE) / (x * x + y * y))
    }
}

/// The unit vector along the direction `(x, y)`, each entry rounded toward
/// zero; the zero vector for the zero direction.
pub open spec fn unit_vector(x: int, y: int) -> Vec2 {
    Vec2 { x: fixed(unit_component(x, y)), y: fixed(unit_component(y, x)) }
}

impl Vec2 {
    /// The dot product of the raw values. It counts in units of
    /// `1 / (SCALE * SCALE)`.
    pub open spec fn dot(self, other: Vec2) -> int {
        self.x@ * other.x@ + self.y@ * other.y@
    }

    /// The cross product of the raw values: the dot product of `other` with
    /// `self` turned a quarter turn to the left.
    pub open spec fn cross(self, other: Vec2) -> int {
        self.x@ * other.y@ - self.y@ * other.x@
    }

    /// The sum of two vectors, each entry saturated.
    pub open spec fn plus(self, other: Vec2) -> Vec2 {
        Vec2 { x: self.x.plus(other.x), y: self.y.plus(other.y) }
    }

    /// `self + rate * dt / per`, entry by entry as `Fixed::advanced` has it.
    pub open spec fn advanced(self, rate: Vec2, dt: Fixed, per: int) -> Vec2 {
        Vec2 { x: self.x.advanced(rate.x, dt, per), y: self.y.advanced(rate.y, dt, per) }
    }

    /// The mirror image of `self` about the line through the origin that is
    /// perpendicular to `normal`: `self - 2 (self . normal) normal / (normal . normal)`.
    /// Each entry of what is taken away is rounded toward zero once, and the
    /// result is saturated. For a normal of length one this is
    /// `self - 2 (self . normal) normal`; dividing by the squared length keeps
    /// the image exact for a normal whose entries were rounded. The zero normal
    /// leaves `self` as it is.
    pub open spec fn reflected(self, normal: Vec2) -> Vec2 {
        let nn = normal.dot(normal);
        let k = 2 * self.dot(normal);
        if nn == 0 {
            self
        } else {
            Vec2 {
                x: fixed(self.x@ - div_trunc(k * normal.x@, nn)),
                y: fixed(self.y@ - div_trunc(k * normal.y@, nn)),
            }
        }
    }

    /// Neither entry of the mirror image of `self` about `normal` leaves the
    /// raw range, so that `reflected` saturates nothing.
    pub open spec fn reflects_in_range(self, normal: Vec2) -> bool {
        let nn = normal.dot(normal);
        let k = 2 * self.dot(normal);
        in_raw_range(self.x@ - div_trunc(k * normal.x@, nn)) && in_raw_range(
            self.y@ - div_trunc(k * normal.y@, nn),
        )
    }

    /// The vector with the entries `x` and `y`.
    pub fn new(x: Fixed, y: Fixed) -> (v: Vec2)
        ensures
            v == (Vec2 { x, y }),
    {
        Vec2 { x, y }
    }

    /// The zero vector.
    pub fn zero() -> (v: Vec2)
        ensures
            v == (Vec2 { x: fixed(0), y: fixed(0) }),
    {
        Vec2 { x: Fixed::zero(), y: Fixed::zero() }
    }

    /// The sum of two vectors, each entry saturated.
    pub fn saturating_add(self, other: Vec2) -> (s: Vec2)
        ensures
            s == self.plus(other),
    {
        Vec2 { x: self.x.saturating_add(other.x), y: self.y.saturating_add(other.y) }
    }

    /// `self + rate * dt / per`, entry by entry.
    pub(crate) fn advance(self, rate: Vec2, dt: Fixed, per: i64) -> (r: Vec2)
        requires
            per > 0,
        ensures
            r == self.advanced(rate, dt, per as int),
    {
        Vec2 { x: self.x.advance(rate.x, dt, per), y: self.y.advance(rate.y, dt, per) }
    }

    /// The mirror image of `self` about the line perpendicular to `normal`.
    pub fn reflect(self, normal: Vec2) -> (r: Vec2)
        ensures
            r == self.reflected(normal),
    {
        let nx: i128 = normal.x.raw as i128;
        let ny: i128 = normal.y.raw as i128;
        let vx: i128 = self.x.raw as i128;
        let vy: i128 = self.y.raw as i128;
        proof {
            lemma_mul_bound(nx as int, nx as int, 0x8000_0000, 0x8000_0000);
            lemma_mul_bound(ny as int, ny as int, 0x8000_0000, 0x8000_0000);
            lemma_mul_bound(vx as int, nx as int, 0x8000_0000, 0x8000_0000);
            lemma_mul_bound(vy as int, ny as int, 0x8000_0000, 0x8000_0000);
            assert(nx * nx >= 0 && ny * ny >= 0) by (nonlinear_arith);
        }
        let nn: i128 = nx * nx + ny * ny;
        if nn == 0 {
            return self;
        }
        let k: i128 = 2 * (vx * nx + vy * ny);
        proof {
            lemma_mul_bound(k as int, nx as int, 0x1_0000_0000_0000_0000, 0x8000_0000);
            lemma_mul_bound(k as int, ny as int, 0x1_0000_0000_0000_0000, 0x8000_0000);
            lemma_div_trunc_bound(k * nx, nn as int);
            lemma_div_trunc_bound(k * ny, nn as int);
        }
        let rx: i128 = vx - (k * nx) / nn;
        let ry: i128 = vy - (k * ny) / nn;
        Vec2 { x: Fixed { raw: saturate(rx) }, y: Fixed { raw: saturate(ry) } }
    }
}

/// An entry of the unit vector is the true entry rounded toward zero: it has
/// the sign of the direction's entry or is zero, and the true entry lies
/// between it and the next raw value away from zero.
pub proof fn lemma_unit_component_bounds(x: int, y: int)
    requires
        x != 0 || y != 0,
    ensures
        ({
            let c = unit_component(x, y);
            let d2 = x * x + y * y;
            &&& d2 > 0
            &&& c == 0 || sign(c) == sign(x)
            &&& magnitude(c) <= SCALE
            &&& c * c * d2 <= x * x * (SCALE * SCALE)
            &&& x * x * (SCALE * SCALE) < (magnitude(c) + 1) * (magnitude(c) + 1) * d2
        }),
{
    let c = unit_component(x, y);
    let d2 = x * x + y * y;
    let s2: int = SCALE * SCALE;
    assert(d2 > 0 && 0 <= x * x <= d2) by (nonlinear_arith)
        requires
            x != 0 || y != 0,
            d2 == x * x + y * y,
    ;
    if x != 0 {
        let n = x * x * s2;
        let q = n / d2;
        assert(n >= 0 && n <= d2 * s2) by (nonlinear_arith)
            requires
                n == x * x * s2,
                0 <= x * x <= d2,
                s2 > 0,
        ;
        assert(0 <= q && q * d2 <= n < (q + 1) * d2) by (nonlinear_arith)
            requires
                q == n / d2,
                d2 > 0,
                n >= 0,
        ;
        lemma_sqrt_floor(q);
        let r = sqrt_floor(q);
        assert(r * r * d2 <= n) by (nonlinear_arith)
            requires
                r * r <= q,
                q * d2 <= n,
                d2 > 0,
        ;
        assert(n < (r + 1) * (r + 1) * d2) by (nonlinear_arith)
            requires
                q < (r + 1) * (r + 1),
                n < (q + 1) * d2,
                d2 > 0,
        ;
        assert(r <= SCALE) by (nonlinear_arith)
            requires
                r >= 0,
                r * r * d2 <= n,
                n <= d2 * s2,
                d2 > 0,
                s2 == 65536 * 65536,
        ;
        lemma_sign_mul(x, r);
        assert(c * c == r * r) by (nonlinear_arith)
            requires
                c == r || c == -r,
        ;
    } else {
        assert(c * c * d2 == 0 && x * x * s2 == 0 && (0 + 1) * (0 + 1) * d2 == d2)
            by (nonlinear_arith)
            requires
                c == 0,
                x == 0,
        ;
    }
}

/// The unit vector has length one up to rounding: it is no longer than one,
/// and it is longer than one once each entry is moved one raw value away from
/// zero.
pub proof fn lemma_unit_vector_length(x: int, y: int)
    requires
        x != 0 || y != 0,
    ensures
        ({
            let n = unit_vector(x, y);
            &&& n.x@ == unit_component(x, y)
            &&& n.y@ == unit_component(y, x)
            &&& n.dot(n) <= SCALE * SCALE
            &&& SCALE * SCALE < (magnitude(n.x@) + 1) * (magnitude(n.x@) + 1) + (magnitude(n.y@)
                + 1) * (magnitude(n.y@) + 1)
        }),
{
    lemma_unit_component_bounds(x, y);
    lemma_unit_component_bounds(y, x);
    let cx = unit_component(x, y);
    let cy = unit_component(y, x);
    let d2 = x * x + y * y;
    let s2: int = SCALE * SCALE;
    let ux = (magnitude(cx) + 1) * (magnitude(cx) + 1);
    let uy = (magnitude(cy) + 1) * (magnitude(cy) + 1);
    assert(cx * cx + cy * cy <= s2) by (nonlinear_arith)
        requires
            d2 > 0,
            d2 == x * x + y * y,
            cx * cx * d2 <= x * x * s2,
            cy * cy * d2 <= y * y * s2,
    ;
    assert(s2 < ux + uy) by (nonlinear_arith)
        requires
            d2 > 0,
            d2 == x * x + y * y,
            x * x * s2 < ux * d2,
            y * y * s2 < uy * d2,
    ;
}

/// Mirroring turns the part of a vector along the normal round, up to the
/// rounding of the image: `reflected(n) . n` and `-(self . n)` differ by less
/// than `|n.x| + |n.y|` in the units of the dot product, which for a unit
/// normal is less than one and a half raw values of a scalar.
pub proof fn lemma_reflect_normal_part(v: Vec2, n: Vec2)
    requires
        n.dot(n) != 0,
        v.reflects_in_range(n),
    ensures
        magnitude(v.reflected(n).dot(n) + v.dot(n)) < magnitude(n.x@) + magnitude(n.y@),
{
    let nx = n.x@;
    let ny = n.y@;
    let vx = v.x@;
    let vy = v.y@;
    let nn = n.dot(n);
    let k = 2 * v.dot(n);
    assert(nn > 0) by (nonlinear_arith)
        requires
            nn == nx * nx + ny * ny,
            nn != 0,
    ;
    let qx = div_trunc(k * nx, nn);
    let qy = div_trunc(k * ny, nn);
    lemma_div_trunc_remainder(k * nx, nn);
    lemma_div_trunc_remainder(k * ny, nn);
    let rx = k * nx - qx * nn;
    let ry = k * ny - qy * nn;
    let e = v.reflected(n).dot(n) + v.dot(n);
    assert(e == k - (qx * nx + qy * ny)) by (nonlinear_arith)
        requires
            e == (vx - qx) * nx + (vy - qy) * ny + (vx * nx + vy * ny),
            k == 2 * (vx * nx + vy * ny),
    ;
    lemma_scaled_error(nn, k, nx, ny, qx, qy, rx, ry);
    lemma_rounding_error(nn, e, rx, ry, nx, ny);
}

/// Mirroring keeps the part of a vector across the normal, up to the rounding
/// of the image: the cross products of the normal with the image and with the
/// vector differ by less than `|n.x| + |n.y|`.
pub proof fn lemma_reflect_tangent_part(v: Vec2, n: Vec2)
    requires
        n.dot(n) != 0,
        v.reflects_in_range(n),
    ensures
        magnitude(n.cross(v.reflected(n)) - n.cross(v)) < magnitude(n.x@) + magnitude(n.y@),
{
    let nx = n.x@;
    let ny = n.y@;
    let vx = v.x@;
    let vy = v.y@;
    let nn = n.dot(n);
    let k = 2 * v.dot(n);
    assert(nn > 0) by (nonlinear_arith)
        requires
            nn == nx * nx + ny * ny,
            nn != 0,
    ;
    let qx = div_trunc(k * nx, nn);
    let qy = div_trunc(k * ny, nn);
    lemma_div_trunc_remainder(k * nx, nn);
    lemma_div_trunc_remainder(k * ny, nn);
    let rx = k * nx - qx * nn;
    let ry = k * ny - qy * nn;
    let e = n.cross(v.reflected(n)) - n.cross(v);
    assert(e == ny * qx - nx * qy) by (nonlinear_arith)
        requires
            e == nx * (vy - qy) - ny * (vx - qx) - (nx * vy - ny * vx),
    ;
    lemma_scaled_error(nn, k, nx, ny, qx, qy, rx, ry);
    assert(ry * nx - rx * ny == ry * nx + (-rx) * ny) by (nonlinear_arith);
    lemma_rounding_error(nn, e, ry, -rx, nx, ny);
}

/// With `rx` and `ry` what is left over when `k * nx` and `k * ny` are divided
/// by `nn = nx * nx + ny * ny`, the two errors of the mirror image, multiplied
/// by `nn`, are made of `rx` and `ry` alone.
proof fn lemma_scaled_error(
    nn: int,
    k: int,
    nx: int,
    ny: int,
    qx: int,
    qy: int,
    rx: int,
    ry: int,
)
    requires
        nn == nx * nx + ny * ny,
        rx == k * nx - qx * nn,
        ry == k * ny - qy * nn,
    ensures
        nn * (k - (qx * nx + qy * ny)) == rx * nx + ry * ny,
        nn * (ny * qx - nx * qy) == ry * nx - rx * ny,
{
    let ax = qx * nn;
    let ay = qy * nn;
    assert(ax * nx == k * (nx * nx) - rx * nx && ax * ny == k * (nx * ny) - rx * ny)
        by (nonlinear_arith)
        requires
            ax == k * nx - rx,
    ;
    assert(ay * ny == k * (ny * ny) - ry * ny && ay * nx == k * (nx * ny) - ry * nx)
        by (nonlinear_arith)
        requires
            ay == k * ny - ry,
    ;
    assert(nn * k == k * (nx * nx) + k * (ny * ny)) by (nonlinear_arith)
        requires
            nn == nx * nx + ny * ny,
    ;
    assert(nn * (k - (qx * nx + qy * ny)) == nn * k - ax * nx - ay * ny) by (nonlinear_arith)
        requires
            ax == qx * nn,
            ay == qy * nn,
    ;
    assert(nn * (ny * qx - nx * qy) == ax * ny - ay * nx) by (nonlinear_arith)
        requires
            ax == qx * nn,
            ay == qy * nn,
    ;
}

/// An error `e` whose multiple by `nn` is `rx * nx + ry * ny`, with `rx` and
/// `ry` shorter than `nn`, is shorter than `|nx| + |ny|`.
proof fn lemma_rounding_error(nn: int, e: int, rx: int, ry: int, nx: int, ny: int)
    requires
        nn > 0,
        nn == nx * nx + ny * ny,
        magnitude(rx) < nn,
        magnitude(ry) < nn,
        nn * e == rx * nx + ry * ny,
    ensures
        magnitude(e) < magnitude(nx) + magnitude(ny),
{
    let reach = magnitude(nx) + magnitude(ny);
    lemma_mul_bound(rx, nx, nn - 1, magnitude(nx));
    lemma_mul_bound(ry, ny, nn - 1, magnitude(ny));
    assert(reach > 0) by (nonlinear_arith)
        requires
            nn > 0,
            nn == nx * nx + ny * ny,
            reach == magnitude(nx) + magnitude(ny),
    ;
    assert((nn - 1) * magnitude(nx) + (nn - 1) * magnitude(ny) < nn * reach) by (nonlinear_arith)
        requires
            reach == magnitude(nx) + magnitude(ny),
            reach > 0,
    ;
    assert(magnitude(e) < reach) by (nonlinear_arith)
        requires
            nn > 0,
            nn * e < nn * reach,
            nn * e > -(nn * reach),
    ;
}

/// About a normal along an axis the mirror image is exact: the entry along
/// the normal changes its sign (and saturates where it was the least raw
/// value), and the other entry stays.
pub proof fn lemma_reflect_about_axis(v: Vec2, n: Vec2)
    ensures
        n.x@ == 0 && n.y@ != 0 ==> v.reflected(n) == (Vec2 { x: v.x, y: fixed(-v.y@) }),
        n.y@ == 0 && n.x@ != 0 ==> v.reflected(n) == (Vec2 { x: fixed(-v.x@), y: v.y }),
{
    let nx = n.x@;
    let ny = n.y@;
    let vx = v.x@;
    let vy = v.y@;
    let nn = n.dot(n);
    let k = 2 * v.dot(n);
    if nx == 0 && ny != 0 {
        assert(nn == ny * ny && nn > 0 && k * nx == 0 && k * ny == (2 * vy) * nn)
            by (nonlinear_arith)
            requires
                nx == 0,
                ny != 0,
                nn == nx * nx + ny * ny,
                k == 2 * (vx * nx + vy * ny),
        ;
        lemma_div_trunc_bound(0, nn);
        lemma_div_trunc_exact(2 * vy, nn);
    }
    if ny == 0 && nx != 0 {
        assert(nn == nx * nx && nn > 0 && k * ny == 0 && k * nx == (2 * vx) * nn)
            by (nonlinear_arith)
            requires
                ny == 0,
                nx != 0,
                nn == nx * nx + ny * ny,
                k == 2 * (vx * nx + vy * ny),
        ;
        lemma_div_trunc_bound(0, nn);
        lemma_div_trunc_exact(2 * vx, nn);
    }
}

/// One entry of the unit vector along a direction whose squared length is
/// `d2` and whose entry in question is `x`, with `xx` its square.
fn unit_part(x: i64, xx: u128, d2: u128) -> (c: i32)
    requires
        -0x1_0000_0000 <= x <= 0x1_0000_0000,
        xx == x * x,
        xx <= d2 <= 0x2_0000_0000_0000_0000,
    ensures
        x != 0 ==> c == sign(x as int) * sqrt_floor(xx * (SCALE * SCALE) / (d2 as int)),
        x == 0 ==> c == 0,
        -SCALE <= c <= SCALE,
{
    if x == 0 {
        return 0;
    }
    assert(xx >= 1) by (nonlinear_arith)
        requires
            x != 0,
            xx == x * x,
    ;
    let q: u128 = xx * 0x1_0000_0000 / d2;
    assert(q <= 0x1_0000_0000) by (nonlinear_arith)
        requires
            q == (xx * 0x1_0000_0000) / (d2 as int),
            0 < xx <= d2,
    ;
    let s: u64 = isqrt(q);
    assert(s <= 0x1_0000) by (nonlinear_arith)
        requires
            s * s <= q,
            q <= 0x1_0000_0000,
    ;
    if x < 0 {
        -(s as i32)
    } else {
        s as i32
    }
}

/// The unit vector along the direction `(x, y)`.
pub(crate) fn direction(x: i64, y: i64) -> (n: Vec2)
    requires
        -0x1_0000_0000 <= x <= 0x1_0000_0000,
        -0x1_0000_0000 <= y <= 0x1_0000_0000,
    ensures
        n == unit_vector(x as int, y as int),
{
    let ax: u128 = if x < 0 {
        (-x) as u128
    } else {
        x as u128
    };
    let ay: u128 = if y < 0 {
        (-y) as u128
    } else {
        y as u128
    };
    proof {
        lemma_mul_bound(ax as int, ax as int, 0x1_0000_0000, 0x1_0000_0000);
        lemma_mul_bound(ay as int, ay as int, 0x1_0000_0000, 0x1_0000_0000);
        assert(ax * ax == x * x) by (nonlinear_arith)
            requires
                ax == x || ax == -x,
        ;
        assert(ay * ay == y * y) by (nonlinear_arith)
            requires
                ay == y || ay == -y,
        ;
        assert(ax * ax >= 0 && ay * ay >= 0) by (nonlinear_arith);
    }
    let xx: u128 = ax * ax;
    let yy: u128 = ay * ay;
    let d2: u128 = xx + yy;
    Vec2 { x: Fixed { raw: unit_part(x, xx, d2) }, y: Fixed { raw: unit_part(y, yy, d2) } }
}

} // verus!
