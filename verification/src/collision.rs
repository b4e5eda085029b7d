//! The two tests of a disc against an obstacle, and what they report.

use vstd::prelude::*;
use crate::fixed::{fixed, Fixed};
use crate::num::{
    clamp, div_trunc, isqrt, lemma_div_trunc_bound, lemma_mul_bound, lemma_sign_mul, lemma_sqrt_floor,
    magnitude, magnitude_of, saturate, sign, sqrt_floor, SCALE,
};
use crate::shape::{Circle, Line};
use crate::vec2::{
    direction, lemma_unit_component_bounds, lemma_unit_vector_length, unit_vector, Vec2,
};

verus! {

/// How a disc overlaps an obstacle in part.
#[derive(Clone, Copy, PartialEq, Eq, Structural, Debug)]
pub struct Penetration {
    /// The point of the disc's rim that is deepest in the obstacle.
    pub pos: Vec2,
    /// The unit vector that points from the obstacle to the disc, or the zero
    /// vector where the disc's centre lies on a line.
    pub normal: Vec2,
    /// How far the disc reaches into the obstacle along the normal.
    pub depth: Fixed,
}

/// The outcome of testing a disc against an obstacle.
#[derive(Clone, Copy, PartialEq, Eq, Structural, Debug)]
pub enum CollisionResult {
    /// The two are apart.
    NoCollision,
    /// The two overlap in part.
    Penetration(Penetration),
    /// The disc's centre is inside the obstacle: no direction parts them.
    FullOverlap,
}

/// The squared distance between two points, over raw values: it counts in
/// units of `1 / (SCALE * SCALE)`.
pub open spec fn dist_sq(p: Vec2, q: Vec2) -> int {
    (p.x@ - q.x@) * (p.x@ - q.x@) + (p.y@ - q.y@) * (p.y@ - q.y@)
}

/// The point `center - r * normal`: each entry of the product is rounded
/// toward zero, and the difference is saturated.
pub open spec fn contact_point(center: Vec2, r: Fixed, normal: Vec2) -> Vec2 {
    Vec2 {
        x: fixed(center.x@ - div_trunc(r@ * normal.x@, SCALE as int)),
        y: fixed(center.y@ - div_trunc(r@ * normal.y@, SCALE as int)),
    }
}

/// The outcome of testing the disc `c1` against the disc `c2`, by the distance
/// `d` of the centres.
///
/// - `d > r1 + r2`: they are apart.
/// - `r2 < d <= r1 + r2`: `c1` reaches into `c2`. The normal is the unit vector
///   from the centre of `c2` to that of `c1`, and the depth is `r1 + r2 - d`
///   with `d` rounded down. Discs that touch in one point are in this case,
///   with depth zero.
/// - `d <= r2`: the centre of `c1` is inside `c2` or on its rim.
///
/// Both comparisons are made on the squares and are exact.
pub open spec fn circle_circle(c1: Circle, c2: Circle) -> CollisionResult {
    let d2 = dist_sq(c1.pos(), c2.pos());
    let reach = c1.r()@ + c2.r()@;
    if d2 > reach * reach {
        CollisionResult::NoCollision
    } else if d2 > c2.r()@ * c2.r()@ {
        let normal = unit_vector(c1.pos().x@ - c2.pos().x@, c1.pos().y@ - c2.pos().y@);
        CollisionResult::Penetration(
            Penetration {
                pos: contact_point(c1.pos(), c1.r(), normal),
                normal,
                depth: fixed(reach - sqrt_floor(d2)),
            },
        )
    } else {
        CollisionResult::FullOverlap
    }
}

/// The outcome of testing the disc `c` against the line `l`. With
/// `s = a x + b y + c` at the disc's centre and `q = a a + b b`, the centre is
/// at the distance `d = |s| / sqrt(q)` from the line, on the free side where
/// `s > 0`.
///
/// - `d > r`, compared exactly as `s s > r r q`: the disc is clear of the line
///   where `s > 0`, and wholly inside the solid side otherwise.
/// - `d <= r`: the disc reaches across the line. The normal is the unit vector
///   along `(a, b)` where `s > 0`, the opposite one where `s < 0`, and the zero
///   vector where the centre lies on the line. The depth is `r - d` where
///   `s > 0`, `r + d` where `s < 0` and `r` where `s = 0`, with `d` rounded
///   down.
pub open spec fn circle_line(c: Circle, l: Line) -> CollisionResult {
    let s = l.offset(c.pos());
    let q = l.norm_sq();
    if s * s > c.r()@ * c.r()@ * q {
        if s > 0 {
            CollisionResult::NoCollision
        } else {
            CollisionResult::FullOverlap
        }
    } else {
        let normal = unit_vector(sign(s) * l.a()@, sign(s) * l.b()@);
        CollisionResult::Penetration(
            Penetration {
                pos: contact_point(c.pos(), c.r(), normal),
                normal,
                depth: fixed(c.r()@ - sign(s) * sqrt_floor(s * s / q)),
            },
        )
    }
}

/// Two discs whose centres are farther apart than the sum of the radii do not
/// collide, and a disc whose centre is no farther from the other's than the
/// other's radius overlaps it in full.
pub proof fn lemma_circle_circle_outside(c1: Circle, c2: Circle)
    ensures
        dist_sq(c1.pos(), c2.pos()) > (c1.r()@ + c2.r()@) * (c1.r()@ + c2.r()@) ==> circle_circle(
            c1,
            c2,
        ) is NoCollision,
        c1.wf() && c2.wf() && dist_sq(c1.pos(), c2.pos()) <= c2.r()@ * c2.r()@ ==> circle_circle(
            c1,
            c2,
        ) is FullOverlap,
{
    let r1 = c1.r()@;
    let r2 = c2.r()@;
    if c1.wf() && c2.wf() {
        assert(r2 * r2 <= (r1 + r2) * (r1 + r2)) by (nonlinear_arith)
            requires
                r1 > 0,
                r2 > 0,
        ;
    }
}

/// Two discs whose centres are farther apart than the second one's radius and
/// no farther than the sum of the radii penetrate. The depth is the sum of the
/// radii less the distance rounded down, and lies between zero and the first
/// radius; the normal has length one up to rounding, as
/// `lemma_unit_vector_length` has it, and points from the second centre to the
/// first.
pub proof fn lemma_circle_circle_penetration(c1: Circle, c2: Circle)
    requires
        c1.wf(),
        c2.wf(),
        c2.r()@ * c2.r()@ < dist_sq(c1.pos(), c2.pos()) <= (c1.r()@ + c2.r()@) * (c1.r()@
            + c2.r()@),
    ensures
        ({
            let d = sqrt_floor(dist_sq(c1.pos(), c2.pos()));
            &&& d * d <= dist_sq(c1.pos(), c2.pos()) < (d + 1) * (d + 1)
            &&& circle_circle(c1, c2) matches CollisionResult::Penetration(p)
            &&& p.depth@ == c1.r()@ + c2.r()@ - d
            &&& 0 <= p.depth@ <= c1.r()@
            &&& (c1.pos().x@ - c2.pos().x@) * p.normal.x@ >= 0
            &&& (c1.pos().y@ - c2.pos().y@) * p.normal.y@ >= 0
            &&& p.normal.dot(p.normal) <= SCALE * SCALE
            &&& SCALE * SCALE < (magnitude(p.normal.x@) + 1) * (magnitude(p.normal.x@) + 1) + (
            magnitude(p.normal.y@) + 1) * (magnitude(p.normal.y@) + 1)
        }),
{
    let d2 = dist_sq(c1.pos(), c2.pos());
    let r2 = c2.r()@;
    let reach = c1.r()@ + c2.r()@;
    let dx = c1.pos().x@ - c2.pos().x@;
    let dy = c1.pos().y@ - c2.pos().y@;
    assert(d2 > 0 && (dx != 0 || dy != 0)) by (nonlinear_arith)
        requires
            d2 == dx * dx + dy * dy,
            d2 > r2 * r2,
    ;
    lemma_sqrt_floor(d2);
    let d = sqrt_floor(d2);
    assert(r2 <= d <= reach) by (nonlinear_arith)
        requires
            0 <= d,
            0 < r2,
            r2 < reach,
            d * d <= d2 < (d + 1) * (d + 1),
            r2 * r2 < d2 <= reach * reach,
    ;
    lemma_unit_vector_length(dx, dy);
    lemma_unit_component_bounds(dx, dy);
    lemma_unit_component_bounds(dy, dx);
    let n = unit_vector(dx, dy);
    assert(dx * n.x@ >= 0) by (nonlinear_arith)
        requires
            n.x@ == 0 || sign(n.x@) == sign(dx),
    ;
    assert(dy * n.y@ >= 0) by (nonlinear_arith)
        requires
            n.y@ == 0 || sign(n.y@) == sign(dy),
    ;
}

/// A disc whose centre lies on a line penetrates it with the whole radius for
/// its depth and with the zero vector for its normal, and the contact point is
/// the centre, which lies on the line.
pub proof fn lemma_centre_on_line(c: Circle, l: Line)
    requires
        c.wf(),
        l.wf(),
        l.offset(c.pos()) == 0,
    ensures
        circle_line(c, l) == CollisionResult::Penetration(
            Penetration { pos: c.pos(), normal: Vec2 { x: fixed(0), y: fixed(0) }, depth: c.r() },
        ),
        l.offset(c.pos()) == 0,
{
    let r = c.r()@;
    let q = l.norm_sq();
    let s = l.offset(c.pos());
    assert(s * s <= r * r * q) by (nonlinear_arith)
        requires
            s == 0,
            q == l.a()@ * l.a()@ + l.b()@ * l.b()@,
    ;
    lemma_sign_mul(s, l.a()@);
    lemma_sign_mul(s, l.b()@);
    lemma_sign_mul(s, sqrt_floor(s * s / q));
    assert(r * 0 == 0);
    lemma_div_trunc_bound(0, SCALE as int);
}

/// Where a disc reaches across a line, the distance `d` of its centre from
/// the line, rounded down, is no more than the radius `r`, and the depth is
/// never less than zero: `r - d` on the free side, `r` on the line, and `r + d`
/// saturated on the solid side.
pub proof fn lemma_circle_line_depth(c: Circle, l: Line)
    requires
        c.wf(),
        l.wf(),
        l.offset(c.pos()) * l.offset(c.pos()) <= c.r()@ * c.r()@ * l.norm_sq(),
    ensures
        ({
            let s = l.offset(c.pos());
            let d = sqrt_floor(s * s / l.norm_sq());
            &&& 0 <= d <= c.r()@
            &&& circle_line(c, l) matches CollisionResult::Penetration(p)
            &&& s > 0 ==> p.depth@ == c.r()@ - d
            &&& s == 0 ==> p.depth@ == c.r()@
            &&& s < 0 ==> p.depth@ == clamp(c.r()@ + d)
            &&& p.depth@ >= 0
        }),
{
    let s = l.offset(c.pos());
    let q = l.norm_sq();
    let r = c.r()@;
    assert(q > 0) by (nonlinear_arith)
        requires
            q == l.a()@ * l.a()@ + l.b()@ * l.b()@,
            l.a()@ != 0 || l.b()@ != 0,
    ;
    let m = s * s / q;
    assert(0 <= m <= r * r) by (nonlinear_arith)
        requires
            m == (s * s) / q,
            q > 0,
            s * s <= r * r * q,
    ;
    lemma_sqrt_floor(m);
    let d = sqrt_floor(m);
    assert(d <= r) by (nonlinear_arith)
        requires
            0 <= d,
            0 < r,
            d * d <= m,
            m <= r * r,
    ;
    lemma_sign_mul(s, d);
}

/// Where a disc reaches across a line and its centre is off the line, the
/// normal of the contact has length one up to rounding and points to the side
/// of the line that the centre is on.
pub proof fn lemma_circle_line_normal(c: Circle, l: Line)
    requires
        c.wf(),
        l.wf(),
        l.offset(c.pos()) != 0,
        l.offset(c.pos()) * l.offset(c.pos()) <= c.r()@ * c.r()@ * l.norm_sq(),
    ensures
        ({
            let s = l.offset(c.pos());
            &&& circle_line(c, l) matches CollisionResult::Penetration(p)
            &&& p.normal.dot(p.normal) <= SCALE * SCALE
            &&& SCALE * SCALE < (magnitude(p.normal.x@) + 1) * (magnitude(p.normal.x@) + 1) + (
            magnitude(p.normal.y@) + 1) * (magnitude(p.normal.y@) + 1)
            &&& sign(s) * (l.a()@ * p.normal.x@ + l.b()@ * p.normal.y@) >= 0
        }),
{
    let s = l.offset(c.pos());
    let a = l.a()@;
    let b = l.b()@;
    let x = sign(s) * a;
    let y = sign(s) * b;
    lemma_sign_mul(s, a);
    lemma_sign_mul(s, b);
    lemma_unit_vector_length(x, y);
    lemma_unit_component_bounds(x, y);
    lemma_unit_component_bounds(y, x);
    let n = unit_vector(x, y);
    assert(x * n.x@ >= 0) by (nonlinear_arith)
        requires
            n.x@ == 0 || sign(n.x@) == sign(x),
    ;
    assert(y * n.y@ >= 0) by (nonlinear_arith)
        requires
            n.y@ == 0 || sign(n.y@) == sign(y),
    ;
    lemma_sign_mul(s, a * n.x@ + b * n.y@);
    assert(x * n.x@ == sign(s) * (a * n.x@) && y * n.y@ == sign(s) * (b * n.y@))
        by (nonlinear_arith)
        requires
            x == sign(s) * a,
            y == sign(s) * b,
    ;
    lemma_sign_mul(s, a * n.x@);
    lemma_sign_mul(s, b * n.y@);
}

/// The point `center - r * normal`.
fn contact(center: Vec2, r: Fixed, normal: Vec2) -> (p: Vec2)
    ensures
        p == contact_point(center, r, normal),
{
    let wide: i64 = r.raw as i64;
    let nx: i64 = normal.x.raw as i64;
    let ny: i64 = normal.y.raw as i64;
    proof {
        lemma_mul_bound(wide as int, nx as int, 0x8000_0000, 0x8000_0000);
        lemma_mul_bound(wide as int, ny as int, 0x8000_0000, 0x8000_0000);
        lemma_div_trunc_bound(wide * nx, SCALE as int);
        lemma_div_trunc_bound(wide * ny, SCALE as int);
    }
    let x: i64 = center.x.raw as i64 - (wide * nx) / SCALE;
    let y: i64 = center.y.raw as i64 - (wide * ny) / SCALE;
    Vec2 { x: Fixed { raw: saturate(x as i128) }, y: Fixed { raw: saturate(y as i128) } }
}

/// Tests the disc `c` against the line `l`.
pub fn circle_line_collision(c: &Circle, l: &Line) -> (res: CollisionResult)
    ensures
        res == circle_line(*c, *l),
        res is Penetration <==> l.offset(c.pos()) * l.offset(c.pos()) <= c.r()@ * c.r()@
            * l.norm_sq(),
        res is NoCollision ==> l.offset(c.pos()) > 0,
        res is FullOverlap ==> l.offset(c.pos()) <= 0,
{
    proof {
        use_type_invariant(c);
        use_type_invariant(l);
    }
    let a: i128 = l.a.raw as i128;
    let b: i128 = l.b.raw as i128;
    let r: u128 = c.r.raw as u128;
    proof {
        lemma_mul_bound(a as int, c.pos.x@, 0x8000_0000, 0x8000_0000);
        lemma_mul_bound(b as int, c.pos.y@, 0x8000_0000, 0x8000_0000);
        lemma_mul_bound(a as int, a as int, 0x8000_0000, 0x8000_0000);
        lemma_mul_bound(b as int, b as int, 0x8000_0000, 0x8000_0000);
        lemma_mul_bound(r as int, r as int, 0x8000_0000, 0x8000_0000);
        assert(a * a + b * b > 0) by (nonlinear_arith)
            requires
                a != 0 || b != 0,
        ;
        assert(r * r >= 0) by (nonlinear_arith);
    }
    let s: i128 = a * (c.pos.x.raw as i128) + b * (c.pos.y.raw as i128) + (l.c.raw as i128)
        * (SCALE as i128);
    let q: u128 = (a * a + b * b) as u128;
    let len: u128 = magnitude_of(s);
    proof {
        lemma_mul_bound(len as int, len as int, 0x8000_8000_0000_0000, 0x8000_8000_0000_0000);
        lemma_mul_bound((r * r) as int, q as int, 0x4000_0000_0000_0000, 0x8000_0000_0000_0000);
        assert(len * len == s * s) by (nonlinear_arith)
            requires
                len == s || len == -s,
        ;
    }
    let s2: u128 = len * len;
    if s2 > r * r * q {
        if s > 0 {
            CollisionResult::NoCollision
        } else {
            CollisionResult::FullOverlap
        }
    } else {
        let dist: i128 = isqrt(s2 / q) as i128;
        proof {
            lemma_sign_mul(s as int, a as int);
            lemma_sign_mul(s as int, b as int);
            lemma_sign_mul(s as int, dist as int);
        }
        let normal: Vec2 = if s > 0 {
            direction(a as i64, b as i64)
        } else if s < 0 {
            direction((-a) as i64, (-b) as i64)
        } else {
            direction(0, 0)
        };
        let reach: i128 = if s > 0 {
            r as i128 - dist
        } else if s < 0 {
            r as i128 + dist
        } else {
            r as i128
        };
        CollisionResult::Penetration(
            Penetration {
                pos: contact(c.pos, c.r, normal),
                normal,
                depth: Fixed { raw: saturate(reach) },
            },
        )
    }
}

/// Tests the disc `c1` against the disc `c2`.
pub fn circle_circle_collision(c1: &Circle, c2: &Circle) -> (res: CollisionResult)
    ensures
        res == circle_circle(*c1, *c2),
        res is NoCollision <==> dist_sq(c1.pos(), c2.pos()) > (c1.r()@ + c2.r()@) * (c1.r()@
            + c2.r()@),
        res is FullOverlap <==> dist_sq(c1.pos(), c2.pos()) <= c2.r()@ * c2.r()@,
{
    proof {
        use_type_invariant(c1);
        use_type_invariant(c2);
    }
    let dx: i64 = c1.pos.x.raw as i64 - c2.pos.x.raw as i64;
    let dy: i64 = c1.pos.y.raw as i64 - c2.pos.y.raw as i64;
    let lx: u128 = magnitude_of(dx as i128);
    let ly: u128 = magnitude_of(dy as i128);
    let r2: u128 = c2.r.raw as u128;
    let reach: u128 = c1.r.raw as u128 + r2;
    proof {
        lemma_mul_bound(lx as int, lx as int, 0x1_0000_0000, 0x1_0000_0000);
        lemma_mul_bound(ly as int, ly as int, 0x1_0000_0000, 0x1_0000_0000);
        lemma_mul_bound(reach as int, reach as int, 0x1_0000_0000, 0x1_0000_0000);
        lemma_mul_bound(r2 as int, r2 as int, 0x1_0000_0000, 0x1_0000_0000);
        assert(lx * lx == dx * dx) by (nonlinear_arith)
            requires
                lx == dx || lx == -dx,
        ;
        assert(ly * ly == dy * dy) by (nonlinear_arith)
            requires
                ly == dy || ly == -dy,
        ;
        assert(lx * lx >= 0 && ly * ly >= 0 && 0 <= r2 * r2 <= reach * reach)
            by (nonlinear_arith)
            requires
                0 <= r2 <= reach,
        ;
    }
    let d2: u128 = lx * lx + ly * ly;
    if d2 > reach * reach {
        CollisionResult::NoCollision
    } else if d2 > r2 * r2 {
        let normal: Vec2 = direction(dx, dy);
        let dist: i128 = isqrt(d2) as i128;
        CollisionResult::Penetration(
            Penetration {
                pos: contact(c1.pos, c1.r, normal),
                normal,
                depth: Fixed { raw: saturate(reach as i128 - dist) },
            },
        )
    } else {
        CollisionResult::FullOverlap
    }
}

} // verus!
