//! The shapes of the scene: discs, and infinite lines that are solid on one
//! side.

use vstd::prelude::*;
use crate::fixed::{fixed, Fixed};
use crate::num::{
    div_trunc, in_raw_range, lemma_div_trunc_bound, lemma_div_trunc_remainder, lemma_mul_bound,
    magnitude, saturate, SCALE,
};
use crate::vec2::Vec2;

verus! {

/// A disc: a centre and a radius greater than zero.
#[derive(Clone, Copy, PartialEq, Eq, Structural, Debug)]
pub struct Circle {
    pub(crate) pos: Vec2,
    pub(crate) r: Fixed,
}

impl Circle {
    /// The radius is greater than zero. Every disc that the program holds is
    /// well formed; a disc that a proof speaks of is so only where it says so.
    #[verifier::type_invariant]
    pub open(crate) spec fn wf(self) -> bool {
        self.r@ > 0
    }

    /// The centre.
    pub open(crate) spec fn spec_pos(&self) -> Vec2 {
        self.pos
    }

    /// The radius.
    pub open(crate) spec fn spec_r(&self) -> Fixed {
        self.r
    }

    /// The same disc with its centre at `pos`.
    pub open(crate) spec fn placed(self, pos: Vec2) -> Circle {
        Circle { pos, r: self.r }
    }

    /// The disc with centre `pos` and radius `r`, or `None` where `r` is not
    /// greater than zero.
    pub fn new(pos: Vec2, r: Fixed) -> (c: Option<Circle>)
        ensures
            r@ > 0 ==> (c matches Some(k) && k.wf() && k.pos() == pos && k.r() == r),
            r@ <= 0 ==> c is None,
    {
        if r.raw > 0 {
            Some(Circle { pos, r })
        } else {
            None
        }
    }

    /// The centre.
    #[verifier::when_used_as_spec(spec_pos)]
    pub fn pos(&self) -> (p: Vec2)
        ensures
            p == self.pos(),
    {
        self.pos
    }

    /// The radius.
    #[verifier::when_used_as_spec(spec_r)]
    pub fn r(&self) -> (r: Fixed)
        ensures
            r == self.r(),
            r@ > 0,
    {
        proof {
            use_type_invariant(self);
        }
        self.r
    }

    /// The same disc with its centre at `pos`.
    pub fn at(&self, pos: Vec2) -> (c: Circle)
        ensures
            c == self.placed(pos),
    {
        proof {
            use_type_invariant(self);
        }
        Circle { pos, r: self.r }
    }
}

/// The line of the points `(x, y)` with `a x + b y + c = 0`, where `a` and `b`
/// are not both zero. The side on which `a x + b y + c` is greater than zero is
/// free; the line itself and the other side are solid.
#[derive(Clone, Copy, PartialEq, Eq, Structural, Debug)]
pub struct Line {
    pub(crate) a: Fixed,
    pub(crate) b: Fixed,
    pub(crate) c: Fixed,
}

impl Line {
    /// `a` and `b` are not both zero.
    #[verifier::type_invariant]
    pub open(crate) spec fn wf(self) -> bool {
        self.a@ != 0 || self.b@ != 0
    }

    /// The coefficient of `x`.
    pub open(crate) spec fn spec_a(&self) -> Fixed {
        self.a
    }

    /// The coefficient of `y`.
    pub open(crate) spec fn spec_b(&self) -> Fixed {
        self.b
    }

    /// The constant term.
    pub open(crate) spec fn spec_c(&self) -> Fixed {
        self.c
    }

    /// `a x + b y + c` at the point `p`, over raw values: it counts in units of
    /// `1 / (SCALE * SCALE)`. Its sign tells the side of the line that `p` is on.
    pub open spec fn offset(self, p: Vec2) -> int {
        self.a()@ * p.x@ + self.b()@ * p.y@ + self.c()@ * SCALE
    }

    /// `a a + b b` over raw values: the squared length of the line's normal.
    pub open spec fn norm_sq(self) -> int {
        self.a()@ * self.a()@ + self.b()@ * self.b()@
    }

    /// The ends of the stretch of the line that is drawn between the bounds
    /// `lo` and `hi`. A line with `b == 0` is upright: it stands at
    /// `x = -c / a` and is cut off at the heights `lo` and `hi`. Any other line
    /// is cut off at the abscissas `lo` and `hi`, where it has the height
    /// `-(c + a x) / b`. Each quotient is rounded toward zero and saturated.
    pub open spec fn stretch(self, lo: Fixed, hi: Fixed) -> (Vec2, Vec2) {
        if self.b()@ == 0 {
            let x = fixed(div_trunc(-(self.c()@ * SCALE), self.a()@));
            (Vec2 { x, y: lo }, Vec2 { x, y: hi })
        } else {
            (
                Vec2 {
                    x: lo,
                    y: fixed(div_trunc(-(self.c()@ * SCALE + self.a()@ * lo@), self.b()@)),
                },
                Vec2 {
                    x: hi,
                    y: fixed(div_trunc(-(self.c()@ * SCALE + self.a()@ * hi@), self.b()@)),
                },
            )
        }
    }

    /// The line `a x + b y + c = 0`, or `None` where `a` and `b` are both zero.
    pub fn new(a: Fixed, b: Fixed, c: Fixed) -> (l: Option<Line>)
        ensures
            a@ != 0 || b@ != 0 ==> (l matches Some(k) && k.wf() && k.a() == a && k.b() == b
                && k.c() == c),
            a@ == 0 && b@ == 0 ==> l is None,
    {
        if a.raw != 0 || b.raw != 0 {
            Some(Line { a, b, c })
        } else {
            None
        }
    }

    /// The coefficient of `x`.
    #[verifier::when_used_as_spec(spec_a)]
    pub fn a(&self) -> (a: Fixed)
        ensures
            a == self.a(),
    {
        self.a
    }

    /// The coefficient of `y`.
    #[verifier::when_used_as_spec(spec_b)]
    pub fn b(&self) -> (b: Fixed)
        ensures
            b == self.b(),
    {
        self.b
    }

    /// The constant term.
    #[verifier::when_used_as_spec(spec_c)]
    pub fn c(&self) -> (c: Fixed)
        ensures
            c == self.c(),
    {
        self.c
    }

    /// The height of the line at the abscissa `x`, for a line that is not
    /// upright.
    fn height_at(&self, x: Fixed) -> (y: Fixed)
        requires
            self.b@ != 0,
        ensures
            y == fixed(div_trunc(-(self.c@ * SCALE + self.a@ * x@), self.b@)),
    {
        let a: i64 = self.a.raw as i64;
        let c: i64 = self.c.raw as i64;
        let wide: i64 = x.raw as i64;
        proof {
            lemma_mul_bound(a as int, wide as int, 0x8000_0000, 0x8000_0000);
        }
        let num: i64 = -(c * SCALE + a * wide);
        proof {
            lemma_div_trunc_bound(num as int, self.b@);
        }
        Fixed { raw: saturate((num / (self.b.raw as i64)) as i128) }
    }

    /// The ends of the stretch of the line to draw between the bounds `lo` and
    /// `hi`.
    pub fn segment(&self, lo: Fixed, hi: Fixed) -> (ends: (Vec2, Vec2))
        ensures
            ends == self.stretch(lo, hi),
    {
        proof {
            use_type_invariant(self);
        }
        if self.b.raw == 0 {
            let c: i64 = self.c.raw as i64;
            let num: i64 = -(c * SCALE);
            proof {
                lemma_div_trunc_bound(num as int, self.a@);
            }
            let x: Fixed = Fixed { raw: saturate((num / (self.a.raw as i64)) as i128) };
            (Vec2 { x, y: lo }, Vec2 { x, y: hi })
        } else {
            (Vec2 { x: lo, y: self.height_at(lo) }, Vec2 { x: hi, y: self.height_at(hi) })
        }
    }
}

/// The ends of the stretch lie on the line up to the rounding of one quotient:
/// where nothing is saturated, `a x + b y + c` at either end is shorter than
/// `b`, or than `a` for an upright line, in the units of `offset`.
pub proof fn lemma_stretch_on_line(l: Line, lo: Fixed, hi: Fixed)
    requires
        l.wf(),
    ensures
        ({
            let (start, end) = l.stretch(lo, hi);
            let a = l.a()@;
            let b = l.b()@;
            let c = l.c()@;
            &&& b == 0 && in_raw_range(div_trunc(-(c * SCALE), a)) ==> {
                &&& magnitude(l.offset(start)) < magnitude(a)
                &&& magnitude(l.offset(end)) < magnitude(a)
            }
            &&& b != 0 && in_raw_range(div_trunc(-(c * SCALE + a * lo@), b)) ==> magnitude(
                l.offset(start),
            ) < magnitude(b)
            &&& b != 0 && in_raw_range(div_trunc(-(c * SCALE + a * hi@), b)) ==> magnitude(
                l.offset(end),
            ) < magnitude(b)
        }),
{
    let a = l.a()@;
    let b = l.b()@;
    let c = l.c()@;
    if b == 0 {
        let num = -(c * SCALE);
        let x = div_trunc(num, a);
        lemma_div_trunc_remainder(num, a);
        assert(a * x + b * lo@ + c * SCALE == -(num - x * a) && a * x + b * hi@ + c * SCALE == -(num
            - x * a)) by (nonlinear_arith)
            requires
                b == 0,
                num == -(c * SCALE),
        ;
    } else {
        let n1 = -(c * SCALE + a * lo@);
        let y1 = div_trunc(n1, b);
        lemma_div_trunc_remainder(n1, b);
        assert(a * lo@ + b * y1 + c * SCALE == -(n1 - y1 * b)) by (nonlinear_arith)
            requires
                n1 == -(c * SCALE + a * lo@),
        ;
        let n2 = -(c * SCALE + a * hi@);
        let y2 = div_trunc(n2, b);
        lemma_div_trunc_remainder(n2, b);
        assert(a * hi@ + b * y2 + c * SCALE == -(n2 - y2 * b)) by (nonlinear_arith)
            requires
                n2 == -(c * SCALE + a * hi@),
        ;
    }
}

/// A shape of bounded extent.
#[derive(Clone, Copy, PartialEq, Eq, Structural, Debug)]
pub enum FiniteShape {
    Circle(Circle),
}

impl FiniteShape {
    /// The shape inside is well formed.
    pub open spec fn wf(self) -> bool {
        match self {
            FiniteShape::Circle(c) => c.wf(),
        }
    }
}

/// A shape of unbounded extent.
#[derive(Clone, Copy, PartialEq, Eq, Structural, Debug)]
pub enum InfiniteShape {
    Line(Line),
}

impl InfiniteShape {
    /// The shape inside is well formed.
    pub open spec fn wf(self) -> bool {
        match self {
            InfiniteShape::Line(l) => l.wf(),
        }
    }
}

/// A fixed obstacle of the scene.
#[derive(Clone, Copy, PartialEq, Eq, Structural, Debug)]
pub enum Geometry {
    Infinite(InfiniteShape),
    Finite(FiniteShape),
}

impl Geometry {
    /// The shape inside is well formed.
    pub open spec fn wf(self) -> bool {
        match self {
            Geometry::Infinite(s) => s.wf(),
            Geometry::Finite(s) => s.wf(),
        }
    }
}

} // verus!
