//! The moving disc: its state, one step of its motion, and its response to an
//! obstacle.

use vstd::prelude::*;
use crate::collision::{
    circle_circle, circle_circle_collision, circle_line, circle_line_collision, CollisionResult,
};
use crate::fixed::{fixed, Fixed};
use crate::num::{lemma_div_trunc_bound, SCALE};
use crate::shape::{FiniteShape, Geometry, InfiniteShape};
use crate::vec2::Vec2;

verus! {

/// A rigid disc. Its mass and its moment of inertia are greater than zero. The
/// force and the torque hold what was applied since the last step, and a step
/// uses them up.
#[derive(Clone, Copy, PartialEq, Eq, Structural, Debug)]
pub struct Body {
    pub(crate) mass: Fixed,
    pub(crate) inertia: Fixed,
    pub(crate) shape: FiniteShape,
    pub(crate) pos: Vec2,
    pub(crate) vel: Vec2,
    pub(crate) force: Vec2,
    pub(crate) angle: Fixed,
    pub(crate) omega: Fixed,
    pub(crate) torque: Fixed,
}

impl Body {
    /// The mass and the moment of inertia are greater than zero, and the shape
    /// is well formed. Every body that the program holds is well formed; a body
    /// that a proof speaks of is so only where it says so.
    #[verifier::type_invariant]
    pub open(crate) spec fn wf(self) -> bool {
        self.mass@ > 0 && self.inertia@ > 0 && self.shape.wf()
    }

    /// The body at `pos`, turned by `angle`, that does not move and has nothing
    /// applied to it.
    pub open(crate) spec fn at_rest(
        mass: Fixed,
        inertia: Fixed,
        shape: FiniteShape,
        pos: Vec2,
        angle: Fixed,
    ) -> Body {
        Body {
            mass,
            inertia,
            shape,
            pos,
            vel: Vec2 { x: fixed(0), y: fixed(0) },
            force: Vec2 { x: fixed(0), y: fixed(0) },
            angle,
            omega: fixed(0),
            torque: fixed(0),
        }
    }

    /// The body with the velocity `vel`.
    pub open(crate) spec fn with_vel(self, vel: Vec2) -> Body {
        Body { vel, ..self }
    }

    /// The body with the angular velocity `omega`.
    pub open(crate) spec fn with_omega(self, omega: Fixed) -> Body {
        Body { omega, ..self }
    }

    /// The body with `f` added to the force on it.
    pub open(crate) spec fn pushed(self, f: Vec2) -> Body {
        Body { force: self.force.plus(f), ..self }
    }

    /// The body with `t` added to the torque on it.
    pub open(crate) spec fn twisted(self, t: Fixed) -> Body {
        Body { torque: self.torque.plus(t), ..self }
    }

    /// The body after the time `dt`. The velocity gains `force / mass * dt`
    /// first, and the position then moves by the new velocity times `dt`; the
    /// angular velocity and the angle follow in the same way from the torque
    /// and the moment of inertia. The force and the torque are used up.
    pub open(crate) spec fn stepped(self, dt: Fixed) -> Body {
        let vel = self.vel.advanced(self.force, dt, self.mass@);
        let omega = self.omega.advanced(self.torque, dt, self.inertia@);
        Body {
            pos: self.pos.advanced(vel, dt, SCALE as int),
            vel,
            force: Vec2 { x: fixed(0), y: fixed(0) },
            angle: self.angle.advanced(omega, dt, SCALE as int),
            omega,
            torque: fixed(0),
            ..self
        }
    }

    /// The body after `n` steps of `dt` each.
    pub open spec fn stepped_times(self, dt: Fixed, n: nat) -> Body
        decreases n,
    {
        if n == 0 {
            self
        } else {
            self.stepped_times(dt, (n - 1) as nat).stepped(dt)
        }
    }

    /// How the body's shape, placed where the body is, meets the obstacle
    /// `geom`.
    pub open spec fn contact(self, geom: Geometry) -> CollisionResult {
        match self.shape() {
            FiniteShape::Circle(c) => match geom {
                Geometry::Finite(FiniteShape::Circle(c2)) => circle_circle(
                    c.placed(self.pos()),
                    c2,
                ),
                Geometry::Infinite(InfiniteShape::Line(l)) => circle_line(c.placed(self.pos()), l),
            },
        }
    }

    /// The body after it has met the obstacle `geom`: where it reaches into the
    /// obstacle in part, its velocity is mirrored about the normal of the
    /// contact; nothing else changes, and its position least of all.
    pub open(crate) spec fn collided(self, geom: Geometry) -> Body {
        match self.contact(geom) {
            CollisionResult::Penetration(p) => Body { vel: self.vel.reflected(p.normal), ..self },
            _ => self,
        }
    }

    /// The body after it has met each obstacle of `geoms` in turn, the first
    /// one first.
    pub open spec fn collided_all(self, geoms: Seq<Geometry>) -> Body
        decreases geoms.len(),
    {
        if geoms.len() == 0 {
            self
        } else {
            self.collided_all(geoms.drop_last()).collided(geoms.last())
        }
    }

    /// The body does not move or turn, and nothing is applied to it.
    pub open spec fn is_at_rest(self) -> bool {
        &&& self.vel() == Vec2 { x: fixed(0), y: fixed(0) }
        &&& self.force() == Vec2 { x: fixed(0), y: fixed(0) }
        &&& self.omega() == fixed(0)
        &&& self.torque() == fixed(0)
    }

    /// The mass.
    pub open(crate) spec fn spec_mass(&self) -> Fixed {
        self.mass
    }

    /// The moment of inertia.
    pub open(crate) spec fn spec_inertia(&self) -> Fixed {
        self.inertia
    }

    /// The shape. The body's position stands for the shape's own.
    pub open(crate) spec fn spec_shape(&self) -> FiniteShape {
        self.shape
    }

    /// The position.
    pub open(crate) spec fn spec_pos(&self) -> Vec2 {
        self.pos
    }

    /// The velocity.
    pub open(crate) spec fn spec_vel(&self) -> Vec2 {
        self.vel
    }

    /// The force applied since the last step.
    pub open(crate) spec fn spec_force(&self) -> Vec2 {
        self.force
    }

    /// The angle by which the body is turned.
    pub open(crate) spec fn spec_angle(&self) -> Fixed {
        self.angle
    }

    /// The angular velocity.
    pub open(crate) spec fn spec_omega(&self) -> Fixed {
        self.omega
    }

    /// The torque applied since the last step.
    pub open(crate) spec fn spec_torque(&self) -> Fixed {
        self.torque
    }

    /// A body at rest at `pos`, turned by `angle`, or `None` where the mass or
    /// the moment of inertia is not greater than zero.
    pub fn new(mass: Fixed, inertia: Fixed, shape: FiniteShape, pos: Vec2, angle: Fixed) -> (b:
        Option<Body>)
        ensures
            mass@ > 0 && inertia@ > 0 ==> (b matches Some(k) && k.wf() && k == Body::at_rest(
                mass,
                inertia,
                shape,
                pos,
                angle,
            )),
            mass@ <= 0 || inertia@ <= 0 ==> b is None,
    {
        if mass.raw > 0 && inertia.raw > 0 {
            proof {
                match shape {
                    FiniteShape::Circle(c) => {
                        use_type_invariant(&c);
                    },
                }
            }
            Some(
                Body {
                    mass,
                    inertia,
                    shape,
                    pos,
                    vel: Vec2::zero(),
                    force: Vec2::zero(),
                    angle,
                    omega: Fixed::zero(),
                    torque: Fixed::zero(),
                },
            )
        } else {
            None
        }
    }

    /// Advances the body by the time `dt`.
    pub fn step(&mut self, dt: Fixed)
        ensures
            *final(self) == old(self).stepped(dt),
            final(self).force() == (Vec2 { x: fixed(0), y: fixed(0) }),
            final(self).torque() == fixed(0),
    {
        proof {
            use_type_invariant(&*self);
        }
        self.vel = self.vel.advance(self.force, dt, self.mass.raw as i64);
        self.pos = self.pos.advance(self.vel, dt, SCALE);
        self.force = Vec2::zero();
        self.omega = self.omega.advance(self.torque, dt, self.inertia.raw as i64);
        self.angle = self.angle.advance(self.omega, dt, SCALE);
        self.torque = Fixed::zero();
    }

    /// Lets the body respond to the obstacle `geom`.
    pub fn collide(&mut self, geom: &Geometry)
        ensures
            *final(self) == old(self).collided(*geom),
    {
        proof {
            use_type_invariant(&*self);
        }
        match &self.shape {
            FiniteShape::Circle(c1) => {
                let c = c1.at(self.pos);
                let res = match geom {
                    Geometry::Finite(FiniteShape::Circle(c2)) => circle_circle_collision(&c, c2),
                    Geometry::Infinite(InfiniteShape::Line(l)) => circle_line_collision(&c, l),
                };
                if let CollisionResult::Penetration(p) = res {
                    self.vel = self.vel.reflect(p.normal);
                }
            },
        }
    }

    /// The mass.
    #[verifier::when_used_as_spec(spec_mass)]
    pub fn mass(&self) -> (v: Fixed)
        ensures
            v == self.mass(),
    {
        self.mass
    }

    /// The moment of inertia.
    #[verifier::when_used_as_spec(spec_inertia)]
    pub fn inertia(&self) -> (v: Fixed)
        ensures
            v == self.inertia(),
    {
        self.inertia
    }

    /// The shape. The body's position stands for the shape's own.
    #[verifier::when_used_as_spec(spec_shape)]
    pub fn shape(&self) -> (v: FiniteShape)
        ensures
            v == self.shape(),
    {
        self.shape
    }

    /// The position.
    #[verifier::when_used_as_spec(spec_pos)]
    pub fn pos(&self) -> (v: Vec2)
        ensures
            v == self.pos(),
    {
        self.pos
    }

    /// The velocity.
    #[verifier::when_used_as_spec(spec_vel)]
    pub fn vel(&self) -> (v: Vec2)
        ensures
            v == self.vel(),
    {
        self.vel
    }

    /// The force applied since the last step.
    #[verifier::when_used_as_spec(spec_force)]
    pub fn force(&self) -> (v: Vec2)
        ensures
            v == self.force(),
    {
        self.force
    }

    /// The angle by which the body is turned.
    #[verifier::when_used_as_spec(spec_angle)]
    pub fn angle(&self) -> (v: Fixed)
        ensures
            v == self.angle(),
    {
        self.angle
    }

    /// The angular velocity.
    #[verifier::when_used_as_spec(spec_omega)]
    pub fn omega(&self) -> (v: Fixed)
        ensures
            v == self.omega(),
    {
        self.omega
    }

    /// The torque applied since the last step.
    #[verifier::when_used_as_spec(spec_torque)]
    pub fn torque(&self) -> (v: Fixed)
        ensures
            v == self.torque(),
    {
        self.torque
    }

    /// Gives the body the velocity `vel`.
    pub fn set_vel(&mut self, vel: Vec2)
        ensures
            *final(self) == old(self).with_vel(vel),
    {
        proof {
            use_type_invariant(&*self);
        }
        self.vel = vel;
    }

    /// Gives the body the angular velocity `omega`.
    pub fn set_omega(&mut self, omega: Fixed)
        ensures
            *final(self) == old(self).with_omega(omega),
    {
        proof {
            use_type_invariant(&*self);
        }
        self.omega = omega;
    }

    /// Adds `f` to the force on the body.
    pub fn apply_force(&mut self, f: Vec2)
        ensures
            *final(self) == old(self).pushed(f),
    {
        proof {
            use_type_invariant(&*self);
        }
        self.force = self.force.saturating_add(f);
    }

    /// Adds `t` to the torque on the body.
    pub fn apply_torque(&mut self, t: Fixed)
        ensures
            *final(self) == old(self).twisted(t),
    {
        proof {
            use_type_invariant(&*self);
        }
        self.torque = self.torque.saturating_add(t);
    }
}

/// A body at rest stays as it is through a step of any length.
pub proof fn lemma_rest_is_kept(b: Body, dt: Fixed)
    requires
        b.wf(),
        b.is_at_rest(),
    ensures
        b.stepped(dt) == b,
{
    lemma_div_trunc_bound(0, b.mass()@);
    lemma_div_trunc_bound(0, b.inertia()@);
    lemma_div_trunc_bound(0, SCALE as int);
    assert(0 * dt@ == 0);
}

/// A body at rest stays as it is through any number of steps.
pub proof fn lemma_rest_is_kept_for_good(b: Body, dt: Fixed, n: nat)
    requires
        b.wf(),
        b.is_at_rest(),
    ensures
        b.stepped_times(dt, n) == b,
    decreases n,
{
    if n > 0 {
        lemma_rest_is_kept_for_good(b, dt, (n - 1) as nat);
        lemma_rest_is_kept(b, dt);
    }
}

/// A step uses up the force and the torque, and leaves the mass, the moment of
/// inertia and the shape as they are.
pub proof fn lemma_step_clears_accumulators(b: Body, dt: Fixed)
    ensures
        b.stepped(dt).force() == (Vec2 { x: fixed(0), y: fixed(0) }),
        b.stepped(dt).torque() == fixed(0),
        b.stepped(dt).mass() == b.mass(),
        b.stepped(dt).inertia() == b.inertia(),
        b.stepped(dt).shape() == b.shape(),
        b.wf() ==> b.stepped(dt).wf(),
{
}

/// Meeting an obstacle changes nothing of a body but its velocity, and not
/// even that unless the body reaches into the obstacle in part.
pub proof fn lemma_collide_changes_velocity_only(b: Body, geom: Geometry)
    ensures
        b.collided(geom) == b.with_vel(b.collided(geom).vel()),
        !(b.contact(geom) is Penetration) ==> b.collided(geom) == b,
        b.contact(geom) matches CollisionResult::Penetration(p) ==> b.collided(geom).vel()
            == b.vel().reflected(p.normal),
{
}

} // verus!
