//! The scene: the moving bodies and the fixed obstacles, and one tick of the
//! simulation over all of them.

use vstd::prelude::*;
use crate::body::Body;
use crate::fixed::Fixed;
use crate::shape::Geometry;
use crate::vec2::Vec2;

verus! {

/// A scene. The obstacles do not change while it runs; each body is the
/// scene's own.
#[derive(Debug)]
pub struct State {
    pub geometry: Vec<Geometry>,
    pub bodies: Vec<Body>,
}

impl State {
    /// Adds the force `f` to the force on every body.
    pub fn set_gravity(&mut self, f: Vec2)
        ensures
            final(self).geometry@ == old(self).geometry@,
            final(self).bodies@ == old(self).bodies@.map_values(|b: Body| b.pushed(f)),
    {
        let n: usize = self.bodies.len();
        let mut i: usize = 0;
        while i < n
            invariant
                i <= n,
                self.bodies.len() == n,
                old(self).bodies.len() == n,
                self.geometry@ == old(self).geometry@,
                forall|j: int| 0 <= j < i ==> self.bodies@[j] == old(self).bodies@[j].pushed(f),
                forall|j: int| i <= j < n ==> self.bodies@[j] == old(self).bodies@[j],
            decreases n - i,
        {
            self.bodies[i].apply_force(f);
            i += 1;
        }
        assert(self.bodies@ =~= old(self).bodies@.map_values(|b: Body| b.pushed(f)));
    }

    /// Lets every body respond to every obstacle: body by body, and for each
    /// body obstacle by obstacle in the order of the scene.
    pub fn collide(&mut self)
        ensures
            final(self).geometry@ == old(self).geometry@,
            final(self).bodies@ == old(self).bodies@.map_values(
                |b: Body| b.collided_all(old(self).geometry@),
            ),
    {
        let n: usize = self.bodies.len();
        let m: usize = self.geometry.len();
        let mut i: usize = 0;
        while i < n
            invariant
                i <= n,
                self.bodies.len() == n,
                old(self).bodies.len() == n,
                self.geometry.len() == m,
                self.geometry@ == old(self).geometry@,
                forall|j: int|
                    0 <= j < i ==> self.bodies@[j] == old(self).bodies@[j].collided_all(
                        self.geometry@,
                    ),
                forall|j: int| i <= j < n ==> self.bodies@[j] == old(self).bodies@[j],
            decreases n - i,
        {
            let mut k: usize = 0;
            while k < m
                invariant
                    i < n,
                    k <= m,
                    self.bodies.len() == n,
                    old(self).bodies.len() == n,
                    self.geometry.len() == m,
                    self.geometry@ == old(self).geometry@,
                    forall|j: int|
                        0 <= j < i ==> self.bodies@[j] == old(self).bodies@[j].collided_all(
                            self.geometry@,
                        ),
                    forall|j: int| i < j < n ==> self.bodies@[j] == old(self).bodies@[j],
                    self.bodies@[i as int] == old(self).bodies@[i as int].collided_all(
                        self.geometry@.take(k as int),
                    ),
                decreases m - k,
            {
                let g: Geometry = self.geometry[k];
                self.bodies[i].collide(&g);
                proof {
                    let upto = self.geometry@.take(k + 1);
                    assert(upto.drop_last() =~= self.geometry@.take(k as int));
                    assert(upto.last() == g);
                }
                k += 1;
            }
            assert(self.geometry@.take(m as int) =~= self.geometry@);
            i += 1;
        }
        assert(self.bodies@ =~= old(self).bodies@.map_values(
            |b: Body| b.collided_all(old(self).geometry@),
        ));
    }

    /// One tick of the time `dt`: every body is advanced, and then every body
    /// responds to every obstacle from where it has got to.
    pub fn step(&mut self, dt: Fixed)
        ensures
            final(self).geometry@ == old(self).geometry@,
            final(self).bodies@ == old(self).bodies@.map_values(
                |b: Body| b.stepped(dt).collided_all(old(self).geometry@),
            ),
    {
        let n: usize = self.bodies.len();
        let mut i: usize = 0;
        while i < n
            invariant
                i <= n,
                self.bodies.len() == n,
                old(self).bodies.len() == n,
                self.geometry@ == old(self).geometry@,
                forall|j: int| 0 <= j < i ==> self.bodies@[j] == old(self).bodies@[j].stepped(dt),
                forall|j: int| i <= j < n ==> self.bodies@[j] == old(self).bodies@[j],
            decreases n - i,
        {
            self.bodies[i].step(dt);
            i += 1;
        }
        self.collide();
        assert(self.bodies@ =~= old(self).bodies@.map_values(
            |b: Body| b.stepped(dt).collided_all(old(self).geometry@),
        ));
    }
}

} // verus!
