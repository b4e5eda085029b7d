//! A small two-dimensional rigid-body sandbox on exact fixed-point arithmetic.
//!
//! Discs fall under gravity, are tested against static circles and one-sided
//! infinite lines, and bounce by having their velocity mirrored about the
//! contact normal. Every quantity is a [`fixed::Fixed`] number, so each result
//! is a function of the inputs alone and every contract is exact.

pub mod body;
pub mod collision;
pub mod fixed;
pub mod num;
pub mod shape;
pub mod state;
pub mod vec2;

pub use body::Body;
pub use collision::{circle_circle_collision, circle_line_collision, CollisionResult, Penetration};
pub use fixed::Fixed;
pub use num::{isqrt, SCALE};
pub use shape::{Circle, FiniteShape, Geometry, InfiniteShape, Line};
pub use state::State;
pub use vec2::Vec2;
