//! Pure particle data: position, velocity, mass, and the per-step force
//! accumulator that the gravity pass overwrites at the start of every step.

use vstd::prelude::*;
use crate::fx::Fx;
use crate::vec2::Vec2D;

verus! {

/// One simulated particle. Its identity is its index in the owning world's
/// particle sequence; the index never changes during a step.
#[derive(Clone, Copy, PartialEq, Eq, Structural, Debug)]
pub struct Particle {
    pub pos: Vec2D,
    pub vel: Vec2D,
    pub mass: Fx,
    pub force_acc: Vec2D,
}

impl Particle {
    /// The particle `new` builds: at `(x, y)`, at rest, with no force.
    pub open spec fn spec_new(x: Fx, y: Fx, mass: Fx) -> Particle {
        Particle {
            pos: Vec2D { x, y },
            vel: Vec2D { x: Fx { raw: 0 }, y: Fx { raw: 0 } },
            mass,
            force_acc: Vec2D { x: Fx { raw: 0 }, y: Fx { raw: 0 } },
        }
    }

    /// A particle at `(x, y)` with the given mass, zero velocity, and an
    /// empty force accumulator.
    pub fn new(x: Fx, y: Fx, mass: Fx) -> (r: Particle)
        ensures
            r == Particle::spec_new(x, y, mass),
    {
        Particle { pos: Vec2D::new(x, y), vel: Vec2D::zero(), mass, force_acc: Vec2D::zero() }
    }
}

} // verus!
