//! Tunable simulation constants, named for reproducibility.
//!
//! The standard set is the tuning the solver ships with; tests and callers may
//! build other sets (for example zero gravity) to probe single passes.

use vstd::prelude::*;
use crate::fx::{Fx, FX_LIMIT};

verus! {

/// The driver-level stability bound on a single sub-step, in millionths
/// of a time unit (0.01 time units).
pub const MAX_DT_RAW: i64 = 10_000;

/// The constants that shape one simulation step.
#[derive(Clone, Copy, PartialEq, Eq, Structural, Debug)]
pub struct Params {
    /// Downward acceleration applied to every particle each step.
    pub gravity: Fx,
    /// Fraction of incoming velocity kept (inverted) after a wall hit.
    pub boundary_cor: Fx,
    /// Minimum outward speed a wall hit leaves a particle with.
    pub boundary_min_dv: Fx,
    /// Half-width of a particle, kept clear of the walls.
    pub particle_radius: Fx,
    /// Maximum distance over which two particles interact.
    pub interaction_radius: Fx,
    /// Gain turning density error into pressure.
    pub stiffness: Fx,
    /// Gain turning near-density into near-pressure.
    pub stiffness_near: Fx,
    /// Density at which the pressure term vanishes.
    pub rest_density: Fx,
    /// Linear viscosity coefficient.
    pub viscosity_linear: Fx,
    /// Quadratic viscosity coefficient.
    pub viscosity_quad: Fx,
    /// Side of a uniform grid cell (four interaction radii).
    pub cell_size: Fx,
    /// Side of the square world; walls stand at 0 and here on both axes.
    pub world_size: Fx,
}

impl Params {
    /// The parameter set is usable by the solver: the divisors of the
    /// pipeline are positive and the walls leave room for a particle.
    pub open spec fn wf(self) -> bool {
        &&& self.interaction_radius.raw > 0
        &&& self.cell_size.raw > 0
        &&& 0 <= self.particle_radius.raw
        &&& 2 * self.particle_radius.raw <= self.world_size.raw
        &&& self.world_size.raw <= FX_LIMIT
    }

    /// The standard tuning: gravity 40, restitution 0.01, minimum wall
    /// speed 0.005, particle radius 1, interaction radius 9, stiffness 35,
    /// near-stiffness 100, rest density 5, viscosities 0 and -0.005,
    /// cell size 36, world side 100.
    pub fn standard() -> (r: Params)
        ensures
            r == Params::spec_standard(),
    {
        Params {
            gravity: Fx { raw: 40_000_000 },
            boundary_cor: Fx { raw: 10_000 },
            boundary_min_dv: Fx { raw: 5_000 },
            particle_radius: Fx { raw: 1_000_000 },
            interaction_radius: Fx { raw: 9_000_000 },
            stiffness: Fx { raw: 35_000_000 },
            stiffness_near: Fx { raw: 100_000_000 },
            rest_density: Fx { raw: 5_000_000 },
            viscosity_linear: Fx { raw: 0 },
            viscosity_quad: Fx { raw: -5_000i64 },
            cell_size: Fx { raw: 36_000_000 },
            world_size: Fx { raw: 100_000_000 },
        }
    }

    /// The standard tuning as a specification value.
    pub open spec fn spec_standard() -> Params {
        Params {
            gravity: Fx { raw: 40_000_000 },
            boundary_cor: Fx { raw: 10_000 },
            boundary_min_dv: Fx { raw: 5_000 },
            particle_radius: Fx { raw: 1_000_000 },
            interaction_radius: Fx { raw: 9_000_000 },
            stiffness: Fx { raw: 35_000_000 },
            stiffness_near: Fx { raw: 100_000_000 },
            rest_density: Fx { raw: 5_000_000 },
            viscosity_linear: Fx { raw: 0 },
            viscosity_quad: Fx { raw: -5_000i64 },
            cell_size: Fx { raw: 36_000_000 },
            world_size: Fx { raw: 100_000_000 },
        }
    }
}

/// The standard tuning is well formed.
pub proof fn lemma_standard_wf()
    ensures
        Params::spec_standard().wf(),
{
}

} // verus!
