//! The fluid solver: a world of particles advanced by a fixed-order pipeline.
//!
//! One step runs: rebuild the spatial grid, overwrite each force accumulator
//! with gravity, integrate velocities, apply viscosity impulses, integrate
//! positions, run the double-density relaxation against the grid built at the
//! start of the step (deliberately stale by then), and clamp to the walls.
//!
//! Every pass has an exact functional contract: the particle sequence after
//! the pass equals a specification fold over the sequence before it.

use vstd::prelude::*;
use vstd::arithmetic::div_mod::lemma_fundamental_div_mod_converse_div;
use crate::fx::{
    Fx, FX_LIMIT, spec_add, spec_div, spec_max, spec_min, spec_mul, spec_neg, spec_sub,
};
use crate::vec2::{Vec2D, spec_vadd, spec_vdiv, spec_vlength, spec_vscale, spec_vsub};
use crate::particle::Particle;
use crate::params::Params;
use crate::grid::{
    CellKey, SpatialGrid, build_spatial_map, cell_indices, hash_position,
    lemma_cell_indices_bounds, lemma_cell_indices_same_pos, spec_hash,
};

verus! {

/// Why a particle was rejected.
#[derive(Clone, Copy, PartialEq, Eq, Structural, Debug)]
pub enum SimError {
    /// The particle's mass was zero or negative.
    InvalidParticle,
}

/// The particle ensemble and its tuning; the grid is derived per step.
pub struct World {
    pub params: Params,
    pub particles: Vec<Particle>,
}

/// Gravity pass, one particle: the force accumulator is overwritten with
/// `(0, -gravity * mass)`; nothing else moves.
pub open spec fn grav_one(p: Particle, params: Params) -> Particle {
    Particle {
        force_acc: Vec2D { x: Fx { raw: 0 }, y: spec_mul(spec_neg(params.gravity), p.mass) },
        ..p
    }
}

/// Gravity pass over the whole sequence.
pub open spec fn grav_pass(s: Seq<Particle>, params: Params) -> Seq<Particle> {
    Seq::new(s.len(), |i: int| grav_one(s[i], params))
}

/// Velocity integration, one particle: `vel += (force / mass) * dt`
/// (semi-implicit Euler).
pub open spec fn vel_one(p: Particle, dt: Fx) -> Particle {
    Particle {
        vel: Vec2D {
            x: spec_add(p.vel.x, spec_mul(spec_div(p.force_acc.x, p.mass), dt)),
            y: spec_add(p.vel.y, spec_mul(spec_div(p.force_acc.y, p.mass), dt)),
        },
        ..p
    }
}

/// Velocity integration over the whole sequence.
pub open spec fn vel_pass(s: Seq<Particle>, dt: Fx) -> Seq<Particle> {
    Seq::new(s.len(), |i: int| vel_one(s[i], dt))
}

/// Position integration, one particle: `pos += vel * dt`.
pub open spec fn pos_one(p: Particle, dt: Fx) -> Particle {
    Particle {
        pos: Vec2D {
            x: spec_add(p.pos.x, spec_mul(p.vel.x, dt)),
            y: spec_add(p.pos.y, spec_mul(p.vel.y, dt)),
        },
        ..p
    }
}

/// Position integration over the whole sequence.
pub open spec fn pos_pass(s: Seq<Particle>, dt: Fx) -> Seq<Particle> {
    Seq::new(s.len(), |i: int| pos_one(s[i], dt))
}

/// The damped, floored rebound speed after a wall hit: `(-cor * v) / 2`.
pub open spec fn wall_bounce(params: Params, v: Fx) -> Fx {
    spec_div(spec_mul(spec_neg(params.boundary_cor), v), Fx { raw: 2_000_000 })
}

/// Wall pass, one particle. Checks the four boundaries in a fixed order and
/// corrects only the first violated one: the position is clamped onto the
/// wall and the velocity component is inverted, damped, and floored at the
/// minimum outward speed.
pub open spec fn wall_one(p: Particle, params: Params) -> Particle {
    let lo = params.particle_radius;
    let hi = spec_sub(params.world_size, params.particle_radius);
    if p.pos.x.raw < lo.raw {
        Particle {
            pos: Vec2D { x: lo, y: p.pos.y },
            vel: Vec2D { x: spec_max(params.boundary_min_dv, wall_bounce(params, p.vel.x)), y: p.vel.y },
            ..p
        }
    } else if p.pos.x.raw > hi.raw {
        Particle {
            pos: Vec2D { x: hi, y: p.pos.y },
            vel: Vec2D {
                x: spec_min(spec_neg(params.boundary_min_dv), wall_bounce(params, p.vel.x)),
                y: p.vel.y,
            },
            ..p
        }
    } else if p.pos.y.raw < lo.raw {
        Particle {
            pos: Vec2D { x: p.pos.x, y: lo },
            vel: Vec2D { x: p.vel.x, y: spec_max(params.boundary_min_dv, wall_bounce(params, p.vel.y)) },
            ..p
        }
    } else if p.pos.y.raw > hi.raw {
        Particle {
            pos: Vec2D { x: p.pos.x, y: hi },
            vel: Vec2D {
                x: p.vel.x,
                y: spec_min(spec_neg(params.boundary_min_dv), wall_bounce(params, p.vel.y)),
            },
            ..p
        }
    } else {
        p
    }
}

/// Wall pass over the whole sequence.
pub open spec fn wall_pass(s: Seq<Particle>, params: Params) -> Seq<Particle> {
    Seq::new(s.len(), |i: int| wall_one(s[i], params))
}

impl World {
    /// Every particle has positive mass and the tuning is usable.
    pub open spec fn wf(self) -> bool {
        &&& self.params.wf()
        &&& forall|i: int| 0 <= i < self.particles@.len() ==> self.particles@[i].mass.raw > 0
    }

    /// An empty world with the standard tuning.
    pub fn new() -> (w: World)
        ensures
            w.wf(),
            w.particles@.len() == 0,
            w.params == Params::spec_standard(),
    {
        World { params: Params::standard(), particles: Vec::new() }
    }

    /// An empty world with the given tuning.
    pub fn new_with_params(params: Params) -> (w: World)
        requires
            params.wf(),
        ensures
            w.wf(),
            w.particles@.len() == 0,
            w.params == params,
    {
        World { params, particles: Vec::new() }
    }

    /// The particles, in insertion order, for renderers and tests to read.
    pub fn particles(&self) -> (r: &Vec<Particle>)
        ensures
            r@ == self.particles@,
    {
        &self.particles
    }

    /// Appends a particle at `(x, y)` with zero velocity and force.
    /// A particle with zero or negative mass is rejected unchanged, so the
    /// mass invariant holds of every particle ever stored.
    pub fn add_particle(&mut self, x: Fx, y: Fx, mass: Fx) -> (r: Result<(), SimError>)
        ensures
            mass.raw > 0 ==> r == Result::<(), SimError>::Ok(())
                && final(self).particles@ == old(self).particles@.push(
                Particle::spec_new(x, y, mass),
            ),
            mass.raw <= 0 ==> r == Result::<(), SimError>::Err(SimError::InvalidParticle)
                && final(self).particles@ == old(self).particles@,
            final(self).params == old(self).params,
            old(self).wf() ==> final(self).wf(),
    {
        if mass.raw <= 0 {
            return Err(SimError::InvalidParticle);
        }
        self.particles.push(Particle::new(x, y, mass));
        Ok(())
    }

    /// Overwrites every force accumulator with gravity alone: each step
    /// starts from zero net external force.
    pub fn apply_gravity(&mut self)
        ensures
            final(self).particles@ == grav_pass(old(self).particles@, old(self).params),
            final(self).params == old(self).params,
    {
        let g = self.params.gravity;
        let n = self.particles.len();
        let mut idx: usize = 0;
        while idx < n
            invariant
                n == self.particles@.len(),
                idx <= n,
                self.params == old(self).params,
                forall|i: int| idx <= i < n ==> self.particles@[i] == old(self).particles@[i],
                forall|i: int|
                    0 <= i < idx ==> self.particles@[i] == grav_one(
                        old(self).particles@[i],
                        old(self).params,
                    ),
                g == old(self).params.gravity,
            decreases n - idx,
        {
            let p = self.particles[idx];
            let force = Vec2D { x: Fx::zero(), y: g.neg().mul(p.mass) };
            self.particles.set(idx, Particle { force_acc: force, ..p });
            idx = idx + 1;
        }
        proof {
            assert(self.particles@ =~= grav_pass(old(self).particles@, old(self).params));
        }
    }

    /// Integrates every velocity from its force accumulator.
    pub fn update_velocities(&mut self, dt: Fx)
        requires
            old(self).wf(),
        ensures
            final(self).particles@ == vel_pass(old(self).particles@, dt),
            final(self).params == old(self).params,
            final(self).wf(),
    {
        let n = self.particles.len();
        let mut idx: usize = 0;
        while idx < n
            invariant
                n == self.particles@.len(),
                n == old(self).particles@.len(),
                idx <= n,
                self.params == old(self).params,
                old(self).wf(),
                forall|i: int| idx <= i < n ==> self.particles@[i] == old(self).particles@[i],
                forall|i: int|
                    0 <= i < idx ==> self.particles@[i] == vel_one(old(self).particles@[i], dt),
            decreases n - idx,
        {
            let p = self.particles[idx];
            proof {
                assert(p == old(self).particles@[idx as int]);
                assert(old(self).particles@[idx as int].mass.raw > 0);
            }
            let vel = Vec2D {
                x: p.vel.x.add(p.force_acc.x.div(p.mass).mul(dt)),
                y: p.vel.y.add(p.force_acc.y.div(p.mass).mul(dt)),
            };
            self.particles.set(idx, Particle { vel, ..p });
            idx = idx + 1;
        }
        proof {
            assert(self.particles@ =~= vel_pass(old(self).particles@, dt));
            assert forall|i: int| 0 <= i < self.particles@.len() implies self.particles@[i].mass.raw
                > 0 by {
                assert(self.particles@[i] == vel_one(old(self).particles@[i], dt));
            }
        }
    }

    /// Integrates every position from its velocity.
    pub fn update_positions(&mut self, dt: Fx)
        ensures
            final(self).particles@ == pos_pass(old(self).particles@, dt),
            final(self).params == old(self).params,
    {
        let n = self.particles.len();
        let mut idx: usize = 0;
        while idx < n
            invariant
                n == self.particles@.len(),
                idx <= n,
                self.params == old(self).params,
                forall|i: int| idx <= i < n ==> self.particles@[i] == old(self).particles@[i],
                forall|i: int|
                    0 <= i < idx ==> self.particles@[i] == pos_one(old(self).particles@[i], dt),
            decreases n - idx,
        {
            let p = self.particles[idx];
            let pos = Vec2D { x: p.pos.x.add(p.vel.x.mul(dt)), y: p.pos.y.add(p.vel.y.mul(dt)) };
            self.particles.set(idx, Particle { pos, ..p });
            idx = idx + 1;
        }
        proof {
            assert(self.particles@ =~= pos_pass(old(self).particles@, dt));
        }
    }

    /// Clamps every particle onto the walls, inverting and damping the
    /// offending velocity component; only the first violated boundary of
    /// each particle is corrected.
    pub fn wall_collisions(&mut self)
        ensures
            final(self).particles@ == wall_pass(old(self).particles@, old(self).params),
            final(self).params == old(self).params,
    {
        let lo = self.params.particle_radius;
        let hi = self.params.world_size.sub(self.params.particle_radius);
        let min_dv = self.params.boundary_min_dv;
        let cor = self.params.boundary_cor;
        let two = Fx { raw: 2_000_000 };
        let n = self.particles.len();
        let mut idx: usize = 0;
        while idx < n
            invariant
                n == self.particles@.len(),
                idx <= n,
                self.params == old(self).params,
                lo == old(self).params.particle_radius,
                hi == spec_sub(old(self).params.world_size, old(self).params.particle_radius),
                min_dv == old(self).params.boundary_min_dv,
                cor == old(self).params.boundary_cor,
                two == (Fx { raw: 2_000_000 }),
                forall|i: int| idx <= i < n ==> self.particles@[i] == old(self).particles@[i],
                forall|i: int|
                    0 <= i < idx ==> self.particles@[i] == wall_one(
                        old(self).particles@[i],
                        old(self).params,
                    ),
            decreases n - idx,
        {
            let p = self.particles[idx];
            let p2: Particle = if p.pos.x.raw < lo.raw {
                Particle {
                    pos: Vec2D { x: lo, y: p.pos.y },
                    vel: Vec2D { x: min_dv.max(cor.neg().mul(p.vel.x).div(two)), y: p.vel.y },
                    ..p
                }
            } else if p.pos.x.raw > hi.raw {
                Particle {
                    pos: Vec2D { x: hi, y: p.pos.y },
                    vel: Vec2D {
                        x: min_dv.neg().min(cor.neg().mul(p.vel.x).div(two)),
                        y: p.vel.y,
                    },
                    ..p
                }
            } else if p.pos.y.raw < lo.raw {
                Particle {
                    pos: Vec2D { x: p.pos.x, y: lo },
                    vel: Vec2D { x: p.vel.x, y: min_dv.max(cor.neg().mul(p.vel.y).div(two)) },
                    ..p
                }
            } else if p.pos.y.raw > hi.raw {
                Particle {
                    pos: Vec2D { x: p.pos.x, y: hi },
                    vel: Vec2D {
                        x: p.vel.x,
                        y: min_dv.neg().min(cor.neg().mul(p.vel.y).div(two)),
                    },
                    ..p
                }
            } else {
                p
            };
            self.particles.set(idx, p2);
            idx = idx + 1;
        }
        proof {
            assert(self.particles@ =~= wall_pass(old(self).particles@, old(self).params));
        }
    }
}


/// Distance cutoff under which a viscosity impulse applies (0.1 units).
pub const VISCOSITY_CUTOFF_RAW: i64 = 100_000;

/// Viscosity, one ordered pair: if the pair approaches (`vel_in > 0`) within
/// the cutoff distance, an impulse along the pair's axis is subtracted from
/// the lower-indexed particle's velocity alone. A coincident pair (zero
/// distance) is skipped rather than divided by zero.
pub open spec fn visc_pair(cur: Particle, nb: Particle, params: Params, dt: Fx) -> Particle {
    let rel = spec_vsub(nb.pos, cur.pos);
    let vv = spec_vsub(cur.vel, nb.vel);
    let vel_in = spec_add(spec_mul(vv.x, rel.x), spec_mul(vv.y, rel.y));
    let len = spec_vlength(rel);
    if vel_in.raw > 0 && len.raw < VISCOSITY_CUTOFF_RAW && len.raw > 0 {
        let vin = spec_div(vel_in, len);
        let relu = Vec2D { x: spec_div(rel.x, len), y: spec_div(rel.y, len) };
        let q = spec_div(len, params.interaction_radius);
        let factor = spec_mul(
            spec_mul(spec_mul(Fx { raw: 500_000 }, dt), spec_sub(Fx { raw: 1_000_000 }, q)),
            spec_add(
                spec_mul(params.viscosity_linear, vin),
                spec_mul(spec_mul(params.viscosity_quad, vin), vin),
            ),
        );
        let imp = Vec2D { x: spec_mul(factor, relu.x), y: spec_mul(factor, relu.y) };
        Particle { vel: spec_vsub(cur.vel, imp), ..cur }
    } else {
        cur
    }
}

/// Viscosity impulses of the first `k` bucket entries onto one particle,
/// applied in bucket order; only higher-indexed neighbors act.
pub open spec fn visc_fold(
    orig: Seq<Particle>,
    cur: Particle,
    idx: int,
    bucket: Seq<usize>,
    k: int,
    params: Params,
    dt: Fx,
) -> Particle
    decreases k,
{
    if k <= 0 {
        cur
    } else {
        let prev = visc_fold(orig, cur, idx, bucket, k - 1, params, dt);
        let j = bucket[k - 1] as int;
        if idx < j && j < orig.len() {
            visc_pair(prev, orig[j], params, dt)
        } else {
            prev
        }
    }
}

/// Viscosity pass, one particle: impulses from every same-cell neighbor of
/// higher index, read from the pass-entry state.
pub open spec fn visc_one(orig: Seq<Particle>, params: Params, dt: Fx, idx: int) -> Particle {
    let bucket = cell_indices(
        orig,
        params,
        spec_hash(orig[idx].pos, params.cell_size),
        orig.len() as int,
    );
    visc_fold(orig, orig[idx], idx, bucket, bucket.len() as int, params, dt)
}

/// Viscosity pass over the whole sequence. Each particle's update reads the
/// pass-entry state: the pass only ever writes the lower-indexed particle of
/// a pair and only reads higher-indexed ones.
pub open spec fn visc_pass(orig: Seq<Particle>, params: Params, dt: Fx) -> Seq<Particle> {
    Seq::new(orig.len(), |i: int| visc_one(orig, params, dt, i))
}

/// The viscosity fold changes only the velocity.
proof fn lemma_visc_fold_keeps(
    orig: Seq<Particle>,
    cur: Particle,
    idx: int,
    bucket: Seq<usize>,
    k: int,
    params: Params,
    dt: Fx,
)
    ensures
        visc_fold(orig, cur, idx, bucket, k, params, dt).mass == cur.mass,
        visc_fold(orig, cur, idx, bucket, k, params, dt).pos == cur.pos,
        visc_fold(orig, cur, idx, bucket, k, params, dt).force_acc == cur.force_acc,
    decreases k,
{
    if k > 0 {
        lemma_visc_fold_keeps(orig, cur, idx, bucket, k - 1, params, dt);
    }
}

/// One viscosity impulse, executable.
fn visc_pair_exec(cur: Particle, nb: Particle, params: &Params, dt: Fx) -> (r: Particle)
    requires
        params.interaction_radius.raw != 0,
    ensures
        r == visc_pair(cur, nb, *params, dt),
{
    let rel = nb.pos.subtract(cur.pos);
    let vv = cur.vel.subtract(nb.vel);
    let vel_in = vv.x.mul(rel.x).add(vv.y.mul(rel.y));
    let len = rel.length();
    if vel_in.raw > 0 && len.raw < VISCOSITY_CUTOFF_RAW && len.raw > 0 {
        let vin = vel_in.div(len);
        let relu = Vec2D { x: rel.x.div(len), y: rel.y.div(len) };
        let q = len.div(params.interaction_radius);
        let half = Fx { raw: 500_000 };
        let one = Fx { raw: 1_000_000 };
        let factor = half.mul(dt).mul(one.sub(q)).mul(
            params.viscosity_linear.mul(vin).add(params.viscosity_quad.mul(vin).mul(vin)),
        );
        let imp = Vec2D { x: factor.mul(relu.x), y: factor.mul(relu.y) };
        Particle { vel: cur.vel.subtract(imp), ..cur }
    } else {
        cur
    }
}

impl World {
    /// Applies pairwise viscosity impulses: for every same-cell pair within
    /// the cutoff that is approaching, the lower-indexed particle's velocity
    /// is damped along the pair's axis. `grid` must be the grid of the
    /// current particle positions.
    pub fn apply_viscosity(&mut self, grid: &SpatialGrid, dt: Fx)
        requires
            old(self).wf(),
            grid.wf(),
            forall|k: CellKey| #[trigger] grid.spec_bucket(k) == cell_indices(
                old(self).particles@,
                old(self).params,
                k,
                old(self).particles@.len() as int,
            ),
        ensures
            final(self).particles@ == visc_pass(old(self).particles@, old(self).params, dt),
            final(self).params == old(self).params,
            final(self).wf(),
    {
        let n = self.particles.len();
        let mut idx: usize = 0;
        while idx < n
            invariant
                n == self.particles@.len(),
                n == old(self).particles@.len(),
                idx <= n,
                self.params == old(self).params,
                old(self).wf(),
                grid.wf(),
                forall|k: CellKey| #[trigger] grid.spec_bucket(k) == cell_indices(
                    old(self).particles@,
                    old(self).params,
                    k,
                    old(self).particles@.len() as int,
                ),
                forall|i: int| idx <= i < n ==> self.particles@[i] == old(self).particles@[i],
                forall|i: int|
                    0 <= i < idx ==> self.particles@[i] == visc_one(
                        old(self).particles@,
                        old(self).params,
                        dt,
                        i,
                    ),
            decreases n - idx,
        {
            let mut cur = self.particles[idx];
            let key = hash_position(&cur, &self.params);
            let ghost orig = old(self).particles@;
            let ghost bucket_spec = cell_indices(
                orig,
                old(self).params,
                spec_hash(orig[idx as int].pos, old(self).params.cell_size),
                orig.len() as int,
            );
            match grid.neighbors_of(key) {
                Some(bucket) => {
                    proof {
                        assert(bucket@ == bucket_spec);
                        lemma_cell_indices_bounds(
                            orig,
                            old(self).params,
                            key,
                            orig.len() as int,
                        );
                    }
                    let m = bucket.len();
                    let mut k: usize = 0;
                    while k < m
                        invariant
                            n == self.particles@.len(),
                            n == old(self).particles@.len(),
                            idx < n,
                            m == bucket@.len(),
                            k <= m,
                            self.params == old(self).params,
                            old(self).wf(),
                            bucket@ == bucket_spec,
                            bucket_spec == cell_indices(
                                old(self).particles@,
                                old(self).params,
                                spec_hash(
                                    old(self).particles@[idx as int].pos,
                                    old(self).params.cell_size,
                                ),
                                old(self).particles@.len() as int,
                            ),
                            forall|a: int|
                                0 <= a < bucket@.len() ==> (bucket@[a] as int)
                                    < old(self).particles@.len(),
                            forall|i: int|
                                idx <= i < n ==> self.particles@[i] == old(self).particles@[i],
                            forall|i: int|
                                0 <= i < idx ==> self.particles@[i] == visc_one(
                                    old(self).particles@,
                                    old(self).params,
                                    dt,
                                    i,
                                ),
                            cur == visc_fold(
                                old(self).particles@,
                                old(self).particles@[idx as int],
                                idx as int,
                                bucket@,
                                k as int,
                                old(self).params,
                                dt,
                            ),
                        decreases m - k,
                    {
                        let j = bucket[k];
                        if idx < j {
                            let nb = self.particles[j];
                            proof {
                                assert(nb == old(self).particles@[j as int]);
                            }
                            cur = visc_pair_exec(cur, nb, &self.params, dt);
                        }
                        k = k + 1;
                    }
                    self.particles.set(idx, cur);
                },
                None => {
                    proof {
                        assert(bucket_spec == Seq::<usize>::empty());
                        assert(visc_fold(
                            orig,
                            orig[idx as int],
                            idx as int,
                            bucket_spec,
                            0,
                            old(self).params,
                            dt,
                        ) == orig[idx as int]);
                        assert(self.particles@[idx as int] == visc_one(
                            orig,
                            old(self).params,
                            dt,
                            idx as int,
                        ));
                    }
                },
            }
            idx = idx + 1;
        }
        proof {
            assert(self.particles@ =~= visc_pass(old(self).particles@, old(self).params, dt));
            assert forall|i: int| 0 <= i < self.particles@.len() implies self.particles@[i].mass.raw
                > 0 by {
                let orig = old(self).particles@;
                let bucket = cell_indices(
                    orig,
                    old(self).params,
                    spec_hash(orig[i].pos, old(self).params.cell_size),
                    orig.len() as int,
                );
                lemma_visc_fold_keeps(
                    orig,
                    orig[i],
                    i,
                    bucket,
                    bucket.len() as int,
                    old(self).params,
                    dt,
                );
            }
        }
    }
}


/// Smoothing-kernel weight of a neighbor: `max(1 - distance / radius, 0)`.
pub open spec fn gradient_at(cur: Particle, nb: Particle, params: Params) -> Fx {
    let dist = spec_vlength(spec_vsub(cur.pos, nb.pos));
    spec_max(
        spec_sub(Fx { raw: 1_000_000 }, spec_div(dist, params.interaction_radius)),
        Fx { raw: 0 },
    )
}

/// Density and near-density of one particle over the first `k` bucket
/// entries: `density += gradient^2 * mass`, `near += gradient^3 * mass`,
/// skipping the particle itself.
pub open spec fn density_fold(
    s: Seq<Particle>,
    cur: Particle,
    idx: int,
    bucket: Seq<usize>,
    k: int,
    params: Params,
) -> (Fx, Fx)
    decreases k,
{
    if k <= 0 {
        (Fx { raw: 0 }, Fx { raw: 0 })
    } else {
        let prev = density_fold(s, cur, idx, bucket, k - 1, params);
        let j = bucket[k - 1] as int;
        if j != idx && j < s.len() {
            let g = gradient_at(cur, s[j], params);
            (
                spec_add(prev.0, spec_mul(spec_mul(g, g), cur.mass)),
                spec_add(prev.1, spec_mul(spec_mul(spec_mul(g, g), g), cur.mass)),
            )
        } else {
            prev
        }
    }
}

/// The kernel weights of every bucket entry, cached before any correction
/// moves a particle; the particle's own entry caches zero.
pub open spec fn grad_cache(
    s: Seq<Particle>,
    cur: Particle,
    idx: int,
    bucket: Seq<usize>,
    params: Params,
) -> Seq<Fx> {
    Seq::new(
        bucket.len(),
        |k: int|
            if bucket[k] as int != idx && (bucket[k] as int) < s.len() {
                gradient_at(cur, s[bucket[k] as int], params)
            } else {
                Fx { raw: 0 }
            },
    )
}

/// One pairwise relaxation correction: position and velocity corrections
/// along the pair's axis, applied to both endpoints in opposite directions,
/// each weighted by the other's mass fraction. A pair at zero distance is
/// skipped rather than divided by zero.
pub open spec fn relax_pair(
    s: Seq<Particle>,
    idx: int,
    j: int,
    grad: Fx,
    orig_pos: Vec2D,
    cur_mass: Fx,
    pressure: Fx,
    pressure_near: Fx,
    dt: Fx,
) -> Seq<Particle> {
    let nb = s[j];
    let magnitude = spec_add(
        spec_mul(pressure, grad),
        spec_mul(spec_mul(pressure_near, grad), grad),
    );
    let relv = spec_vsub(nb.pos, orig_pos);
    let len = spec_vlength(relv);
    if len.raw > 0 {
        let direction = spec_vdiv(relv, len);
        let force = spec_vscale(direction, magnitude);
        let total = spec_add(cur_mass, nb.mass);
        let ratio_n = spec_div(nb.mass, total);
        let ratio_c = spec_div(cur_mass, total);
        let half = Fx { raw: 500_000 };
        let pos_n = spec_vscale(spec_vscale(spec_vscale(spec_vscale(force, half), dt), dt), ratio_n);
        let vel_n = spec_vscale(spec_vscale(force, dt), ratio_n);
        let pos_c = spec_vscale(spec_vscale(spec_vscale(spec_vscale(force, half), dt), dt), ratio_c);
        let vel_c = spec_vscale(spec_vscale(force, dt), ratio_c);
        let pi = s[idx];
        let pi2 = Particle { pos: spec_vsub(pi.pos, pos_n), vel: spec_vsub(pi.vel, vel_n), ..pi };
        let nb2 = Particle { pos: spec_vadd(nb.pos, pos_c), vel: spec_vadd(nb.vel, vel_c), ..nb };
        s.update(idx, pi2).update(j, nb2)
    } else {
        s
    }
}

/// Corrections of the first `k` bucket entries against one particle, applied
/// in bucket order to the running state.
pub open spec fn relax_fold(
    s: Seq<Particle>,
    idx: int,
    bucket: Seq<usize>,
    k: int,
    cache: Seq<Fx>,
    orig_pos: Vec2D,
    cur_mass: Fx,
    pressure: Fx,
    pressure_near: Fx,
    dt: Fx,
) -> Seq<Particle>
    decreases k,
{
    if k <= 0 {
        s
    } else {
        let prev = relax_fold(
            s,
            idx,
            bucket,
            k - 1,
            cache,
            orig_pos,
            cur_mass,
            pressure,
            pressure_near,
            dt,
        );
        let j = bucket[k - 1] as int;
        if j != idx && j < prev.len() {
            relax_pair(prev, idx, j, cache[k - 1], orig_pos, cur_mass, pressure, pressure_near, dt)
        } else {
            prev
        }
    }
}

/// Relaxation of one particle against the given bucket: densities and kernel
/// weights are read first, then every neighbor pair is corrected in order.
pub open spec fn relax_one_core(
    bucket: Seq<usize>,
    s: Seq<Particle>,
    params: Params,
    dt: Fx,
    idx: int,
) -> Seq<Particle> {
    let cur = s[idx];
    let dens = density_fold(s, cur, idx, bucket, bucket.len() as int, params);
    let pressure = spec_mul(spec_mul(params.stiffness, spec_sub(dens.0, params.rest_density)), cur.mass);
    let pressure_near = spec_mul(spec_mul(params.stiffness_near, dens.1), cur.mass);
    let cache = grad_cache(s, cur, idx, bucket, params);
    relax_fold(
        s,
        idx,
        bucket,
        bucket.len() as int,
        cache,
        cur.pos,
        cur.mass,
        pressure,
        pressure_near,
        dt,
    )
}

/// Relaxation of one particle, looking its current cell up in the grid
/// built at the start of the step (stale once positions have moved).
pub open spec fn relax_one(
    g: SpatialGrid,
    s: Seq<Particle>,
    params: Params,
    dt: Fx,
    idx: int,
) -> Seq<Particle> {
    if 0 <= idx < s.len() {
        relax_one_core(g.spec_bucket(spec_hash(s[idx].pos, params.cell_size)), s, params, dt, idx)
    } else {
        s
    }
}

/// The whole relaxation pass: particles `0 .. i` relaxed in order, each
/// against the running state. An unordered pair is visited twice, once from
/// each endpoint: the double application is part of the solver's behavior.
pub open spec fn relax_pass(
    g: SpatialGrid,
    s: Seq<Particle>,
    params: Params,
    dt: Fx,
    i: int,
) -> Seq<Particle>
    decreases i,
{
    if i <= 0 {
        s
    } else {
        relax_one(g, relax_pass(g, s, params, dt, i - 1), params, dt, i - 1)
    }
}

/// A pairwise correction moves positions and velocities only.
proof fn lemma_relax_pair_keeps(
    s: Seq<Particle>,
    idx: int,
    j: int,
    grad: Fx,
    orig_pos: Vec2D,
    cur_mass: Fx,
    pressure: Fx,
    pressure_near: Fx,
    dt: Fx,
)
    requires
        0 <= idx < s.len(),
        0 <= j < s.len(),
    ensures
        relax_pair(s, idx, j, grad, orig_pos, cur_mass, pressure, pressure_near, dt).len()
            == s.len(),
        forall|i: int|
            0 <= i < s.len() ==> (#[trigger] relax_pair(
                s,
                idx,
                j,
                grad,
                orig_pos,
                cur_mass,
                pressure,
                pressure_near,
                dt,
            )[i]).mass == s[i].mass && relax_pair(
                s,
                idx,
                j,
                grad,
                orig_pos,
                cur_mass,
                pressure,
                pressure_near,
                dt,
            )[i].force_acc == s[i].force_acc,
{
}

/// The relaxation fold moves positions and velocities only.
proof fn lemma_relax_fold_keeps(
    s: Seq<Particle>,
    idx: int,
    bucket: Seq<usize>,
    k: int,
    cache: Seq<Fx>,
    orig_pos: Vec2D,
    cur_mass: Fx,
    pressure: Fx,
    pressure_near: Fx,
    dt: Fx,
)
    requires
        0 <= idx < s.len(),
    ensures
        relax_fold(s, idx, bucket, k, cache, orig_pos, cur_mass, pressure, pressure_near, dt).len()
            == s.len(),
        forall|i: int|
            0 <= i < s.len() ==> (#[trigger] relax_fold(
                s,
                idx,
                bucket,
                k,
                cache,
                orig_pos,
                cur_mass,
                pressure,
                pressure_near,
                dt,
            )[i]).mass == s[i].mass && relax_fold(
                s,
                idx,
                bucket,
                k,
                cache,
                orig_pos,
                cur_mass,
                pressure,
                pressure_near,
                dt,
            )[i].force_acc == s[i].force_acc,
    decreases k,
{
    if k > 0 {
        lemma_relax_fold_keeps(
            s,
            idx,
            bucket,
            k - 1,
            cache,
            orig_pos,
            cur_mass,
            pressure,
            pressure_near,
            dt,
        );
        let prev = relax_fold(
            s,
            idx,
            bucket,
            k - 1,
            cache,
            orig_pos,
            cur_mass,
            pressure,
            pressure_near,
            dt,
        );
        let j = bucket[k - 1] as int;
        if j != idx && j < prev.len() {
            lemma_relax_pair_keeps(
                prev,
                idx,
                j,
                cache[k - 1],
                orig_pos,
                cur_mass,
                pressure,
                pressure_near,
                dt,
            );
        }
    }
}

/// The whole relaxation pass moves positions and velocities only.
pub proof fn lemma_relax_pass_keeps(
    g: SpatialGrid,
    s: Seq<Particle>,
    params: Params,
    dt: Fx,
    i: int,
)
    ensures
        relax_pass(g, s, params, dt, i).len() == s.len(),
        forall|a: int|
            0 <= a < s.len() ==> (#[trigger] relax_pass(g, s, params, dt, i)[a]).mass == s[a].mass
                && relax_pass(g, s, params, dt, i)[a].force_acc == s[a].force_acc,
    decreases i,
{
    if i > 0 {
        lemma_relax_pass_keeps(g, s, params, dt, i - 1);
        let prev = relax_pass(g, s, params, dt, i - 1);
        if 0 <= i - 1 < prev.len() {
            let bucket = g.spec_bucket(spec_hash(prev[i - 1].pos, params.cell_size));
            let cur = prev[i - 1];
            let dens = density_fold(prev, cur, i - 1, bucket, bucket.len() as int, params);
            let pressure = spec_mul(
                spec_mul(params.stiffness, spec_sub(dens.0, params.rest_density)),
                cur.mass,
            );
            let pressure_near = spec_mul(spec_mul(params.stiffness_near, dens.1), cur.mass);
            let cache = grad_cache(prev, cur, i - 1, bucket, params);
            lemma_relax_fold_keeps(
                prev,
                i - 1,
                bucket,
                bucket.len() as int,
                cache,
                cur.pos,
                cur.mass,
                pressure,
                pressure_near,
                dt,
            );
        }
    }
}

impl World {
    /// The double-density relaxation: for each particle in order, densities
    /// are summed over its current cell's bucket in `grid`, turned into
    /// pressures, and applied as symmetric pairwise position and velocity
    /// corrections. `grid` is the grid built at the start of the step, read
    /// against positions that have already moved: the staleness is part of
    /// the specified behavior.
    pub fn double_density_relaxation(&mut self, grid: &SpatialGrid, dt: Fx)
        requires
            old(self).wf(),
            grid.wf(),
            forall|k: CellKey, a: int|
                0 <= a < grid.spec_bucket(k).len() ==> (#[trigger] grid.spec_bucket(k)[a] as int)
                    < old(self).particles@.len(),
        ensures
            final(self).particles@ == relax_pass(
                *grid,
                old(self).particles@,
                old(self).params,
                dt,
                old(self).particles@.len() as int,
            ),
            final(self).params == old(self).params,
            final(self).wf(),
    {
        let n = self.particles.len();
        let mut idx: usize = 0;
        while idx < n
            invariant
                n == self.particles@.len(),
                n == old(self).particles@.len(),
                idx <= n,
                self.params == old(self).params,
                old(self).wf(),
                grid.wf(),
                forall|k: CellKey, a: int|
                    0 <= a < grid.spec_bucket(k).len() ==> (#[trigger] grid.spec_bucket(k)[a]
                        as int) < n,
                self.particles@ == relax_pass(
                    *grid,
                    old(self).particles@,
                    old(self).params,
                    dt,
                    idx as int,
                ),
                forall|i: int|
                    0 <= i < n ==> (#[trigger] self.particles@[i]).mass == old(
                        self,
                    ).particles@[i].mass,
            decreases n - idx,
        {
            let ghost pre = self.particles@;
            let cur = self.particles[idx];
            let key = hash_position(&cur, &self.params);
            let ghost bucket_s = grid.spec_bucket(spec_hash(cur.pos, self.params.cell_size));
            match grid.neighbors_of(key) {
                None => {
                    proof {
                        assert(bucket_s == Seq::<usize>::empty());
                        assert(relax_one_core(bucket_s, pre, old(self).params, dt, idx as int)
                            == pre);
                        assert(relax_pass(
                            *grid,
                            old(self).particles@,
                            old(self).params,
                            dt,
                            idx + 1,
                        ) == relax_one(*grid, pre, old(self).params, dt, idx as int));
                    }
                },
                Some(bucket) => {
                    let m = bucket.len();
                    let mut density = Fx::zero();
                    let mut near_density = Fx::zero();
                    let mut cache: Vec<Fx> = Vec::new();
                    let mut k: usize = 0;
                    while k < m
                        invariant
                            n == self.particles@.len(),
                            idx < n,
                            m == bucket@.len(),
                            k <= m,
                            bucket@ == bucket_s,
                            self.params == old(self).params,
                            old(self).params.wf(),
                            self.particles@ == pre,
                            pre.len() == n,
                            cur == pre[idx as int],
                            forall|a: int| 0 <= a < bucket@.len() ==> (bucket@[a] as int) < n,
                            density == density_fold(
                                pre,
                                cur,
                                idx as int,
                                bucket@,
                                k as int,
                                old(self).params,
                            ).0,
                            near_density == density_fold(
                                pre,
                                cur,
                                idx as int,
                                bucket@,
                                k as int,
                                old(self).params,
                            ).1,
                            cache@.len() == k,
                            forall|a: int|
                                0 <= a < k ==> cache@[a] == grad_cache(
                                    pre,
                                    cur,
                                    idx as int,
                                    bucket@,
                                    old(self).params,
                                )[a],
                        decreases m - k,
                    {
                        let j = bucket[k];
                        if j != idx {
                            let nb = self.particles[j];
                            let dist = cur.pos.subtract(nb.pos).length();
                            let one = Fx { raw: 1_000_000 };
                            let gradient = one.sub(dist.div(self.params.interaction_radius)).max(
                                Fx::zero(),
                            );
                            cache.push(gradient);
                            density = density.add(gradient.mul(gradient).mul(cur.mass));
                            near_density = near_density.add(
                                gradient.mul(gradient).mul(gradient).mul(cur.mass),
                            );
                        } else {
                            cache.push(Fx::zero());
                        }
                        k = k + 1;
                    }
                    let pressure = self.params.stiffness.mul(
                        density.sub(self.params.rest_density),
                    ).mul(cur.mass);
                    let pressure_near = self.params.stiffness_near.mul(near_density).mul(cur.mass);
                    proof {
                        assert(cache@ =~= grad_cache(
                            pre,
                            cur,
                            idx as int,
                            bucket@,
                            old(self).params,
                        ));
                    }
                    let mut k2: usize = 0;
                    while k2 < m
                        invariant
                            n == self.particles@.len(),
                            idx < n,
                            m == bucket@.len(),
                            k2 <= m,
                            bucket@ == bucket_s,
                            self.params == old(self).params,
                            old(self).wf(),
                            n == old(self).particles@.len(),
                            pre.len() == n,
                            cur == pre[idx as int],
                            cache@ == grad_cache(pre, cur, idx as int, bucket@, old(self).params),
                            forall|a: int| 0 <= a < bucket@.len() ==> (bucket@[a] as int) < n,
                            forall|i: int|
                                0 <= i < n ==> (#[trigger] self.particles@[i]).mass == pre[i].mass,
                            forall|i: int|
                                0 <= i < n ==> pre[i].mass == old(self).particles@[i].mass,
                            self.particles@ == relax_fold(
                                pre,
                                idx as int,
                                bucket@,
                                k2 as int,
                                cache@,
                                cur.pos,
                                cur.mass,
                                pressure,
                                pressure_near,
                                dt,
                            ),
                        decreases m - k2,
                    {
                        let j = bucket[k2];
                        if j != idx {
                            let nb = self.particles[j];
                            let grad = cache[k2];
                            let magnitude = pressure.mul(grad).add(
                                pressure_near.mul(grad).mul(grad),
                            );
                            let relv = nb.pos.subtract(cur.pos);
                            let len = relv.length();
                            if len.raw > 0 {
                                let direction = relv.divide(len);
                                let force = direction.scale(magnitude);
                                proof {
                                    assert(pre[idx as int].mass == old(
                                        self,
                                    ).particles@[idx as int].mass);
                                    assert(old(self).particles@[idx as int].mass.raw > 0);
                                    assert(nb.mass == pre[j as int].mass);
                                    assert(old(self).particles@[j as int].mass.raw > 0);
                                }
                                let total = cur.mass.add(nb.mass);
                                let ratio_n = nb.mass.div(total);
                                let ratio_c = cur.mass.div(total);
                                let half = Fx { raw: 500_000 };
                                let pos_n = force.scale(half).scale(dt).scale(dt).scale(ratio_n);
                                let vel_n = force.scale(dt).scale(ratio_n);
                                let pos_c = force.scale(half).scale(dt).scale(dt).scale(ratio_c);
                                let vel_c = force.scale(dt).scale(ratio_c);
                                let pi = self.particles[idx];
                                self.particles.set(
                                    idx,
                                    Particle {
                                        pos: pi.pos.subtract(pos_n),
                                        vel: pi.vel.subtract(vel_n),
                                        ..pi
                                    },
                                );
                                self.particles.set(
                                    j,
                                    Particle {
                                        pos: nb.pos.add(pos_c),
                                        vel: nb.vel.add(vel_c),
                                        ..nb
                                    },
                                );
                            }
                        }
                        k2 = k2 + 1;
                    }
                    proof {
                        assert(self.particles@ == relax_one_core(
                            bucket_s,
                            pre,
                            old(self).params,
                            dt,
                            idx as int,
                        ));
                        assert(relax_pass(
                            *grid,
                            old(self).particles@,
                            old(self).params,
                            dt,
                            idx + 1,
                        ) == relax_one(*grid, pre, old(self).params, dt, idx as int));
                    }
                },
            }
            idx = idx + 1;
        }
    }
}


/// Relaxation of one particle with buckets drawn from a particle snapshot
/// `s0` (the state the grid was built from) instead of a grid value.
pub open spec fn relax_one_ci(
    s0: Seq<Particle>,
    s: Seq<Particle>,
    params: Params,
    dt: Fx,
    idx: int,
) -> Seq<Particle> {
    if 0 <= idx < s.len() {
        relax_one_core(
            cell_indices(s0, params, spec_hash(s[idx].pos, params.cell_size), s0.len() as int),
            s,
            params,
            dt,
            idx,
        )
    } else {
        s
    }
}

/// The relaxation pass with buckets drawn from the snapshot `s0`.
pub open spec fn relax_pass_ci(
    s0: Seq<Particle>,
    s: Seq<Particle>,
    params: Params,
    dt: Fx,
    i: int,
) -> Seq<Particle>
    decreases i,
{
    if i <= 0 {
        s
    } else {
        relax_one_ci(s0, relax_pass_ci(s0, s, params, dt, i - 1), params, dt, i - 1)
    }
}

/// A grid holding exactly the snapshot's cell contents yields the same
/// relaxation as the snapshot itself.
pub proof fn lemma_relax_pass_agree(
    g: SpatialGrid,
    s0: Seq<Particle>,
    s: Seq<Particle>,
    params: Params,
    dt: Fx,
    i: int,
)
    requires
        forall|k: CellKey| #[trigger] g.spec_bucket(k) == cell_indices(
            s0,
            params,
            k,
            s0.len() as int,
        ),
    ensures
        relax_pass(g, s, params, dt, i) == relax_pass_ci(s0, s, params, dt, i),
    decreases i,
{
    if i > 0 {
        lemma_relax_pass_agree(g, s0, s, params, dt, i - 1);
        let prev = relax_pass_ci(s0, s, params, dt, i - 1);
        if 0 <= i - 1 < prev.len() {
            let key = spec_hash(prev[i - 1].pos, params.cell_size);
            assert(g.spec_bucket(key) == cell_indices(s0, params, key, s0.len() as int));
        }
    }
}

/// One full pipeline step as a function of the entering state: gravity,
/// velocity integration, viscosity, position integration, double-density
/// relaxation against the entry-state grid, wall collisions.
pub open spec fn spec_step(s: Seq<Particle>, params: Params, dt: Fx) -> Seq<Particle> {
    let s1 = grav_pass(s, params);
    let s2 = vel_pass(s1, dt);
    let s3 = visc_pass(s2, params, dt);
    let s4 = pos_pass(s3, dt);
    let s5 = relax_pass_ci(s, s4, params, dt, s4.len() as int);
    wall_pass(s5, params)
}

/// `n` pipeline steps of `dt` each, in order.
pub open spec fn spec_step_n(s: Seq<Particle>, params: Params, dt: Fx, n: int) -> Seq<Particle>
    decreases n,
{
    if n <= 0 {
        s
    } else {
        spec_step(spec_step_n(s, params, dt, n - 1), params, dt)
    }
}

impl World {
    /// The grid of the current particle positions, for the neighbor-reading
    /// passes of this step.
    pub fn build_spatial_map(&self) -> (g: SpatialGrid)
        requires
            self.params.wf(),
        ensures
            g.wf(),
            forall|k: CellKey| #[trigger] g.spec_bucket(k) == cell_indices(
                self.particles@,
                self.params,
                k,
                self.particles@.len() as int,
            ),
    {
        build_spatial_map(&self.particles, &self.params)
    }

    /// Runs the pipeline exactly once with time slice `dt`: rebuild the
    /// grid, overwrite forces with gravity, integrate velocities, apply
    /// viscosity, integrate positions, relax densities against the
    /// start-of-step grid, and clamp to the walls.
    pub fn step(&mut self, dt: Fx)
        requires
            old(self).wf(),
            dt.raw >= 0,
        ensures
            final(self).particles@ == spec_step(old(self).particles@, old(self).params, dt),
            final(self).params == old(self).params,
            final(self).particles@.len() == old(self).particles@.len(),
            final(self).wf(),
    {
        let ghost s0 = self.particles@;
        let ghost params = self.params;
        let n = self.particles.len();
        proof {
            assert(s0.len() == n);
            assert(s0.len() <= usize::MAX);
        }
        let grid = self.build_spatial_map();
        self.apply_gravity();
        self.update_velocities(dt);
        let ghost s2 = self.particles@;
        proof {
            assert(s2.len() == s0.len());
            assert(forall|i: int| 0 <= i < s2.len() ==> (#[trigger] s2[i]).pos == s0[i].pos);
            assert forall|k: CellKey| #[trigger] grid.spec_bucket(k) == cell_indices(
                s2,
                params,
                k,
                s2.len() as int,
            ) by {
                lemma_cell_indices_same_pos(s0, s2, params, k, s0.len() as int);
            }
        }
        self.apply_viscosity(&grid, dt);
        let ghost s3 = self.particles@;
        self.update_positions(dt);
        let ghost s4 = self.particles@;
        proof {
            assert(s4.len() == s0.len());
            assert forall|i: int| 0 <= i < s4.len() implies (#[trigger] s4[i]).mass.raw > 0 by {
                assert(s4[i] == pos_one(s3[i], dt));
            }
            assert(self.wf());
            assert forall|k: CellKey, a: int|
                0 <= a < grid.spec_bucket(k).len() implies (#[trigger] grid.spec_bucket(k)[a]
                as int) < s4.len() by {
                assert(grid.spec_bucket(k) == cell_indices(s0, params, k, s0.len() as int));
                lemma_cell_indices_bounds(s0, params, k, s0.len() as int);
            }
        }
        self.double_density_relaxation(&grid, dt);
        let ghost s5 = self.particles@;
        proof {
            lemma_relax_pass_agree(grid, s0, s4, params, dt, s4.len() as int);
            assert(s5 == relax_pass_ci(s0, s4, params, dt, s4.len() as int));
        }
        self.wall_collisions();
        proof {
            assert(self.particles@ == spec_step(s0, params, dt));
            lemma_relax_pass_keeps(grid, s4, params, dt, s4.len() as int);
            assert forall|i: int| 0 <= i < self.particles@.len() implies (#[trigger] self
                .particles@[i]).mass.raw > 0 by {
                assert(self.particles@[i] == wall_one(s5[i], params));
                assert(s5[i].mass == s4[i].mass);
            }
            assert(self.wf());
        }
    }

    /// Advances the world by `total` time units in sub-steps: the pipeline
    /// runs with slice `max_dt` until the accumulated sub-step time reaches
    /// `total`, so the number of steps is `total / max_dt` rounded up.
    pub fn advance(&mut self, total: Fx, max_dt: Fx)
        requires
            old(self).wf(),
            total.raw >= 0,
            max_dt.raw > 0,
            total.raw + max_dt.raw <= FX_LIMIT,
        ensures
            final(self).particles@ == spec_step_n(
                old(self).particles@,
                old(self).params,
                max_dt,
                (total.raw + max_dt.raw - 1) as int / (max_dt.raw as int),
            ),
            final(self).params == old(self).params,
            final(self).wf(),
    {
        let mut acc: i64 = 0;
        let ghost mut cnt: int = 0;
        while acc < total.raw
            invariant
                old(self).wf(),
                self.wf(),
                self.params == old(self).params,
                total.raw >= 0,
                max_dt.raw > 0,
                total.raw + max_dt.raw <= FX_LIMIT,
                cnt >= 0,
                acc == cnt * max_dt.raw,
                acc <= total.raw + max_dt.raw,
                cnt == 0 ==> acc == 0,
                cnt > 0 ==> acc - max_dt.raw < total.raw,
                self.particles@ == spec_step_n(old(self).particles@, old(self).params, max_dt, cnt),
            decreases total.raw + max_dt.raw - acc,
        {
            self.step(max_dt);
            proof {
                assert((cnt + 1) * max_dt.raw == cnt * max_dt.raw + max_dt.raw)
                    by (nonlinear_arith);
            }
            acc = acc + max_dt.raw;
            proof {
                cnt = cnt + 1;
            }
        }
        proof {
            let q = (total.raw + max_dt.raw - 1) as int;
            let d = max_dt.raw as int;
            let r = total.raw + max_dt.raw - 1 - cnt * d;
            if cnt == 0 {
                assert(total.raw == 0);
                assert(r == d - 1);
            } else {
                assert(acc >= total.raw);
                assert(acc - d < total.raw);
                assert(r < d);
                assert(r >= 0);
            }
            lemma_fundamental_div_mod_converse_div(q, d, cnt, r);
        }
    }
}

} // verus!



