//! Laws of the solver, stated and proved over the pipeline's specification:
//! mass preservation, wall containment, and single-particle stasis.

use vstd::prelude::*;
use crate::fx::{Fx, spec_div, spec_mul, spec_neg, spec_sub};
use crate::vec2::Vec2D;
use crate::particle::Particle;
use crate::params::Params;
use crate::grid::{CellKey, cell_indices, spec_hash};
use crate::world::{
    density_fold, grad_cache, grav_one, grav_pass, pos_one, pos_pass, relax_fold, relax_one_ci,
    relax_pair, relax_pass_ci, spec_step, spec_step_n, vel_one, vel_pass, visc_fold, visc_one,
    visc_pass, wall_one, wall_pass,
};

verus! {

/// The particle's x position is clear of both vertical walls.
pub open spec fn in_bounds_x(p: Particle, params: Params) -> bool {
    params.particle_radius.raw <= p.pos.x.raw <= spec_sub(
        params.world_size,
        params.particle_radius,
    ).raw
}

/// The particle's y position is clear of both horizontal walls.
pub open spec fn in_bounds_y(p: Particle, params: Params) -> bool {
    params.particle_radius.raw <= p.pos.y.raw <= spec_sub(
        params.world_size,
        params.particle_radius,
    ).raw
}

/// Containment: the wall pass leaves a particle clear of every wall on both
/// axes, provided at most one axis was violated going in. (The pass corrects
/// only the first violated boundary, so a particle outside both axes at once
/// is corrected on x alone.)
pub proof fn lemma_wall_containment(p: Particle, params: Params)
    requires
        params.wf(),
        in_bounds_x(p, params) || in_bounds_y(p, params),
    ensures
        in_bounds_x(wall_one(p, params), params),
        in_bounds_y(wall_one(p, params), params),
{
    assert(spec_sub(params.world_size, params.particle_radius).raw == params.world_size.raw
        - params.particle_radius.raw);
}

/// Containment over a whole sequence: after the wall pass, every particle
/// with at most one violated axis is clear of every wall.
pub proof fn lemma_wall_pass_containment(s: Seq<Particle>, params: Params)
    requires
        params.wf(),
        forall|i: int|
            0 <= i < s.len() ==> in_bounds_x(#[trigger] s[i], params) || in_bounds_y(
                s[i],
                params,
            ),
    ensures
        forall|i: int|
            0 <= i < s.len() ==> in_bounds_x(#[trigger] wall_pass(s, params)[i], params)
                && in_bounds_y(wall_pass(s, params)[i], params),
{
    assert forall|i: int|
        0 <= i < s.len() implies in_bounds_x(#[trigger] wall_pass(s, params)[i], params)
        && in_bounds_y(wall_pass(s, params)[i], params) by {
        lemma_wall_containment(s[i], params);
    }
}

/// The relaxation pass moves positions and velocities only (snapshot form).
proof fn lemma_relax_pass_ci_keeps(
    s0: Seq<Particle>,
    s: Seq<Particle>,
    params: Params,
    dt: Fx,
    i: int,
)
    ensures
        relax_pass_ci(s0, s, params, dt, i).len() == s.len(),
        forall|a: int|
            0 <= a < s.len() ==> (#[trigger] relax_pass_ci(s0, s, params, dt, i)[a]).mass
                == s[a].mass,
    decreases i,
{
    if i > 0 {
        lemma_relax_pass_ci_keeps(s0, s, params, dt, i - 1);
        let prev = relax_pass_ci(s0, s, params, dt, i - 1);
        if 0 <= i - 1 < prev.len() {
            let bucket = cell_indices(
                s0,
                params,
                spec_hash(prev[i - 1].pos, params.cell_size),
                s0.len() as int,
            );
            let cur = prev[i - 1];
            let dens = density_fold(prev, cur, i - 1, bucket, bucket.len() as int, params);
            let pressure = crate::fx::spec_mul(
                crate::fx::spec_mul(
                    params.stiffness,
                    crate::fx::spec_sub(dens.0, params.rest_density),
                ),
                cur.mass,
            );
            let pressure_near = crate::fx::spec_mul(
                crate::fx::spec_mul(params.stiffness_near, dens.1),
                cur.mass,
            );
            let cache = grad_cache(prev, cur, i - 1, bucket, params);
            lemma_relax_fold_ci_keeps(
                prev,
                i - 1,
                bucket,
                bucket.len() as int,
                cache,
                cur.pos,
                cur.mass,
                pressure,
                pressure_near,
                dt,
            );
        }
    }
}

/// The relaxation fold moves positions and velocities only.
proof fn lemma_relax_fold_ci_keeps(
    s: Seq<Particle>,
    idx: int,
    bucket: Seq<usize>,
    k: int,
    cache: Seq<Fx>,
    orig_pos: Vec2D,
    cur_mass: Fx,
    pressure: Fx,
    pressure_near: Fx,
    dt: Fx,
)
    requires
        0 <= idx < s.len(),
    ensures
        relax_fold(s, idx, bucket, k, cache, orig_pos, cur_mass, pressure, pressure_near, dt).len()
            == s.len(),
        forall|i: int|
            0 <= i < s.len() ==> (#[trigger] relax_fold(
                s,
                idx,
                bucket,
                k,
                cache,
                orig_pos,
                cur_mass,
                pressure,
                pressure_near,
                dt,
            )[i]).mass == s[i].mass,
    decreases k,
{
    if k > 0 {
        lemma_relax_fold_ci_keeps(
            s,
            idx,
            bucket,
            k - 1,
            cache,
            orig_pos,
            cur_mass,
            pressure,
            pressure_near,
            dt,
        );
    }
}

/// The viscosity fold changes only the velocity.
proof fn lemma_visc_fold_mass(
    orig: Seq<Particle>,
    cur: Particle,
    idx: int,
    bucket: Seq<usize>,
    k: int,
    params: Params,
    dt: Fx,
)
    ensures
        visc_fold(orig, cur, idx, bucket, k, params, dt).mass == cur.mass,
    decreases k,
{
    if k > 0 {
        lemma_visc_fold_mass(orig, cur, idx, bucket, k - 1, params, dt);
    }
}

/// Mass invariance: a step never changes any particle's mass, nor the
/// number of particles. Together with the construction-time check in
/// `add_particle`, every particle's mass stays positive forever.
pub proof fn lemma_step_preserves_mass(s: Seq<Particle>, params: Params, dt: Fx)
    ensures
        spec_step(s, params, dt).len() == s.len(),
        forall|i: int|
            0 <= i < s.len() ==> (#[trigger] spec_step(s, params, dt)[i]).mass == s[i].mass,
{
    let s1 = grav_pass(s, params);
    let s2 = vel_pass(s1, dt);
    let s3 = visc_pass(s2, params, dt);
    let s4 = pos_pass(s3, dt);
    let s5 = relax_pass_ci(s, s4, params, dt, s4.len() as int);
    assert forall|i: int| 0 <= i < s.len() implies (#[trigger] s3[i]).mass == s[i].mass by {
        let bucket = cell_indices(
            s2,
            params,
            spec_hash(s2[i].pos, params.cell_size),
            s2.len() as int,
        );
        lemma_visc_fold_mass(s2, s2[i], i, bucket, bucket.len() as int, params, dt);
    }
    lemma_relax_pass_ci_keeps(s, s4, params, dt, s4.len() as int);
    assert forall|i: int| 0 <= i < s.len() implies (#[trigger] spec_step(s, params, dt)[i]).mass
        == s[i].mass by {
        assert(s4[i].mass == s3[i].mass);
        assert(s5[i].mass == s4[i].mass);
        assert(spec_step(s, params, dt)[i] == wall_one(s5[i], params));
    }
}


/// Stasis: with zero gravity, a lone resting particle clear of the walls is
/// left exactly unchanged by a step — fixed-point arithmetic makes this
/// exact, with no tolerance.
pub proof fn lemma_single_particle_stasis(p: Particle, params: Params, dt: Fx)
    requires
        params.wf(),
        params.gravity.raw == 0,
        p.mass.raw > 0,
        p.vel.x.raw == 0,
        p.vel.y.raw == 0,
        p.force_acc.x.raw == 0,
        p.force_acc.y.raw == 0,
        in_bounds_x(p, params),
        in_bounds_y(p, params),
    ensures
        spec_step(seq![p], params, dt) == seq![p],
{
    let s = seq![p];
    assert(s.len() == 1 && s[0] == p);
    assert(spec_neg(params.gravity) == (Fx { raw: 0 }));
    assert(crate::fx::tdiv(0int, 1_000_000int) == 0);
    assert(spec_mul(Fx { raw: 0 }, p.mass) == (Fx { raw: 0 }));
    assert(grav_one(p, params).force_acc == p.force_acc);
    assert(grav_one(p, params) == p);
    let s1 = grav_pass(s, params);
    assert(s1 =~= s);
    assert(0int / (p.mass.raw as int) == 0) by (nonlinear_arith)
        requires
            p.mass.raw > 0,
    ;
    assert(spec_div(Fx { raw: 0 }, p.mass) == (Fx { raw: 0 }));
    assert(spec_mul(Fx { raw: 0 }, dt) == (Fx { raw: 0 }));
    assert(vel_one(p, dt) == p);
    let s2 = vel_pass(s1, dt);
    assert(s2 =~= s);
    let key = spec_hash(p.pos, params.cell_size);
    let bucket = cell_indices(s, params, key, 1);
    assert(cell_indices(s, params, key, 0) == Seq::<usize>::empty());
    assert(bucket =~= seq![0usize]);
    assert(visc_fold(s, p, 0, bucket, 1, params, dt) == visc_fold(s, p, 0, bucket, 0, params, dt));
    assert(visc_one(s, params, dt, 0) == p);
    let s3 = visc_pass(s2, params, dt);
    assert(s3 =~= s);
    assert(pos_one(p, dt) == p);
    let s4 = pos_pass(s3, dt);
    assert(s4 =~= s);
    let dens = density_fold(s, p, 0, bucket, 1, params);
    assert(dens == density_fold(s, p, 0, bucket, 0, params));
    let cache = grad_cache(s, p, 0, bucket, params);
    let pressure = crate::fx::spec_mul(
        crate::fx::spec_mul(params.stiffness, crate::fx::spec_sub(dens.0, params.rest_density)),
        p.mass,
    );
    let pressure_near = crate::fx::spec_mul(
        crate::fx::spec_mul(params.stiffness_near, dens.1),
        p.mass,
    );
    assert(relax_fold(s, 0, bucket, 1, cache, p.pos, p.mass, pressure, pressure_near, dt)
        == relax_fold(s, 0, bucket, 0, cache, p.pos, p.mass, pressure, pressure_near, dt));
    let s5 = relax_pass_ci(s, s4, params, dt, 1);
    assert(relax_pass_ci(s, s4, params, dt, 0) == s4);
    assert(s5 == relax_one_ci(s, s4, params, dt, 0));
    assert(s5 =~= s);
    assert(spec_sub(params.world_size, params.particle_radius).raw == params.world_size.raw
        - params.particle_radius.raw);
    assert(wall_one(p, params) == p);
    assert(wall_pass(s5, params) =~= s);
}

/// Stasis over any number of steps.
pub proof fn lemma_single_particle_stasis_n(p: Particle, params: Params, dt: Fx, n: int)
    requires
        params.wf(),
        params.gravity.raw == 0,
        p.mass.raw > 0,
        p.vel.x.raw == 0,
        p.vel.y.raw == 0,
        p.force_acc.x.raw == 0,
        p.force_acc.y.raw == 0,
        in_bounds_x(p, params),
        in_bounds_y(p, params),
    ensures
        spec_step_n(seq![p], params, dt, n) == seq![p],
    decreases n,
{
    if n > 0 {
        lemma_single_particle_stasis_n(p, params, dt, n - 1);
        lemma_single_particle_stasis(p, params, dt);
    }
}

/// An index is in a cell's bucket exactly when it is in range and its
/// particle hashes there.
proof fn lemma_cell_indices_membership(
    s: Seq<Particle>,
    params: Params,
    k: CellKey,
    n: int,
    i: usize,
)
    requires
        0 <= n <= usize::MAX,
    ensures
        cell_indices(s, params, k, n).contains(i) <==> ((i as int) < n && spec_hash(
            s[i as int].pos,
            params.cell_size,
        ) == k),
    decreases n,
{
    let post = cell_indices(s, params, k, n);
    if n <= 0 {
        assert(post.len() == 0);
        assert(!post.contains(i));
    } else {
        lemma_cell_indices_membership(s, params, k, n - 1, i);
        let pre = cell_indices(s, params, k, n - 1);
        if spec_hash(s[n - 1].pos, params.cell_size) == k {
            assert(post == pre.push((n - 1) as usize));
            if (i as int) < n && spec_hash(s[i as int].pos, params.cell_size) == k {
                if (i as int) < n - 1 {
                    let w = choose|w: int| 0 <= w < pre.len() && pre[w] == i;
                    assert(post[w] == i);
                    assert(post.contains(i));
                } else {
                    assert(post[pre.len() as int] == i);
                    assert(post.contains(i));
                }
            }
            if post.contains(i) {
                let w = choose|w: int| 0 <= w < post.len() && post[w] == i;
                if w < pre.len() {
                    assert(pre[w] == i);
                    assert(pre.contains(i));
                } else {
                    assert(i as int == n - 1);
                }
            }
        }
    }
}

/// Grid partition: every particle index is in the bucket of its own cell
/// and in no other cell's bucket; buckets are strictly increasing (see
/// `lemma_cell_indices_bounds`), so an index appears exactly once overall.
pub proof fn lemma_grid_partition(s: Seq<Particle>, params: Params, i: usize)
    requires
        (i as int) < s.len(),
        s.len() <= usize::MAX,
    ensures
        cell_indices(
            s,
            params,
            spec_hash(s[i as int].pos, params.cell_size),
            s.len() as int,
        ).contains(i),
        forall|k: CellKey|
            k != spec_hash(s[i as int].pos, params.cell_size) ==> !(#[trigger] cell_indices(
                s,
                params,
                k,
                s.len() as int,
            )).contains(i),
{
    lemma_cell_indices_membership(
        s,
        params,
        spec_hash(s[i as int].pos, params.cell_size),
        s.len() as int,
        i,
    );
    assert forall|k: CellKey|
        k != spec_hash(s[i as int].pos, params.cell_size) implies !(#[trigger] cell_indices(
        s,
        params,
        k,
        s.len() as int,
    )).contains(i) by {
        lemma_cell_indices_membership(s, params, k, s.len() as int, i);
    }
}

/// Pairwise symmetry of a relaxation correction: with equal masses, the two
/// particles of a visited pair receive exactly opposite position and
/// velocity corrections — their sum is zero — or the pair is skipped
/// unchanged (coincident positions).
pub proof fn lemma_relax_pair_symmetry(
    s: Seq<Particle>,
    idx: int,
    j: int,
    grad: Fx,
    orig_pos: Vec2D,
    cur_mass: Fx,
    pressure: Fx,
    pressure_near: Fx,
    dt: Fx,
)
    requires
        0 <= idx < s.len(),
        0 <= j < s.len(),
        idx != j,
        s[j].mass == cur_mass,
    ensures
        relax_pair(s, idx, j, grad, orig_pos, cur_mass, pressure, pressure_near, dt) == s || exists|
            c: Vec2D,
            cv: Vec2D,
        |
            relax_pair(s, idx, j, grad, orig_pos, cur_mass, pressure, pressure_near, dt)
                == s.update(
                idx,
                Particle {
                    pos: crate::vec2::spec_vsub(s[idx].pos, c),
                    vel: crate::vec2::spec_vsub(s[idx].vel, cv),
                    ..s[idx]
                },
            ).update(
                j,
                Particle {
                    pos: (#[trigger] crate::vec2::spec_vadd(s[j].pos, c)),
                    vel: (#[trigger] crate::vec2::spec_vadd(s[j].vel, cv)),
                    ..s[j]
                },
            ),
{
    let nb = s[j];
    let magnitude = crate::fx::spec_add(
        crate::fx::spec_mul(pressure, grad),
        crate::fx::spec_mul(crate::fx::spec_mul(pressure_near, grad), grad),
    );
    let relv = crate::vec2::spec_vsub(nb.pos, orig_pos);
    let len = crate::vec2::spec_vlength(relv);
    if len.raw > 0 {
        let direction = crate::vec2::spec_vdiv(relv, len);
        let force = crate::vec2::spec_vscale(direction, magnitude);
        let total = crate::fx::spec_add(cur_mass, nb.mass);
        let ratio = crate::fx::spec_div(nb.mass, total);
        let half = Fx { raw: 500_000 };
        let c = crate::vec2::spec_vscale(
            crate::vec2::spec_vscale(
                crate::vec2::spec_vscale(crate::vec2::spec_vscale(force, half), dt),
                dt,
            ),
            ratio,
        );
        let cv = crate::vec2::spec_vscale(crate::vec2::spec_vscale(force, dt), ratio);
        assert(crate::fx::spec_div(cur_mass, total) == ratio);
        assert(relax_pair(s, idx, j, grad, orig_pos, cur_mass, pressure, pressure_near, dt)
            == s.update(
            idx,
            Particle {
                pos: crate::vec2::spec_vsub(s[idx].pos, c),
                vel: crate::vec2::spec_vsub(s[idx].vel, cv),
                ..s[idx]
            },
        ).update(
            j,
            Particle {
                pos: crate::vec2::spec_vadd(s[j].pos, c),
                vel: crate::vec2::spec_vadd(s[j].vel, cv),
                ..s[j]
            },
        ));
    }
}


/// Pairwise symmetry at the pass level: relaxing the first of two equal-mass
/// particles sharing a cell either leaves both unchanged (coincident
/// positions) or moves the two by exactly opposite position and velocity
/// corrections, so the sum of the two corrections is zero.
pub proof fn lemma_relax_one_two_particle_symmetry(
    p0: Particle,
    p1: Particle,
    params: Params,
    dt: Fx,
)
    requires
        p1.mass == p0.mass,
        spec_hash(p0.pos, params.cell_size) == spec_hash(p1.pos, params.cell_size),
    ensures
        relax_one_ci(seq![p0, p1], seq![p0, p1], params, dt, 0) == seq![p0, p1] || exists|
            c: Vec2D,
            cv: Vec2D,
        |
            relax_one_ci(seq![p0, p1], seq![p0, p1], params, dt, 0) == seq![
                Particle {
                    pos: crate::vec2::spec_vsub(p0.pos, c),
                    vel: crate::vec2::spec_vsub(p0.vel, cv),
                    ..p0
                },
                Particle {
                    pos: (#[trigger] crate::vec2::spec_vadd(p1.pos, c)),
                    vel: (#[trigger] crate::vec2::spec_vadd(p1.vel, cv)),
                    ..p1
                },
            ],
{
    let s = seq![p0, p1];
    let key = spec_hash(s[0].pos, params.cell_size);
    let bucket = cell_indices(s, params, key, 2);
    assert(cell_indices(s, params, key, 0) == Seq::<usize>::empty());
    assert(cell_indices(s, params, key, 1) =~= seq![0usize]);
    assert(bucket =~= seq![0usize, 1usize]);
    let dens = density_fold(s, p0, 0, bucket, 2, params);
    let pressure = crate::fx::spec_mul(
        crate::fx::spec_mul(params.stiffness, crate::fx::spec_sub(dens.0, params.rest_density)),
        p0.mass,
    );
    let pressure_near = crate::fx::spec_mul(
        crate::fx::spec_mul(params.stiffness_near, dens.1),
        p0.mass,
    );
    let cache = grad_cache(s, p0, 0, bucket, params);
    assert(relax_fold(s, 0, bucket, 1, cache, p0.pos, p0.mass, pressure, pressure_near, dt)
        == relax_fold(s, 0, bucket, 0, cache, p0.pos, p0.mass, pressure, pressure_near, dt));
    assert(relax_fold(s, 0, bucket, 2, cache, p0.pos, p0.mass, pressure, pressure_near, dt)
        == relax_pair(s, 0, 1, cache[1], p0.pos, p0.mass, pressure, pressure_near, dt));
    lemma_relax_pair_symmetry(s, 0, 1, cache[1], p0.pos, p0.mass, pressure, pressure_near, dt);
    let r = relax_pair(s, 0, 1, cache[1], p0.pos, p0.mass, pressure, pressure_near, dt);
    if r != s {
        let (c, cv): (Vec2D, Vec2D) = choose|c: Vec2D, cv: Vec2D|
            relax_pair(s, 0, 1, cache[1], p0.pos, p0.mass, pressure, pressure_near, dt)
                == s.update(
                0,
                Particle {
                    pos: crate::vec2::spec_vsub(s[0].pos, c),
                    vel: crate::vec2::spec_vsub(s[0].vel, cv),
                    ..s[0]
                },
            ).update(
                1,
                Particle {
                    pos: (#[trigger] crate::vec2::spec_vadd(s[1].pos, c)),
                    vel: (#[trigger] crate::vec2::spec_vadd(s[1].vel, cv)),
                    ..s[1]
                },
            );
        assert(r =~= seq![
            Particle {
                pos: crate::vec2::spec_vsub(p0.pos, c),
                vel: crate::vec2::spec_vsub(p0.vel, cv),
                ..p0
            },
            Particle {
                pos: crate::vec2::spec_vadd(p1.pos, c),
                vel: crate::vec2::spec_vadd(p1.vel, cv),
                ..p1
            },
        ]);
    } else {
        assert(relax_one_ci(s, s, params, dt, 0) == s);
    }
}

} // verus!


