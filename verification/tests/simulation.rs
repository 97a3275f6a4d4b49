use fluid_sim::fx::Fx;
use fluid_sim::grid::hash_position;
use fluid_sim::params::Params;
use fluid_sim::particle::Particle;
use fluid_sim::world::{SimError, World};

fn fx(raw: i64) -> Fx {
    Fx::from_raw(raw)
}

/// The standard tuning with gravity and both viscosity coefficients zeroed.
fn quiet_params() -> Params {
    let mut p = Params::standard();
    p.gravity = fx(0);
    p.viscosity_linear = fx(0);
    p.viscosity_quad = fx(0);
    p
}

#[test]
fn add_particle_rejects_zero_mass() {
    let mut w = World::new();
    assert_eq!(w.add_particle(fx(50_000_000), fx(50_000_000), fx(0)), Err(SimError::InvalidParticle));
    assert_eq!(w.particles().len(), 0);
}

#[test]
fn add_particle_rejects_negative_mass() {
    let mut w = World::new();
    assert_eq!(
        w.add_particle(fx(50_000_000), fx(50_000_000), fx(-1_000_000)),
        Err(SimError::InvalidParticle)
    );
    assert_eq!(w.particles().len(), 0);
}

#[test]
fn add_particle_appends_at_rest() {
    let mut w = World::new();
    assert_eq!(w.add_particle(fx(50_000_000), fx(60_000_000), fx(1_000_000)), Ok(()));
    assert_eq!(w.particles().len(), 1);
    let p = w.particles()[0];
    assert_eq!((p.pos.x.raw, p.pos.y.raw), (50_000_000, 60_000_000));
    assert_eq!((p.vel.x.raw, p.vel.y.raw), (0, 0));
    assert_eq!((p.force_acc.x.raw, p.force_acc.y.raw), (0, 0));
    assert_eq!(p.mass.raw, 1_000_000);
}

#[test]
fn masses_never_change_across_steps() {
    let mut w = World::new();
    w.add_particle(fx(50_000_000), fx(50_000_000), fx(1_000_000)).unwrap();
    w.add_particle(fx(52_000_000), fx(50_000_000), fx(2_500_000)).unwrap();
    w.add_particle(fx(10_000_000), fx(90_000_000), fx(700_000)).unwrap();
    for _ in 0..20 {
        w.step(fx(10_000));
    }
    let masses: Vec<i64> = w.particles().iter().map(|p| p.mass.raw).collect();
    assert_eq!(masses, vec![1_000_000, 2_500_000, 700_000]);
    assert!(masses.iter().all(|&m| m > 0));
}

#[test]
fn hash_quantizes_by_flooring() {
    let params = Params::standard();
    // cell side is 36: (50, 50) sits in cell (1, 1)
    let p = Particle::new(fx(50_000_000), fx(50_000_000), fx(1_000_000));
    let k = hash_position(&p, &params);
    assert_eq!((k.cx, k.cy), (1, 1));
    // a negative coordinate floors downward: (-0.5, 70) sits in cell (-1, 1)
    let q = Particle::new(fx(-500_000), fx(70_000_000), fx(1_000_000));
    let k2 = hash_position(&q, &params);
    assert_eq!((k2.cx, k2.cy), (-1, 1));
}

#[test]
fn grid_holds_every_index_exactly_once() {
    let mut w = World::new();
    w.add_particle(fx(50_000_000), fx(50_000_000), fx(1_000_000)).unwrap();
    w.add_particle(fx(52_000_000), fx(50_000_000), fx(1_000_000)).unwrap();
    w.add_particle(fx(10_000_000), fx(10_000_000), fx(1_000_000)).unwrap();
    w.add_particle(fx(-500_000), fx(70_000_000), fx(1_000_000)).unwrap();
    let g = w.build_spatial_map();
    // every particle index appears in the bucket of its own cell
    for (i, p) in w.particles().iter().enumerate() {
        let key = hash_position(p, &w.params);
        let bucket = g.neighbors_of(key).expect("occupied cell");
        assert!(bucket.contains(&i));
    }
    // and exactly once over all buckets, in increasing order per bucket
    let mut seen = vec![0usize; w.particles().len()];
    for b in &g.buckets {
        for pair in b.windows(2) {
            assert!(pair[0] < pair[1]);
        }
        for &i in b {
            seen[i] += 1;
        }
    }
    assert!(seen.iter().all(|&c| c == 1));
    // the two same-cell particles share one bucket
    let key = hash_position(&w.particles()[0], &w.params);
    assert_eq!(g.neighbors_of(key).expect("occupied cell").as_slice(), &[0usize, 1]);
}

#[test]
fn wall_clamps_left_and_nudges_inward() {
    let mut w = World::new();
    w.add_particle(fx(-5_000_000), fx(50_000_000), fx(1_000_000)).unwrap();
    w.wall_collisions();
    let p = w.particles()[0];
    assert_eq!(p.pos.x.raw, 1_000_000);
    assert_eq!(p.vel.x.raw, 5_000);
    assert_eq!(p.pos.y.raw, 50_000_000);
}

#[test]
fn wall_clamps_right_with_damped_rebound() {
    let mut w = World::new();
    w.add_particle(fx(105_000_000), fx(50_000_000), fx(1_000_000)).unwrap();
    w.particles[0].vel.x = fx(3_000_000);
    w.wall_collisions();
    let p = w.particles()[0];
    assert_eq!(p.pos.x.raw, 99_000_000);
    // min(-0.005, (-0.01 * 3) / 2) == -0.015
    assert_eq!(p.vel.x.raw, -15_000);
}

#[test]
fn wall_clamps_top_and_bottom() {
    let mut w = World::new();
    w.add_particle(fx(50_000_000), fx(-2_000_000), fx(1_000_000)).unwrap();
    w.add_particle(fx(50_000_000), fx(105_000_000), fx(1_000_000)).unwrap();
    w.wall_collisions();
    assert_eq!(w.particles()[0].pos.y.raw, 1_000_000);
    assert_eq!(w.particles()[0].vel.y.raw, 5_000);
    assert_eq!(w.particles()[1].pos.y.raw, 99_000_000);
    assert_eq!(w.particles()[1].vel.y.raw, -5_000);
}

#[test]
fn wall_corrects_only_the_first_violated_boundary() {
    // a corner violator is corrected on x alone in one pass
    let mut w = World::new();
    w.add_particle(fx(-5_000_000), fx(-5_000_000), fx(1_000_000)).unwrap();
    w.wall_collisions();
    let p = w.particles()[0];
    assert_eq!(p.pos.x.raw, 1_000_000);
    assert_eq!(p.pos.y.raw, -5_000_000);
    // a second pass then corrects y
    w.wall_collisions();
    assert_eq!(w.particles()[0].pos.y.raw, 1_000_000);
}

#[test]
fn single_particle_at_rest_stays_exactly_put() {
    let mut w = World::new_with_params(quiet_params());
    w.add_particle(fx(50_000_000), fx(50_000_000), fx(1_000_000)).unwrap();
    for _ in 0..10 {
        w.step(fx(10_000));
    }
    let p = w.particles()[0];
    assert_eq!((p.pos.x.raw, p.pos.y.raw), (50_000_000, 50_000_000));
    assert_eq!((p.vel.x.raw, p.vel.y.raw), (0, 0));
}

#[test]
fn single_particle_falls_under_gravity() {
    let mut w = World::new();
    w.add_particle(fx(50_000_000), fx(50_000_000), fx(1_000_000)).unwrap();
    w.step(fx(10_000));
    let p = w.particles()[0];
    // vel.y = -gravity * dt = -0.4; pos.y falls by vel * dt = 0.004
    assert_eq!(p.vel.y.raw, -400_000);
    assert_eq!(p.pos.y.raw, 49_996_000);
    assert_eq!(p.pos.x.raw, 50_000_000);
}

#[test]
fn advance_equals_repeated_steps() {
    let mut a = World::new();
    let mut b = World::new();
    for w in [&mut a, &mut b] {
        w.add_particle(fx(50_000_000), fx(80_000_000), fx(1_000_000)).unwrap();
        w.add_particle(fx(52_000_000), fx(80_000_000), fx(1_000_000)).unwrap();
    }
    a.advance(fx(30_000), fx(10_000));
    b.step(fx(10_000));
    b.step(fx(10_000));
    b.step(fx(10_000));
    for (p, q) in a.particles().iter().zip(b.particles().iter()) {
        assert_eq!(p, q);
    }
}

#[test]
fn advance_of_zero_time_does_nothing() {
    let mut w = World::new();
    w.add_particle(fx(50_000_000), fx(50_000_000), fx(1_000_000)).unwrap();
    w.advance(fx(0), fx(10_000));
    assert_eq!(w.particles()[0].pos.y.raw, 50_000_000);
}

#[test]
fn advance_rounds_the_step_count_up() {
    // 0.015 at max 0.01 takes two sub-steps
    let mut a = World::new();
    let mut b = World::new();
    for w in [&mut a, &mut b] {
        w.add_particle(fx(50_000_000), fx(80_000_000), fx(1_000_000)).unwrap();
    }
    a.advance(fx(15_000), fx(10_000));
    b.step(fx(10_000));
    b.step(fx(10_000));
    assert_eq!(a.particles()[0], b.particles()[0]);
}

#[test]
fn substepping_stays_near_the_single_step() {
    // one 0.02 step against two 0.01 sub-steps: the trajectories differ by
    // one integration term, bounded well inside 0.01 units here
    let mut a = World::new();
    let mut b = World::new();
    for w in [&mut a, &mut b] {
        w.add_particle(fx(50_000_000), fx(80_000_000), fx(1_000_000)).unwrap();
    }
    a.step(fx(20_000));
    b.advance(fx(20_000), fx(10_000));
    assert_eq!(a.particles()[0].pos.y.raw, 79_984_000);
    assert_eq!(b.particles()[0].pos.y.raw, 79_988_000);
    let diff = a.particles()[0].pos.y.raw - b.particles()[0].pos.y.raw;
    assert!(diff.abs() < 10_000);
}

#[test]
fn relaxation_corrections_cancel_for_equal_masses() {
    // two equal-mass particles, no gravity, no viscosity: after a step the
    // sums of positions and of velocities are exactly preserved
    let mut w = World::new_with_params(quiet_params());
    w.add_particle(fx(50_000_000), fx(50_000_000), fx(1_000_000)).unwrap();
    w.add_particle(fx(52_000_000), fx(50_000_000), fx(1_000_000)).unwrap();
    w.step(fx(10_000));
    let p0 = w.particles()[0];
    let p1 = w.particles()[1];
    assert_eq!(p0.pos.x.raw + p1.pos.x.raw, 102_000_000);
    assert_eq!(p0.pos.y.raw + p1.pos.y.raw, 100_000_000);
    assert_eq!(p0.vel.x.raw + p1.vel.x.raw, 0);
    assert_eq!(p0.vel.y.raw + p1.vel.y.raw, 0);
    // with the density below rest density the pair is pulled together,
    // visited once from each endpoint
    assert_eq!(p0.pos.x.raw, 50_004_557);
    assert_eq!(p1.pos.x.raw, 51_995_443);
    assert_eq!(p0.vel.x.raw, 911_623);
    assert_eq!(p1.vel.x.raw, -911_623);
}

#[test]
fn relaxation_direct_call_matches_the_step_pass() {
    let mut w = World::new_with_params(quiet_params());
    w.add_particle(fx(50_000_000), fx(50_000_000), fx(1_000_000)).unwrap();
    w.add_particle(fx(52_000_000), fx(50_000_000), fx(1_000_000)).unwrap();
    let g = w.build_spatial_map();
    w.double_density_relaxation(&g, fx(10_000));
    assert_eq!(w.particles()[0].pos.x.raw, 50_004_557);
    assert_eq!(w.particles()[1].pos.x.raw, 51_995_443);
}

#[test]
fn two_particle_scenario_under_gravity() {
    // particles at (50,50) and (52,50), mass 1, interaction radius 9,
    // one 0.01 step: the y motion is gravity integration exactly
    // (-gravity * dt * dt); with density far below rest density the density
    // correction pulls the pair together along x, symmetrically
    let mut w = World::new();
    w.add_particle(fx(50_000_000), fx(50_000_000), fx(1_000_000)).unwrap();
    w.add_particle(fx(52_000_000), fx(50_000_000), fx(1_000_000)).unwrap();
    w.step(fx(10_000));
    let p0 = w.particles()[0];
    let p1 = w.particles()[1];
    assert_eq!(p0.pos.y.raw, 49_996_000);
    assert_eq!(p1.pos.y.raw, 49_996_000);
    assert_eq!(p0.vel.y.raw, -400_000);
    assert_eq!(p0.pos.x.raw, 50_004_557);
    assert_eq!(p1.pos.x.raw, 51_995_443);
}

#[test]
fn viscosity_damps_only_the_lower_indexed_particle() {
    let mut params = quiet_params();
    params.viscosity_linear = fx(1_000_000);
    let mut w = World::new_with_params(params);
    w.add_particle(fx(50_000_000), fx(50_000_000), fx(1_000_000)).unwrap();
    w.add_particle(fx(50_050_000), fx(50_000_000), fx(1_000_000)).unwrap();
    // the lower-indexed particle moves toward its neighbor, 0.05 away
    w.particles[0].vel.x = fx(2_000_000);
    let g = w.build_spatial_map();
    w.apply_viscosity(&g, fx(10_000));
    assert_eq!(w.particles()[0].vel.x.raw, 1_990_056);
    assert_eq!(w.particles()[1].vel.x.raw, 0);
    assert_eq!(w.particles()[1].vel.y.raw, 0);
}

#[test]
fn viscosity_skips_pairs_beyond_the_cutoff() {
    let mut params = quiet_params();
    params.viscosity_linear = fx(1_000_000);
    let mut w = World::new_with_params(params);
    // 2 apart: well beyond the 0.1 cutoff
    w.add_particle(fx(50_000_000), fx(50_000_000), fx(1_000_000)).unwrap();
    w.add_particle(fx(52_000_000), fx(50_000_000), fx(1_000_000)).unwrap();
    w.particles[0].vel.x = fx(2_000_000);
    let g = w.build_spatial_map();
    w.apply_viscosity(&g, fx(10_000));
    assert_eq!(w.particles()[0].vel.x.raw, 2_000_000);
}

#[test]
fn coincident_particles_do_not_poison_the_state() {
    // two particles at the same point: the direction is undefined, so the
    // pair is skipped and every value stays finite and unchanged in x
    let mut w = World::new_with_params(quiet_params());
    w.add_particle(fx(50_000_000), fx(50_000_000), fx(1_000_000)).unwrap();
    w.add_particle(fx(50_000_000), fx(50_000_000), fx(1_000_000)).unwrap();
    w.step(fx(10_000));
    assert_eq!(w.particles()[0].pos.x.raw, 50_000_000);
    assert_eq!(w.particles()[1].pos.x.raw, 50_000_000);
}

#[test]
fn empty_world_steps_without_effect() {
    let mut w = World::new();
    w.step(fx(10_000));
    w.advance(fx(30_000), fx(10_000));
    assert_eq!(w.particles().len(), 0);
}
