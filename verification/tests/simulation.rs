use gravsim::fixed::isqrt;
use gravsim::gravity::{accumulate_forces, pair_accel};
use gravsim::particle::{Particle, Vec2};
use gravsim::sim::{build_world, Simulation};
use gravsim::verlet::integrate;

fn particle_at(x: i64, y: i64, mass: i64) -> Particle {
    Particle {
        position: Vec2 { x, y },
        prev_position: Vec2 { x, y },
        mass,
        acceleration: Vec2 { x: 0, y: 0 },
    }
}

#[test]
fn isqrt_exact_values() {
    assert_eq!(isqrt(0), 0);
    assert_eq!(isqrt(1), 1);
    assert_eq!(isqrt(8), 2);
    assert_eq!(isqrt(9), 3);
    assert_eq!(isqrt(10), 3);
    assert_eq!(isqrt(9_000_000_000_000), 3_000_000);
    assert_eq!(isqrt(8_999_999_999_999), 2_999_999);
}

#[test]
fn single_particle_never_moves() {
    let mut sim = build_world();
    for _ in 0..10 {
        assert!(sim.advance(100_000));
        let snap = sim.snapshot();
        assert_eq!(snap.len(), 1);
        assert_eq!(snap[0], (50_000_000, 50_000_000, 10_000_000));
        assert_eq!(sim.particles[0].acceleration, Vec2 { x: 0, y: 0 });
    }
}

#[test]
fn pair_pull_is_equal_and_opposite() {
    let a = particle_at(10_000_000, 25_000_000, 7_000_000);
    let b = particle_at(90_000_000, -4_000_000, 7_000_000);
    let on_a = pair_accel(a, b);
    let on_b = pair_accel(b, a);
    assert_eq!(on_a.0, -on_b.0);
    assert_eq!(on_a.1, -on_b.1);
    assert!(on_a.0 != 0 || on_a.1 != 0);
}

#[test]
fn two_equal_masses_accumulate_opposite_forces() {
    let mut particles = vec![
        particle_at(50_000_000, 50_000_000, 10_000_000),
        particle_at(53_000_000, 50_000_000, 10_000_000),
    ];
    accumulate_forces(&mut particles);
    assert_eq!(particles[0].acceleration.x, -particles[1].acceleration.x);
    assert_eq!(particles[0].acceleration.y, -particles[1].acceleration.y);
    assert_eq!(particles[0].acceleration.x, 111_111_111);
    assert_eq!(particles[0].acceleration.y, 0);
}

#[test]
fn distance_below_floor_uses_floor() {
    // Two particles 1.0 apart on the x-axis; with the raw distance clamped
    // to 3.0 the magnitude is 100 * 10 / 3^3 scaled, so the x-component is
    // floor(10^27 / (27 * 10^18)) = 37_037_037 raw ticks.
    let a = particle_at(0, 0, 10_000_000);
    let b = particle_at(1_000_000, 0, 10_000_000);
    let on_a = pair_accel(a, b);
    assert_eq!(on_a, (37_037_037, 0));
    // Without the floor the pull at distance 1.0 would be 10^9: far larger.
    assert!(on_a.0 < 1_000_000_000);
}

#[test]
fn exactly_at_floor_distance_is_not_clamped() {
    // 3.0 apart: the raw distance equals the floor, so the same magnitude
    // comes out of the unclamped formula: dx * (G * m / 27) / SCALE.
    let a = particle_at(0, 0, 10_000_000);
    let b = particle_at(3_000_000, 0, 10_000_000);
    let on_a = pair_accel(a, b);
    assert_eq!(on_a, (111_111_111, 0));
}

#[test]
fn integrator_is_deterministic() {
    let make = || {
        vec![Particle {
            position: Vec2 { x: 12_345_678, y: -9_876_543 },
            prev_position: Vec2 { x: 12_000_000, y: -9_000_000 },
            mass: 42_000_000,
            acceleration: Vec2 { x: 555_555, y: -777_777 },
        }]
    };
    let mut first = make();
    let mut second = make();
    integrate(&mut first, 123_456, 99_999);
    integrate(&mut second, 123_456, 99_999);
    assert_eq!(first, second);
    // And the outputs really differ from the inputs.
    assert_ne!(first, make());
}

#[test]
fn acceleration_resets_after_a_full_step() {
    let mut sim = build_world();
    assert!(sim.spawn_at(Vec2 { x: 53_000_000, y: 50_000_000 }, 10_000_000));
    assert!(sim.advance(100_000));
    for p in &sim.particles {
        assert_eq!(p.acceleration, Vec2 { x: 0, y: 0 });
    }
}

#[test]
fn spawn_sets_every_field() {
    let mut sim = Simulation::new();
    assert_eq!(sim.particle_count(), 0);
    assert!(sim.spawn_at(Vec2 { x: 10_000_000, y: 20_000_000 }, 5_000_000));
    assert_eq!(sim.particle_count(), 1);
    let p = sim.particles[0];
    assert_eq!(p.position, Vec2 { x: 10_000_000, y: 20_000_000 });
    assert_eq!(p.prev_position, Vec2 { x: 10_000_000, y: 20_000_000 });
    assert_eq!(p.mass, 5_000_000);
    assert_eq!(p.acceleration, Vec2 { x: 0, y: 0 });
}

#[test]
fn spawn_rejects_non_positive_mass() {
    let mut sim = Simulation::new();
    assert!(!sim.spawn_at(Vec2 { x: 0, y: 0 }, 0));
    assert!(!sim.spawn_at(Vec2 { x: 0, y: 0 }, -5_000_000));
    assert_eq!(sim.particle_count(), 0);
}

#[test]
fn spawn_clamps_an_oversized_mass() {
    let mut sim = Simulation::new();
    assert!(sim.spawn_at(Vec2 { x: 0, y: 0 }, 7_000_000_000));
    assert_eq!(sim.particles[0].mass, 100_000_000);
}

#[test]
fn spawn_rejects_a_full_store() {
    let mut sim = Simulation::new();
    for _ in 0..1000 {
        assert!(sim.spawn_at(Vec2 { x: 0, y: 0 }, 5_000_000));
    }
    assert!(!sim.spawn_at(Vec2 { x: 0, y: 0 }, 5_000_000));
    assert_eq!(sim.particle_count(), 1000);
}

#[test]
fn trigger_spawn_without_pointer_is_a_no_op() {
    let mut sim = build_world();
    sim.set_pointer(None);
    assert!(!sim.trigger_spawn());
    assert_eq!(sim.particle_count(), 1);
}

#[test]
fn trigger_spawn_uses_pointer_and_random_mass_range() {
    let mut sim = Simulation::new();
    sim.set_pointer(Some(Vec2 { x: 7_000_000, y: 8_000_000 }));
    assert!(sim.trigger_spawn());
    assert_eq!(sim.particle_count(), 1);
    let p = sim.particles[0];
    assert_eq!(p.position, Vec2 { x: 7_000_000, y: 8_000_000 });
    assert_eq!(p.prev_position, p.position);
    assert!(p.mass >= 5_000_000 && p.mass < 50_000_000);
}

#[test]
fn degenerate_deltas_skip_the_step() {
    let mut sim = build_world();
    let before = sim.snapshot();
    assert!(!sim.advance(0));
    assert!(!sim.advance(-100_000));
    assert!(!sim.advance(1_000_001));
    assert_eq!(sim.snapshot(), before);
    assert_eq!(sim.prev_dt, 100_000);
}

#[test]
fn end_to_end_two_bodies_close_in_symmetrically() {
    let mut sim = build_world();
    // Alone, the seed particle stays exactly put.
    assert!(sim.advance(100_000));
    assert_eq!(sim.snapshot()[0], (50_000_000, 50_000_000, 10_000_000));
    // Add a second equal mass 3.0 to the right and step once more.
    assert!(sim.spawn_at(Vec2 { x: 53_000_000, y: 50_000_000 }, 10_000_000));
    assert!(sim.advance(100_000));
    let snap = sim.snapshot();
    // Both moved toward each other along x, by exactly opposite amounts:
    // the pull is 111_111_111 raw; times dt^2 = 0.01 and rescaled that is a
    // displacement of 1_111_111 raw ticks.
    assert_eq!(snap[0], (51_111_111, 50_000_000, 10_000_000));
    assert_eq!(snap[1], (51_888_889, 50_000_000, 10_000_000));
    let d0 = snap[0].0 - 50_000_000;
    let d1 = snap[1].0 - 53_000_000;
    assert_eq!(d0, -d1);
    // Previous positions hold the pre-step locations.
    assert_eq!(sim.particles[0].prev_position, Vec2 { x: 50_000_000, y: 50_000_000 });
    assert_eq!(sim.particles[1].prev_position, Vec2 { x: 53_000_000, y: 50_000_000 });
}

#[test]
fn snapshot_reports_every_particle_in_order() {
    let mut sim = Simulation::new();
    assert!(sim.spawn_at(Vec2 { x: 1_000_000, y: 2_000_000 }, 5_000_000));
    assert!(sim.spawn_at(Vec2 { x: -3_000_000, y: 4_000_000 }, 6_000_000));
    let snap = sim.snapshot();
    assert_eq!(snap.len(), 2);
    assert_eq!(snap[0], (1_000_000, 2_000_000, 5_000_000));
    assert_eq!(snap[1], (-3_000_000, 4_000_000, 6_000_000));
}

#[test]
fn spawn_clamps_an_out_of_world_position() {
    let mut sim = Simulation::new();
    assert!(sim.spawn_at(Vec2 { x: 2_000_000_000_000, y: -2_000_000_000_000 }, 5_000_000));
    let p = sim.particles[0];
    assert_eq!(p.position, Vec2 { x: 1_000_000_000_000, y: -1_000_000_000_000 });
    assert_eq!(p.prev_position, p.position);
}
