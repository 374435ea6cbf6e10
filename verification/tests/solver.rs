use verlet_toy::interact::{update, Controller, MouseState};
use verlet_toy::num::isqrt;
use verlet_toy::particle::Particle;
use verlet_toy::vec2::V2;
use verlet_toy::world::{
    apply_collision_constraint, apply_gravity, apply_world_constraint, calculate_kinetic_energy,
    ConfigError, World,
};

fn v(x: i64, y: i64) -> V2 {
    V2::new(x, y)
}

fn idle_mouse() -> MouseState {
    MouseState { position: v(0, 0), left_down: false, right_down: false }
}

/// A world like the demo seed: milli-unit coordinates, gravity built in.
fn demo_world(
    particles: Vec<Particle>,
    ropes: Vec<(usize, usize)>,
    springs: Vec<(usize, usize)>,
) -> World {
    World::new(particles, ropes, springs, 10, 500_000, 1_000, 100_000, 1_000, None).unwrap()
}

fn dist_milli(a: V2, b: V2) -> i64 {
    let dx = (a.x - b.x) as i128;
    let dy = (a.y - b.y) as i128;
    let nsq = (dx * dx + dy * dy) as u64;
    isqrt(nsq) as i64
}

#[test]
fn isqrt_exact_values() {
    assert_eq!(isqrt(0), 0);
    assert_eq!(isqrt(1), 1);
    assert_eq!(isqrt(8), 2);
    assert_eq!(isqrt(9), 3);
    assert_eq!(isqrt(10), 3);
    assert_eq!(isqrt(495_000 * 495_000), 495_000);
    assert_eq!(isqrt(8_000_000_000_000_000_000), 2_828_427_124);
}

#[test]
fn verlet_step_exact() {
    let mut p = Particle::from(v(1_000, 2_000), v(0, -1_000), 10_000);
    p.prev_position = v(0, 0);
    p.verlet(100);
    assert_eq!(p.position, v(2_000, 3_990));
    assert_eq!(p.prev_position, v(1_000, 2_000));
    assert_eq!(p.acceleration, v(0, 0));
}

#[test]
fn verlet_frozen_is_noop() {
    let mut p = Particle::from(v(1_000, 2_000), v(500, -1_000), 10_000);
    p.prev_position = v(0, 0);
    p.frozen = true;
    p.verlet(100);
    assert_eq!(p.position, v(1_000, 2_000));
    assert_eq!(p.prev_position, v(0, 0));
    assert_eq!(p.acceleration, v(500, -1_000));
}

#[test]
fn gravity_accumulates_downward() {
    let mut p = Particle::from(v(0, 0), v(0, 0), 10_000);
    apply_gravity(&mut p);
    assert_eq!(p.acceleration, v(0, -1_000));
    apply_gravity(&mut p);
    assert_eq!(p.acceleration, v(0, -2_000));
}

#[test]
fn gravity_skips_frozen() {
    let mut p = Particle::from(v(0, 0), v(0, 0), 10_000);
    p.frozen = true;
    apply_gravity(&mut p);
    assert_eq!(p.acceleration, v(0, 0));
}

/// A particle of radius 10 sitting at distance 495 from the centre with
/// boundary radius 500 lands at distance exactly 490 after one clamp.
#[test]
fn boundary_clamp_exact_distance() {
    let mut p = Particle::from(v(0, -495_000), v(0, 0), 10_000);
    apply_world_constraint(&mut p, 500_000);
    assert_eq!(p.position, v(0, -490_000));

    let mut q = Particle::from(v(297_000, 396_000), v(0, 0), 10_000);
    apply_world_constraint(&mut q, 500_000);
    assert_eq!(dist_milli(q.position, v(0, 0)), 490_000);
}

#[test]
fn boundary_leaves_interior_and_origin_alone() {
    let mut p = Particle::from(v(100_000, 0), v(0, 0), 10_000);
    apply_world_constraint(&mut p, 500_000);
    assert_eq!(p.position, v(100_000, 0));

    let mut q = Particle::from(v(0, 0), v(0, 0), 10_000);
    apply_world_constraint(&mut q, 500_000);
    assert_eq!(q.position, v(0, 0));
}

#[test]
fn collision_correction_exact() {
    let p1 = Particle::from(v(0, 0), v(0, 0), 10_000);
    let p2 = Particle::from(v(15_000, 0), v(0, 0), 10_000);
    let mv = apply_collision_constraint(&p1, &p2);
    assert_eq!(mv, v(2_500, 0));
}

#[test]
fn collision_correction_zero_when_apart() {
    let p1 = Particle::from(v(0, 0), v(0, 0), 10_000);
    let p2 = Particle::from(v(25_000, 0), v(0, 0), 10_000);
    let mv = apply_collision_constraint(&p1, &p2);
    assert_eq!(mv, v(0, 0));
}

#[test]
fn collision_coincident_uses_fallback_direction() {
    let p1 = Particle::from(v(0, 0), v(0, 0), 10_000);
    let p2 = Particle::from(v(0, 0), v(0, 0), 10_000);
    let mv = apply_collision_constraint(&p1, &p2);
    assert_eq!(mv, v(10_000, 0));
}

#[test]
fn line_constraint_exact() {
    let p1 = Particle::from(v(0, 0), v(0, 0), 10_000);
    let p2 = Particle::from(v(0, 150_000), v(0, 0), 10_000);
    let c = Particle::apply_line_constraint(&p1, &p2, 100_000);
    assert_eq!(c, v(0, -25_000));
}

#[test]
fn spring_constraint_exact() {
    let p1 = Particle::from(v(0, 0), v(0, 0), 10_000);
    let p2 = Particle::from(v(0, 150_000), v(0, 0), 10_000);
    let c = Particle::apply_spring_constraint(&p1, &p2, 100_000, 1_000);
    assert_eq!(c, v(0, -25_000));
}

/// Two overlapping unfrozen particles separate after one collision pass.
#[test]
fn collision_pass_separates_pair() {
    let particles = vec![
        Particle::from(v(0, 0), v(0, 0), 10_000),
        Particle::from(v(15_000, 0), v(0, 0), 10_000),
    ];
    let mut w = demo_world(particles, vec![], vec![]);
    w.all_collisions(0);
    let d = dist_milli(w.particles[0].position, w.particles[1].position);
    assert!(d >= 20_000 - 1, "separated distance {}", d);
}

/// Frozen invariance across whole ticks, with collisions and a rope acting.
#[test]
fn frozen_particle_never_moves() {
    let particles = vec![
        Particle::from(v(0, 100_000), v(0, 0), 10_000),
        Particle::from(v(0, 85_000), v(0, 0), 10_000),
    ];
    let mut w = demo_world(particles, vec![(0, 1)], vec![]);
    w.particles[0].frozen = true;
    let mut ctl = Controller::new(true);
    let m = idle_mouse();
    for _ in 0..50 {
        update(&m, &mut ctl, &mut w);
        assert_eq!(w.particles[0].position, v(0, 100_000));
        assert_eq!(w.particles[0].prev_position, v(0, 100_000));
        assert!(w.particles[0].frozen);
    }
}

/// One frozen anchor, one free particle rigid-linked below it: after one tick
/// the free particle is above its starting height (pulled, not in freefall),
/// and after several ticks the distance settles near the rest length.
#[test]
fn rigid_link_pulls_and_converges() {
    let particles = vec![
        Particle::from(v(0, 100_000), v(0, 0), 10_000),
        Particle::from(v(0, -150_000), v(0, 0), 10_000),
    ];
    let mut w = demo_world(particles, vec![(0, 1)], vec![]);
    w.particles[0].frozen = true;
    let mut ctl = Controller::new(true);
    let m = idle_mouse();
    update(&m, &mut ctl, &mut w);
    assert!(
        w.particles[1].position.y > -150_000,
        "after one tick y = {}",
        w.particles[1].position.y
    );
    for _ in 0..100 {
        update(&m, &mut ctl, &mut w);
    }
    let d = dist_milli(w.particles[0].position, w.particles[1].position);
    assert!(
        (d - 100_000).abs() <= 5_000,
        "distance after convergence {}",
        d
    );
}

/// Boundary containment: a dropped ball stays within the boundary, to a small
/// tolerance, over many ticks.
#[test]
fn dropped_ball_stays_inside_boundary() {
    let particles = vec![Particle::from(v(0, -400_000), v(0, 0), 10_000)];
    let mut w = demo_world(particles, vec![], vec![]);
    let mut ctl = Controller::new(true);
    let m = idle_mouse();
    for _ in 0..300 {
        update(&m, &mut ctl, &mut w);
        let d = dist_milli(w.particles[0].position, v(0, 0));
        assert!(d <= 490_000 + 5_000, "distance from centre {}", d);
    }
}

/// Kinetic energy of a stable configuration stays bounded over 10,000 ticks.
#[test]
fn energy_stays_bounded() {
    let particles = vec![
        Particle::from(v(0, 100_000), v(0, 0), 10_000),
        Particle::from(v(0, -50_000), v(0, 0), 10_000),
    ];
    let mut w = demo_world(particles, vec![(0, 1)], vec![]);
    w.particles[0].frozen = true;
    let mut ctl = Controller::new(true);
    let m = idle_mouse();
    let mut max_energy: u128 = 0;
    for _ in 0..10_000 {
        update(&m, &mut ctl, &mut w);
        let e = w.calculate_total_kinetic_energy();
        if e > max_energy {
            max_energy = e;
        }
    }
    assert!(max_energy < 1_000_000_000, "max energy {}", max_energy);
}

/// A spring to a frozen anchor restrains a falling ball: it never gets as far
/// from the anchor as freefall to the boundary would take it.
#[test]
fn spring_link_restrains_fall() {
    let particles = vec![
        Particle::from(v(0, 100_000), v(0, 0), 10_000),
        Particle::from(v(0, -50_000), v(0, 0), 10_000),
    ];
    let mut w = demo_world(particles, vec![], vec![(0, 1)]);
    w.particles[0].frozen = true;
    let mut ctl = Controller::new(false);
    let m = idle_mouse();
    for _ in 0..200 {
        update(&m, &mut ctl, &mut w);
        let d = dist_milli(w.particles[0].position, w.particles[1].position);
        assert!(d < 500_000, "spring let the ball reach distance {}", d);
    }
}

/// A world with no particles at all ticks without complaint.
#[test]
fn empty_world_ticks() {
    let mut w = demo_world(vec![], vec![], vec![]);
    let mut ctl = Controller::new(true);
    let m = idle_mouse();
    for _ in 0..10 {
        update(&m, &mut ctl, &mut w);
    }
    assert!(w.particles.is_empty());
    assert_eq!(w.calculate_total_kinetic_energy(), 0);
}

#[test]
fn kinetic_energy_exact() {
    let mut p = Particle::from(v(1_000, 0), v(0, 0), 10_000);
    p.prev_position = v(0, 0);
    assert_eq!(calculate_kinetic_energy(&p), 5_000);
    let q = Particle::from(v(7_000, -3_000), v(0, 0), 10_000);
    assert_eq!(calculate_kinetic_energy(&q), 0);
}

#[test]
fn construction_rejects_bad_configs() {
    let ps = || vec![Particle::from(v(0, 0), v(0, 0), 10_000)];
    assert_eq!(
        World::new(ps(), vec![], vec![], 0, 500_000, 1_000, 100_000, 1_000, None).unwrap_err(),
        ConfigError::BadSubsteps
    );
    assert_eq!(
        World::new(ps(), vec![], vec![], 10, 500_000, 5, 100_000, 1_000, None).unwrap_err(),
        ConfigError::BadTimestep
    );
    assert_eq!(
        World::new(ps(), vec![], vec![], 10, 0, 1_000, 100_000, 1_000, None).unwrap_err(),
        ConfigError::BadBoundary
    );
    assert_eq!(
        World::new(ps(), vec![], vec![], 10, 500_000, 1_000, -1, 1_000, None).unwrap_err(),
        ConfigError::BadRestLength
    );
    assert_eq!(
        World::new(ps(), vec![], vec![], 10, 500_000, 1_000, 100_000, -1, None).unwrap_err(),
        ConfigError::BadStiffness
    );
    let mut bad = ps();
    bad[0].radius = 0;
    assert_eq!(
        World::new(bad, vec![], vec![], 10, 500_000, 1_000, 100_000, 1_000, None).unwrap_err(),
        ConfigError::BadParticle
    );
    assert_eq!(
        World::new(ps(), vec![], vec![], 10, 500_000, 1_000, 100_000, 1_000, Some(1)).unwrap_err(),
        ConfigError::BadParticle
    );
    assert_eq!(
        World::new(ps(), vec![(0, 0)], vec![], 10, 500_000, 1_000, 100_000, 1_000, None)
            .unwrap_err(),
        ConfigError::BadLink
    );
    assert_eq!(
        World::new(ps(), vec![], vec![(0, 5)], 10, 500_000, 1_000, 100_000, 1_000, None)
            .unwrap_err(),
        ConfigError::BadLink
    );
}

#[test]
fn construction_accepts_demo_config() {
    let particles = vec![
        Particle::from(v(0, 100_000), v(0, 0), 10_000),
        Particle::from(v(0, -50_000), v(0, 0), 10_000),
        Particle::from(v(0, -100_000), v(0, 0), 10_000),
        Particle::from(v(0, -150_000), v(0, 0), 10_000),
        Particle::from(v(3_000, 3_000), v(0, 0), 30_000),
    ];
    let ropes = vec![(0, 1), (1, 2), (2, 3), (3, 4)];
    let w = World::new(particles, ropes, vec![], 10, 500_000, 1_000, 100_000, 1_000, Some(4))
        .unwrap();
    assert_eq!(w.particles.len(), 5);
    assert_eq!(w.ropes.len(), 4);
    assert!(!w.paused);
    assert!(w.trail.is_empty());
}

#[test]
fn default_particle() {
    let p = Particle::default();
    assert_eq!(p.position, v(0, 0));
    assert_eq!(p.prev_position, v(0, 0));
    assert_eq!(p.radius, 10_000);
    assert!(!p.frozen);
}

/// The trail buffer tracks the chosen particle and evicts oldest entries.
#[test]
fn trail_buffer_is_bounded() {
    let particles = vec![Particle::from(v(0, 0), v(0, 0), 10_000)];
    let mut w =
        World::new(particles, vec![], vec![], 10, 500_000, 1_000, 100_000, 1_000, Some(0))
            .unwrap();
    let mut ctl = Controller::new(true);
    let m = idle_mouse();
    for _ in 0..60 {
        update(&m, &mut ctl, &mut w);
    }
    assert_eq!(w.trail.len(), 50);
    let last = *w.trail.last().unwrap();
    assert_eq!(last, w.particles[0].position);
}
