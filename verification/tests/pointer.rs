use verlet_toy::interact::{
    connect_balls, freeze_selected, pick_up_ball, select_ball, update, Controller, MouseState,
};
use verlet_toy::particle::Particle;
use verlet_toy::vec2::V2;
use verlet_toy::world::World;

fn v(x: i64, y: i64) -> V2 {
    V2::new(x, y)
}

fn mouse(x: i64, y: i64, left: bool, right: bool) -> MouseState {
    MouseState { position: v(x, y), left_down: left, right_down: right }
}

/// A paused world with two far-apart particles, so ticks move nothing.
fn paused_world() -> World {
    let particles = vec![
        Particle::from(v(0, 0), v(0, 0), 10_000),
        Particle::from(v(100_000, 0), v(0, 0), 10_000),
    ];
    let mut w =
        World::new(particles, vec![], vec![], 10, 500_000, 1_000, 100_000, 1_000, None).unwrap();
    w.paused = true;
    w
}

#[test]
fn select_latches_first_hit() {
    let w = paused_world();
    let mut ctl = Controller::new(true);
    select_ball(&mouse(5_000, 0, true, false), &mut ctl, &w.particles);
    assert_eq!(ctl.last_left_pressed, Some(0));
    assert_eq!(ctl.last_right_pressed, None);
}

#[test]
fn select_miss_leaves_latch_unchanged() {
    let w = paused_world();
    let mut ctl = Controller::new(true);
    select_ball(&mouse(5_000, 0, true, false), &mut ctl, &w.particles);
    select_ball(&mouse(50_000, 0, true, false), &mut ctl, &w.particles);
    assert_eq!(ctl.last_left_pressed, Some(0));
}

#[test]
fn select_release_clears_latch() {
    let w = paused_world();
    let mut ctl = Controller::new(true);
    select_ball(&mouse(5_000, 0, true, true), &mut ctl, &w.particles);
    assert_eq!(ctl.last_left_pressed, Some(0));
    assert_eq!(ctl.last_right_pressed, Some(0));
    select_ball(&mouse(5_000, 0, false, true), &mut ctl, &w.particles);
    assert_eq!(ctl.last_left_pressed, None);
    assert_eq!(ctl.last_right_pressed, Some(0));
    select_ball(&mouse(5_000, 0, false, false), &mut ctl, &w.particles);
    assert_eq!(ctl.last_right_pressed, None);
}

/// A held particle is forced to the pointer, with zeroed implicit velocity.
#[test]
fn pickup_forces_position_and_prev() {
    let mut w = paused_world();
    let mut ctl = Controller::new(true);
    let m = mouse(5_000, 2_000, true, false);
    select_ball(&m, &mut ctl, &w.particles);
    pick_up_ball(&m, &ctl, &mut w);
    assert_eq!(w.particles[0].position, v(5_000, 2_000));
    assert_eq!(w.particles[0].prev_position, v(5_000, 2_000));
}

#[test]
fn freeze_right_selected_particle() {
    let mut w = paused_world();
    let mut ctl = Controller::new(true);
    let m = mouse(5_000, 0, false, true);
    select_ball(&m, &mut ctl, &w.particles);
    freeze_selected(&m, &ctl, &mut w);
    assert!(w.particles[0].frozen);
    assert!(!w.particles[1].frozen);
}

/// Two right-clicks on distinct particles, then a release, appends a rope
/// when the connection type is true.
#[test]
fn connect_two_balls_into_rope() {
    let mut w = paused_world();
    let mut ctl = Controller::new(true);
    // Press over the first ball.
    update(&mouse(0, 0, false, true), &mut ctl, &mut w);
    assert_eq!(ctl.chosen_balls, (Some(0), None));
    // Release, then press over the second ball.
    update(&mouse(0, 0, false, false), &mut ctl, &mut w);
    update(&mouse(100_000, 0, false, true), &mut ctl, &mut w);
    assert_eq!(ctl.chosen_balls, (Some(0), Some(1)));
    // Release with both slots filled: the rope appears, the pair clears.
    update(&mouse(100_000, 0, false, false), &mut ctl, &mut w);
    assert_eq!(w.ropes, vec![(0, 1)]);
    assert!(w.springs.is_empty());
    assert_eq!(ctl.chosen_balls, (None, None));
}

#[test]
fn connect_two_balls_into_spring() {
    let mut w = paused_world();
    let mut ctl = Controller::new(false);
    update(&mouse(0, 0, false, true), &mut ctl, &mut w);
    update(&mouse(0, 0, false, false), &mut ctl, &mut w);
    update(&mouse(100_000, 0, false, true), &mut ctl, &mut w);
    update(&mouse(100_000, 0, false, false), &mut ctl, &mut w);
    assert_eq!(w.springs, vec![(0, 1)]);
    assert!(w.ropes.is_empty());
}

/// Clicking the same ball twice never fills the second slot, so no link of a
/// particle to itself can appear.
#[test]
fn connect_refuses_self_link() {
    let mut w = paused_world();
    let mut ctl = Controller::new(true);
    update(&mouse(0, 0, false, true), &mut ctl, &mut w);
    update(&mouse(0, 0, false, false), &mut ctl, &mut w);
    update(&mouse(0, 0, false, true), &mut ctl, &mut w);
    assert_eq!(ctl.chosen_balls, (Some(0), None));
    update(&mouse(0, 0, false, false), &mut ctl, &mut w);
    assert!(w.ropes.is_empty());
    assert!(w.springs.is_empty());
}

/// Dragging wins over the physics result for the tick.
#[test]
fn drag_wins_over_physics() {
    let particles = vec![Particle::from(v(0, 0), v(0, 0), 10_000)];
    let mut w =
        World::new(particles, vec![], vec![], 10, 500_000, 1_000, 100_000, 1_000, None).unwrap();
    let mut ctl = Controller::new(true);
    let m = mouse(3_000, 4_000, true, false);
    update(&m, &mut ctl, &mut w);
    assert_eq!(w.particles[0].position, v(3_000, 4_000));
    assert_eq!(w.particles[0].prev_position, v(3_000, 4_000));
}

/// A direct call to connect_balls with nothing latched changes nothing.
#[test]
fn connect_without_latch_is_noop() {
    let mut w = paused_world();
    let mut ctl = Controller::new(true);
    connect_balls(&mouse(0, 0, false, false), &mut ctl, &mut w);
    assert!(w.ropes.is_empty());
    assert!(w.springs.is_empty());
    assert_eq!(ctl.chosen_balls, (None, None));
}
