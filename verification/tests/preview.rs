use nbody::planet::TrailNode;
use nbody::simulation::{App, Prediction};
use nbody::vector::Vec2;

const ONE: i64 = 1_000_000_000;

#[test]
fn default_preview_rests_at_origin() {
    let p = Prediction::default();
    assert!(!p.colliding);
    assert!(p.body.is_prediction);
    assert!(!p.body.stationary);
    assert_eq!(p.body.pos, Vec2 { x: 0, y: 0 });
    assert_eq!(p.body.vel, Vec2 { x: 0, y: 0 });
    assert_eq!(p.body.radius, ONE);
    assert_eq!(p.body.mass, 4_188_790_205);
    assert!(p.body.trail_nodes.is_empty());
}

#[test]
fn reset_starts_a_new_launch() {
    let mut p = Prediction::default();
    p.colliding = true;
    p.body.res_force = Vec2 { x: 5, y: 5 };
    let pos = Vec2 { x: 3 * ONE, y: 4 * ONE };
    let vel = Vec2 { x: -ONE, y: ONE };
    p.reset(pos, vel, 5 * ONE);
    assert!(!p.colliding);
    assert!(p.body.is_prediction);
    assert_eq!(p.body.pos, pos);
    assert_eq!(p.body.vel, vel);
    assert_eq!(p.body.radius, 5 * ONE);
    assert_eq!(p.body.mass, 523_598_775_666);
    assert_eq!(p.body.res_force, Vec2 { x: 0, y: 0 });
    assert_eq!(p.body.trail_nodes, vec![TrailNode { pos, time_created: 0 }]);
}

#[test]
fn preview_drifts_in_empty_space() {
    let mut app = App::new();
    app.prediction.reset(Vec2 { x: 0, y: 0 }, Vec2 { x: 2 * ONE, y: 0 }, ONE);
    app.update_prediction(ONE / 2);
    app.update_prediction(ONE / 2);
    assert!(!app.prediction.colliding);
    assert_eq!(app.prediction.body.pos, Vec2 { x: 2 * ONE, y: 0 });
    assert_eq!(app.prediction.body.trail_nodes.len(), 3);
    assert_eq!(
        app.prediction.body.trail_nodes[1],
        TrailNode { pos: Vec2 { x: ONE, y: 0 }, time_created: 0 }
    );
}

#[test]
fn preview_is_pulled_by_live_bodies() {
    let mut app = App::new();
    app.add_planet(Vec2 { x: 100 * ONE, y: 0 }, Vec2::zero(), 10 * ONE, true);
    let before = app.planets[0].clone();
    app.prediction.reset(Vec2 { x: 0, y: 0 }, Vec2::zero(), ONE);
    app.update_prediction(ONE);
    assert!(!app.prediction.colliding);
    assert!(app.prediction.body.vel.x > 0);
    assert_eq!(app.prediction.body.vel.y, 0);
    assert!(app.prediction.body.pos.x > 0);
    // the live body is untouched
    assert_eq!(app.planets.len(), 1);
    assert_eq!(app.planets[0].pos, before.pos);
    assert_eq!(app.planets[0].vel, before.vel);
    assert_eq!(app.planets[0].res_force, before.res_force);
    assert_eq!(app.planets[0].mass, before.mass);
}

#[test]
fn preview_force_does_not_pile_up() {
    let mut app = App::new();
    app.add_planet(Vec2 { x: 100 * ONE, y: 0 }, Vec2::zero(), 10 * ONE, true);
    app.prediction.reset(Vec2 { x: 0, y: 0 }, Vec2::zero(), ONE);
    app.update_prediction(0);
    let first = app.prediction.body.res_force;
    app.update_prediction(0);
    assert_eq!(app.prediction.body.res_force, first);
    assert_ne!(first, Vec2 { x: 0, y: 0 });
}

#[test]
fn preview_latches_on_overlap() {
    let mut app = App::new();
    app.add_planet(Vec2 { x: 500 * ONE, y: 0 }, Vec2::zero(), ONE, false);
    app.add_planet(Vec2 { x: 3 * ONE, y: 0 }, Vec2::zero(), 2 * ONE, false);
    app.prediction.reset(Vec2 { x: 0, y: 0 }, Vec2 { x: ONE, y: ONE }, ONE);
    app.update_prediction(ONE);
    assert!(app.prediction.colliding);
    assert_eq!(app.prediction.body.pos, Vec2 { x: 0, y: 0 });
    assert_eq!(app.prediction.body.vel, Vec2 { x: ONE, y: ONE });
    assert_eq!(app.prediction.body.trail_nodes.len(), 1);
    app.update_prediction(ONE);
    assert!(app.prediction.colliding);
    assert_eq!(app.prediction.body.pos, Vec2 { x: 0, y: 0 });
    assert_eq!(app.planets.len(), 2);
    // a reset releases the latch
    app.prediction.reset(Vec2 { x: 0, y: 100 * ONE }, Vec2::zero(), ONE);
    app.update_prediction(ONE);
    assert!(!app.prediction.colliding);
}

#[test]
fn step_leaves_the_preview_alone() {
    let mut app = App::new();
    app.paused = false;
    app.add_planet(Vec2 { x: 0, y: 0 }, Vec2::zero(), ONE, false);
    app.prediction.reset(Vec2 { x: ONE / 2, y: 0 }, Vec2 { x: ONE, y: 0 }, ONE);
    app.update(ONE / 10);
    assert_eq!(app.planets.len(), 1);
    assert_eq!(app.prediction.body.pos, Vec2 { x: ONE / 2, y: 0 });
    assert!(!app.prediction.colliding);
}
