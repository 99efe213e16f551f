use nbody::field_vis::{FieldNode, FieldVisual};
use nbody::planet::Planet;
use nbody::simulation::App;
use nbody::step::FIELD_UPDATE_PERIOD;
use nbody::vector::Vec2;

const ONE: i64 = 1_000_000_000;

#[test]
fn grid_covers_the_extent() {
    let field = FieldVisual::new(30, 1920, 1080);
    assert_eq!(field.nodes.len(), 65 * 37);
    assert_eq!(field.nodes[0], FieldNode { pos: Vec2 { x: 0, y: 0 }, force: Vec2 { x: 0, y: 0 } });
    assert_eq!(field.nodes[1].pos, Vec2 { x: 0, y: 30 * ONE });
    assert_eq!(field.nodes[36].pos, Vec2 { x: 0, y: 1080 * ONE });
    assert_eq!(field.nodes[37].pos, Vec2 { x: 30 * ONE, y: 0 });
    assert_eq!(field.nodes[65 * 37 - 1].pos, Vec2 { x: 1920 * ONE, y: 1080 * ONE });
}

#[test]
fn grid_of_a_single_point() {
    let field = FieldVisual::new(50, 49, 0);
    assert_eq!(field.nodes.len(), 1);
    assert_eq!(field.nodes[0].pos, Vec2 { x: 0, y: 0 });
    let wide = FieldVisual::new(u32::MAX, u32::MAX, 0);
    assert_eq!(wide.nodes.len(), 2);
    assert_eq!(wide.nodes[1].pos, Vec2 { x: 4_294_967_295 * ONE, y: 0 });
}

#[test]
fn sample_sums_pull_on_unit_mass() {
    let mut field = FieldVisual::new(30, 60, 0);
    assert_eq!(field.nodes.len(), 3);
    let bodies = vec![Planet::new(0, Vec2 { x: 30 * ONE, y: 0 }, Vec2::zero(), ONE, false)];
    field.sample(&bodies);
    // G * 1 * m / 30^2 with m = 4.188790205
    assert_eq!(field.nodes[0].force, Vec2 { x: 4_654, y: 0 });
    // the middle point lies inside the body
    assert_eq!(field.nodes[1].force, Vec2 { x: 0, y: 0 });
    assert_eq!(field.nodes[2].force, Vec2 { x: -4_654, y: 0 });
    assert_eq!(field.nodes[2].pos, Vec2 { x: 60 * ONE, y: 0 });
}

#[test]
fn sample_adds_up_over_bodies_and_forgets_old_forces() {
    let mut field = FieldVisual::new(30, 60, 0);
    field.nodes[0].force = Vec2 { x: 999, y: 999 };
    let bodies = vec![
        Planet::new(0, Vec2 { x: 30 * ONE, y: 0 }, Vec2::zero(), ONE, false),
        Planet::new(1, Vec2 { x: 60 * ONE, y: 0 }, Vec2::zero(), ONE, false),
    ];
    field.sample(&bodies);
    // 4654 from the near body, a quarter of that from the far one
    assert_eq!(field.nodes[0].force, Vec2 { x: 4_654 + 1_163, y: 0 });
    field.sample(&vec![]);
    assert_eq!(field.nodes[0].force, Vec2 { x: 0, y: 0 });
}

#[test]
fn point_on_the_surface_gets_no_force() {
    let mut field = FieldVisual::new(30, 30, 0);
    let bodies = vec![Planet::new(0, Vec2 { x: 0, y: 0 }, Vec2::zero(), 30 * ONE, false)];
    field.sample(&bodies);
    assert_eq!(field.nodes[1].pos, Vec2 { x: 30 * ONE, y: 0 });
    assert_eq!(field.nodes[1].force, Vec2 { x: 0, y: 0 });
}

#[test]
fn update_field_vis_leaves_bodies_alone() {
    let mut app = App::new();
    app.add_planet(Vec2 { x: 15 * ONE, y: 15 * ONE }, Vec2::zero(), ONE, false);
    app.update_field_vis();
    assert_eq!(app.planets.len(), 1);
    assert_eq!(app.planets[0].pos, Vec2 { x: 15 * ONE, y: 15 * ONE });
    let corner = app.field_v.nodes[0].force;
    assert!(corner.x > 0 && corner.y > 0);
    assert_eq!(corner.x, corner.y);
}

#[test]
fn field_is_sampled_once_the_period_has_passed() {
    let mut app = App::new();
    app.paused = false;
    app.add_planet(Vec2 { x: 15 * ONE, y: 15 * ONE }, Vec2::zero(), ONE, true);
    assert_eq!(FIELD_UPDATE_PERIOD, ONE / 2);
    app.update(ONE / 4);
    assert_eq!(app.field_v_update_timer, ONE / 4);
    assert_eq!(app.field_v.nodes[0].force, Vec2 { x: 0, y: 0 });
    app.update(ONE / 4);
    // exactly the period: not yet
    assert_eq!(app.field_v_update_timer, ONE / 2);
    assert_eq!(app.field_v.nodes[0].force, Vec2 { x: 0, y: 0 });
    app.update(1);
    assert_eq!(app.field_v_update_timer, 0);
    assert_ne!(app.field_v.nodes[0].force, Vec2 { x: 0, y: 0 });
}

#[test]
fn hidden_field_is_not_sampled() {
    let mut app = App::new();
    app.paused = false;
    app.show_field = false;
    app.add_planet(Vec2 { x: 15 * ONE, y: 15 * ONE }, Vec2::zero(), ONE, true);
    app.update(ONE);
    assert_eq!(app.field_v_update_timer, ONE);
    assert_eq!(app.field_v.nodes[0].force, Vec2 { x: 0, y: 0 });
}

#[test]
fn field_due_tells_when_a_tick_samples() {
    let mut app = App::new();
    assert!(!app.field_due(ONE));
    app.paused = false;
    assert!(app.field_due(ONE));
    assert!(!app.field_due(ONE / 2));
    assert!(app.field_due(ONE / 2 + 1));
    app.field_v_update_timer = ONE / 4;
    assert!(app.field_due(ONE / 4 + 1));
    app.show_field = false;
    assert!(!app.field_due(ONE));
}

#[test]
fn first_long_tick_samples_the_field() {
    let mut app = App::new();
    app.paused = false;
    app.add_planet(Vec2 { x: 15 * ONE, y: 15 * ONE }, Vec2::zero(), ONE, true);
    assert!(app.field_due(ONE));
    app.update(ONE);
    assert_eq!(app.field_v_update_timer, 0);
    assert_ne!(app.field_v.nodes[0].force, Vec2 { x: 0, y: 0 });
}
