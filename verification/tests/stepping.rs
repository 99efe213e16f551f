use nbody::planet::Planet;
use nbody::simulation::{App, Fate};
use nbody::vector::Vec2;

const ONE: i64 = 1_000_000_000;

fn body(id: u32, x: i64, y: i64, mass: i64, radius: i64) -> Planet {
    Planet {
        id,
        pos: Vec2 { x, y },
        vel: Vec2 { x: 0, y: 0 },
        res_force: Vec2 { x: 0, y: 0 },
        mass,
        radius,
        stationary: false,
        is_prediction: false,
        trail_nodes: vec![],
    }
}

fn running() -> App {
    let mut app = App::new();
    app.paused = false;
    app.show_field = false;
    app
}

#[test]
fn two_unit_masses_fall_toward_each_other() {
    let mut app = running();
    app.planets.push(body(0, 0, 0, ONE, ONE));
    app.planets.push(body(1, 10 * ONE, 0, ONE, ONE));
    app.pl_id_count = 2;
    app.update(ONE / 10);
    assert_eq!(app.planets.len(), 2);
    // G * 1 * 1 / 10^2 * 0.1 = 0.000001
    assert_eq!(app.planets[0].vel, Vec2 { x: 1_000, y: 0 });
    assert_eq!(app.planets[1].vel, Vec2 { x: -1_000, y: 0 });
    assert_eq!(app.planets[0].res_force, Vec2 { x: 10_000, y: 0 });
    assert_eq!(app.planets[1].res_force, Vec2 { x: -10_000, y: 0 });
    assert_eq!(app.planets[0].pos, Vec2 { x: 100, y: 0 });
    assert_eq!(app.planets[1].pos, Vec2 { x: 10 * ONE - 100, y: 0 });
    assert_eq!(app.unpaused_time, ONE / 10);
}

#[test]
fn spawned_pair_attracts_by_its_masses() {
    let mut app = running();
    app.add_planet(Vec2 { x: 0, y: 0 }, Vec2::zero(), ONE, false);
    app.add_planet(Vec2 { x: 0, y: 10 * ONE }, Vec2::zero(), ONE, false);
    app.update(ONE / 10);
    assert_eq!(app.planets[0].mass, 4_188_790_205);
    assert_eq!(app.planets[0].res_force, Vec2 { x: 0, y: 175_459 });
    assert_eq!(app.planets[1].res_force, Vec2 { x: 0, y: -175_459 });
    assert_eq!(app.planets[0].vel, Vec2 { x: 0, y: 4_188 });
    assert_eq!(app.planets[1].vel, Vec2 { x: 0, y: -4_188 });
    assert_eq!(app.planets[0].pos, Vec2 { x: 0, y: 418 });
}

#[test]
fn forces_on_a_pair_are_opposite() {
    let app = App::new();
    let a = body(0, 3 * ONE, -7 * ONE, 5 * ONE, ONE);
    let b = body(1, -11 * ONE, 13 * ONE, 9 * ONE, 2 * ONE);
    let (on_a, on_b) = app.get_grav_force_between_two_planets(&a, &b);
    assert_ne!(on_a, Vec2 { x: 0, y: 0 });
    assert_eq!(on_a.x + on_b.x, 0);
    assert_eq!(on_a.y + on_b.y, 0);
    assert!(on_a.x < 0 && on_a.y > 0);
}

#[test]
fn colliding_pair_exchanges_no_force() {
    let app = App::new();
    let a = body(0, 0, 0, ONE, 3 * ONE);
    let b = body(1, 5 * ONE, 0, ONE, 2 * ONE);
    assert!(app.check_for_collision(&a, &b));
    assert_eq!(
        app.get_grav_force_between_two_planets(&a, &b),
        (Vec2 { x: 0, y: 0 }, Vec2 { x: 0, y: 0 })
    );
}

#[test]
fn collision_needs_touching_discs() {
    let app = App::new();
    let a = body(0, 0, 0, ONE, 3 * ONE);
    let touching = body(1, 5 * ONE, 0, ONE, 2 * ONE);
    let apart = body(2, 5 * ONE + 1, 0, ONE, 2 * ONE);
    assert!(app.check_for_collision(&a, &touching));
    assert!(app.check_for_collision(&touching, &a));
    assert!(!app.check_for_collision(&a, &apart));
}

#[test]
fn big_body_absorbs_small_in_place() {
    let mut app = running();
    app.add_planet(Vec2 { x: 500 * ONE, y: 300 * ONE }, Vec2::zero(), 40 * ONE, false);
    app.add_planet(Vec2 { x: 520 * ONE, y: 300 * ONE }, Vec2::zero(), ONE, false);
    app.update(ONE / 10);
    assert_eq!(app.planets.len(), 1);
    assert_eq!(app.planets[0].id, 0);
    assert_eq!(app.planets[0].pos, Vec2 { x: 500 * ONE, y: 300 * ONE });
    assert_eq!(app.planets[0].mass, 268_086_761_931_538);
    assert_eq!(app.planets[0].radius, 40_000_208_332);
}

#[test]
fn small_body_first_is_still_absorbed() {
    let mut app = running();
    app.add_planet(Vec2 { x: 520 * ONE, y: 300 * ONE }, Vec2::zero(), ONE, false);
    app.add_planet(Vec2 { x: 500 * ONE, y: 300 * ONE }, Vec2::zero(), 40 * ONE, false);
    app.update(ONE / 10);
    assert_eq!(app.planets.len(), 1);
    assert_eq!(app.planets[0].id, 1);
    assert_eq!(app.planets[0].pos, Vec2 { x: 500 * ONE, y: 300 * ONE });
}

#[test]
fn equal_bodies_merge_at_midpoint() {
    let mut app = running();
    app.add_planet(Vec2 { x: 0, y: 0 }, Vec2::zero(), ONE, false);
    app.add_planet(Vec2 { x: ONE, y: ONE }, Vec2::zero(), ONE, false);
    app.update(ONE / 10);
    assert_eq!(app.planets.len(), 1);
    assert_eq!(app.planets[0].id, 0);
    assert_eq!(app.planets[0].pos, Vec2 { x: ONE / 2, y: ONE / 2 });
    assert_eq!(app.planets[0].mass, 8_377_580_410);
    assert_eq!(app.planets[0].radius, 1_259_921_049);
}

#[test]
fn ratio_just_over_cube_root_of_two_absorbs() {
    let mut app = running();
    app.add_planet(Vec2 { x: 0, y: 0 }, Vec2::zero(), 126 * ONE / 100, false);
    app.add_planet(Vec2 { x: ONE, y: 0 }, Vec2::zero(), ONE, false);
    app.collide(0, 1);
    assert_eq!(app.planets[0].pos, Vec2 { x: 0, y: 0 });

    let mut other = running();
    other.add_planet(Vec2 { x: 0, y: 0 }, Vec2::zero(), 125 * ONE / 100, false);
    other.add_planet(Vec2 { x: ONE, y: 0 }, Vec2::zero(), ONE, false);
    other.collide(0, 1);
    assert_eq!(other.planets[0].pos, Vec2 { x: ONE / 2, y: 0 });
}

#[test]
fn merge_keeps_momentum_and_adds_mass() {
    let mut app = running();
    let mut a = body(0, 0, 0, 2 * ONE, ONE);
    a.vel = Vec2 { x: 3 * ONE, y: -6 * ONE };
    let mut b = body(1, ONE, 0, ONE, ONE);
    b.vel = Vec2 { x: 0, y: 3 * ONE };
    app.planets.push(a);
    app.planets.push(b);
    app.collide(0, 1);
    assert_eq!(app.planets[0].mass, 3 * ONE);
    assert_eq!(app.planets[0].vel, Vec2 { x: 2 * ONE, y: -3 * ONE });
    // the absorbed body is left as it was
    assert_eq!(app.planets[1].mass, ONE);
    assert_eq!(app.planets[1].vel, Vec2 { x: 0, y: 3 * ONE });
}

#[test]
fn merge_momentum_error_is_below_total_mass() {
    let mut app = running();
    let mut a = body(0, 0, 0, 7, ONE);
    a.vel = Vec2 { x: 10, y: -10 };
    let mut b = body(1, ONE, 0, 4, ONE);
    b.vel = Vec2 { x: -3, y: 5 };
    app.planets.push(a);
    app.planets.push(b);
    app.collide(0, 1);
    let m: i128 = app.planets[0].mass as i128;
    assert_eq!(m, 11);
    let px: i128 = 7 * 10 + 4 * -3;
    let py: i128 = 7 * -10 + 4 * 5;
    assert!((m * app.planets[0].vel.x as i128 - px).abs() < m);
    assert!((m * app.planets[0].vel.y as i128 - py).abs() < m);
    assert_eq!(app.planets[0].vel, Vec2 { x: 5, y: -4 });
}

#[test]
fn merged_radius_is_the_radius_of_the_merged_volume() {
    let mut app = running();
    app.add_planet(Vec2 { x: 0, y: 0 }, Vec2::zero(), 3 * ONE, false);
    app.add_planet(Vec2 { x: ONE, y: 0 }, Vec2::zero(), 2 * ONE, false);
    let total: i64 = app.planets[0].mass + app.planets[1].mass;
    app.collide(0, 1);
    assert_eq!(app.planets[0].mass, total);
    let volume: i64 = nbody::fixed::fx_div(total, nbody::planet::PLANET_DENSITY);
    assert_eq!(app.planets[0].radius, nbody::planet::radius_from_volume(volume));
    // 3^3 + 2^3 = 35, and the cube root of 35 is 3.2710663...
    assert!((app.planets[0].radius - 3_271_066_310).abs() < 10);
}

#[test]
fn three_overlapping_bodies_merge_once() {
    let mut app = running();
    app.add_planet(Vec2 { x: 0, y: 0 }, Vec2::zero(), 2 * ONE, false);
    app.add_planet(Vec2 { x: ONE, y: 0 }, Vec2::zero(), 2 * ONE, false);
    let mut third_vel = Vec2::zero();
    third_vel.x = 5 * ONE;
    app.add_planet(Vec2 { x: 0, y: ONE }, third_vel, 2 * ONE, false);
    let third_mass: i64 = app.planets[2].mass;
    let fates = app.scan();
    assert_eq!(fates, vec![Fate::Absorbs(1), Fate::Absorbed, Fate::Free]);
    app.settle(&fates, ONE / 10);
    app.kill_dead_planets(&fates);
    assert_eq!(app.planets.len(), 2);
    assert_eq!(app.planets[0].id, 0);
    assert_eq!(app.planets[0].pos, Vec2 { x: ONE / 2, y: 0 });
    assert_eq!(app.planets[1].id, 2);
    assert_eq!(app.planets[1].mass, third_mass);
    assert_eq!(app.planets[1].radius, 2 * ONE);
    assert_eq!(app.planets[1].vel, third_vel);
    assert_eq!(app.planets[1].res_force, Vec2 { x: 0, y: 0 });
    // the third body only drifts with its own velocity
    assert_eq!(app.planets[1].pos, Vec2 { x: ONE / 2, y: ONE });
}

#[test]
fn three_overlapping_bodies_step() {
    let mut app = running();
    app.add_planet(Vec2 { x: 0, y: 0 }, Vec2::zero(), ONE, false);
    app.add_planet(Vec2 { x: ONE, y: 0 }, Vec2::zero(), 3 * ONE, false);
    app.add_planet(Vec2 { x: 0, y: ONE }, Vec2::zero(), 2 * ONE, false);
    app.update(ONE / 10);
    let ids: Vec<u32> = app.planets.iter().map(|p| p.id).collect();
    assert_eq!(ids, vec![1, 2]);
    assert_eq!(app.planets[1].pos, Vec2 { x: 0, y: ONE });
    assert_eq!(app.planets[1].radius, 2 * ONE);
}

#[test]
fn absorbed_body_exerts_no_force_later_in_the_pass() {
    let mut app = running();
    app.add_planet(Vec2 { x: 0, y: 0 }, Vec2::zero(), 2 * ONE, false);
    app.add_planet(Vec2 { x: ONE, y: 0 }, Vec2::zero(), ONE, false);
    app.add_planet(Vec2 { x: 100 * ONE, y: 0 }, Vec2::zero(), ONE, false);
    let fates = app.scan();
    assert_eq!(fates, vec![Fate::Absorbs(1), Fate::Absorbed, Fate::Free]);
    let (pull, _) = app.get_grav_force_between_two_planets(&app.planets[2], &app.planets[0]);
    assert_eq!(app.planets[2].res_force, pull);
    assert_eq!(app.planets[1].res_force, Vec2 { x: 0, y: 0 });
}

#[test]
fn stationary_body_stays_and_still_attracts() {
    let mut app = running();
    let mut push = Vec2::zero();
    push.x = 3 * ONE;
    app.add_planet(Vec2 { x: 0, y: 0 }, push, 10 * ONE, true);
    app.add_planet(Vec2 { x: 100 * ONE, y: 0 }, Vec2::zero(), ONE, false);
    for _ in 0..25 {
        app.update(ONE / 10);
    }
    assert_eq!(app.planets.len(), 2);
    assert_eq!(app.planets[0].pos, Vec2 { x: 0, y: 0 });
    assert_eq!(app.planets[0].vel, push);
    assert_ne!(app.planets[0].res_force, Vec2 { x: 0, y: 0 });
    assert!(app.planets[1].vel.x < 0);
    assert!(app.planets[1].pos.x < 100 * ONE);
    assert_eq!(app.planets[1].vel.y, 0);
}

#[test]
fn stationary_body_is_never_absorbed() {
    let mut app = running();
    app.add_planet(Vec2 { x: 0, y: 0 }, Vec2::zero(), 40 * ONE, false);
    app.add_planet(Vec2 { x: 10 * ONE, y: 0 }, Vec2::zero(), ONE, true);
    let total: i64 = app.planets[0].mass + app.planets[1].mass;
    app.update(ONE / 10);
    assert_eq!(app.planets.len(), 1);
    assert_eq!(app.planets[0].id, 1);
    assert!(app.planets[0].stationary);
    assert_eq!(app.planets[0].pos, Vec2 { x: 10 * ONE, y: 0 });
    assert_eq!(app.planets[0].vel, Vec2 { x: 0, y: 0 });
    assert_eq!(app.planets[0].mass, total);
}

#[test]
fn stationary_survivor_keeps_its_velocity() {
    let mut app = running();
    app.add_planet(Vec2 { x: 0, y: 0 }, Vec2::zero(), 2 * ONE, true);
    let mut fast = Vec2::zero();
    fast.y = 50 * ONE;
    app.add_planet(Vec2 { x: ONE, y: 0 }, fast, 2 * ONE, false);
    app.update(ONE / 10);
    assert_eq!(app.planets.len(), 1);
    assert_eq!(app.planets[0].pos, Vec2 { x: 0, y: 0 });
    assert_eq!(app.planets[0].vel, Vec2 { x: 0, y: 0 });
}

#[test]
fn two_stationary_bodies_do_not_merge() {
    let mut app = running();
    app.add_planet(Vec2 { x: 0, y: 0 }, Vec2::zero(), 2 * ONE, true);
    app.add_planet(Vec2 { x: ONE, y: 0 }, Vec2::zero(), 5 * ONE, true);
    let fates = app.scan();
    assert_eq!(fates, vec![Fate::Free, Fate::Free]);
    app.update(ONE / 10);
    assert_eq!(app.planets.len(), 2);
    assert_eq!(app.planets[0].radius, 2 * ONE);
    assert_eq!(app.planets[1].radius, 5 * ONE);
}

#[test]
fn paused_step_changes_nothing() {
    let mut app = App::new();
    app.trails_enabled = true;
    let mut drift = Vec2::zero();
    drift.x = ONE;
    app.add_planet(Vec2 { x: 0, y: 0 }, drift, ONE, false);
    app.add_planet(Vec2 { x: ONE / 2, y: 0 }, Vec2::zero(), ONE, false);
    assert!(app.paused);
    for _ in 0..3 {
        app.update(ONE / 10);
    }
    assert_eq!(app.planets.len(), 2);
    assert_eq!(app.planets[0].pos, Vec2 { x: 0, y: 0 });
    assert_eq!(app.planets[0].vel, drift);
    assert_eq!(app.planets[1].pos, Vec2 { x: ONE / 2, y: 0 });
    assert!(app.planets[0].trail_nodes.is_empty());
    assert!(app.planets[1].trail_nodes.is_empty());
    assert_eq!(app.unpaused_time, 0);
    assert_eq!(app.field_v_update_timer, 0);
}

#[test]
fn forces_are_reset_every_step() {
    let mut app = running();
    app.planets.push(body(0, 0, 0, ONE, ONE));
    app.planets.push(body(1, 10 * ONE, 0, ONE, ONE));
    app.pl_id_count = 2;
    app.planets[0].res_force = Vec2 { x: 77 * ONE, y: 77 * ONE };
    app.update(ONE / 10);
    assert_eq!(app.planets[0].res_force, Vec2 { x: 10_000, y: 0 });
}

#[test]
fn trails_grow_only_when_enabled() {
    let mut app = running();
    app.add_planet(Vec2 { x: 0, y: 0 }, Vec2::zero(), ONE, false);
    app.update(ONE / 10);
    assert_eq!(app.get_trail_node_total(), 0);
    app.trails_enabled = true;
    app.update(ONE / 10);
    app.update(ONE / 10);
    assert_eq!(app.get_trail_node_total(), 2);
    assert_eq!(app.planets[0].trail_nodes[0].time_created, 2 * (ONE / 10));
    assert_eq!(app.planets[0].trail_nodes[1].time_created, 3 * (ONE / 10));
    assert_eq!(app.planets[0].trail_nodes[1].pos, app.planets[0].pos);
}

#[test]
fn sweep_keeps_order_of_survivors() {
    let mut app = running();
    for k in 0..5 {
        app.add_planet(Vec2 { x: k * 100 * ONE, y: 0 }, Vec2::zero(), ONE, false);
    }
    let fates = vec![Fate::Absorbed, Fate::Free, Fate::Absorbed, Fate::Absorbs(2), Fate::Free];
    app.kill_dead_planets(&fates);
    let ids: Vec<u32> = app.planets.iter().map(|p| p.id).collect();
    assert_eq!(ids, vec![1, 3, 4]);
}

#[test]
fn total_mass_adds_up() {
    let mut app = App::new();
    assert_eq!(app.get_total_mass(), 0);
    app.add_planet(Vec2 { x: 0, y: 0 }, Vec2::zero(), ONE, false);
    app.add_planet(Vec2 { x: 0, y: 0 }, Vec2::zero(), 2 * ONE, true);
    assert_eq!(app.get_total_mass(), 4_188_790_205 + 33_510_321_642);
}

#[test]
fn total_mass_is_kept_by_a_merge() {
    let mut app = running();
    app.add_planet(Vec2 { x: 0, y: 0 }, Vec2::zero(), 3 * ONE, false);
    app.add_planet(Vec2 { x: ONE, y: 0 }, Vec2::zero(), 2 * ONE, false);
    app.add_planet(Vec2 { x: 500 * ONE, y: 0 }, Vec2::zero(), 2 * ONE, false);
    let before: i64 = app.get_total_mass();
    app.update(ONE / 100);
    assert_eq!(app.planets.len(), 2);
    assert_eq!(app.get_total_mass(), before);
}

#[test]
fn step_of_no_length_moves_nothing() {
    let mut app = running();
    let mut drift = Vec2::zero();
    drift.x = 3 * ONE;
    app.add_planet(Vec2 { x: 0, y: 0 }, drift, ONE, false);
    app.add_planet(Vec2 { x: 50 * ONE, y: 0 }, Vec2::zero(), ONE, false);
    app.update(0);
    assert_eq!(app.planets[0].pos, Vec2 { x: 0, y: 0 });
    assert_eq!(app.planets[0].vel, drift);
    assert_eq!(app.planets[1].vel, Vec2 { x: 0, y: 0 });
    assert_eq!(app.unpaused_time, 0);
}

#[test]
fn bodies_at_the_same_point_merge() {
    let mut app = running();
    app.add_planet(Vec2 { x: 7 * ONE, y: 7 * ONE }, Vec2::zero(), ONE, false);
    app.add_planet(Vec2 { x: 7 * ONE, y: 7 * ONE }, Vec2::zero(), ONE, false);
    app.update(ONE / 10);
    assert_eq!(app.planets.len(), 1);
    assert_eq!(app.planets[0].pos, Vec2 { x: 7 * ONE, y: 7 * ONE });
}

#[test]
fn clock_runs_only_while_running() {
    let mut app = App::new();
    app.update(ONE);
    assert_eq!(app.unpaused_time, 0);
    app.paused = false;
    app.update(ONE / 4);
    app.update(ONE / 4);
    assert_eq!(app.unpaused_time, ONE / 2);
    app.paused = true;
    app.update(ONE);
    assert_eq!(app.unpaused_time, ONE / 2);
}

#[test]
fn collide_ranks_small_body_first() {
    let mut app = running();
    app.add_planet(Vec2 { x: 120 * ONE, y: 100 * ONE }, Vec2::zero(), ONE, false);
    app.add_planet(Vec2 { x: 100 * ONE, y: 100 * ONE }, Vec2::zero(), 40 * ONE, false);
    let small_mass: i64 = app.planets[0].mass;
    let total: i64 = app.planets[0].mass + app.planets[1].mass;
    assert_eq!(app.collide(0, 1), Some(0));
    assert_eq!(app.planets.len(), 2);
    assert_eq!(app.planets[1].pos, Vec2 { x: 100 * ONE, y: 100 * ONE });
    assert_eq!(app.planets[1].mass, total);
    assert_eq!(app.planets[1].radius, 40_000_208_332);
    // the absorbed body is left as it was
    assert_eq!(app.planets[0].mass, small_mass);
    assert_eq!(app.planets[0].radius, ONE);
    assert_eq!(app.planets[0].pos, Vec2 { x: 120 * ONE, y: 100 * ONE });
}

#[test]
fn collide_ranks_big_body_first() {
    let mut app = running();
    app.add_planet(Vec2 { x: 100 * ONE, y: 100 * ONE }, Vec2::zero(), 40 * ONE, false);
    app.add_planet(Vec2 { x: 120 * ONE, y: 100 * ONE }, Vec2::zero(), ONE, false);
    let total: i64 = app.planets[0].mass + app.planets[1].mass;
    assert_eq!(app.collide(0, 1), Some(1));
    assert_eq!(app.planets[0].pos, Vec2 { x: 100 * ONE, y: 100 * ONE });
    assert_eq!(app.planets[0].mass, total);
    assert_eq!(app.planets[1].radius, ONE);
}

#[test]
fn collide_moves_larger_second_body_to_midpoint() {
    let mut app = running();
    app.add_planet(Vec2 { x: 0, y: 0 }, Vec2::zero(), ONE, false);
    app.add_planet(Vec2 { x: 2 * ONE, y: 0 }, Vec2::zero(), 12 * ONE / 10, false);
    assert_eq!(app.collide(0, 1), Some(0));
    // 1.2^3 = 1.728 is not above 2
    assert_eq!(app.planets[1].pos, Vec2 { x: ONE, y: 0 });
    assert_eq!(app.planets[0].pos, Vec2 { x: 0, y: 0 });
}

#[test]
fn collide_on_a_tie_keeps_the_first() {
    let mut app = running();
    app.add_planet(Vec2 { x: 0, y: 0 }, Vec2::zero(), ONE, false);
    app.add_planet(Vec2 { x: ONE, y: 0 }, Vec2::zero(), ONE, false);
    assert_eq!(app.collide(0, 1), Some(1));
    assert_eq!(app.planets[0].pos, Vec2 { x: ONE / 2, y: 0 });
    assert_eq!(app.planets[0].mass, 8_377_580_410);
}

#[test]
fn collide_keeps_larger_stationary_body_passed_second() {
    let mut app = running();
    let mut fast = Vec2::zero();
    fast.x = 9 * ONE;
    app.add_planet(Vec2 { x: 0, y: 0 }, fast, ONE, false);
    let mut held = Vec2::zero();
    held.y = 3 * ONE;
    app.add_planet(Vec2 { x: ONE, y: 0 }, held, 12 * ONE / 10, true);
    let total: i64 = app.planets[0].mass + app.planets[1].mass;
    assert_eq!(app.collide(0, 1), Some(0));
    assert!(app.planets[1].stationary);
    assert_eq!(app.planets[1].pos, Vec2 { x: ONE, y: 0 });
    assert_eq!(app.planets[1].vel, held);
    assert_eq!(app.planets[1].mass, total);
    assert!(app.planets[1].radius > 12 * ONE / 10);
}

#[test]
fn collide_never_absorbs_a_smaller_stationary_body() {
    let mut app = running();
    app.add_planet(Vec2 { x: 0, y: 0 }, Vec2::zero(), 40 * ONE, false);
    app.add_planet(Vec2 { x: ONE, y: 0 }, Vec2::zero(), ONE, true);
    let total: i64 = app.planets[0].mass + app.planets[1].mass;
    assert_eq!(app.collide(0, 1), Some(0));
    assert_eq!(app.planets[1].mass, total);
    assert_eq!(app.planets[1].pos, Vec2 { x: ONE, y: 0 });

    let mut other = running();
    other.add_planet(Vec2 { x: ONE, y: 0 }, Vec2::zero(), ONE, true);
    other.add_planet(Vec2 { x: 0, y: 0 }, Vec2::zero(), 40 * ONE, false);
    assert_eq!(other.collide(0, 1), Some(1));
    assert_eq!(other.planets[0].mass, total);
    assert_eq!(other.planets[0].pos, Vec2 { x: ONE, y: 0 });
}

#[test]
fn collide_leaves_two_stationary_bodies_alone() {
    let mut app = running();
    app.add_planet(Vec2 { x: 0, y: 0 }, Vec2::zero(), 2 * ONE, true);
    app.add_planet(Vec2 { x: ONE, y: 0 }, Vec2::zero(), 5 * ONE, true);
    let first_mass: i64 = app.planets[0].mass;
    let second_mass: i64 = app.planets[1].mass;
    assert_eq!(app.collide(0, 1), None);
    assert_eq!(app.planets[0].mass, first_mass);
    assert_eq!(app.planets[1].mass, second_mass);
    assert_eq!(app.planets[0].radius, 2 * ONE);
    assert_eq!(app.planets[1].radius, 5 * ONE);
}

#[test]
fn merge_of_the_smallest_bodies_stays_well_formed() {
    let mut app = running();
    app.add_planet(Vec2 { x: 0, y: 0 }, Vec2::zero(), 1_000_000, false);
    app.add_planet(Vec2 { x: 0, y: 0 }, Vec2::zero(), 1_000_000, false);
    app.update(ONE / 10);
    assert_eq!(app.planets.len(), 1);
    assert_eq!(app.planets[0].mass, 8);
    assert_eq!(app.planets[0].radius, 1_000_000);
    assert!(app.is_wf());
}

#[test]
fn pull_seen_from_the_other_body_is_opposite() {
    let app = App::new();
    let a = body(0, 3 * ONE, -7 * ONE, 5 * ONE, ONE);
    let b = body(1, -11 * ONE, 13 * ONE, 9 * ONE, 2 * ONE);
    let (on_a, _) = app.get_grav_force_between_two_planets(&a, &b);
    let (on_b, _) = app.get_grav_force_between_two_planets(&b, &a);
    assert_eq!(on_b, on_a.negated());
    assert_ne!(on_a, Vec2 { x: 0, y: 0 });
}

#[test]
fn three_overlapping_bodies_among_others_merge_once() {
    let mut app = running();
    app.add_planet(Vec2 { x: 900 * ONE, y: 0 }, Vec2::zero(), ONE, false);
    app.add_planet(Vec2 { x: 0, y: 0 }, Vec2::zero(), 2 * ONE, false);
    app.add_planet(Vec2 { x: -900 * ONE, y: 0 }, Vec2::zero(), ONE, false);
    app.add_planet(Vec2 { x: ONE, y: 0 }, Vec2::zero(), 3 * ONE, false);
    app.add_planet(Vec2 { x: 0, y: ONE }, Vec2::zero(), 2 * ONE, false);
    app.add_planet(Vec2 { x: 0, y: 900 * ONE }, Vec2::zero(), ONE, false);
    let third_mass: i64 = app.planets[4].mass;
    let fates = app.scan();
    assert_eq!(
        fates,
        vec![Fate::Free, Fate::Absorbed, Fate::Free, Fate::Absorbs(1), Fate::Free, Fate::Free]
    );
    app.settle(&fates, ONE / 10);
    app.kill_dead_planets(&fates);
    let ids: Vec<u32> = app.planets.iter().map(|p| p.id).collect();
    assert_eq!(ids, vec![0, 2, 3, 4, 5]);
    assert_eq!(app.planets[3].mass, third_mass);
    assert_eq!(app.planets[3].radius, 2 * ONE);
}

#[test]
fn forces_of_a_pass_cancel() {
    let mut app = running();
    app.add_planet(Vec2 { x: 0, y: 0 }, Vec2::zero(), 3 * ONE, false);
    app.add_planet(Vec2 { x: 40 * ONE, y: 10 * ONE }, Vec2::zero(), 2 * ONE, false);
    app.add_planet(Vec2 { x: -25 * ONE, y: 60 * ONE }, Vec2::zero(), 5 * ONE, true);
    app.add_planet(Vec2 { x: 7 * ONE, y: -33 * ONE }, Vec2::zero(), ONE, false);
    app.add_planet(Vec2 { x: 8 * ONE, y: -33 * ONE }, Vec2::zero(), ONE, false);
    app.scan();
    let sum_x: i128 = app.planets.iter().map(|p| p.res_force.x as i128).sum();
    let sum_y: i128 = app.planets.iter().map(|p| p.res_force.y as i128).sum();
    assert_eq!(sum_x, 0);
    assert_eq!(sum_y, 0);
    assert!(app.planets.iter().any(|p| p.res_force.x != 0));
}

#[test]
fn tick_keeps_total_momentum_within_rounding() {
    let mut app = running();
    app.add_planet(Vec2 { x: 0, y: 0 }, Vec2 { x: 3 * ONE, y: -ONE }, 3 * ONE, false);
    app.add_planet(Vec2 { x: 40 * ONE, y: 10 * ONE }, Vec2 { x: -ONE, y: 2 * ONE }, 2 * ONE, false);
    app.add_planet(Vec2 { x: -25 * ONE, y: 60 * ONE }, Vec2::zero(), 5 * ONE, false);
    let dt: i64 = ONE / 10;
    let momentum = |app: &App| -> (i128, i128) {
        let x = app.planets.iter().map(|p| p.mass as i128 * p.vel.x as i128).sum();
        let y = app.planets.iter().map(|p| p.mass as i128 * p.vel.y as i128).sum();
        (x, y)
    };
    let total_mass: i128 = app.planets.iter().map(|p| p.mass as i128).sum();
    let before = momentum(&app);
    app.update(dt);
    let after = momentum(&app);
    assert_eq!(app.planets.len(), 3);
    assert_ne!(app.planets[2].vel, Vec2 { x: 0, y: 0 });
    let tolerance: i128 = total_mass * (dt as i128 + ONE as i128);
    assert!((ONE as i128 * (after.0 - before.0)).abs() <= tolerance);
    assert!((ONE as i128 * (after.1 - before.1)).abs() <= tolerance);
}
