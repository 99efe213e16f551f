//! The simulation: the set of live bodies and the rules that advance it.
use vstd::prelude::*;
use crate::fixed::{
    fx_add, fx_add_spec, fx_cube, fx_cube_spec, fx_div, fx_div_spec, weighted_mean,
    weighted_mean_spec, SCALE,
};
use crate::field_vis::{blank_node, grid_lines, sampled, FieldVisual};
use crate::force::{get_grav_force, get_grav_force_spec};
use crate::ids::{fresh_id_spec, id_live, lemma_not_among, next_id, ID_WRAP};
use crate::planet::{
    lemma_mass_of_radius_floor, lemma_merged_size_floor, mass_of_radius, radius_from_volume, radius_of_volume,
    volume_from_radius, volume_of_mass, Body, Planet, MIN_MASS, MIN_RADIUS, PLANET_DENSITY,
};
use crate::vector::{lemma_cell, Vec2};

verus! {

/// What one step decides for a body.
#[derive(Clone, Copy, Debug, PartialEq, Eq, Structural)]
pub enum Fate {
    /// The body took part in no merge.
    Free,
    /// The body survives a merge with the body at the given index.
    Absorbs(usize),
    /// The body was merged into another and leaves the simulation.
    Absorbed,
}

/// The models of a sequence of planets.
pub open spec fn bodies_of(planets: Seq<Planet>) -> Seq<Body> {
    Seq::new(planets.len(), |k: int| planets[k]@)
}

/// Two bodies collide when their centres are no further apart than the sum
/// of their radii.
pub open spec fn collides(a: Body, b: Body) -> bool {
    a.pos.distance_spec(b.pos) <= fx_add_spec(a.radius, b.radius)
}

/// Force on `a` from `b`: the attraction along the ray from `a` to `b`, or
/// zero where the two collide.
pub open spec fn pull(a: Body, b: Body) -> Vec2 {
    if collides(a, b) {
        Vec2::zero_spec()
    } else {
        get_grav_force_spec(a.pos.distance_spec(b.pos), a.pos.toward_spec(b.pos), a.mass, b.mass)
    }
}

/// Two colliding bodies merge unless both are stationary: a stationary body
/// is never absorbed.
pub open spec fn can_merge(a: Body, b: Body) -> bool {
    !(a.stationary && b.stationary)
}

/// Whether `a` is the surviving side of a merge of `a` and `b`, where `a`
/// comes first in the list. A stationary body survives a moving one;
/// otherwise the larger radius survives, and on a tie the first.
pub open spec fn first_is_big(a: Body, b: Body) -> bool {
    if a.stationary != b.stationary {
        a.stationary
    } else {
        a.radius >= b.radius
    }
}

/// The surviving body is so much larger that it absorbs the other where it
/// stands: the cube of the ratio of the radii exceeds two.
pub open spec fn considerable_difference(big: Body, small: Body) -> bool {
    fx_cube_spec(fx_div_spec(big.radius, small.radius)) > 2 * SCALE
}

/// Velocity of the merged body: total momentum over total mass.
pub open spec fn merged_vel(big: Body, small: Body) -> Vec2 {
    Vec2 {
        x: weighted_mean_spec(big.mass, big.vel.x, small.mass, small.vel.x),
        y: weighted_mean_spec(big.mass, big.vel.y, small.mass, small.vel.y),
    }
}

/// The body that `big` becomes on merging with `small`. Mass adds up, the
/// radius is that of the combined volume, and momentum is kept. The merged
/// body stands halfway between the two unless the sizes differ considerably.
/// A stationary survivor keeps its position and velocity.
pub open spec fn merged(big: Body, small: Body) -> Body {
    Body {
        pos: if big.stationary || considerable_difference(big, small) {
            big.pos
        } else {
            big.pos.midpoint_spec(small.pos)
        },
        vel: if big.stationary {
            big.vel
        } else {
            merged_vel(big, small)
        },
        mass: fx_add_spec(big.mass, small.mass),
        radius: radius_of_volume(volume_of_mass(fx_add_spec(big.mass, small.mass))),
        ..big
    }
}

/// Index of the body that survives a merge of the bodies at `first` and
/// `second`, where `first` comes first in the list.
pub open spec fn survivor_of(bodies: Seq<Body>, first: int, second: int) -> int {
    if first_is_big(bodies[first], bodies[second]) {
        first
    } else {
        second
    }
}

/// Index of the body that a merge of the bodies at `first` and `second`
/// absorbs; none where both are stationary.
pub open spec fn absorbed_of(bodies: Seq<Body>, first: int, second: int) -> Option<usize> {
    if !can_merge(bodies[first], bodies[second]) {
        None
    } else if first_is_big(bodies[first], bodies[second]) {
        Some(second as usize)
    } else {
        Some(first as usize)
    }
}

/// The bodies after the two at `first` and `second` were merged: the
/// survivor has become the merged body, and all others are as they were,
/// the absorbed one too. Two stationary bodies leave the list unchanged.
pub open spec fn collided(bodies: Seq<Body>, first: int, second: int) -> Seq<Body> {
    if !can_merge(bodies[first], bodies[second]) {
        bodies
    } else {
        let w = survivor_of(bodies, first, second);
        let l = first + second - w;
        bodies.update(w, merged(bodies[w], bodies[l]))
    }
}

/// A newly made body.
pub open spec fn new_body(id: u32, pos: Vec2, vel: Vec2, radius: i64, stationary: bool) -> Body {
    Body {
        id,
        pos,
        vel,
        res_force: Vec2::zero_spec(),
        mass: mass_of_radius(radius),
        radius,
        stationary,
        is_prediction: false,
        trail: Seq::empty(),
    }
}

/// Distance between the centres of neighbours in a grid of bodies of radius
/// `rad` kept `sep` apart.
pub open spec fn grid_pitch(rad: i64, sep: i64) -> i64 {
    fx_add_spec(fx_add_spec(rad, sep), fx_add_spec(rad, sep))
}

/// Centre of the body in column `i` and row `j` of a grid that starts at
/// `origin`.
pub open spec fn grid_point(origin: Vec2, rad: i64, sep: i64, i: int, j: int) -> Vec2 {
    Vec2::lattice_spec(origin, grid_pitch(rad, sep), i, j)
}

/// The bodies and the identifier counter after a body was added: it gets
/// the first free identifier from the counter on and goes to the end of the
/// list.
pub open spec fn spawned(
    bodies: Seq<Body>,
    c: u32,
    pos: Vec2,
    vel: Vec2,
    rad: i64,
    stat: bool,
) -> (Seq<Body>, u32) {
    let id = fresh_id_spec(bodies, c);
    (bodies.push(new_body(id, pos, vel, rad, stat)), next_id(id))
}

/// The bodies and the identifier counter after the first `count` bodies of
/// a grid with `h` bodies to the column were added, column by column.
pub open spec fn square_upto(
    bodies: Seq<Body>,
    c: u32,
    origin: Vec2,
    stat: bool,
    rad: i64,
    sep: i64,
    h: int,
    count: int,
) -> (Seq<Body>, u32)
    decreases count,
{
    if count <= 0 {
        (bodies, c)
    } else {
        let prev = square_upto(bodies, c, origin, stat, rad, sep, h, count - 1);
        spawned(
            prev.0,
            prev.1,
            grid_point(origin, rad, sep, (count - 1) / h, (count - 1) % h),
            Vec2::zero_spec(),
            rad,
            stat,
        )
    }
}

/// Sum of the masses of the first `k` bodies, added up in list order.
pub open spec fn mass_upto(bodies: Seq<Body>, k: int) -> i64
    decreases k,
{
    if k <= 0 {
        0
    } else {
        fx_add_spec(mass_upto(bodies, k - 1), bodies[k - 1].mass)
    }
}

/// Number of trail nodes that the first `k` bodies hold together.
pub open spec fn trail_nodes_upto(bodies: Seq<Body>, k: int) -> int
    decreases k,
{
    if k <= 0 {
        0
    } else {
        trail_nodes_upto(bodies, k - 1) + bodies[k - 1].trail.len()
    }
}

/// The radius that the preview body has before the first launch: one unit.
pub const PREVIEW_RADIUS: i64 = 1_000_000_000;

/// Spacing of the field's sample points, in whole units.
pub const FIELD_SPACING: u32 = 30;

/// Width of the sampled field, in whole units.
pub const FIELD_WIDTH: u32 = 1920;

/// Height of the sampled field, in whole units.
pub const FIELD_HEIGHT: u32 = 1080;

/// The radius of spawned bodies at the start: five units.
pub const DEFAULT_SPAWN_SIZE: i64 = 5_000_000_000;

/// The preview of a body that is about to be launched.
pub struct Prediction {
    pub body: Planet,
    /// Set once the preview has run into a live body.
    pub colliding: bool,
}

/// The simulation state.
pub struct App {
    pub planets: Vec<Planet>,
    /// The identifier that the next body gets.
    pub pl_id_count: u32,
    pub paused: bool,
    /// Simulated time that has passed while running.
    pub unpaused_time: i64,
    pub trails_enabled: bool,
    pub prediction: Prediction,
    pub field_v: FieldVisual,
    /// Simulated time since the field was last sampled.
    pub field_v_update_timer: i64,
    pub show_field: bool,
    /// Where the pointer was when the running launch began.
    pub mouse_click_pos: Vec2,
    /// Where the pointer was when the preview was last restarted.
    pub last_mouse_pos: Vec2,
    /// Radius of the bodies that the pointer spawns; never below the
    /// smallest radius.
    pub planet_spawn_size: i64,
}

impl App {
    /// Every body has a positive mass and radius, no live body is a preview,
    /// no two live bodies share an identifier, the identifiers and their
    /// counter are below the limit, and the spawn size is a radius that a
    /// body can be made with.
    pub open spec fn wf(&self) -> bool {
        &&& forall|k: int| 0 <= k < self.planets@.len() ==> (#[trigger] self.planets@[k])@.wf()
        &&& forall|k: int|
            0 <= k < self.planets@.len() ==> !(#[trigger] self.planets@[k]).is_prediction
        &&& forall|k: int|
            0 <= k < self.planets@.len() ==> (#[trigger] self.planets@[k]).id < ID_WRAP
        &&& forall|a: int, b: int|
            0 <= a < b < self.planets@.len() ==> (#[trigger] self.planets@[a]).id != (
            #[trigger] self.planets@[b]).id
        &&& self.pl_id_count < ID_WRAP
        &&& self.prediction.body@.wf()
        &&& self.prediction.body.is_prediction
        &&& self.planet_spawn_size >= MIN_RADIUS
    }

    /// The models of the live bodies, in list order.
    pub open spec fn bodies(&self) -> Seq<Body> {
        bodies_of(self.planets@)
    }

    /// Everything but the bodies and the identifier counter is as in `prev`.
    pub open spec fn frame_eq(&self, prev: &App) -> bool {
        &&& self.paused == prev.paused
        &&& self.unpaused_time == prev.unpaused_time
        &&& self.trails_enabled == prev.trails_enabled
        &&& self.prediction == prev.prediction
        &&& self.field_v == prev.field_v
        &&& self.field_v_update_timer == prev.field_v_update_timer
        &&& self.show_field == prev.show_field
        &&& self.mouse_click_pos == prev.mouse_click_pos
        &&& self.last_mouse_pos == prev.last_mouse_pos
        &&& self.planet_spawn_size == prev.planet_spawn_size
    }

    /// An empty, paused simulation with trails off, the field shown and
    /// sampled on the default grid, the preview at rest at the origin, and
    /// a spawn size of five units.
    pub fn new() -> (app: App)
        ensures
            app.wf(),
            app.planets@.len() == 0,
            app.pl_id_count == 0,
            app.paused,
            app.unpaused_time == 0,
            !app.trails_enabled,
            app.show_field,
            app.field_v_update_timer == 0,
            !app.prediction.colliding,
            app.prediction.body@ == Prediction::rest_body(),
            app.mouse_click_pos == Vec2::zero_spec(),
            app.last_mouse_pos == Vec2::zero_spec(),
            app.planet_spawn_size == DEFAULT_SPAWN_SIZE,
            app.field_v.nodes@.len() == grid_lines(FIELD_SPACING, FIELD_WIDTH) * grid_lines(
                FIELD_SPACING,
                FIELD_HEIGHT,
            ),
            forall|k: int|
                0 <= k < app.field_v.nodes@.len() ==> #[trigger] app.field_v.nodes@[k]
                    == blank_node(FIELD_SPACING, grid_lines(FIELD_SPACING, FIELD_HEIGHT), k),
    {
        App {
            planets: Vec::new(),
            pl_id_count: 0,
            paused: true,
            unpaused_time: 0,
            trails_enabled: false,
            prediction: Prediction::default(),
            field_v: FieldVisual::new(FIELD_SPACING, FIELD_WIDTH, FIELD_HEIGHT),
            field_v_update_timer: 0,
            show_field: true,
            mouse_click_pos: Vec2::zero(),
            last_mouse_pos: Vec2::zero(),
            planet_spawn_size: DEFAULT_SPAWN_SIZE,
        }
    }

    /// Whether the state is well formed.
    pub fn is_wf(&self) -> (ok: bool)
        ensures
            ok == self.wf(),
    {
        if self.pl_id_count >= ID_WRAP || self.planet_spawn_size < MIN_RADIUS
            || !self.prediction.body.is_prediction || self.prediction.body.mass < MIN_MASS
            || self.prediction.body.radius < MIN_RADIUS {
            return false;
        }
        let n: usize = self.planets.len();
        let mut k: usize = 0;
        while k < n
            invariant
                k <= n,
                n == self.planets@.len(),
                forall|m: int| 0 <= m < k ==> (#[trigger] self.planets@[m])@.wf(),
                forall|m: int| 0 <= m < k ==> !(#[trigger] self.planets@[m]).is_prediction,
                forall|m: int| 0 <= m < k ==> (#[trigger] self.planets@[m]).id < ID_WRAP,
                forall|a: int, b: int|
                    0 <= a < b < k ==> (#[trigger] self.planets@[a]).id != (
                    #[trigger] self.planets@[b]).id,
            decreases n - k,
        {
            if self.planets[k].mass < MIN_MASS || self.planets[k].radius < MIN_RADIUS
                || self.planets[k].is_prediction || self.planets[k].id >= ID_WRAP {
                return false;
            }
            let mut a: usize = 0;
            while a < k
                invariant
                    a <= k < n,
                    n == self.planets@.len(),
                    forall|m: int|
                        0 <= m < a ==> (#[trigger] self.planets@[m]).id != self.planets@[k as int].id,
                decreases k - a,
            {
                if self.planets[a].id == self.planets[k].id {
                    return false;
                }
                a += 1;
            }
            k += 1;
        }
        true
    }

    /// Sum of the masses of all live bodies.
    pub fn get_total_mass(&self) -> (total: i64)
        ensures
            total == mass_upto(self.bodies(), self.planets@.len() as int),
    {
        let n: usize = self.planets.len();
        let mut total: i64 = 0;
        let mut k: usize = 0;
        while k < n
            invariant
                k <= n,
                n == self.planets@.len(),
                total == mass_upto(self.bodies(), k as int),
            decreases n - k,
        {
            total = fx_add(total, self.planets[k].mass);
            k += 1;
        }
        total
    }

    /// Number of trail nodes that the live bodies hold together.
    pub fn get_trail_node_total(&self) -> (total: u128)
        ensures
            total == trail_nodes_upto(self.bodies(), self.planets@.len() as int),
    {
        let n: usize = self.planets.len();
        let mut total: u128 = 0;
        let mut k: usize = 0;
        while k < n
            invariant
                k <= n,
                n == self.planets@.len(),
                total == trail_nodes_upto(self.bodies(), k as int),
                total <= k * 0x1_0000_0000_0000_0000,
            decreases n - k,
        {
            let nodes: usize = self.planets[k].trail_nodes.len();
            assert((k + 1) * 0x1_0000_0000_0000_0000 == k * 0x1_0000_0000_0000_0000
                + 0x1_0000_0000_0000_0000) by (nonlinear_arith);
            assert(k * 0x1_0000_0000_0000_0000 <= 0xffff_ffff_ffff_ffff * 0x1_0000_0000_0000_0000)
                by (nonlinear_arith)
                requires
                    k <= 0xffff_ffff_ffff_ffff,
            ;
            total = total + nodes as u128;
            k += 1;
        }
        total
    }

    /// Samples the force field anew from the live bodies.
    pub fn update_field_vis(&mut self)
        ensures
            final(self)@ == old(self)@.resampled(),
            final(self).planets == old(self).planets,
            final(self).prediction == old(self).prediction,
            old(self).wf() ==> final(self).wf(),
    {
        self.field_v.sample(&self.planets);
    }

    /// Whether the bodies `first` and `second` touch or overlap.
    pub fn check_for_collision(&self, first: &Planet, second: &Planet) -> (hit: bool)
        ensures
            hit == collides(first@, second@),
    {
        first.pos.distance(second.pos) <= fx_add(first.radius, second.radius)
    }

    /// The forces that `first` and `second` exert on each other, the one on
    /// `first` first. They are opposite, and zero where the bodies collide.
    pub fn get_grav_force_between_two_planets(&self, first: &Planet, second: &Planet) -> (forces: (
        Vec2,
        Vec2,
    ))
        ensures
            forces.0 == pull(first@, second@),
            forces.1 == pull(first@, second@).negated_spec(),
    {
        let dist: i64 = first.pos.distance(second.pos);
        if dist > fx_add(first.radius, second.radius) {
            let heading: Vec2 = first.pos.toward(second.pos);
            let force: Vec2 = get_grav_force(dist, heading, first.mass, second.mass);
            (force, force.negated())
        } else {
            (Vec2::zero(), Vec2::zero())
        }
    }

    /// Adds a body and returns its identifier: the first one from the
    /// counter on that no live body has. The counter moves past it. The
    /// radius must be at least the smallest one, and the list must have
    /// room in the space of identifiers.
    pub fn add_planet(&mut self, pos: Vec2, vel: Vec2, rad: i64, stationary: bool) -> (id: u32)
        requires
            old(self).wf(),
            old(self).planets@.len() < ID_WRAP,
            rad >= MIN_RADIUS,
        ensures
            final(self).wf(),
            id == fresh_id_spec(old(self).bodies(), old(self).pl_id_count),
            !id_live(old(self).bodies(), id),
            final(self).pl_id_count == next_id(id),
            final(self).bodies() == old(self).bodies().push(
                new_body(id, pos, vel, rad, stationary),
            ),
            final(self).planets@.len() == old(self).planets@.len() + 1,
            final(self).frame_eq(old(self)),
            final(self)@ == old(self)@.spawn(pos, vel, rad, stationary),
    {
        let id: u32 = self.fresh_id();
        let planet: Planet = Planet::new(id, pos, vel, rad, stationary);
        proof {
            lemma_not_among(self.bodies(), self.planets@.len() as int, id);
            assert forall|m: int| 0 <= m < self.planets@.len() implies (
            #[trigger] self.planets@[m]).id != id by {
                assert(self.bodies()[m].id != id);
            }
        }
        self.planets.push(planet);
        self.pl_id_count = if id + 1 >= ID_WRAP {
            0
        } else {
            id + 1
        };
        proof {
            assert(final(self).bodies() =~= old(self).bodies().push(
                new_body(id, pos, vel, rad, stationary),
            ));
        }
        id
    }

    /// Merges the bodies at `first` and `second`, where `first` comes first
    /// in the list, and returns the index of the one that was absorbed.
    ///
    /// The bodies are ranked here: a stationary body survives a moving one,
    /// otherwise the larger radius survives, and on a tie the body at
    /// `first`. The survivor changes in place; the absorbed body is left as
    /// it is, for removal. Two stationary bodies do not merge: nothing
    /// changes and nothing is returned.
    pub fn collide(&mut self, first: usize, second: usize) -> (absorbed: Option<usize>)
        requires
            old(self).wf(),
            first < old(self).planets@.len(),
            second < old(self).planets@.len(),
            first != second,
        ensures
            final(self).wf(),
            final(self).pl_id_count == old(self).pl_id_count,
            final(self).planets@.len() == old(self).planets@.len(),
            final(self).frame_eq(old(self)),
            absorbed == absorbed_of(old(self).bodies(), first as int, second as int),
            final(self).bodies() == collided(old(self).bodies(), first as int, second as int),
    {
        let fixed_first: bool = self.planets[first].stationary;
        let fixed_second: bool = self.planets[second].stationary;
        if fixed_first && fixed_second {
            proof {
                assert(final(self).bodies() =~= old(self).bodies());
            }
            return None;
        }
        let first_wins: bool = if fixed_first != fixed_second {
            fixed_first
        } else {
            self.planets[first].radius >= self.planets[second].radius
        };
        let big: usize = if first_wins {
            first
        } else {
            second
        };
        let small: usize = if first_wins {
            second
        } else {
            first
        };
        let small_mass: i64 = self.planets[small].mass;
        let small_vel: Vec2 = self.planets[small].vel;
        let small_pos: Vec2 = self.planets[small].pos;
        let small_radius: i64 = self.planets[small].radius;
        let big_mass: i64 = self.planets[big].mass;
        let big_vel: Vec2 = self.planets[big].vel;
        let big_pos: Vec2 = self.planets[big].pos;
        let big_radius: i64 = self.planets[big].radius;
        let anchored: bool = self.planets[big].stationary;

        proof {
            lemma_merged_size_floor(big_mass, small_mass);
        }
        let total_mass: i64 = fx_add(big_mass, small_mass);
        let new_rad: i64 = radius_from_volume(fx_div(total_mass, PLANET_DENSITY));
        let considerable_difference: bool = fx_cube(fx_div(big_radius, small_radius)) > 2 * SCALE;

        if !anchored {
            if !considerable_difference {
                self.planets[big].pos = big_pos.midpoint(small_pos);
            }
            self.planets[big].vel = Vec2 {
                x: weighted_mean(big_mass, big_vel.x, small_mass, small_vel.x),
                y: weighted_mean(big_mass, big_vel.y, small_mass, small_vel.y),
            };
        }
        self.planets[big].radius = new_rad;
        self.planets[big].mass = total_mass;
        proof {
            assert(final(self).bodies() =~= collided(
                old(self).bodies(),
                first as int,
                second as int,
            ));
        }
        Some(small)
    }

    /// Places `w` columns of `h` bodies each on a grid that starts at `pos`.
    /// Neighbours are `2 * (rad + sep)` apart; the bodies are at rest and
    /// are added column by column, each as `add_planet` adds it.
    pub fn make_square(&mut self, pos: Vec2, stat: bool, rad: i64, sep: i64, w: u32, h: u32)
        requires
            old(self).wf(),
            old(self).planets@.len() + w * h <= ID_WRAP,
            rad >= MIN_RADIUS,
        ensures
            final(self).wf(),
            final(self).frame_eq(old(self)),
            (final(self).bodies(), final(self).pl_id_count) == square_upto(
                old(self).bodies(),
                old(self).pl_id_count,
                pos,
                stat,
                rad,
                sep,
                h as int,
                w * h,
            ),
            final(self)@ == old(self)@.square(pos, stat, rad, sep, w as int, h as int),
            final(self).bodies().len() == old(self).bodies().len() + w * h,
            forall|k: int|
                0 <= k < old(self).bodies().len() ==> #[trigger] final(self).bodies()[k] == old(
                    self,
                ).bodies()[k],
            forall|k: int|
                0 <= k < w * h ==> #[trigger] final(self).bodies()[old(self).bodies().len() + k]
                    == new_body(
                    final(self).bodies()[old(self).bodies().len() + k].id,
                    grid_point(pos, rad, sep, k / (h as int), k % (h as int)),
                    Vec2::zero_spec(),
                    rad,
                    stat,
                ),
    {
        let ghost before: Seq<Body> = self.bodies();
        let ghost first: u32 = self.pl_id_count;
        let ghost prev: App = *self;
        let step: i64 = fx_add(rad, sep);
        let pitch: i64 = fx_add(step, step);
        let mut i: u32 = 0;
        while i < w
            invariant
                i <= w,
                self.wf(),
                self.frame_eq(&prev),
                rad >= MIN_RADIUS,
                before.len() + w * h <= ID_WRAP,
                pitch == grid_pitch(rad, sep),
                (self.bodies(), self.pl_id_count) == square_upto(
                    before,
                    first,
                    pos,
                    stat,
                    rad,
                    sep,
                    h as int,
                    i * h,
                ),
                self.bodies().len() == before.len() + i * h,
                forall|k: int| 0 <= k < before.len() ==> #[trigger] self.bodies()[k] == before[k],
                forall|k: int|
                    0 <= k < i * h ==> #[trigger] self.bodies()[before.len() + k] == new_body(
                        self.bodies()[before.len() + k].id,
                        grid_point(pos, rad, sep, k / (h as int), k % (h as int)),
                        Vec2::zero_spec(),
                        rad,
                        stat,
                    ),
            decreases w - i,
        {
            let mut j: u32 = 0;
            while j < h
                invariant
                    i < w,
                    j <= h,
                    self.wf(),
                    self.frame_eq(&prev),
                    rad >= MIN_RADIUS,
                    before.len() + w * h <= ID_WRAP,
                    pitch == grid_pitch(rad, sep),
                    (self.bodies(), self.pl_id_count) == square_upto(
                        before,
                        first,
                        pos,
                        stat,
                        rad,
                        sep,
                        h as int,
                        i * h + j,
                    ),
                    self.bodies().len() == before.len() + i * h + j,
                    forall|k: int|
                        0 <= k < before.len() ==> #[trigger] self.bodies()[k] == before[k],
                    forall|k: int|
                        0 <= k < i * h + j ==> #[trigger] self.bodies()[before.len() + k]
                            == new_body(
                            self.bodies()[before.len() + k].id,
                            grid_point(pos, rad, sep, k / (h as int), k % (h as int)),
                            Vec2::zero_spec(),
                            rad,
                            stat,
                        ),
                decreases h - j,
            {
                proof {
                    lemma_cell(i as int, j as int, h as int);
                    assert(i * h >= 0 && i * h + h <= w * h) by (nonlinear_arith)
                        requires
                            0 <= i < w,
                            h >= 0,
                    ;
                }
                let spot: Vec2 = Vec2::lattice(pos, pitch, i, j);
                self.add_planet(spot, Vec2::zero(), rad, stat);
                j += 1;
            }
            assert(i * h + h == (i + 1) * h) by (nonlinear_arith);
            i += 1;
        }
    }
}

} // verus!

verus! {

impl Prediction {
    /// The preview before the first launch: at the origin, at rest, of unit
    /// radius, with an empty trail.
    pub open spec fn rest_body() -> Body {
        Body {
            is_prediction: true,
            ..new_body(0, Vec2::zero_spec(), Vec2::zero_spec(), PREVIEW_RADIUS, false)
        }
    }

    /// The body `prev` put at the start of a new launch: position, velocity
    /// and radius as given, the mass that the radius gives, no force, and a
    /// trail that holds the start alone.
    pub open spec fn reset_body(prev: Body, pos: Vec2, vel: Vec2, rad: i64) -> Body {
        Body {
            pos,
            vel,
            radius: rad,
            mass: mass_of_radius(rad),
            res_force: Vec2::zero_spec(),
            trail: seq![crate::planet::TrailNode { pos, time_created: 0 }],
            ..prev
        }
    }

    /// Starts a new preview at `pos` with velocity `vel` and radius `rad`,
    /// which must be at least the smallest radius, and clears the collision
    /// latch.
    pub fn reset(&mut self, pos: Vec2, vel: Vec2, rad: i64)
        requires
            rad >= MIN_RADIUS,
        ensures
            final(self).body@ == Prediction::reset_body(old(self).body@, pos, vel, rad),
            !final(self).colliding,
            final(self).body@.wf(),
    {
        proof {
            lemma_mass_of_radius_floor(rad);
        }
        self.body.pos = pos;
        self.body.vel = vel;
        self.body.radius = rad;
        self.body.mass = crate::fixed::fx_mul(PLANET_DENSITY, volume_from_radius(rad));
        self.body.res_force = Vec2::zero();
        self.colliding = false;
        let mut trail: Vec<crate::planet::TrailNode> = Vec::new();
        trail.push(crate::planet::TrailNode { pos, time_created: 0 });
        self.body.trail_nodes = trail;
        proof {
            assert(final(self).body@.trail =~= seq![
                crate::planet::TrailNode { pos, time_created: 0 },
            ]);
        }
    }
}

impl Default for Prediction {
    fn default() -> (p: Prediction)
        ensures
            !p.colliding,
            p.body@ == Prediction::rest_body(),
            p.body@.wf(),
            p.body.is_prediction,
    {
        let mut body: Planet = Planet::new(0, Vec2::zero(), Vec2::zero(), PREVIEW_RADIUS, false);
        body.is_prediction = true;
        Prediction { body, colliding: false }
    }
}

} // verus!
