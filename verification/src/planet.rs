//! A single body: its state, its model and its motion.
use vstd::prelude::*;
use crate::fixed::{
    fx_add_spec, fx_cbrt, fx_cbrt_spec, fx_cube, fx_cube_spec, fx_div, fx_div_spec, fx_mul,
    fx_mul_spec, lemma_fx_cbrt_at_least, lemma_mul_div_at_least, mul_div, mul_div_spec, PI, SCALE,
};
use crate::vector::Vec2;

verus! {

/// Mass per unit of volume, the same for every body.
pub const PLANET_DENSITY: i64 = 1_000_000_000;

/// The smallest radius that a body can be made with: a thousandth of a
/// unit. Below it the mass would round to nothing.
pub const MIN_RADIUS: i64 = 1_000_000;

/// The mass of a body of the smallest radius, in raw units.
pub const MIN_MASS: i64 = 4;

/// Volume of a ball of radius `r`: `(4/3) * PI * r³`.
pub open spec fn volume_of_radius(r: i64) -> i64 {
    mul_div_spec(fx_mul_spec(PI, fx_cube_spec(r)), 4, 3)
}

/// Mass of a body of radius `r`: the density times its volume.
pub open spec fn mass_of_radius(r: i64) -> i64 {
    fx_mul_spec(PLANET_DENSITY, volume_of_radius(r))
}

/// Radius of a ball of volume `v`: the cube root of `(3/4) * v / PI`.
pub open spec fn radius_of_volume(v: i64) -> i64 {
    fx_cbrt_spec(fx_div_spec(mul_div_spec(v, 3, 4), PI))
}

/// Volume that a body of mass `m` takes up.
pub open spec fn volume_of_mass(m: i64) -> i64 {
    fx_div_spec(m, PLANET_DENSITY)
}

/// One remembered position of a body.
#[derive(Clone, Copy, Debug, PartialEq, Eq, Structural)]
pub struct TrailNode {
    pub pos: Vec2,
    pub time_created: i64,
}

/// A body of the simulation.
#[derive(Clone, Debug)]
pub struct Planet {
    pub id: u32,
    pub pos: Vec2,
    pub vel: Vec2,
    /// Sum of the forces found so far in the running step.
    pub res_force: Vec2,
    pub mass: i64,
    pub radius: i64,
    /// A stationary body attracts others and never moves.
    pub stationary: bool,
    /// Marks the preview body, which is no member of the simulation.
    pub is_prediction: bool,
    pub trail_nodes: Vec<TrailNode>,
}

/// The mathematical value of a `Planet`.
pub struct Body {
    pub id: u32,
    pub pos: Vec2,
    pub vel: Vec2,
    pub res_force: Vec2,
    pub mass: i64,
    pub radius: i64,
    pub stationary: bool,
    pub is_prediction: bool,
    pub trail: Seq<TrailNode>,
}

impl Body {
    /// Mass and radius are positive: no less than those of the smallest
    /// body that can be made.
    pub open spec fn wf(self) -> bool {
        self.mass >= MIN_MASS && self.radius >= MIN_RADIUS
    }

    /// The body with its accumulated force replaced.
    pub open spec fn with_force(self, force: Vec2) -> Body {
        Body { res_force: force, ..self }
    }

    /// Velocity after the accumulated force has acted for `dt`; a
    /// stationary body keeps its velocity.
    pub open spec fn next_vel(self, dt: i64) -> Vec2 {
        if self.stationary {
            self.vel
        } else {
            self.vel.plus_spec(self.res_force.divided_spec(self.mass).scaled_spec(dt))
        }
    }

    /// Position after moving for `dt` at the new velocity; a stationary body
    /// keeps its position.
    pub open spec fn next_pos(self, dt: i64) -> Vec2 {
        if self.stationary {
            self.pos
        } else {
            self.pos.plus_spec(self.next_vel(dt).scaled_spec(dt))
        }
    }

    /// The body after one integration step of length `dt` at clock `time`.
    /// With `trails` set, the new position is appended to the trail.
    pub open spec fn advanced(self, dt: i64, time: i64, trails: bool) -> Body {
        Body {
            pos: self.next_pos(dt),
            vel: self.next_vel(dt),
            trail: if trails {
                self.trail.push(TrailNode { pos: self.next_pos(dt), time_created: time })
            } else {
                self.trail
            },
            ..self
        }
    }
}

impl View for Planet {
    type V = Body;

    open spec fn view(&self) -> Body {
        Body {
            id: self.id,
            pos: self.pos,
            vel: self.vel,
            res_force: self.res_force,
            mass: self.mass,
            radius: self.radius,
            stationary: self.stationary,
            is_prediction: self.is_prediction,
            trail: self.trail_nodes@,
        }
    }
}

/// Volume of a ball of the given radius.
pub fn volume_from_radius(r: i64) -> (v: i64)
    ensures
        v == volume_of_radius(r),
{
    mul_div(fx_mul(PI, fx_cube(r)), 4, 3)
}

/// Radius of a ball of the given volume.
pub fn radius_from_volume(v: i64) -> (r: i64)
    ensures
        r == radius_of_volume(v),
        r >= 0,
{
    fx_cbrt(fx_div(mul_div(v, 3, 4), PI))
}

impl Planet {
    /// A body on which no force acts yet, with the mass that its radius
    /// gives it and an empty trail. The radius must be at least the
    /// smallest one, so that the mass is positive.
    pub fn new(id: u32, pos: Vec2, vel: Vec2, radius: i64, stationary: bool) -> (p: Planet)
        requires
            radius >= MIN_RADIUS,
        ensures
            p@ == (Body {
                id,
                pos,
                vel,
                res_force: Vec2::zero_spec(),
                mass: mass_of_radius(radius),
                radius,
                stationary,
                is_prediction: false,
                trail: Seq::empty(),
            }),
            p@.wf(),
    {
        let mass: i64 = fx_mul(PLANET_DENSITY, volume_from_radius(radius));
        proof {
            lemma_mass_of_radius_floor(radius);
        }
        Planet {
            id,
            pos,
            vel,
            res_force: Vec2::zero(),
            mass,
            radius,
            stationary,
            is_prediction: false,
            trail_nodes: Vec::new(),
        }
    }

    /// Integrates the body over `dt`: the accumulated force changes the
    /// velocity, the new velocity changes the position. A stationary body
    /// stays as it is. With `trails` set, the position reached is recorded
    /// under the clock value `time`.
    pub fn update(&mut self, dt: i64, time: i64, trails: bool)
        ensures
            final(self)@ == old(self)@.advanced(dt, time, trails),
    {
        if !self.stationary {
            let acceleration: Vec2 = self.res_force.divided(self.mass);
            self.vel = self.vel.plus(acceleration.scaled(dt));
            self.pos = self.pos.plus(self.vel.scaled(dt));
        }
        if trails {
            self.trail_nodes.push(TrailNode { pos: self.pos, time_created: time });
        }
    }
}

/// A body of at least the smallest radius has at least the smallest mass.
pub proof fn lemma_mass_of_radius_floor(r: i64)
    requires
        r >= MIN_RADIUS,
    ensures
        mass_of_radius(r) >= MIN_MASS,
{
    lemma_mul_div_at_least(r, r, SCALE, 1_000_000, 1_000_000, 1000);
    let sq: i64 = fx_mul_spec(r, r);
    lemma_mul_div_at_least(sq, r, SCALE, 1000, 1_000_000, 1);
    let cu: i64 = fx_cube_spec(r);
    lemma_mul_div_at_least(PI, cu, SCALE, PI as int, 1, 3);
    let pc: i64 = fx_mul_spec(PI, cu);
    lemma_mul_div_at_least(pc, 4, 3, 3, 4, 4);
    let vol: i64 = volume_of_radius(r);
    lemma_mul_div_at_least(PLANET_DENSITY, vol, SCALE, PLANET_DENSITY as int, 4, 4);
}

/// Two bodies of at least the smallest mass merge into a body of at least
/// the smallest mass and radius.
pub proof fn lemma_merged_size_floor(m1: i64, m2: i64)
    requires
        m1 >= MIN_MASS,
        m2 >= MIN_MASS,
    ensures
        fx_add_spec(m1, m2) >= 2 * MIN_MASS,
        radius_of_volume(volume_of_mass(fx_add_spec(m1, m2))) >= MIN_RADIUS,
{
    let total: i64 = fx_add_spec(m1, m2);
    lemma_mul_div_at_least(total, SCALE, PLANET_DENSITY, 8, SCALE as int, 8);
    let vol: i64 = volume_of_mass(total);
    lemma_mul_div_at_least(vol, 3, 4, 8, 3, 6);
    let part: i64 = mul_div_spec(vol, 3, 4);
    lemma_mul_div_at_least(part, SCALE, PI, 6, SCALE as int, 1);
    lemma_fx_cbrt_at_least(fx_div_spec(part, PI));
}

} // verus!
