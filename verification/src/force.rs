//! The law of attraction between two masses.
use vstd::prelude::*;
use crate::fixed::{fx_mul, fx_mul_spec, mul_div, mul_div_spec};
use crate::vector::Vec2;

verus! {

/// The gravitational constant: one thousandth.
pub const G: i64 = 1_000_000;

/// Magnitude of the attraction between the masses `big_m` and `m` whose
/// centres are `distance` apart: `G * m * big_m / distance²`. The product of
/// the masses is divided by the squared distance in one step, so the order
/// of the masses does not matter. Zero where the squared distance rounds to
/// zero.
pub open spec fn grav_equ_spec(big_m: i64, m: i64, distance: i64) -> i64 {
    fx_mul_spec(G, mul_div_spec(m, big_m, fx_mul_spec(distance, distance)))
}

/// The attraction as a vector: the magnitude for the masses `m1` and `m2` at
/// distance `dist`, along the direction whose cosine and sine are the
/// components of `heading`.
pub open spec fn get_grav_force_spec(dist: i64, heading: Vec2, m1: i64, m2: i64) -> Vec2 {
    heading.scaled_spec(grav_equ_spec(m1, m2, dist))
}

/// Magnitude of the attraction between two masses.
pub fn grav_equ(big_m: i64, m: i64, distance: i64) -> (r: i64)
    ensures
        r == grav_equ_spec(big_m, m, distance),
{
    fx_mul(G, mul_div(m, big_m, fx_mul(distance, distance)))
}

/// Force that the mass `m2` exerts on the mass `m1`, where `heading` holds the
/// cosine and sine of the angle from the first to the second.
pub fn get_grav_force(dist: i64, heading: Vec2, m1: i64, m2: i64) -> (r: Vec2)
    ensures
        r == get_grav_force_spec(dist, heading, m1, m2),
{
    heading.scaled(grav_equ(m1, m2, dist))
}

} // verus!
