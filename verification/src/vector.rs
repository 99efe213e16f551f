//! Two-dimensional vectors of fixed-point quantities.
use vstd::prelude::*;
use crate::fixed::{
    fx_add, fx_add_spec, fx_div, fx_div_spec, fx_mid, fx_mid_spec, fx_mul, fx_mul_spec, fx_neg,
    fx_neg_spec, fx_sub, fx_sub_spec, int_sqrt, is_isqrt, isqrt, lemma_isqrt_exists, mul_div,
    mul_div_spec, sat, LIMIT,
};

verus! {

/// A point or a displacement in the plane.
#[derive(Clone, Copy, Debug, PartialEq, Eq, Structural)]
pub struct Vec2 {
    pub x: i64,
    pub y: i64,
}

impl Vec2 {
    /// The vector with both components zero.
    pub open spec fn zero_spec() -> Vec2 {
        Vec2 { x: 0, y: 0 }
    }

    /// Componentwise sum.
    pub open spec fn plus_spec(self, other: Vec2) -> Vec2 {
        Vec2 { x: fx_add_spec(self.x, other.x), y: fx_add_spec(self.y, other.y) }
    }

    /// Componentwise difference.
    pub open spec fn minus_spec(self, other: Vec2) -> Vec2 {
        Vec2 { x: fx_sub_spec(self.x, other.x), y: fx_sub_spec(self.y, other.y) }
    }

    /// The opposite vector.
    pub open spec fn negated_spec(self) -> Vec2 {
        Vec2 { x: fx_neg_spec(self.x), y: fx_neg_spec(self.y) }
    }

    /// The vector multiplied by the quantity `k`.
    pub open spec fn scaled_spec(self, k: i64) -> Vec2 {
        Vec2 { x: fx_mul_spec(self.x, k), y: fx_mul_spec(self.y, k) }
    }

    /// The vector divided by the quantity `k`.
    pub open spec fn divided_spec(self, k: i64) -> Vec2 {
        Vec2 { x: fx_div_spec(self.x, k), y: fx_div_spec(self.y, k) }
    }

    /// The point halfway between two points.
    pub open spec fn midpoint_spec(self, other: Vec2) -> Vec2 {
        Vec2 { x: fx_mid_spec(self.x, other.x), y: fx_mid_spec(self.y, other.y) }
    }

    /// Euclidean length, rounded down to a whole raw unit.
    pub open spec fn length_spec(self) -> i64 {
        sat(isqrt(self.x * self.x + self.y * self.y)) as i64
    }

    /// Distance between two points.
    pub open spec fn distance_spec(self, other: Vec2) -> i64 {
        other.minus_spec(self).length_spec()
    }

    /// Cosine and sine of the angle of the ray from `self` to `other`: the
    /// displacement divided by its length, or zero where the points agree.
    pub open spec fn toward_spec(self, other: Vec2) -> Vec2 {
        other.minus_spec(self).divided_spec(self.distance_spec(other))
    }

    /// The point of a square lattice that lies `i` steps of length `pitch`
    /// to the right of `origin` and `j` steps below it.
    pub open spec fn lattice_spec(origin: Vec2, pitch: i64, i: int, j: int) -> Vec2 {
        Vec2 {
            x: fx_add_spec(mul_div_spec(i as i64, pitch, 1), origin.x),
            y: fx_add_spec(mul_div_spec(j as i64, pitch, 1), origin.y),
        }
    }

    pub fn zero() -> (r: Vec2)
        ensures
            r == Vec2::zero_spec(),
    {
        Vec2 { x: 0, y: 0 }
    }

    pub fn plus(self, other: Vec2) -> (r: Vec2)
        ensures
            r == self.plus_spec(other),
    {
        Vec2 { x: fx_add(self.x, other.x), y: fx_add(self.y, other.y) }
    }

    pub fn minus(self, other: Vec2) -> (r: Vec2)
        ensures
            r == self.minus_spec(other),
    {
        Vec2 { x: fx_sub(self.x, other.x), y: fx_sub(self.y, other.y) }
    }

    pub fn negated(self) -> (r: Vec2)
        ensures
            r == self.negated_spec(),
    {
        Vec2 { x: fx_neg(self.x), y: fx_neg(self.y) }
    }

    pub fn scaled(self, k: i64) -> (r: Vec2)
        ensures
            r == self.scaled_spec(k),
    {
        Vec2 { x: fx_mul(self.x, k), y: fx_mul(self.y, k) }
    }

    pub fn divided(self, k: i64) -> (r: Vec2)
        ensures
            r == self.divided_spec(k),
    {
        Vec2 { x: fx_div(self.x, k), y: fx_div(self.y, k) }
    }

    pub fn midpoint(self, other: Vec2) -> (r: Vec2)
        ensures
            r == self.midpoint_spec(other),
    {
        Vec2 { x: fx_mid(self.x, other.x), y: fx_mid(self.y, other.y) }
    }

    pub fn length(self) -> (r: i64)
        ensures
            r == self.length_spec(),
            r >= 0,
    {
        let ax: u128 = magnitude_of(self.x);
        let ay: u128 = magnitude_of(self.y);
        proof {
            let ix: int = self.x as int;
            let iy: int = self.y as int;
            assert(ax * ax == ix * ix && ax * ax <= 0x8000_0000_0000_0000 * 0x8000_0000_0000_0000)
                by (nonlinear_arith)
                requires
                    ax == ix || ax == -ix,
                    0 <= ax <= 0x8000_0000_0000_0000,
            ;
            assert(ay * ay == iy * iy && ay * ay <= 0x8000_0000_0000_0000 * 0x8000_0000_0000_0000)
                by (nonlinear_arith)
                requires
                    ay == iy || ay == -iy,
                    0 <= ay <= 0x8000_0000_0000_0000,
            ;
        }
        let root: u64 = int_sqrt(ax * ax + ay * ay);
        if root > 0x7fff_ffff_ffff_ffffu64 {
            LIMIT
        } else {
            root as i64
        }
    }

    pub fn distance(self, other: Vec2) -> (r: i64)
        ensures
            r == self.distance_spec(other),
            r >= 0,
    {
        other.minus(self).length()
    }

    pub fn lattice(origin: Vec2, pitch: i64, i: u32, j: u32) -> (r: Vec2)
        ensures
            r == Vec2::lattice_spec(origin, pitch, i as int, j as int),
    {
        Vec2 {
            x: fx_add(mul_div(i as i64, pitch, 1), origin.x),
            y: fx_add(mul_div(j as i64, pitch, 1), origin.y),
        }
    }

    pub fn toward(self, other: Vec2) -> (r: Vec2)
        ensures
            r == self.toward_spec(other),
    {
        let gap: Vec2 = other.minus(self);
        gap.divided(gap.length())
    }
}

fn magnitude_of(a: i64) -> (r: u128)
    ensures
        r == a || r == -a,
        0 <= r <= 0x8000_0000_0000_0000,
{
    if a >= 0 {
        a as u128
    } else {
        (-(a as i128)) as u128
    }
}

/// The length of a vector is the integer square root of the sum of the
/// squares of its components, unless that root is too large to store.
pub proof fn lemma_length_is_root(v: Vec2)
    ensures
        v.length_spec() >= 0,
        v.length_spec() < LIMIT ==> is_isqrt(v.x * v.x + v.y * v.y, v.length_spec() as int),
{
    let n: int = v.x * v.x + v.y * v.y;
    assert(n >= 0) by (nonlinear_arith)
        requires
            n == v.x * v.x + v.y * v.y,
    ;
    lemma_isqrt_exists(n);
}

/// The cell that is `j` places into row `i` of a table with rows of length
/// `h` has the running number `i * h + j`.
pub proof fn lemma_cell(i: int, j: int, h: int)
    requires
        0 <= j < h,
    ensures
        (i * h + j) / h == i,
        (i * h + j) % h == j,
{
    vstd::arithmetic::div_mod::lemma_fundamental_div_mod_converse(i * h + j, h, i, j);
}

} // verus!
