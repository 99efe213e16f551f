//! The force field sampled on a fixed grid of points.
use vstd::prelude::*;
use crate::fixed::SCALE;
use crate::force::{get_grav_force, get_grav_force_spec};
use crate::planet::{Body, Planet};
use crate::vector::{lemma_cell, Vec2};

verus! {

/// One sample point and the force found there.
#[derive(Clone, Copy, Debug, PartialEq, Eq, Structural)]
pub struct FieldNode {
    pub pos: Vec2,
    pub force: Vec2,
}

/// The sample points, column by column.
pub struct FieldVisual {
    pub nodes: Vec<FieldNode>,
}

/// Number of grid lines that fit into `extent` at distance `spacing`, the
/// line at zero included.
pub open spec fn grid_lines(spacing: u32, extent: u32) -> int {
    extent as int / spacing as int + 1
}

/// Distance between neighbouring sample points, as a quantity.
pub open spec fn field_pitch(spacing: u32) -> i64 {
    (spacing * SCALE) as i64
}

/// The sample point with running number `k` in a grid with `rows` points to
/// the column, before any force was sampled.
pub open spec fn blank_node(spacing: u32, rows: int, k: int) -> FieldNode {
    FieldNode {
        pos: Vec2::lattice_spec(Vec2::zero_spec(), field_pitch(spacing), k / rows, k % rows),
        force: Vec2::zero_spec(),
    }
}

/// Force that the body `b` exerts on a unit mass at `point`; zero where the
/// point lies inside the body.
pub open spec fn field_pull(point: Vec2, b: Body) -> Vec2 {
    get_grav_force_spec(point.distance_spec(b.pos), point.toward_spec(b.pos), SCALE, b.mass)
}

/// Whether `point` lies outside the body `b`.
pub open spec fn outside(point: Vec2, b: Body) -> bool {
    point.distance_spec(b.pos) > b.radius
}

/// Force on a unit mass at `point` from the first `k` of `bodies`, summed in
/// list order over those that do not enclose the point.
pub open spec fn field_at(point: Vec2, bodies: Seq<Body>, k: int) -> Vec2
    decreases k,
{
    if k <= 0 {
        Vec2::zero_spec()
    } else if outside(point, bodies[k - 1]) {
        field_at(point, bodies, k - 1).plus_spec(field_pull(point, bodies[k - 1]))
    } else {
        field_at(point, bodies, k - 1)
    }
}

/// The nodes with their forces sampled anew from `bodies`.
pub open spec fn sampled(nodes: Seq<FieldNode>, bodies: Seq<Body>) -> Seq<FieldNode> {
    Seq::new(
        nodes.len(),
        |k: int| FieldNode { pos: nodes[k].pos, force: field_at(nodes[k].pos, bodies, bodies.len() as int) },
    )
}

impl FieldVisual {
    /// A grid of sample points `spacing` apart that covers `width` by
    /// `height`, each with zero force.
    pub fn new(spacing: u32, width: u32, height: u32) -> (field: FieldVisual)
        requires
            spacing > 0,
        ensures
            field.nodes@.len() == grid_lines(spacing, width) * grid_lines(spacing, height),
            forall|k: int|
                0 <= k < field.nodes@.len() ==> #[trigger] field.nodes@[k] == blank_node(
                    spacing,
                    grid_lines(spacing, height),
                    k,
                ),
    {
        let cols: u32 = width / spacing;
        let rows: u32 = height / spacing;
        let pitch: i64 = spacing as i64 * SCALE;
        let ghost h: int = rows as int + 1;
        let mut nodes: Vec<FieldNode> = Vec::new();
        let mut i: u32 = 0;
        loop
            invariant_except_break
                i <= cols,
                nodes@.len() == i * h,
            invariant
                h == rows + 1,
                pitch == field_pitch(spacing),
                forall|k: int| 0 <= k < nodes@.len() ==> #[trigger] nodes@[k] == blank_node(spacing, h, k),
            ensures
                nodes@.len() == (cols + 1) * h,
            decreases cols - i,
        {
            let mut j: u32 = 0;
            loop
                invariant_except_break
                    j <= rows,
                    nodes@.len() == i * h + j,
                invariant
                    i <= cols,
                    h == rows + 1,
                    pitch == field_pitch(spacing),
                    forall|k: int|
                        0 <= k < nodes@.len() ==> #[trigger] nodes@[k] == blank_node(spacing, h, k),
                ensures
                    nodes@.len() == i * h + h,
                decreases rows - j,
            {
                proof {
                    lemma_cell(i as int, j as int, h);
                }
                nodes.push(
                    FieldNode {
                        pos: Vec2::lattice(Vec2::zero(), pitch, i, j),
                        force: Vec2::zero(),
                    },
                );
                if j == rows {
                    break ;
                }
                j += 1;
            }
            assert(i * h + h == (i + 1) * h) by (nonlinear_arith);
            if i == cols {
                break ;
            }
            i += 1;
        }
        FieldVisual { nodes }
    }

    /// Samples the field anew: every node gets the sum of the forces that
    /// the bodies not enclosing it exert on a unit mass there.
    pub fn sample(&mut self, planets: &Vec<Planet>)
        ensures
            final(self).nodes@ == sampled(old(self).nodes@, crate::simulation::bodies_of(planets@)),
    {
        let ghost bodies = crate::simulation::bodies_of(planets@);
        let ghost before = self.nodes@;
        let count: usize = self.nodes.len();
        let total: usize = planets.len();
        let mut k: usize = 0;
        while k < count
            invariant
                k <= count,
                count == self.nodes@.len(),
                count == before.len(),
                total == planets@.len(),
                bodies == crate::simulation::bodies_of(planets@),
                forall|m: int|
                    0 <= m < count ==> #[trigger] self.nodes@[m] == (if m < k {
                        sampled(before, bodies)[m]
                    } else {
                        before[m]
                    }),
            decreases count - k,
        {
            let point: Vec2 = self.nodes[k].pos;
            let mut force: Vec2 = Vec2::zero();
            let mut b: usize = 0;
            while b < total
                invariant
                    b <= total,
                    total == planets@.len(),
                    bodies == crate::simulation::bodies_of(planets@),
                    force == field_at(point, bodies, b as int),
                decreases total - b,
            {
                let dist: i64 = point.distance(planets[b].pos);
                if dist > planets[b].radius {
                    let heading: Vec2 = point.toward(planets[b].pos);
                    force = force.plus(get_grav_force(dist, heading, SCALE, planets[b].mass));
                }
                b += 1;
            }
            self.nodes[k].force = force;
            k += 1;
        }
        assert(self.nodes@ =~= sampled(before, bodies));
    }
}

} // verus!
