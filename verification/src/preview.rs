//! The preview body: a forecast of the path that a launched body would take.
use vstd::prelude::*;
use crate::planet::Body;
use crate::simulation::{collides, pull, App};
use crate::vector::Vec2;

verus! {

/// Whether the preview body touches or overlaps one of the first `k` bodies.
pub open spec fn hits_any(preview: Body, bodies: Seq<Body>, k: int) -> bool {
    exists|m: int| 0 <= m < k && collides(preview, #[trigger] bodies[m])
}

/// Force on the preview body from the first `k` bodies, summed in list order.
pub open spec fn preview_force(preview: Body, bodies: Seq<Body>, k: int) -> Vec2
    decreases k,
{
    if k <= 0 {
        Vec2::zero_spec()
    } else {
        preview_force(preview, bodies, k - 1).plus_spec(pull(preview, bodies[k - 1]))
    }
}

impl App {
    /// Moves the preview body ahead by `dt` under the pull of the live
    /// bodies, and records the new position in its trail.
    ///
    /// Once the preview has run into a live body it stays where it is: the
    /// call that finds the overlap sets the latch and moves nothing, and
    /// later calls do nothing until the preview is reset. The live bodies
    /// are never changed.
    pub fn update_prediction(&mut self, dt: i64)
        requires
            old(self).wf(),
        ensures
            final(self).wf(),
            final(self)@ == old(self)@.preview_advanced(dt),
            final(self).planets == old(self).planets,
            final(self).field_v == old(self).field_v,
            old(self).prediction.colliding ==> final(self).prediction == old(self).prediction,
    {
        if self.prediction.colliding {
            return ;
        }
        let ghost preview: Body = self.prediction.body@;
        let ghost bodies: Seq<Body> = self.bodies();
        let n: usize = self.planets.len();
        let mut force: Vec2 = Vec2::zero();
        let mut hit: bool = false;
        let mut k: usize = 0;
        while k < n && !hit
            invariant
                k <= n,
                n == self.planets@.len(),
                bodies == self.bodies(),
                preview == self.prediction.body@,
                hit ==> hits_any(preview, bodies, n as int),
                !hit ==> !hits_any(preview, bodies, k as int),
                !hit ==> force == preview_force(preview, bodies, k as int),
            decreases n - k, if hit { 0int } else { 1int },
        {
            if self.check_for_collision(&self.prediction.body, &self.planets[k]) {
                hit = true;
                assert(collides(preview, bodies[k as int]));
            } else {
                let forces: (Vec2, Vec2) = self.get_grav_force_between_two_planets(
                    &self.prediction.body,
                    &self.planets[k],
                );
                force = force.plus(forces.0);
                assert(bodies[k as int] == self.planets@[k as int]@);
                k += 1;
            }
        }
        if hit {
            self.prediction.colliding = true;
        } else {
            self.prediction.body.res_force = force;
            self.prediction.body.update(dt, 0, true);
        }
    }
}

} // verus!
