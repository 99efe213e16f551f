//! One tick of the simulation: the pass over all pairs, the merges, the
//! integration and the removal of absorbed bodies.
use vstd::prelude::*;
use crate::fixed::fx_add;
use crate::planet::{Body, Planet};
use crate::simulation::{
    bodies_of, can_merge, collides, first_is_big, merged, pull, App, Fate,
};
use crate::vector::Vec2;

verus! {

/// The field is sampled anew once more than this much simulated time has
/// passed since the last sampling: half a unit.
pub const FIELD_UPDATE_PERIOD: i64 = 500_000_000;

/// The state of the pass over the pairs: the bodies with the forces found so
/// far, and what was decided for each.
pub struct Scan {
    pub bodies: Seq<Body>,
    pub fates: Seq<Fate>,
}

/// The pass after it has looked at the pair of the bodies at `i` and `j`,
/// `i` before `j`.
///
/// A pair with a body that was absorbed earlier in the pass is left out. A
/// colliding pair merges if neither body took part in a merge before and not
/// both are stationary; a colliding pair exchanges no force. Any other pair
/// adds the attraction to the first body's force and the opposite to the
/// second's.
pub open spec fn pair_step(s: Scan, i: int, j: int) -> Scan {
    let a = s.bodies[i];
    let b = s.bodies[j];
    if s.fates[i] == Fate::Absorbed || s.fates[j] == Fate::Absorbed {
        s
    } else if collides(a, b) {
        if s.fates[i] != Fate::Free || s.fates[j] != Fate::Free || !can_merge(a, b) {
            s
        } else if first_is_big(a, b) {
            Scan {
                fates: s.fates.update(i, Fate::Absorbs(j as usize)).update(j, Fate::Absorbed),
                ..s
            }
        } else {
            Scan {
                fates: s.fates.update(j, Fate::Absorbs(i as usize)).update(i, Fate::Absorbed),
                ..s
            }
        }
    } else {
        Scan {
            bodies: s.bodies.update(i, a.with_force(a.res_force.plus_spec(pull(a, b)))).update(
                j,
                b.with_force(b.res_force.plus_spec(pull(a, b).negated_spec())),
            ),
            ..s
        }
    }
}

/// The pass after the pairs of the body at `i` with those at `i + 1` up to
/// `j - 1`, in that order.
pub open spec fn scan_row(s: Scan, i: int, j: int) -> Scan
    decreases j - i,
{
    if j <= i + 1 {
        s
    } else {
        pair_step(scan_row(s, i, j - 1), i, j - 1)
    }
}

/// The pass after all pairs whose first body is before `i`.
pub open spec fn scan_rows(s: Scan, i: int) -> Scan
    decreases i,
{
    if i <= 0 {
        s
    } else {
        scan_row(scan_rows(s, i - 1), i - 1, s.bodies.len() as int)
    }
}

/// The bodies with their accumulated forces set to zero.
pub open spec fn rested(bodies: Seq<Body>) -> Seq<Body> {
    Seq::new(bodies.len(), |k: int| bodies[k].with_force(Vec2::zero_spec()))
}

/// The pass at its start: no force, nothing decided.
pub open spec fn scan_start(bodies: Seq<Body>) -> Scan {
    Scan { bodies: rested(bodies), fates: Seq::new(bodies.len(), |k: int| Fate::Free) }
}

/// The finished pass over all pairs of `bodies`.
pub open spec fn scanned(bodies: Seq<Body>) -> Scan {
    scan_rows(scan_start(bodies), bodies.len() as int)
}

/// Every survivor of a merge names a partner that is another body of the
/// list and was absorbed.
pub open spec fn fates_ok(fates: Seq<Fate>) -> bool {
    forall|k: int| 0 <= k < fates.len() ==> partner_ok(fates, k, #[trigger] fates[k])
}

/// The fate `fate` of the body at `k`, if it is to survive a merge, names a
/// partner that is another body of the list and was absorbed.
pub open spec fn partner_ok(fates: Seq<Fate>, k: int, fate: Fate) -> bool {
    match fate {
        Fate::Absorbs(s) => s < fates.len() && s != k && fates[s as int] == Fate::Absorbed,
        _ => true,
    }
}

/// Every survivor of a merge outranks its partner, and the two are not both
/// stationary.
pub open spec fn plan_ranked(bodies: Seq<Body>, fates: Seq<Fate>) -> bool {
    forall|k: int| 0 <= k < fates.len() ==> outranks(bodies, k, #[trigger] fates[k])
}

/// The body at `k`, if `fate` says that it survives a merge, outranks its
/// partner.
pub open spec fn outranks(bodies: Seq<Body>, k: int, fate: Fate) -> bool {
    match fate {
        Fate::Absorbs(s) => first_is_big(bodies[k], bodies[s as int]) && can_merge(
            bodies[k],
            bodies[s as int],
        ),
        _ => true,
    }
}

/// The body at `k` after the merges and the integration that follow the
/// pass. An absorbed body stays as the pass left it.
pub open spec fn settled(s: Scan, k: int, dt: i64, time: i64, trails: bool) -> Body {
    match s.fates[k] {
        Fate::Absorbed => s.bodies[k],
        Fate::Absorbs(small) => merged(s.bodies[k], s.bodies[small as int]).advanced(
            dt,
            time,
            trails,
        ),
        Fate::Free => s.bodies[k].advanced(dt, time, trails),
    }
}

/// All bodies after the merges and the integration.
pub open spec fn settled_all(s: Scan, dt: i64, time: i64, trails: bool) -> Seq<Body> {
    Seq::new(s.bodies.len(), |k: int| settled(s, k, dt, time, trails))
}

/// The items from `k` on whose fate is not to be absorbed, in order.
pub open spec fn keep_from<T>(items: Seq<T>, fates: Seq<Fate>, k: int) -> Seq<T>
    decreases items.len() - k,
{
    if k < 0 || k >= items.len() {
        Seq::empty()
    } else if fates[k] == Fate::Absorbed {
        keep_from(items, fates, k + 1)
    } else {
        seq![items[k]] + keep_from(items, fates, k + 1)
    }
}

/// The bodies after one step of length `dt` that ends at clock `time`.
pub open spec fn stepped(bodies: Seq<Body>, dt: i64, time: i64, trails: bool) -> Seq<Body> {
    keep_from(settled_all(scanned(bodies), dt, time, trails), scanned(bodies).fates, 0)
}

/// Taking the models commutes with dropping the absorbed.
pub proof fn lemma_keep_from_models(planets: Seq<Planet>, fates: Seq<Fate>, k: int)
    ensures
        bodies_of(keep_from(planets, fates, k)) == keep_from(bodies_of(planets), fates, k),
    decreases planets.len() - k,
{
    if k < 0 || k >= planets.len() {
        assert(bodies_of(keep_from(planets, fates, k)) =~= keep_from(
            bodies_of(planets),
            fates,
            k,
        ));
    } else {
        lemma_keep_from_models(planets, fates, k + 1);
        assert(bodies_of(keep_from(planets, fates, k)) =~= keep_from(
            bodies_of(planets),
            fates,
            k,
        ));
    }
}

impl App {
    /// Sets every force to zero and makes the pass over all pairs: forces
    /// are summed into the bodies, and the returned list says which bodies
    /// merge.
    pub fn scan(&mut self) -> (fates: Vec<Fate>)
        requires
            old(self).wf(),
        ensures
            final(self).wf(),
            final(self).frame_eq(old(self)),
            final(self).pl_id_count == old(self).pl_id_count,
            final(self).bodies() == scanned(old(self).bodies()).bodies,
            fates@ == scanned(old(self).bodies()).fates,
            fates@.len() == old(self).planets@.len(),
            final(self).planets@.len() == old(self).planets@.len(),
            fates_ok(fates@),
            plan_ranked(final(self).bodies(), fates@),
    {
        let ghost prev: App = *self;
        let ghost before: Seq<Body> = self.bodies();
        let n: usize = self.planets.len();
        let mut fates: Vec<Fate> = Vec::new();
        let mut k: usize = 0;
        while k < n
            invariant
                k <= n,
                n == self.planets@.len(),
                n == before.len(),
                fates@.len() == k,
                self.wf(),
                self.frame_eq(&prev),
                self.pl_id_count == prev.pl_id_count,
                forall|m: int| 0 <= m < k ==> #[trigger] fates@[m] == Fate::Free,
                forall|m: int|
                    0 <= m < n ==> (#[trigger] self.planets@[m])@ == (if m < k {
                        before[m].with_force(Vec2::zero_spec())
                    } else {
                        before[m]
                    }),
            decreases n - k,
        {
            self.planets[k].res_force = Vec2::zero();
            fates.push(Fate::Free);
            k += 1;
        }
        let ghost start: Scan = scan_start(before);
        assert(self.bodies() =~= start.bodies);
        assert(fates@ =~= start.fates);
        let mut i: usize = 0;
        while i < n
            invariant
                i <= n,
                n == self.planets@.len(),
                n == fates@.len(),
                n == start.bodies.len(),
                self.wf(),
                self.frame_eq(&prev),
                self.pl_id_count == prev.pl_id_count,
                fates_ok(fates@),
                plan_ranked(before, fates@),
                n == before.len(),
                forall|m: int|
                    0 <= m < n ==> (#[trigger] self.planets@[m]).stationary == before[m].stationary
                        && self.planets@[m].radius == before[m].radius,
                self.bodies() == scan_rows(start, i as int).bodies,
                fates@ == scan_rows(start, i as int).fates,
            decreases n - i,
        {
            let ghost row: Scan = scan_rows(start, i as int);
            let mut j: usize = i + 1;
            while j < n
                invariant
                    i < j <= n,
                    n == self.planets@.len(),
                    n == fates@.len(),
                    self.wf(),
                    self.frame_eq(&prev),
                    self.pl_id_count == prev.pl_id_count,
                    fates_ok(fates@),
                    plan_ranked(before, fates@),
                    n == before.len(),
                    forall|m: int|
                        0 <= m < n ==> (#[trigger] self.planets@[m]).stationary
                            == before[m].stationary && self.planets@[m].radius
                            == before[m].radius,
                    self.bodies() == scan_row(row, i as int, j as int).bodies,
                    fates@ == scan_row(row, i as int, j as int).fates,
                decreases n - j,
            {
                let ghost cur: Scan = scan_row(row, i as int, j as int);
                let first: Fate = fates[i];
                let second: Fate = fates[j];
                if first != Fate::Absorbed && second != Fate::Absorbed {
                    if self.check_for_collision(&self.planets[i], &self.planets[j]) {
                        let both_fixed: bool = self.planets[i].stationary
                            && self.planets[j].stationary;
                        if first == Fate::Free && second == Fate::Free && !both_fixed {
                            let first_wins: bool = if self.planets[i].stationary
                                != self.planets[j].stationary {
                                self.planets[i].stationary
                            } else {
                                self.planets[i].radius >= self.planets[j].radius
                            };
                            if first_wins {
                                fates[i] = Fate::Absorbs(j);
                                fates[j] = Fate::Absorbed;
                            } else {
                                fates[j] = Fate::Absorbs(i);
                                fates[i] = Fate::Absorbed;
                            }
                        }
                    } else {
                        let forces: (Vec2, Vec2) = self.get_grav_force_between_two_planets(
                            &self.planets[i],
                            &self.planets[j],
                        );
                        self.planets[i].res_force = self.planets[i].res_force.plus(forces.0);
                        self.planets[j].res_force = self.planets[j].res_force.plus(forces.1);
                    }
                }
                proof {
                    let next: Scan = pair_step(cur, i as int, j as int);
                    assert(self.bodies() =~= next.bodies);
                    assert(fates@ =~= next.fates);
                }
                j += 1;
            }
            i += 1;
        }
        proof {
            assert forall|k: int| 0 <= k < fates@.len() implies outranks(
                self.bodies(),
                k,
                #[trigger] fates@[k],
            ) by {
                assert(outranks(before, k, fates@[k]));
                assert(partner_ok(fates@, k, fates@[k]));
                match fates@[k] {
                    Fate::Absorbs(s) => {
                        assert(self.planets@[k].stationary == before[k].stationary);
                        assert(self.planets@[s as int].stationary == before[s as int].stationary);
                    },
                    _ => {},
                }
            }
        }
        fates
    }

    /// Carries out the merges that the pass decided and integrates every
    /// body that stays over `dt`.
    pub fn settle(&mut self, fates: &Vec<Fate>, dt: i64)
        requires
            old(self).wf(),
            fates@.len() == old(self).planets@.len(),
            fates_ok(fates@),
            plan_ranked(old(self).bodies(), fates@),
        ensures
            final(self).wf(),
            final(self).frame_eq(old(self)),
            final(self).pl_id_count == old(self).pl_id_count,
            final(self).planets@.len() == old(self).planets@.len(),
            final(self).bodies() == settled_all(
                Scan { bodies: old(self).bodies(), fates: fates@ },
                dt,
                old(self).unpaused_time,
                old(self).trails_enabled,
            ),
    {
        let ghost prev: App = *self;
        let ghost s: Scan = Scan { bodies: self.bodies(), fates: fates@ };
        let n: usize = self.planets.len();
        let time: i64 = self.unpaused_time;
        let trails: bool = self.trails_enabled;
        let mut k: usize = 0;
        while k < n
            invariant
                k <= n,
                n == self.planets@.len(),
                n == fates@.len(),
                n == s.bodies.len(),
                s.fates == fates@,
                fates_ok(fates@),
                plan_ranked(s.bodies, fates@),
                time == prev.unpaused_time,
                trails == prev.trails_enabled,
                self.wf(),
                self.frame_eq(&prev),
                self.pl_id_count == prev.pl_id_count,
                forall|m: int|
                    0 <= m < n ==> (#[trigger] self.planets@[m])@ == (if m < k {
                        settled(s, m, dt, time, trails)
                    } else {
                        s.bodies[m]
                    }),
            decreases n - k,
        {
            match fates[k] {
                Fate::Absorbs(small) => {
                    assert(partner_ok(fates@, k as int, fates@[k as int]));
                    assert(outranks(s.bodies, k as int, fates@[k as int]));
                    assert(self.planets@[small as int]@ == s.bodies[small as int]);
                    assert(self.planets@[k as int]@ == s.bodies[k as int]);
                    let ghost mid: Seq<Body> = self.bodies();
                    self.collide(k, small);
                    assert forall|m: int| 0 <= m < n && m != k implies (
                    #[trigger] self.planets@[m])@ == mid[m] by {
                        assert(self.bodies()[m] == mid[m]);
                    }
                    assert(self.planets@[k as int]@ == self.bodies()[k as int]);
                    self.planets[k].update(dt, time, trails);
                },
                Fate::Free => {
                    self.planets[k].update(dt, time, trails);
                },
                Fate::Absorbed => {},
            }
            k += 1;
        }
        assert(self.bodies() =~= settled_all(s, dt, time, trails));
    }

    /// Removes the bodies that were absorbed; the others keep their order.
    pub fn kill_dead_planets(&mut self, fates: &Vec<Fate>)
        requires
            old(self).wf(),
            fates@.len() == old(self).planets@.len(),
        ensures
            final(self).wf(),
            final(self).frame_eq(old(self)),
            final(self).pl_id_count == old(self).pl_id_count,
            final(self).planets@ == keep_from(old(self).planets@, fates@, 0),
            final(self).bodies() == keep_from(old(self).bodies(), fates@, 0),
    {
        let ghost prev: App = *self;
        let ghost orig: Seq<Planet> = self.planets@;
        let n: usize = self.planets.len();
        let mut k: usize = n;
        assert(self.planets@ =~= orig.subrange(0, k as int) + keep_from(orig, fates@, k as int));
        while k > 0
            invariant
                k <= n,
                n == orig.len(),
                n == fates@.len(),
                self.wf(),
                self.frame_eq(&prev),
                self.pl_id_count == prev.pl_id_count,
                self.planets@ == orig.subrange(0, k as int) + keep_from(orig, fates@, k as int),
            decreases k,
        {
            k -= 1;
            let ghost cur: Seq<Planet> = self.planets@;
            let ghost tail: Seq<Planet> = keep_from(orig, fates@, k + 1);
            if fates[k] == Fate::Absorbed {
                self.planets.remove(k);
                assert(self.planets@ =~= orig.subrange(0, k as int) + tail);
                assert forall|m: int| 0 <= m < self.planets@.len() implies (
                #[trigger] self.planets@[m])@.wf() && !self.planets@[m].is_prediction by {
                    if m < k {
                        assert(self.planets@[m] == cur[m]);
                    } else {
                        assert(self.planets@[m] == cur[m + 1]);
                    }
                }
            } else {
                assert(self.planets@ =~= orig.subrange(0, k as int) + (seq![orig[k as int]]
                    + tail));
            }
        }
        proof {
            assert(self.planets@ =~= keep_from(orig, fates@, 0));
            lemma_keep_from_models(orig, fates@, 0);
        }
    }

    /// Whether a tick of length `dt` would sample the field anew.
    pub fn field_due(&self, dt: i64) -> (due: bool)
        ensures
            due == self@.resamples(dt),
    {
        !self.paused && self.show_field && fx_add(self.field_v_update_timer, dt)
            > FIELD_UPDATE_PERIOD
    }

    /// Advances the simulation by `dt`, unless it is paused.
    ///
    /// While running, the clock and the field timer go up by `dt`, and the
    /// bodies go through one step: forces from all pairs, merges of
    /// colliding pairs, integration, removal of the absorbed. If the field is
    /// shown and more than the update period has passed since it was last
    /// sampled, it is sampled from the new bodies and its timer starts again.
    pub fn update(&mut self, dt: i64)
        requires
            old(self).wf(),
        ensures
            final(self).wf(),
            final(self)@ == old(self)@.updated(dt),
            old(self).paused ==> *final(self) == *old(self),
    {
        if !self.paused {
            let due: bool = self.field_due(dt);
            self.unpaused_time = fx_add(self.unpaused_time, dt);
            self.field_v_update_timer = fx_add(self.field_v_update_timer, dt);
            let fates: Vec<Fate> = self.scan();
            self.settle(&fates, dt);
            self.kill_dead_planets(&fates);
            if due {
                self.update_field_vis();
                self.field_v_update_timer = 0;
            }
        }
    }
}

} // verus!
