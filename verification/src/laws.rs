//! Laws that the engine obeys, stated over its models and proved.
use vstd::prelude::*;
use crate::fixed::{
    abs, fx_add_spec, fx_div_spec, fx_mul_spec, is_icbrt, is_isqrt, lemma_fx_cbrt_is_root,
    lemma_mul_div_at_least, lemma_mul_div_commutes, lemma_mul_div_monotone, lemma_mul_div_neg,
    lemma_mul_div_shrinks,
    lemma_weighted_mean_bound, mul_div_spec, tquot, LIMIT, PI, SCALE,
};
use crate::force::{grav_equ_spec, G};
use crate::model::AppModel;
use crate::planet::{radius_of_volume, volume_of_mass, Body};
use crate::simulation::{
    absorbed_of, can_merge, collided, collides, considerable_difference, first_is_big, merged,
    pull, survivor_of, Fate,
};
use crate::step::{
    fates_ok, keep_from, pair_step, scan_row, scan_rows, scan_start, scanned, settled,
    settled_all, stepped, Scan,
};
use crate::vector::{lemma_length_is_root, Vec2};

verus! {

/// Momentum of a body along the first axis, as an exact integer.
pub open spec fn momentum_x(b: Body) -> int {
    b.mass * b.vel.x
}

/// Momentum of a body along the second axis, as an exact integer.
pub open spec fn momentum_y(b: Body) -> int {
    b.mass * b.vel.y
}

/// A merge adds up the masses and keeps the momentum: along each axis the
/// momentum of the merged body misses the sum of the two momenta by less
/// than the merged mass times the smallest step of velocity.
///
/// This holds where the surviving body is free to move, the sum of the
/// masses can be stored, and neither velocity lies below the symmetric range.
pub proof fn law_merge_conserves_momentum(big: Body, small: Body)
    requires
        big.wf(),
        small.wf(),
        !big.stationary,
        big.mass + small.mass <= LIMIT,
        -LIMIT <= big.vel.x,
        -LIMIT <= big.vel.y,
        -LIMIT <= small.vel.x,
        -LIMIT <= small.vel.y,
    ensures
        merged(big, small).mass == big.mass + small.mass,
        abs(momentum_x(merged(big, small)) - (momentum_x(big) + momentum_x(small))) < merged(
            big,
            small,
        ).mass,
        abs(momentum_y(merged(big, small)) - (momentum_y(big) + momentum_y(small))) < merged(
            big,
            small,
        ).mass,
{
    lemma_weighted_mean_bound(big.mass, big.vel.x, small.mass, small.vel.x);
    lemma_weighted_mean_bound(big.mass, big.vel.y, small.mass, small.vel.y);
}

/// The quantity whose cube root is the radius of a ball of volume `v`:
/// `(3/4) * v / PI`.
pub open spec fn radius_cubed_of_volume(v: i64) -> i64 {
    fx_div_spec(mul_div_spec(v, 3, 4), PI)
}

/// After a merge the radius is the one that belongs to the volume of the
/// merged mass: the largest radius whose cube does not exceed three quarters
/// of the volume over `PI`.
pub proof fn law_merge_radius_fits_mass(big: Body, small: Body)
    ensures
        merged(big, small).radius == radius_of_volume(volume_of_mass(merged(big, small).mass)),
        radius_cubed_of_volume(volume_of_mass(merged(big, small).mass)) > 0 ==> is_icbrt(
            radius_cubed_of_volume(volume_of_mass(merged(big, small).mass)) * SCALE * SCALE,
            merged(big, small).radius as int,
        ),
        radius_cubed_of_volume(volume_of_mass(merged(big, small).mass)) <= 0 ==> merged(
            big,
            small,
        ).radius == 0,
{
    let c: i64 = radius_cubed_of_volume(volume_of_mass(merged(big, small).mass));
    if c > 0 {
        lemma_fx_cbrt_is_root(c);
    }
}

/// Action and reaction are opposite: where the pass looks at a pair that
/// does not collide, the force that it adds to the second body is the exact
/// negative of the force that it adds to the first.
pub proof fn law_forces_are_opposite(s: Scan, i: int, j: int)
    requires
        0 <= i < j < s.bodies.len(),
        s.fates.len() == s.bodies.len(),
        s.fates[i] != Fate::Absorbed,
        s.fates[j] != Fate::Absorbed,
        !collides(s.bodies[i], s.bodies[j]),
    ensures
        pair_step(s, i, j).bodies[i].res_force == s.bodies[i].res_force.plus_spec(
            pull(s.bodies[i], s.bodies[j]),
        ),
        pair_step(s, i, j).bodies[j].res_force == s.bodies[j].res_force.plus_spec(
            pull(s.bodies[i], s.bodies[j]).negated_spec(),
        ),
        pull(s.bodies[i], s.bodies[j]).x + pull(s.bodies[i], s.bodies[j]).negated_spec().x == 0,
        pull(s.bodies[i], s.bodies[j]).y + pull(s.bodies[i], s.bodies[j]).negated_spec().y == 0,
{
}

/// Two bodies that differ at most in their accumulated force.
pub open spec fn same_but_force(a: Body, b: Body) -> bool {
    a.with_force(Vec2::zero_spec()) == b.with_force(Vec2::zero_spec())
}

/// No two survivors absorbed the same body.
pub open spec fn one_absorber(fates: Seq<Fate>) -> bool {
    forall|a: int, b: int|
        0 <= a < fates.len() && 0 <= b < fates.len() && #[trigger] fates[a] != Fate::Free
            && fates[a] != Fate::Absorbed && fates[a] == #[trigger] fates[b] ==> a == b
}

/// Every absorbed body was absorbed by a survivor that names it.
pub open spec fn absorbed_has_absorber(fates: Seq<Fate>) -> bool {
    forall|k: int|
        0 <= k < fates.len() && #[trigger] fates[k] == Fate::Absorbed ==> exists|a: int|
            0 <= a < fates.len() && #[trigger] fates[a] == Fate::Absorbs(k as usize)
}

/// The merges that a pass decided pair the bodies off: a survivor absorbed
/// exactly one other body, and an absorbed body has exactly one survivor.
pub open spec fn is_matching(fates: Seq<Fate>) -> bool {
    fates_ok(fates) && one_absorber(fates) && absorbed_has_absorber(fates)
}

/// What holds of a pass at every point on its way from `start`.
pub open spec fn scan_inv(start: Scan, s: Scan) -> bool {
    &&& s.bodies.len() == start.bodies.len()
    &&& s.fates.len() == start.bodies.len()
    &&& s.bodies.len() <= usize::MAX
    &&& forall|k: int|
        0 <= k < s.bodies.len() ==> same_but_force(#[trigger] s.bodies[k], start.bodies[k])
    &&& forall|k: int|
        0 <= k < s.bodies.len() && start.bodies[k].stationary ==> #[trigger] s.fates[k]
            != Fate::Absorbed
    &&& is_matching(s.fates)
}

proof fn lemma_pair_step_inv(start: Scan, s: Scan, i: int, j: int)
    requires
        scan_inv(start, s),
        0 <= i < j < s.bodies.len(),
    ensures
        scan_inv(start, pair_step(s, i, j)),
{
    let t: Scan = pair_step(s, i, j);
    let a: Body = s.bodies[i];
    let b: Body = s.bodies[j];
    assert(same_but_force(a, start.bodies[i]));
    assert(same_but_force(b, start.bodies[j]));
    if t.fates != s.fates {
        assert(s.fates[i] == Fate::Free && s.fates[j] == Fate::Free);
        let big: int = if t.fates[i] == Fate::Absorbed {
            j
        } else {
            i
        };
        let small: int = i + j - big;
        assert(t.fates[big] == Fate::Absorbs(small as usize));
        assert(t.fates[small] == Fate::Absorbed);
        assert forall|k: int| 0 <= k < t.fates.len() implies crate::step::partner_ok(
            t.fates,
            k,
            #[trigger] t.fates[k],
        ) by {
            if k != i && k != j {
                assert(crate::step::partner_ok(s.fates, k, s.fates[k]));
            }
        }
        assert forall|x: int, y: int|
            0 <= x < t.fates.len() && 0 <= y < t.fates.len() && #[trigger] t.fates[x]
                != Fate::Free && t.fates[x] != Fate::Absorbed && t.fates[x]
                == #[trigger] t.fates[y] implies x == y by {
            if x != y {
                if x == big || y == big {
                    let other: int = if x == big {
                        y
                    } else {
                        x
                    };
                    assert(other != small);
                    assert(s.fates[other] == Fate::Absorbs(small as usize));
                    assert(crate::step::partner_ok(s.fates, other, s.fates[other]));
                } else {
                    assert(s.fates[x] == s.fates[y]);
                }
            }
        }
        assert forall|k: int|
            0 <= k < t.fates.len() && #[trigger] t.fates[k] == Fate::Absorbed implies exists|
            x: int,
        |
            0 <= x < t.fates.len() && #[trigger] t.fates[x] == Fate::Absorbs(k as usize) by {
            if k == small {
                assert(t.fates[big] == Fate::Absorbs(k as usize));
            } else {
                assert(s.fates[k] == Fate::Absorbed);
                let x: int = choose|x: int|
                    0 <= x < s.fates.len() && #[trigger] s.fates[x] == Fate::Absorbs(k as usize);
                assert(x != i && x != j);
                assert(t.fates[x] == Fate::Absorbs(k as usize));
            }
        }
    } else {
        assert forall|k: int| 0 <= k < t.bodies.len() implies same_but_force(
            #[trigger] t.bodies[k],
            start.bodies[k],
        ) by {
            assert(same_but_force(s.bodies[k], start.bodies[k]));
        }
    }
}

proof fn lemma_scan_row_inv(start: Scan, s: Scan, i: int, j: int)
    requires
        scan_inv(start, s),
        0 <= i,
        j <= s.bodies.len(),
    ensures
        scan_inv(start, scan_row(s, i, j)),
    decreases j - i,
{
    if j > i + 1 {
        lemma_scan_row_inv(start, s, i, j - 1);
        lemma_pair_step_inv(start, scan_row(s, i, j - 1), i, j - 1);
    }
}

proof fn lemma_scan_rows_inv(start: Scan, i: int)
    requires
        scan_inv(start, start),
        i <= start.bodies.len(),
    ensures
        scan_inv(start, scan_rows(start, i)),
    decreases i,
{
    if i > 0 {
        lemma_scan_rows_inv(start, i - 1);
        lemma_scan_row_inv(start, scan_rows(start, i - 1), i - 1, start.bodies.len() as int);
    }
}

/// The finished pass keeps every body but for its force, absorbs no
/// stationary body, and pairs the bodies off.
pub proof fn lemma_scanned_inv(bodies: Seq<Body>)
    requires
        bodies.len() <= usize::MAX,
    ensures
        scan_inv(scan_start(bodies), scanned(bodies)),
        scanned(bodies).bodies.len() == bodies.len(),
        scanned(bodies).fates.len() == bodies.len(),
{
    let start: Scan = scan_start(bodies);
    assert(scan_inv(start, start));
    lemma_scan_rows_inv(start, bodies.len() as int);
}

/// In one step every body takes part in at most one merge: a survivor
/// absorbed exactly one body, which leaves, and a body that leaves was
/// absorbed by exactly one survivor.
pub proof fn law_one_merge_per_body(bodies: Seq<Body>)
    requires
        bodies.len() <= usize::MAX,
    ensures
        is_matching(scanned(bodies).fates),
{
    lemma_scanned_inv(bodies);
}

/// An item that is not absorbed is among those kept.
pub proof fn lemma_keep_from_has<T>(items: Seq<T>, fates: Seq<Fate>, from: int, k: int)
    requires
        0 <= from <= k < items.len(),
        fates[k] != Fate::Absorbed,
    ensures
        keep_from(items, fates, from).contains(items[k]),
    decreases k - from,
{
    let rest: Seq<T> = keep_from(items, fates, from + 1);
    if from == k {
        assert((seq![items[k]] + rest)[0] == items[k]);
    } else {
        lemma_keep_from_has(items, fates, from + 1, k);
        let m: int = choose|m: int| 0 <= m < rest.len() && rest[m] == items[k];
        if fates[from] != Fate::Absorbed {
            assert((seq![items[from]] + rest)[m + 1] == items[k]);
        }
    }
}

/// A stationary body stays through a step: it is never absorbed, it is
/// still in the list afterwards, and its position and velocity are the
/// same, whatever force was found for it.
pub proof fn law_stationary_stays(bodies: Seq<Body>, k: int, dt: i64, time: i64, trails: bool)
    requires
        bodies.len() <= usize::MAX,
        0 <= k < bodies.len(),
        bodies[k].stationary,
    ensures
        scanned(bodies).fates[k] != Fate::Absorbed,
        settled(scanned(bodies), k, dt, time, trails).pos == bodies[k].pos,
        settled(scanned(bodies), k, dt, time, trails).vel == bodies[k].vel,
        settled(scanned(bodies), k, dt, time, trails).stationary,
        settled(scanned(bodies), k, dt, time, trails).id == bodies[k].id,
        stepped(bodies, dt, time, trails).contains(
            settled(scanned(bodies), k, dt, time, trails),
        ),
{
    lemma_scanned_inv(bodies);
    let s: Scan = scanned(bodies);
    assert(same_but_force(s.bodies[k], scan_start(bodies).bodies[k]));
    assert(scan_start(bodies).bodies[k].stationary);
    assert(s.fates[k] != Fate::Absorbed);
    lemma_keep_from_has(settled_all(s, dt, time, trails), s.fates, 0, k);
}

/// Whether a body is stationary has no bearing on the force that it exerts.
pub proof fn law_stationary_still_pulls(a: Body, b: Body, fixed: bool)
    ensures
        pull(a, Body { stationary: fixed, ..b }) == pull(a, b),
{
}

/// Of three bodies that all overlap one another, the first two merge and
/// the third is left alone: it takes part in no merge and feels no force.
/// The first two must not both be stationary, since two such never merge.
pub proof fn law_first_pair_wins(bodies: Seq<Body>, dt: i64, time: i64, trails: bool)
    requires
        bodies.len() == 3,
        collides(bodies[0], bodies[1]),
        collides(bodies[0], bodies[2]),
        collides(bodies[1], bodies[2]),
        can_merge(bodies[0], bodies[1]),
    ensures
        scanned(bodies).fates[2] == Fate::Free,
        scanned(bodies).bodies[2] == bodies[2].with_force(Vec2::zero_spec()),
        first_is_big(bodies[0], bodies[1]) ==> scanned(bodies).fates[0] == Fate::Absorbs(1)
            && scanned(bodies).fates[1] == Fate::Absorbed,
        !first_is_big(bodies[0], bodies[1]) ==> scanned(bodies).fates[0] == Fate::Absorbed
            && scanned(bodies).fates[1] == Fate::Absorbs(0),
        stepped(bodies, dt, time, trails).len() == 2,
        stepped(bodies, dt, time, trails)[1] == bodies[2].with_force(Vec2::zero_spec()).advanced(
            dt,
            time,
            trails,
        ),
{
    let start: Scan = scan_start(bodies);
    let s1: Scan = pair_step(start, 0, 1);
    let s2: Scan = pair_step(s1, 0, 2);
    let s3: Scan = pair_step(s2, 1, 2);
    assert(same_but_force(start.bodies[0], bodies[0]));
    assert(same_but_force(start.bodies[1], bodies[1]));
    assert(same_but_force(start.bodies[2], bodies[2]));
    assert(s2 == s1);
    assert(s3 == s1);
    reveal_with_fuel(scan_row, 4);
    reveal_with_fuel(scan_rows, 4);
    assert(scan_row(start, 0, 3) == s2);
    assert(scan_rows(start, 1) == s2);
    assert(scan_row(s2, 1, 3) == s3);
    assert(scan_rows(start, 2) == s3);
    assert(scan_row(s3, 2, 3) == s3);
    assert(scanned(bodies) == s3);
    let all: Seq<Body> = settled_all(s3, dt, time, trails);
    reveal_with_fuel(keep_from, 5);
    assert(keep_from(all, s3.fates, 3) =~= Seq::<Body>::empty());
    assert(keep_from(all, s3.fates, 2) =~= seq![all[2]]);
    if first_is_big(bodies[0], bodies[1]) {
        assert(keep_from(all, s3.fates, 0) =~= seq![all[0], all[2]]);
    } else {
        assert(keep_from(all, s3.fates, 0) =~= seq![all[1], all[2]]);
    }
}

/// Dropping the absorbed leaves no more items than there were.
pub proof fn lemma_keep_from_len<T>(items: Seq<T>, fates: Seq<Fate>, from: int)
    requires
        0 <= from <= items.len(),
    ensures
        keep_from(items, fates, from).len() <= items.len() - from,
    decreases items.len() - from,
{
    if from < items.len() {
        lemma_keep_from_len(items, fates, from + 1);
    }
}

/// The bodies after `n` steps of length `dt` each, with the clock at `time`
/// before the first.
pub open spec fn stepped_times(
    bodies: Seq<Body>,
    dt: i64,
    time: i64,
    trails: bool,
    n: nat,
) -> Seq<Body>
    decreases n,
{
    if n == 0 {
        bodies
    } else {
        stepped_times(
            stepped(bodies, dt, fx_add_spec(time, dt), trails),
            dt,
            fx_add_spec(time, dt),
            trails,
            (n - 1) as nat,
        )
    }
}

/// The body `b` is the stationary body `first`, where it was and as fast as
/// it was.
pub open spec fn holds_still(b: Body, first: Body) -> bool {
    b.stationary && b.id == first.id && b.pos == first.pos && b.vel == first.vel
}

/// A stationary body is still there after any number of steps, with the
/// position and the velocity that it had.
pub proof fn law_stationary_never_moves(
    bodies: Seq<Body>,
    k: int,
    dt: i64,
    time: i64,
    trails: bool,
    n: nat,
)
    requires
        bodies.len() <= usize::MAX,
        0 <= k < bodies.len(),
        bodies[k].stationary,
    ensures
        exists|m: int|
            0 <= m < stepped_times(bodies, dt, time, trails, n).len() && holds_still(
                #[trigger] stepped_times(bodies, dt, time, trails, n)[m],
                bodies[k],
            ),
    decreases n,
{
    if n == 0 {
        assert(holds_still(stepped_times(bodies, dt, time, trails, n)[k], bodies[k]));
    } else {
        let clock: i64 = fx_add_spec(time, dt);
        let next: Seq<Body> = stepped(bodies, dt, clock, trails);
        let s: Scan = scanned(bodies);
        law_stationary_stays(bodies, k, dt, clock, trails);
        lemma_scanned_inv(bodies);
        lemma_keep_from_len(settled_all(s, dt, clock, trails), s.fates, 0);
        let kept: Body = settled(s, k, dt, clock, trails);
        let m1: int = choose|m1: int| 0 <= m1 < next.len() && next[m1] == kept;
        law_stationary_never_moves(next, m1, dt, clock, trails, (n - 1) as nat);
        let last: Seq<Body> = stepped_times(next, dt, clock, trails, (n - 1) as nat);
        let m: int = choose|m: int| 0 <= m < last.len() && holds_still(#[trigger] last[m], next[m1]);
        assert(holds_still(stepped_times(bodies, dt, time, trails, n)[m], bodies[k]));
    }
}

/// A tick of a paused simulation changes nothing, however long it is.
pub proof fn law_paused_tick_changes_nothing(m: AppModel, dt: i64)
    requires
        m.paused,
    ensures
        m.updated(dt) == m,
{
}

/// The magnitude of the attraction does not depend on the order of the
/// masses.
pub proof fn law_magnitude_symmetric(m1: i64, m2: i64, distance: i64)
    ensures
        grav_equ_spec(m1, m2, distance) == grav_equ_spec(m2, m1, distance),
{
    lemma_mul_div_commutes(m1, m2, fx_mul_spec(distance, distance));
}

/// Masses that are not negative attract with a magnitude that is not
/// negative, and a body without mass attracts nothing.
pub proof fn law_magnitude_not_negative(m1: i64, m2: i64, distance: i64)
    requires
        m1 >= 0,
        m2 >= 0,
    ensures
        grav_equ_spec(m1, m2, distance) >= 0,
        m1 == 0 || m2 == 0 ==> grav_equ_spec(m1, m2, distance) == 0,
{
    let d: int = distance as int;
    assert(d * d >= 0) by (nonlinear_arith);
    let square: i64 = fx_mul_spec(distance, distance);
    assert(square >= 0) by {
        assert((d * d) / (SCALE as int) >= 0) by (nonlinear_arith)
            requires
                d * d >= 0,
                SCALE > 0,
        ;
    }
    let ratio: i64 = mul_div_spec(m2, m1, square);
    if square > 0 {
        lemma_mul_div_at_least(m2, m1, square, 0, 0, 0);
        if m1 == 0 || m2 == 0 {
            assert(m2 as int * m1 as int == 0) by (nonlinear_arith)
                requires
                    m1 == 0 || m2 == 0,
            ;
        }
    }
    lemma_mul_div_at_least(G, ratio, SCALE, 0, 0, 0);
    if ratio == 0 {
        assert(G as int * ratio as int == 0) by (nonlinear_arith)
            requires
                ratio == 0,
        ;
    }
}

/// More mass attracts no less: with masses that are not negative, the
/// magnitude does not fall where one of the masses grows.
pub proof fn law_magnitude_grows_with_mass(m1: i64, m2: i64, more: i64, distance: i64)
    requires
        0 <= m1,
        0 <= m2 <= more,
    ensures
        grav_equ_spec(m1, m2, distance) <= grav_equ_spec(m1, more, distance),
        grav_equ_spec(m2, m1, distance) <= grav_equ_spec(more, m1, distance),
{
    let square: i64 = fx_mul_spec(distance, distance);
    law_magnitude_symmetric(m1, m2, distance);
    law_magnitude_symmetric(m1, more, distance);
    if square > 0 {
        lemma_mul_div_monotone(m2, more, m1, square, square);
        lemma_mul_div_commutes(mul_div_spec(m2, m1, square), G, SCALE);
        lemma_mul_div_commutes(mul_div_spec(more, m1, square), G, SCALE);
        lemma_mul_div_monotone(
            mul_div_spec(m2, m1, square),
            mul_div_spec(more, m1, square),
            G,
            SCALE,
            SCALE,
        );
    } else {
        law_magnitude_not_negative(m1, m2, distance);
        law_magnitude_not_negative(m1, more, distance);
        let d: int = distance as int;
        assert(d * d >= 0) by (nonlinear_arith);
        assert((d * d) / (SCALE as int) >= 0) by (nonlinear_arith)
            requires
                d * d >= 0,
                SCALE > 0,
        ;
    }
}

/// Further away attracts no more: with masses that are not negative, the
/// magnitude does not grow with the distance, as long as the square of the
/// nearer distance does not round to zero.
pub proof fn law_magnitude_falls_with_distance(m1: i64, m2: i64, distance: i64, further: i64)
    requires
        0 <= m1,
        0 <= m2,
        0 <= distance <= further,
        fx_mul_spec(distance, distance) > 0,
    ensures
        grav_equ_spec(m1, m2, further) <= grav_equ_spec(m1, m2, distance),
{
    lemma_mul_div_monotone(distance, further, distance, SCALE, SCALE);
    lemma_mul_div_commutes(further, distance, SCALE);
    lemma_mul_div_monotone(distance, further, further, SCALE, SCALE);
    let near: i64 = fx_mul_spec(distance, distance);
    let far: i64 = fx_mul_spec(further, further);
    assert(near <= far);
    lemma_mul_div_monotone(m2, m2, m1, far, near);
    lemma_mul_div_commutes(mul_div_spec(m2, m1, far), G, SCALE);
    lemma_mul_div_commutes(mul_div_spec(m2, m1, near), G, SCALE);
    lemma_mul_div_monotone(
        mul_div_spec(m2, m1, far),
        mul_div_spec(m2, m1, near),
        G,
        SCALE,
        SCALE,
    );
}

/// Seen from the other body the pull is the opposite: the force on `b` from
/// `a` is the exact negative of the force on `a` from `b`.
pub proof fn law_pull_swaps(a: Body, b: Body)
    ensures
        pull(b, a) == pull(a, b).negated_spec(),
{
    let ab: Vec2 = b.pos.minus_spec(a.pos);
    let ba: Vec2 = a.pos.minus_spec(b.pos);
    assert(ba.x == -ab.x && ba.y == -ab.y);
    assert(ba.x * ba.x == ab.x * ab.x) by (nonlinear_arith)
        requires
            ba.x == -ab.x,
    ;
    assert(ba.y * ba.y == ab.y * ab.y) by (nonlinear_arith)
        requires
            ba.y == -ab.y,
    ;
    let dist: i64 = a.pos.distance_spec(b.pos);
    assert(b.pos.distance_spec(a.pos) == dist);
    assert(collides(a, b) == collides(b, a));
    if !collides(a, b) {
        lemma_mul_div_neg(ab.x, SCALE, dist);
        lemma_mul_div_neg(ab.y, SCALE, dist);
        let h: Vec2 = a.pos.toward_spec(b.pos);
        let back: Vec2 = b.pos.toward_spec(a.pos);
        assert(back.x == -h.x && back.y == -h.y);
        law_magnitude_symmetric(a.mass, b.mass, dist);
        let mag: i64 = grav_equ_spec(a.mass, b.mass, dist);
        lemma_mul_div_neg(h.x, mag, SCALE);
        lemma_mul_div_neg(h.y, mag, SCALE);
    }
}

/// The pull on a body points at its partner, and along each axis it is no
/// stronger than the magnitude of the attraction: the heading holds a
/// cosine and a sine, neither above one.
pub proof fn law_pull_points_at_partner(a: Body, b: Body)
    requires
        a.mass >= 0,
        b.mass >= 0,
    ensures
        b.pos.x >= a.pos.x ==> pull(a, b).x >= 0,
        b.pos.x <= a.pos.x ==> pull(a, b).x <= 0,
        b.pos.y >= a.pos.y ==> pull(a, b).y >= 0,
        b.pos.y <= a.pos.y ==> pull(a, b).y <= 0,
        abs(a.pos.toward_spec(b.pos).x as int) <= SCALE,
        abs(a.pos.toward_spec(b.pos).y as int) <= SCALE,
        abs(pull(a, b).x as int) <= grav_equ_spec(a.mass, b.mass, a.pos.distance_spec(b.pos)),
        abs(pull(a, b).y as int) <= grav_equ_spec(a.mass, b.mass, a.pos.distance_spec(b.pos)),
{
    let d: Vec2 = b.pos.minus_spec(a.pos);
    let dist: i64 = a.pos.distance_spec(b.pos);
    let mag: i64 = grav_equ_spec(a.mass, b.mass, dist);
    law_magnitude_not_negative(a.mass, b.mass, dist);
    lemma_length_is_root(d);
    lemma_component_within_length(d.x as int, d.y as int, dist as int);
    lemma_component_within_length(d.y as int, d.x as int, dist as int);
    let h: Vec2 = a.pos.toward_spec(b.pos);
    lemma_heading_component(d.x, dist);
    lemma_heading_component(d.y, dist);
    lemma_force_component(h.x, mag);
    lemma_force_component(h.y, mag);
}

/// A component of a vector is no longer than the vector.
proof fn lemma_component_within_length(x: int, y: int, len: int)
    requires
        -LIMIT <= x <= LIMIT,
        len >= 0,
        len < LIMIT ==> is_isqrt(x * x + y * y, len),
        len <= LIMIT,
    ensures
        -len <= x <= len,
{
    if len < LIMIT {
        if x > len || x < -len {
            assert(x * x >= (len + 1) * (len + 1)) by (nonlinear_arith)
                requires
                    x >= len + 1 || x <= -(len + 1),
                    len >= 0,
            ;
            assert(y * y >= 0) by (nonlinear_arith);
        }
    }
}

/// A component divided by a length that is no shorter has the sign of the
/// component and a size of at most one.
proof fn lemma_heading_component(x: i64, len: i64)
    requires
        len >= 0,
        -len <= x <= len,
    ensures
        x >= 0 ==> fx_div_spec(x, len) >= 0,
        x <= 0 ==> fx_div_spec(x, len) <= 0,
        -SCALE <= fx_div_spec(x, len) <= SCALE,
{
    if len > 0 {
        lemma_mul_div_shrinks(x, SCALE, len);
        if x == 0 {
            assert(x as int * SCALE as int == 0);
        } else if x > 0 {
            lemma_mul_div_at_least(x, SCALE, len, 0, 0, 0);
        } else {
            lemma_mul_div_neg(x, SCALE, len);
            lemma_mul_div_at_least((-x) as i64, SCALE, len, 0, 0, 0);
        }
    }
}

/// A magnitude that is not negative, times a cosine or sine, has the sign of
/// that factor and a size of at most the magnitude.
proof fn lemma_force_component(h: i64, mag: i64)
    requires
        mag >= 0,
        -SCALE <= h <= SCALE,
    ensures
        h >= 0 ==> fx_mul_spec(h, mag) >= 0,
        h <= 0 ==> fx_mul_spec(h, mag) <= 0,
        -mag <= fx_mul_spec(h, mag) <= mag,
{
    lemma_mul_div_shrinks(h, mag, SCALE);
    if h == 0 {
        assert(h as int * mag as int == 0) by (nonlinear_arith)
            requires
                h == 0,
        ;
    } else if h > 0 {
        lemma_mul_div_at_least(h, mag, SCALE, 0, 0, 0);
    } else {
        lemma_mul_div_neg(h, mag, SCALE);
        lemma_mul_div_at_least((-h) as i64, mag, SCALE, 0, 0, 0);
    }
}

/// The bodies at `k` and `x` do not overlap.
pub open spec fn apart(bodies: Seq<Body>, k: int, x: int) -> bool {
    !collides(bodies[k], bodies[x]) && !collides(bodies[x], bodies[k])
}

/// The bodies at `a`, `b` and `c`, in list order, all overlap one another,
/// no other body overlaps one of them, and the first two are not both
/// stationary.
pub open spec fn lone_triple(bodies: Seq<Body>, a: int, b: int, c: int) -> bool {
    &&& 0 <= a < b < c < bodies.len()
    &&& collides(bodies[a], bodies[b])
    &&& collides(bodies[a], bodies[c])
    &&& collides(bodies[b], bodies[c])
    &&& can_merge(bodies[a], bodies[b])
    &&& forall|k: int|
        0 <= k < bodies.len() && k != a && k != b && k != c ==> #[trigger] apart(bodies, k, a)
            && apart(bodies, k, b) && apart(bodies, k, c)
}

/// The first two bodies of a triple have merged: the one that outranks the
/// other has absorbed it.
pub open spec fn pair_merged(bodies: Seq<Body>, fates: Seq<Fate>, a: int, b: int) -> bool {
    if first_is_big(bodies[a], bodies[b]) {
        fates[a] == Fate::Absorbs(b as usize) && fates[b] == Fate::Absorbed
    } else {
        fates[a] == Fate::Absorbed && fates[b] == Fate::Absorbs(a as usize)
    }
}

/// What the pass has decided for a lone triple: nothing for the third, and
/// for the first two their merge once the pass has come to their pair.
pub open spec fn triple_state(
    bodies: Seq<Body>,
    fates: Seq<Fate>,
    a: int,
    b: int,
    c: int,
    seen: bool,
) -> bool {
    &&& fates[c] == Fate::Free
    &&& if seen {
        pair_merged(bodies, fates, a, b)
    } else {
        fates[a] == Fate::Free && fates[b] == Fate::Free
    }
}

/// Whether the pass has looked at the pair `(a, b)` when it is about to look
/// at the pair `(i, j)`.
pub open spec fn pair_seen(a: int, b: int, i: int, j: int) -> bool {
    a < i || (a == i && b < j)
}

proof fn lemma_triple_pair(bodies: Seq<Body>, s: Scan, i: int, j: int, a: int, b: int, c: int)
    requires
        lone_triple(bodies, a, b, c),
        scan_inv(scan_start(bodies), s),
        0 <= i < j < bodies.len(),
        triple_state(bodies, s.fates, a, b, c, pair_seen(a, b, i, j)),
    ensures
        triple_state(bodies, pair_step(s, i, j).fates, a, b, c, pair_seen(a, b, i, j + 1)),
{
    let start: Scan = scan_start(bodies);
    assert(same_but_force(s.bodies[i], start.bodies[i]));
    assert(same_but_force(s.bodies[j], start.bodies[j]));
    assert(s.bodies[i].pos == bodies[i].pos && s.bodies[i].radius == bodies[i].radius
        && s.bodies[i].stationary == bodies[i].stationary);
    assert(s.bodies[j].pos == bodies[j].pos && s.bodies[j].radius == bodies[j].radius
        && s.bodies[j].stationary == bodies[j].stationary);
    assert(collides(s.bodies[i], s.bodies[j]) == collides(bodies[i], bodies[j]));
    let i_in: bool = i == a || i == b || i == c;
    let j_in: bool = j == a || j == b || j == c;
    if i_in && !j_in {
        assert(apart(bodies, j, a));
        assert(apart(bodies, j, b) && apart(bodies, j, c));
    }
    if j_in && !i_in {
        assert(apart(bodies, i, a));
        assert(apart(bodies, i, b) && apart(bodies, i, c));
    }
}

proof fn lemma_triple_row(bodies: Seq<Body>, s: Scan, i: int, j: int, a: int, b: int, c: int)
    requires
        lone_triple(bodies, a, b, c),
        scan_inv(scan_start(bodies), s),
        0 <= i < j <= bodies.len(),
        triple_state(bodies, s.fates, a, b, c, pair_seen(a, b, i, i + 1)),
    ensures
        triple_state(bodies, scan_row(s, i, j).fates, a, b, c, pair_seen(a, b, i, j)),
    decreases j - i,
{
    if j > i + 1 {
        lemma_triple_row(bodies, s, i, j - 1, a, b, c);
        lemma_scan_row_inv(scan_start(bodies), s, i, j - 1);
        lemma_triple_pair(bodies, scan_row(s, i, j - 1), i, j - 1, a, b, c);
    }
}

proof fn lemma_triple_rows(bodies: Seq<Body>, i: int, a: int, b: int, c: int)
    requires
        lone_triple(bodies, a, b, c),
        bodies.len() <= usize::MAX,
        0 <= i <= bodies.len(),
    ensures
        triple_state(
            bodies,
            scan_rows(scan_start(bodies), i).fates,
            a,
            b,
            c,
            pair_seen(a, b, i, i + 1),
        ),
    decreases i,
{
    let start: Scan = scan_start(bodies);
    if i > 0 {
        lemma_triple_rows(bodies, i - 1, a, b, c);
        assert(scan_inv(start, start));
        lemma_scan_rows_inv(start, i - 1);
        lemma_triple_row(bodies, scan_rows(start, i - 1), i - 1, bodies.len() as int, a, b, c);
    }
}

/// Where three bodies all overlap one another and no other body overlaps
/// one of them, the pass merges the first two of them and no others of the
/// three: the third takes part in no merge and keeps its mass, its radius,
/// its position and its velocity through the pass. The first two must not
/// both be stationary, since two such never merge.
pub proof fn law_first_overlap_wins(bodies: Seq<Body>, a: int, b: int, c: int)
    requires
        bodies.len() <= usize::MAX,
        lone_triple(bodies, a, b, c),
    ensures
        scanned(bodies).fates[c] == Fate::Free,
        pair_merged(bodies, scanned(bodies).fates, a, b),
        same_but_force(scanned(bodies).bodies[c], bodies[c]),
{
    lemma_triple_rows(bodies, bodies.len() as int, a, b, c);
    lemma_scanned_inv(bodies);
    assert(same_but_force(scanned(bodies).bodies[c], scan_start(bodies).bodies[c]));
}

/// A stationary body comes through a merge where it stands and as fast as
/// it was, and is never the absorbed side, in whichever order the two
/// bodies are given.
pub proof fn law_merge_spares_stationary(bodies: Seq<Body>, first: int, second: int, k: int)
    requires
        0 <= first < bodies.len(),
        0 <= second < bodies.len(),
        first != second,
        bodies.len() <= usize::MAX,
        k == first || k == second,
        bodies[k].stationary,
    ensures
        absorbed_of(bodies, first, second) != Some(k as usize),
        collided(bodies, first, second)[k].pos == bodies[k].pos,
        collided(bodies, first, second)[k].vel == bodies[k].vel,
        collided(bodies, first, second)[k].stationary,
{
}

/// A merge is decided by rank, not by the order in which the two bodies are
/// given, unless they tie: the body with the larger radius survives where
/// both move, and where it is considerably larger it stays in place.
pub proof fn law_merge_ranks_by_radius(bodies: Seq<Body>, first: int, second: int)
    requires
        0 <= first < bodies.len(),
        0 <= second < bodies.len(),
        first != second,
        !bodies[first].stationary,
        !bodies[second].stationary,
        bodies[first].radius != bodies[second].radius,
    ensures
        bodies[survivor_of(bodies, first, second)].radius > bodies[first + second - survivor_of(
            bodies,
            first,
            second,
        )].radius,
        survivor_of(bodies, first, second) == survivor_of(bodies, second, first),
        collided(bodies, first, second) == collided(bodies, second, first),
        considerable_difference(
            bodies[survivor_of(bodies, first, second)],
            bodies[first + second - survivor_of(bodies, first, second)],
        ) ==> collided(bodies, first, second)[survivor_of(bodies, first, second)].pos
            == bodies[survivor_of(bodies, first, second)].pos,
{
}

/// One component of a vector.
pub open spec fn component(v: Vec2, along_x: bool) -> int {
    if along_x {
        v.x as int
    } else {
        v.y as int
    }
}

/// Sum of the first `k` of `vals`.
pub open spec fn total(vals: Seq<int>, k: int) -> int
    decreases k,
{
    if k <= 0 {
        0
    } else {
        total(vals, k - 1) + vals[k - 1]
    }
}

/// The accumulated forces of the bodies along one axis.
pub open spec fn forces(bodies: Seq<Body>, along_x: bool) -> Seq<int> {
    Seq::new(bodies.len(), |k: int| component(bodies[k].res_force, along_x))
}

/// Neither component of `v` is larger in size than `bound`.
pub open spec fn within(v: Vec2, bound: int) -> bool {
    -bound <= v.x <= bound && -bound <= v.y <= bound
}

/// No pull between two of the bodies is stronger than `bound` along either
/// axis.
pub open spec fn pulls_within(bodies: Seq<Body>, bound: int) -> bool {
    forall|i: int, j: int|
        0 <= i < bodies.len() && 0 <= j < bodies.len() ==> within(
            #[trigger] pull(bodies[i], bodies[j]),
            bound,
        )
}

/// The forces found so far are bounded and cancel along both axes.
pub open spec fn forces_inv(s: Scan, room: int) -> bool {
    &&& forall|k: int| 0 <= k < s.bodies.len() ==> within((#[trigger] s.bodies[k]).res_force, room)
    &&& total(forces(s.bodies, true), s.bodies.len() as int) == 0
    &&& total(forces(s.bodies, false), s.bodies.len() as int) == 0
}

proof fn lemma_total_update(vals: Seq<int>, idx: int, v: int, k: int)
    requires
        0 <= idx < vals.len(),
        0 <= k <= vals.len(),
    ensures
        total(vals.update(idx, v), k) == total(vals, k) + if idx < k {
            v - vals[idx]
        } else {
            0
        },
    decreases k,
{
    if k > 0 {
        lemma_total_update(vals, idx, v, k - 1);
    }
}

proof fn lemma_total_zero(vals: Seq<int>, k: int)
    requires
        0 <= k <= vals.len(),
        forall|m: int| 0 <= m < k ==> vals[m] == 0,
    ensures
        total(vals, k) == 0,
    decreases k,
{
    if k > 0 {
        lemma_total_zero(vals, k - 1);
    }
}

proof fn lemma_forces_pair(bodies: Seq<Body>, s: Scan, i: int, j: int, room: int, bound: int)
    requires
        scan_inv(scan_start(bodies), s),
        pulls_within(bodies, bound),
        forces_inv(s, room),
        0 <= i < j < bodies.len(),
        0 <= room,
        0 <= bound,
        room + bound <= LIMIT,
    ensures
        forces_inv(pair_step(s, i, j), room + bound),
{
    let start: Scan = scan_start(bodies);
    let t: Scan = pair_step(s, i, j);
    let n: int = bodies.len() as int;
    assert(same_but_force(s.bodies[i], start.bodies[i]));
    assert(same_but_force(s.bodies[j], start.bodies[j]));
    assert(s.bodies[i].pos == bodies[i].pos && s.bodies[i].radius == bodies[i].radius
        && s.bodies[i].mass == bodies[i].mass);
    assert(s.bodies[j].pos == bodies[j].pos && s.bodies[j].radius == bodies[j].radius
        && s.bodies[j].mass == bodies[j].mass);
    let f: Vec2 = pull(bodies[i], bodies[j]);
    assert(pull(s.bodies[i], s.bodies[j]) == f);
    assert(within(f, bound));
    if t.bodies == s.bodies {
        assert forall|k: int| 0 <= k < t.bodies.len() implies within(
            (#[trigger] t.bodies[k]).res_force,
            room + bound,
        ) by {
            assert(within(s.bodies[k].res_force, room));
        }
    } else {
        let a: Body = s.bodies[i];
        let b: Body = s.bodies[j];
        assert(within(a.res_force, room));
        assert(within(b.res_force, room));
        let mid: Seq<Body> = s.bodies.update(i, a.with_force(a.res_force.plus_spec(f)));
        assert(t.bodies == mid.update(j, b.with_force(b.res_force.plus_spec(f.negated_spec()))));
        assert forall|k: int| 0 <= k < t.bodies.len() implies within(
            (#[trigger] t.bodies[k]).res_force,
            room + bound,
        ) by {
            assert(within(s.bodies[k].res_force, room));
        }
        lemma_forces_shift(s.bodies, t.bodies, i, j, true);
        lemma_forces_shift(s.bodies, t.bodies, i, j, false);
    }
}

/// Where two bodies of a list change their forces by opposite amounts, the
/// sum of all forces stays.
proof fn lemma_forces_shift(before: Seq<Body>, after: Seq<Body>, i: int, j: int, along_x: bool)
    requires
        0 <= i < j < before.len(),
        after.len() == before.len(),
        forall|k: int| 0 <= k < before.len() && k != i && k != j ==> after[k] == before[k],
        component(after[i].res_force, along_x) - component(before[i].res_force, along_x)
            == component(before[j].res_force, along_x) - component(after[j].res_force, along_x),
    ensures
        total(forces(after, along_x), after.len() as int) == total(
            forces(before, along_x),
            before.len() as int,
        ),
{
    let n: int = before.len() as int;
    let old_vals: Seq<int> = forces(before, along_x);
    let new_i: int = component(after[i].res_force, along_x);
    let new_j: int = component(after[j].res_force, along_x);
    let mid: Seq<int> = old_vals.update(i, new_i);
    lemma_total_update(old_vals, i, new_i, n);
    lemma_total_update(mid, j, new_j, n);
    assert(forces(after, along_x) =~= mid.update(j, new_j));
}

proof fn lemma_forces_row(bodies: Seq<Body>, s: Scan, i: int, j: int, room: int, bound: int)
    requires
        scan_inv(scan_start(bodies), s),
        pulls_within(bodies, bound),
        forces_inv(s, room),
        0 <= i < j <= bodies.len(),
        0 <= room,
        0 <= bound,
        room + (j - i - 1) * bound <= LIMIT,
    ensures
        forces_inv(scan_row(s, i, j), room + (j - i - 1) * bound),
    decreases j - i,
{
    if j > i + 1 {
        assert((j - i - 1) * bound == (j - i - 2) * bound + bound && (j - i - 2) * bound >= 0)
            by (nonlinear_arith)
            requires
                j - i - 2 >= 0,
                bound >= 0,
        ;
        lemma_forces_row(bodies, s, i, j - 1, room, bound);
        lemma_scan_row_inv(scan_start(bodies), s, i, j - 1);
        lemma_forces_pair(
            bodies,
            scan_row(s, i, j - 1),
            i,
            j - 1,
            room + (j - i - 2) * bound,
            bound,
        );
    } else {
        assert((j - i - 1) * bound == 0) by (nonlinear_arith)
            requires
                j - i - 1 == 0,
        ;
    }
}

proof fn lemma_forces_rows(bodies: Seq<Body>, i: int, bound: int)
    requires
        bodies.len() <= usize::MAX,
        pulls_within(bodies, bound),
        0 <= i <= bodies.len(),
        0 <= bound,
        bodies.len() * bodies.len() * bound <= LIMIT,
    ensures
        forces_inv(scan_rows(scan_start(bodies), i), i * bodies.len() * bound),
    decreases i,
{
    let start: Scan = scan_start(bodies);
    let n: int = bodies.len() as int;
    if i > 0 {
        lemma_forces_rows(bodies, i - 1, bound);
        assert(scan_inv(start, start));
        lemma_scan_rows_inv(start, i - 1);
        let room: int = (i - 1) * n * bound;
        let row: int = (n - (i - 1) - 1) * bound;
        assert(0 <= room && 0 <= row && room + row <= i * n * bound && i * n * bound <= n * n
            * bound) by (nonlinear_arith)
            requires
                room == (i - 1) * n * bound,
                row == (n - (i - 1) - 1) * bound,
                1 <= i <= n,
                bound >= 0,
        ;
        let prev: Scan = scan_rows(start, i - 1);
        lemma_forces_row(bodies, prev, i - 1, n, room, bound);
        let next: Scan = scan_row(prev, i - 1, n);
        assert forall|k: int| 0 <= k < next.bodies.len() implies within(
            (#[trigger] next.bodies[k]).res_force,
            i * n * bound,
        ) by {
            assert(within(next.bodies[k].res_force, room + row));
        }
    } else {
        assert(i * n * bound == 0) by (nonlinear_arith)
            requires
                i == 0,
        ;
        lemma_total_zero(forces(start.bodies, true), n);
        lemma_total_zero(forces(start.bodies, false), n);
    }
}

/// The forces that one pass finds cancel: along each axis the accumulated
/// forces of all bodies sum to zero. This holds where no sum of forces can
/// leave the range of stored quantities: every pull is within `bound`, and
/// `bound` times the square of the number of bodies can be stored.
pub proof fn law_forces_cancel(bodies: Seq<Body>, bound: int)
    requires
        bodies.len() <= usize::MAX,
        0 <= bound,
        pulls_within(bodies, bound),
        bodies.len() * bodies.len() * bound <= LIMIT,
    ensures
        total(forces(scanned(bodies).bodies, true), bodies.len() as int) == 0,
        total(forces(scanned(bodies).bodies, false), bodies.len() as int) == 0,
{
    lemma_forces_rows(bodies, bodies.len() as int, bound);
    lemma_scanned_inv(bodies);
}

/// The momenta of the bodies along one axis: mass times velocity, as exact
/// integers.
pub open spec fn momenta(bodies: Seq<Body>, along_x: bool) -> Seq<int> {
    Seq::new(bodies.len(), |k: int| bodies[k].mass * component(bodies[k].vel, along_x))
}

/// The masses of the bodies.
pub open spec fn masses(bodies: Seq<Body>) -> Seq<int> {
    Seq::new(bodies.len(), |k: int| bodies[k].mass as int)
}

/// No two of the bodies overlap.
pub open spec fn no_overlap(bodies: Seq<Body>) -> bool {
    forall|i: int, j: int|
        0 <= i < j < bodies.len() ==> !collides(#[trigger] bodies[i], #[trigger] bodies[j])
}

/// Every body moves and has mass.
pub open spec fn all_moving(bodies: Seq<Body>) -> bool {
    forall|k: int|
        0 <= k < bodies.len() ==> !(#[trigger] bodies[k]).stationary && bodies[k].mass > 0
}

/// Integrating the body over `dt` takes no quantity out of the range that
/// can be stored: not the acceleration, not the change of velocity, not the
/// new velocity.
pub open spec fn advance_exact_along(b: Body, dt: i64, along_x: bool) -> bool {
    let a = tquot(component(b.res_force, along_x) * SCALE, b.mass as int);
    let dv = tquot(a * dt, SCALE as int);
    &&& -LIMIT <= a <= LIMIT
    &&& -LIMIT <= dv <= LIMIT
    &&& -LIMIT <= component(b.vel, along_x) + dv <= LIMIT
}

/// After the pass, every body can be integrated over `dt` along the axis
/// without leaving the range of stored quantities.
pub open spec fn advances_exact(bodies: Seq<Body>, dt: i64, along_x: bool) -> bool {
    forall|k: int|
        0 <= k < bodies.len() ==> advance_exact_along(
            #[trigger] scanned(bodies).bodies[k],
            dt,
            along_x,
        )
}

/// A quotient rounded toward zero, times the divisor, misses the dividend
/// by less than the divisor.
proof fn lemma_tquot_error(n: int, d: int)
    requires
        d > 0,
    ensures
        abs(tquot(n, d) * d - n) < d,
{
    let m: int = abs(n);
    vstd::arithmetic::div_mod::lemma_fundamental_div_mod(m, d);
    vstd::arithmetic::div_mod::lemma_mod_bound(m, d);
    let q: int = m / d;
    assert(d * q == q * d) by (nonlinear_arith);
    assert((-q) * d == -(q * d)) by (nonlinear_arith);
}

/// The impulse that a body gets in one integration step is the force times
/// the length of the step, up to rounding: scaled by `SCALE`, the change of
/// momentum misses it by no more than the mass times `dt + SCALE`.
proof fn lemma_impulse(b: Body, dt: i64, time: i64, trails: bool, along_x: bool)
    requires
        !b.stationary,
        b.mass > 0,
        dt >= 0,
        advance_exact_along(b, dt, along_x),
    ensures
        b.advanced(dt, time, trails).mass == b.mass,
        abs(
            SCALE * (b.mass * component(b.advanced(dt, time, trails).vel, along_x) - b.mass
                * component(b.vel, along_x)) - SCALE * dt * component(b.res_force, along_x),
        ) <= b.mass * (dt + SCALE),
{
    let f: int = component(b.res_force, along_x);
    let v: int = component(b.vel, along_x);
    let m: int = b.mass as int;
    let s: int = SCALE as int;
    let t: int = dt as int;
    let a: int = tquot(f * s, m);
    let dv: int = tquot(a * t, s);
    let v2: int = component(b.advanced(dt, time, trails).vel, along_x);
    assert(v2 == v + dv);
    lemma_tquot_error(f * s, m);
    lemma_tquot_error(a * t, s);
    let e1: int = a * m - f * s;
    let e2: int = dv * s - a * t;
    assert(s * (m * v2 - m * v) - s * t * f == e1 * t + m * e2) by (nonlinear_arith)
        requires
            v2 == v + dv,
            e1 == a * m - f * s,
            e2 == dv * s - a * t,
    ;
    assert(abs(e1 * t + m * e2) <= m * (t + s)) by (nonlinear_arith)
        requires
            -m < e1 < m,
            -s < e2 < s,
            t >= 0,
            m > 0,
            s > 0,
    ;
}

/// Bounds on the single changes add up to a bound on the change of the sum.
proof fn lemma_sum_bound(
    after: Seq<int>,
    before: Seq<int>,
    fv: Seq<int>,
    mv: Seq<int>,
    dt: int,
    k: int,
)
    requires
        0 <= k <= mv.len(),
        after.len() == mv.len(),
        before.len() == mv.len(),
        fv.len() == mv.len(),
        forall|m: int|
            0 <= m < k ==> abs(SCALE * (after[m] - before[m]) - SCALE * dt * fv[m])
                <= #[trigger] mv[m] * (dt + SCALE),
    ensures
        abs(SCALE * (total(after, k) - total(before, k)) - SCALE * dt * total(fv, k)) <= total(
            mv,
            k,
        ) * (dt + SCALE),
    decreases k,
{
    if k > 0 {
        lemma_sum_bound(after, before, fv, mv, dt, k - 1);
        let s: int = SCALE as int;
        let ta: int = total(after, k - 1);
        let tb: int = total(before, k - 1);
        let tf: int = total(fv, k - 1);
        let tm: int = total(mv, k - 1);
        let a: int = after[k - 1];
        let b: int = before[k - 1];
        let f: int = fv[k - 1];
        let m: int = mv[k - 1];
        assert(abs(s * (a - b) - s * dt * f) <= mv[k - 1] * (dt + s));
        assert(s * ((ta + a) - (tb + b)) - s * dt * (tf + f) == (s * (ta - tb) - s * dt * tf) + (s
            * (a - b) - s * dt * f)) by (nonlinear_arith);
        assert((tm + m) * (dt + s) == tm * (dt + s) + m * (dt + s)) by (nonlinear_arith);
    } else {
        assert(SCALE * (0int - 0int) - SCALE * dt * 0int == 0) by (nonlinear_arith);
        assert(0int * (dt + SCALE) == 0) by (nonlinear_arith);
    }
}

/// Nothing was decided for any body.
pub open spec fn all_free(fates: Seq<Fate>) -> bool {
    forall|k: int| 0 <= k < fates.len() ==> #[trigger] fates[k] == Fate::Free
}

proof fn lemma_free_pair(bodies: Seq<Body>, s: Scan, i: int, j: int)
    requires
        no_overlap(bodies),
        scan_inv(scan_start(bodies), s),
        0 <= i < j < bodies.len(),
        all_free(s.fates),
    ensures
        all_free(pair_step(s, i, j).fates),
{
    let start: Scan = scan_start(bodies);
    assert(same_but_force(s.bodies[i], start.bodies[i]));
    assert(same_but_force(s.bodies[j], start.bodies[j]));
    assert(s.bodies[i].pos == bodies[i].pos && s.bodies[i].radius == bodies[i].radius);
    assert(s.bodies[j].pos == bodies[j].pos && s.bodies[j].radius == bodies[j].radius);
    assert(!collides(bodies[i], bodies[j]));
    assert(s.fates[i] == Fate::Free && s.fates[j] == Fate::Free);
}

proof fn lemma_free_row(bodies: Seq<Body>, s: Scan, i: int, j: int)
    requires
        no_overlap(bodies),
        scan_inv(scan_start(bodies), s),
        0 <= i < j <= bodies.len(),
        all_free(s.fates),
    ensures
        all_free(scan_row(s, i, j).fates),
    decreases j - i,
{
    if j > i + 1 {
        lemma_free_row(bodies, s, i, j - 1);
        lemma_scan_row_inv(scan_start(bodies), s, i, j - 1);
        lemma_free_pair(bodies, scan_row(s, i, j - 1), i, j - 1);
    }
}

proof fn lemma_free_rows(bodies: Seq<Body>, i: int)
    requires
        no_overlap(bodies),
        bodies.len() <= usize::MAX,
        0 <= i <= bodies.len(),
    ensures
        all_free(scan_rows(scan_start(bodies), i).fates),
    decreases i,
{
    let start: Scan = scan_start(bodies);
    if i > 0 {
        lemma_free_rows(bodies, i - 1);
        assert(scan_inv(start, start));
        lemma_scan_rows_inv(start, i - 1);
        lemma_free_row(bodies, scan_rows(start, i - 1), i - 1, bodies.len() as int);
    }
}

/// Where nothing is absorbed, everything from `k` on is kept.
proof fn lemma_keep_all<T>(items: Seq<T>, fates: Seq<Fate>, k: int)
    requires
        0 <= k <= items.len(),
        fates.len() == items.len(),
        all_free(fates),
    ensures
        keep_from(items, fates, k) == items.subrange(k, items.len() as int),
    decreases items.len() - k,
{
    if k < items.len() {
        lemma_keep_all(items, fates, k + 1);
        assert(fates[k] == Fate::Free);
        assert(keep_from(items, fates, k) =~= items.subrange(k, items.len() as int));
    } else {
        assert(keep_from(items, fates, k) =~= items.subrange(k, items.len() as int));
    }
}

/// Bodies that only attract one another keep their total momentum through
/// a tick, up to rounding: along each axis the sum of mass times velocity
/// changes by no more than the total mass times `dt / SCALE + 1` steps of
/// velocity.
///
/// This is stated for bodies that all move, have mass and do not overlap,
/// and where no quantity leaves the range that can be stored: the pulls are
/// within a bound that the forces can sum up to, and so is each
/// integration.
pub proof fn law_tick_keeps_momentum(
    bodies: Seq<Body>,
    dt: i64,
    time: i64,
    trails: bool,
    bound: int,
    along_x: bool,
)
    requires
        bodies.len() <= usize::MAX,
        dt >= 0,
        0 <= bound,
        all_moving(bodies),
        no_overlap(bodies),
        pulls_within(bodies, bound),
        bodies.len() * bodies.len() * bound <= LIMIT,
        advances_exact(bodies, dt, along_x),
    ensures
        stepped(bodies, dt, time, trails).len() == bodies.len(),
        abs(
            SCALE * (total(momenta(stepped(bodies, dt, time, trails), along_x), bodies.len() as int)
                - total(momenta(bodies, along_x), bodies.len() as int)),
        ) <= total(masses(bodies), bodies.len() as int) * (dt + SCALE),
{
    let n: int = bodies.len() as int;
    let s: Scan = scanned(bodies);
    let start: Scan = scan_start(bodies);
    lemma_scanned_inv(bodies);
    lemma_free_rows(bodies, n);
    let all: Seq<Body> = settled_all(s, dt, time, trails);
    lemma_keep_all(all, s.fates, 0);
    let next: Seq<Body> = stepped(bodies, dt, time, trails);
    assert(next =~= all);
    law_forces_cancel(bodies, bound);
    let after: Seq<int> = momenta(next, along_x);
    let before: Seq<int> = momenta(bodies, along_x);
    let fv: Seq<int> = forces(s.bodies, along_x);
    let mv: Seq<int> = masses(bodies);
    assert forall|k: int| 0 <= k < n implies abs(
        SCALE * (after[k] - before[k]) - SCALE * dt * fv[k],
    ) <= #[trigger] mv[k] * (dt + SCALE) by {
        let b: Body = s.bodies[k];
        assert(same_but_force(b, start.bodies[k]));
        assert(b.mass == bodies[k].mass && b.vel == bodies[k].vel && b.stationary
            == bodies[k].stationary);
        assert(!bodies[k].stationary && bodies[k].mass > 0);
        assert(advance_exact_along(s.bodies[k], dt, along_x));
        assert(s.fates[k] == Fate::Free);
        assert(next[k] == b.advanced(dt, time, trails));
        lemma_impulse(b, dt, time, trails, along_x);
    }
    lemma_sum_bound(after, before, fv, mv, dt as int, n);
    assert(SCALE * dt * total(fv, n) == 0) by (nonlinear_arith)
        requires
            total(fv, n) == 0,
    ;
}

} // verus!
