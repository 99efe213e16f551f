//! Identifiers of bodies: handed out in cyclic order, never one that a live
//! body has.
use vstd::prelude::*;
use crate::planet::Body;
use crate::simulation::App;

verus! {

/// Identifiers are below this value; the counter returns to zero on
/// reaching it.
pub const ID_WRAP: u32 = 4294967294;

/// Whether one of the first `k` bodies has the identifier `id`.
pub open spec fn id_among(bodies: Seq<Body>, k: int, id: u32) -> bool
    decreases k,
{
    if k <= 0 {
        false
    } else {
        bodies[k - 1].id == id || id_among(bodies, k - 1, id)
    }
}

/// Whether a live body has the identifier `id`.
pub open spec fn id_live(bodies: Seq<Body>, id: u32) -> bool {
    id_among(bodies, bodies.len() as int, id)
}

/// The identifier `k` places after `c` in cyclic order.
pub open spec fn id_at(c: u32, k: int) -> u32 {
    ((c + k) % (ID_WRAP as int)) as u32
}

/// `k` is the number of places from `c` to the first identifier that no
/// live body has.
pub open spec fn is_fresh_offset(bodies: Seq<Body>, c: u32, k: int) -> bool {
    &&& 0 <= k
    &&& !id_live(bodies, id_at(c, k))
    &&& forall|j: int| 0 <= j < k ==> id_live(bodies, #[trigger] id_at(c, j))
}

/// The identifier that the next body gets: the first one from the counter
/// `c` on, in cyclic order, that no live body has.
pub open spec fn fresh_id_spec(bodies: Seq<Body>, c: u32) -> u32 {
    id_at(c, choose|k: int| is_fresh_offset(bodies, c, k))
}

/// The identifier counter after handing out `id`.
pub open spec fn next_id(id: u32) -> u32 {
    if id + 1 >= ID_WRAP {
        0
    } else {
        (id + 1) as u32
    }
}

/// Number of `true` entries among the first `k`.
pub open spec fn count_true(s: Seq<bool>, k: int) -> int
    decreases k,
{
    if k <= 0 {
        0
    } else {
        count_true(s, k - 1) + if s[k - 1] {
            1int
        } else {
            0int
        }
    }
}

proof fn lemma_count_set(s: Seq<bool>, idx: int, k: int)
    requires
        0 <= idx < s.len(),
        0 <= k <= s.len(),
    ensures
        count_true(s.update(idx, true), k) <= count_true(s, k) + 1,
        idx >= k ==> count_true(s.update(idx, true), k) == count_true(s, k),
    decreases k,
{
    if k > 0 {
        lemma_count_set(s, idx, k - 1);
    }
}

proof fn lemma_count_all(s: Seq<bool>, k: int)
    requires
        0 <= k <= s.len(),
        forall|j: int| 0 <= j < k ==> s[j],
    ensures
        count_true(s, k) == k,
    decreases k,
{
    if k > 0 {
        lemma_count_all(s, k - 1);
    }
}

/// A body whose identifier is not among the first `k` differs in its
/// identifier from each of them.
pub proof fn lemma_not_among(bodies: Seq<Body>, k: int, id: u32)
    requires
        0 <= k <= bodies.len(),
        !id_among(bodies, k, id),
    ensures
        forall|m: int| 0 <= m < k ==> (#[trigger] bodies[m]).id != id,
    decreases k,
{
    if k > 0 {
        lemma_not_among(bodies, k - 1, id);
    }
}

/// The first free identifier is determined by its number of places from the
/// counter.
pub proof fn lemma_fresh_offset_unique(bodies: Seq<Body>, c: u32, k1: int, k2: int)
    requires
        is_fresh_offset(bodies, c, k1),
        is_fresh_offset(bodies, c, k2),
    ensures
        k1 == k2,
{
    if k1 < k2 {
        assert(id_live(bodies, id_at(c, k1)));
    }
    if k2 < k1 {
        assert(id_live(bodies, id_at(c, k2)));
    }
}

impl App {
    /// The first identifier from the counter on, in cyclic order, that no
    /// live body has.
    pub fn fresh_id(&self) -> (id: u32)
        requires
            self.wf(),
            self.planets@.len() < ID_WRAP,
        ensures
            id == fresh_id_spec(self.bodies(), self.pl_id_count),
            id < ID_WRAP,
            !id_live(self.bodies(), id),
    {
        let ghost bodies: Seq<Body> = self.bodies();
        let n: usize = self.planets.len();
        let c: u32 = self.pl_id_count;
        let mut used: Vec<bool> = Vec::new();
        let mut k: usize = 0;
        while k <= n
            invariant
                k <= n + 1,
                n < ID_WRAP,
                used@.len() == k,
                forall|j: int| 0 <= j < k ==> !#[trigger] used@[j],
            decreases n + 1 - k,
        {
            used.push(false);
            k += 1;
        }
        proof {
            lemma_count_none(used@, n + 1);
        }
        let mut i: usize = 0;
        while i < n
            invariant
                i <= n,
                n == self.planets@.len(),
                n < ID_WRAP,
                c < ID_WRAP,
                self.wf(),
                bodies == self.bodies(),
                used@.len() == n + 1,
                count_true(used@, n + 1) <= i,
                forall|off: int|
                    0 <= off <= n ==> #[trigger] used@[off] == id_among(
                        bodies,
                        i as int,
                        id_at(c, off),
                    ),
            decreases n - i,
        {
            let id: u32 = self.planets[i].id;
            assert(bodies[i as int].id == id);
            assert(id < ID_WRAP);
            let off: u32 = if id >= c {
                id - c
            } else {
                id + (ID_WRAP - c)
            };
            assert(id_at(c, off as int) == id);
            let ghost prior: Seq<bool> = used@;
            if off as usize <= n {
                proof {
                    lemma_count_set(used@, off as int, n + 1);
                }
                used[off as usize] = true;
            }
            assert forall|o: int| 0 <= o <= n implies #[trigger] used@[o] == id_among(
                bodies,
                i + 1,
                id_at(c, o),
            ) by {
                assert(prior[o] == id_among(bodies, i as int, id_at(c, o)));
                if o != off {
                    assert(id_at(c, o) != id);
                }
            }
            i += 1;
        }
        let mut k: usize = 0;
        while used[k]
            invariant
                k <= n,
                used@.len() == n + 1,
                count_true(used@, n + 1) <= n,
                forall|j: int| 0 <= j < k ==> #[trigger] used@[j],
            decreases n - k,
        {
            proof {
                if k == n {
                    lemma_count_all(used@, n + 1);
                }
            }
            k += 1;
        }
        let sum: u64 = c as u64 + k as u64;
        let id: u32 = if sum >= ID_WRAP as u64 {
            (sum - ID_WRAP as u64) as u32
        } else {
            sum as u32
        };
        proof {
            assert(id == id_at(c, k as int));
            assert(!id_live(bodies, id_at(c, k as int)));
            assert forall|j: int| 0 <= j < k implies id_live(bodies, #[trigger] id_at(c, j)) by {
                assert(used@[j]);
            }
            assert(is_fresh_offset(bodies, c, k as int));
            let chosen: int = choose|m: int| is_fresh_offset(bodies, c, m);
            lemma_fresh_offset_unique(bodies, c, k as int, chosen);
        }
        id
    }
}

proof fn lemma_count_none(s: Seq<bool>, k: int)
    requires
        0 <= k <= s.len(),
        forall|j: int| 0 <= j < k ==> !s[j],
    ensures
        count_true(s, k) == 0,
    decreases k,
{
    if k > 0 {
        lemma_count_none(s, k - 1);
    }
}

} // verus!
