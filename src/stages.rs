//! The stages of a tick over the whole collection of bodies.
use vstd::prelude::*;
use crate::config::{MAX_DT_US, TOP_RANK, COORD_LIMIT, score_of, rank_score, lemma_radius_bounds};
use crate::body::Body;
use crate::fixed::lemma_div_toward_zero_abs;
use crate::physics::{
    gravity_body, constrain_body, integrate_body, resolve_pair, merges, merged_body, overlap,
    collide_pair, merge_pair,
};
use crate::spawner::Spawner;

verus! {

/// Every body is well formed.
pub open spec fn all_wf(s: Seq<Body>) -> bool {
    forall|k: int| 0 <= k < s.len() ==> (#[trigger] s[k]).wf()
}

/// No two bodies share an id.
pub open spec fn ids_distinct(s: Seq<Body>) -> bool {
    forall|i: int, j: int|
        0 <= i < s.len() && 0 <= j < s.len() && i != j ==> (#[trigger] s[i]).id != (#[trigger] s[j]).id
}

/// Every id is below `bound`.
pub open spec fn ids_below(s: Seq<Body>, bound: int) -> bool {
    forall|k: int| 0 <= k < s.len() ==> (#[trigger] s[k]).id < bound
}

/// `t` holds the bodies of `s`, in the same places, with the same ids and
/// ranks, all well formed.
pub open spec fn same_bodies(s: Seq<Body>, t: Seq<Body>) -> bool {
    &&& t.len() == s.len()
    &&& forall|k: int|
        0 <= k < s.len() ==> (#[trigger] t[k]).id == s[k].id && t[k].rank == s[k].rank && t[k].wf()
}

// ----- gravity, walls, integration: one body at a time -----

pub open spec fn gravity_all(s: Seq<Body>) -> Seq<Body> {
    s.map_values(|b: Body| gravity_body(b))
}

pub open spec fn constrain_all(s: Seq<Body>) -> Seq<Body> {
    s.map_values(|b: Body| constrain_body(b))
}

pub open spec fn integrate_all(s: Seq<Body>, dt: int) -> Seq<Body> {
    s.map_values(|b: Body| integrate_body(b, dt))
}

/// Gravity stage: every body's acceleration gains gravity.
pub fn apply_gravity(bodies: &mut Vec<Body>)
    requires
        all_wf(old(bodies)@),
    ensures
        final(bodies)@ == gravity_all(old(bodies)@),
        same_bodies(old(bodies)@, final(bodies)@),
{
    let ghost s = bodies@;
    let n = bodies.len();
    let mut i: usize = 0;
    while i < n
        invariant
            n == s.len(),
            bodies@.len() == n,
            i <= n,
            all_wf(s),
            forall|k: int| 0 <= k < i ==> bodies@[k] == gravity_body(s[k]),
            forall|k: int| i <= k < n ==> bodies@[k] == s[k],
            forall|k: int| 0 <= k < i ==> (#[trigger] bodies@[k]).wf(),
        decreases n - i,
    {
        let mut b = bodies[i];
        assert(s[i as int].wf());
        b.apply_gravity();
        bodies.set(i, b);
        i += 1;
    }
    assert(bodies@ =~= gravity_all(s));
}

/// Constraint stage: every body is held inside the arena.
pub fn apply_constraint(bodies: &mut Vec<Body>)
    requires
        all_wf(old(bodies)@),
    ensures
        final(bodies)@ == constrain_all(old(bodies)@),
        same_bodies(old(bodies)@, final(bodies)@),
{
    let ghost s = bodies@;
    let n = bodies.len();
    let mut i: usize = 0;
    while i < n
        invariant
            n == s.len(),
            bodies@.len() == n,
            i <= n,
            all_wf(s),
            forall|k: int| 0 <= k < i ==> bodies@[k] == constrain_body(s[k]),
            forall|k: int| i <= k < n ==> bodies@[k] == s[k],
            forall|k: int| 0 <= k < i ==> (#[trigger] bodies@[k]).wf(),
        decreases n - i,
    {
        let mut b = bodies[i];
        assert(s[i as int].wf());
        b.constrain();
        bodies.set(i, b);
        i += 1;
    }
    assert(bodies@ =~= constrain_all(s));
}

/// Integration stage: every body takes its Verlet step over `dt_us`.
pub fn apply_integration(bodies: &mut Vec<Body>, dt_us: u64)
    requires
        all_wf(old(bodies)@),
        dt_us <= MAX_DT_US,
    ensures
        final(bodies)@ == integrate_all(old(bodies)@, dt_us as int),
        same_bodies(old(bodies)@, final(bodies)@),
{
    let ghost s = bodies@;
    let n = bodies.len();
    let mut i: usize = 0;
    while i < n
        invariant
            n == s.len(),
            bodies@.len() == n,
            i <= n,
            all_wf(s),
            dt_us <= MAX_DT_US,
            forall|k: int| 0 <= k < i ==> bodies@[k] == integrate_body(s[k], dt_us as int),
            forall|k: int| i <= k < n ==> bodies@[k] == s[k],
            forall|k: int| 0 <= k < i ==> (#[trigger] bodies@[k]).wf(),
        decreases n - i,
    {
        let mut b = bodies[i];
        assert(s[i as int].wf());
        b.integrate(dt_us);
        bodies.set(i, b);
        i += 1;
    }
    assert(bodies@ =~= integrate_all(s, dt_us as int));
}

// ----- collision -----

/// `s` after the collision response of the pair `(i, j)`.
pub open spec fn collide_at(s: Seq<Body>, i: int, j: int) -> Seq<Body> {
    let r = resolve_pair(s[i], s[j]);
    s.update(i, r.0).update(j, r.1)
}

/// `s` after the pairs `(i, j)`, `(i, j + 1)`, ..., `(i, n - 1)`, in turn.
pub open spec fn collide_row(s: Seq<Body>, i: int, j: int, n: int) -> Seq<Body>
    decreases n - j,
{
    if j < n {
        collide_row(collide_at(s, i, j), i, j + 1, n)
    } else {
        s
    }
}

/// `s` after the rows `i`, `i + 1`, ..., `n - 1`, in turn.
pub open spec fn collide_rows(s: Seq<Body>, i: int, n: int) -> Seq<Body>
    decreases n - i,
{
    if i < n {
        collide_rows(collide_row(s, i, i + 1, n), i + 1, n)
    } else {
        s
    }
}

/// Collision stage: every pair `(i, j)` with `i < j`, in order, each seeing
/// the corrections made before it.
pub open spec fn collide_all(s: Seq<Body>) -> Seq<Body> {
    collide_rows(s, 0, s.len() as int)
}

/// Whether the circles of `a` and `b` overlap.
pub fn overlapping(a: &Body, b: &Body) -> (r: bool)
    requires
        a.wf(),
        b.wf(),
    ensures
        r == overlap(*a, *b),
{
    proof {
        lemma_radius_bounds(a.rank);
        lemma_radius_bounds(b.rank);
    }
    let dx: i128 = b.pos.x as i128 - a.pos.x as i128;
    let dy: i128 = b.pos.y as i128 - a.pos.y as i128;
    let rsum: i128 = a.radius as i128 + b.radius as i128;
    assert(0 <= dx * dx <= 0x8_0000_0000_0000_0000_0000 && 0 <= dy * dy <= 0x8_0000_0000_0000_0000_0000
        && 0 < rsum * rsum <= 250_000 * 250_000) by (nonlinear_arith)
        requires
            -2 * COORD_LIMIT <= dx <= 2 * COORD_LIMIT,
            -2 * COORD_LIMIT <= dy <= 2 * COORD_LIMIT,
            40_000 <= rsum <= 250_000,
    ;
    dx * dx + dy * dy < rsum * rsum
}

/// Collision stage (see `collide_all`).
pub fn apply_collisions(bodies: &mut Vec<Body>)
    requires
        all_wf(old(bodies)@),
    ensures
        final(bodies)@ == collide_all(old(bodies)@),
        same_bodies(old(bodies)@, final(bodies)@),
{
    let ghost s = bodies@;
    let ghost target = collide_all(s);
    let n = bodies.len();
    let mut i: usize = 0;
    while i < n
        invariant
            n == s.len(),
            i <= n,
            collide_rows(bodies@, i as int, n as int) == target,
            same_bodies(s, bodies@),
        decreases n - i,
    {
        let mut j: usize = i + 1;
        while j < n
            invariant
                n == s.len(),
                i < n,
                i < j <= n,
                collide_rows(collide_row(bodies@, i as int, j as int, n as int), i + 1, n as int) == target,
                same_bodies(s, bodies@),
            decreases n - j,
        {
            let ghost before = bodies@;
            assert(bodies@[i as int].wf() && bodies@[j as int].wf());
            let (a, b) = collide_pair(&bodies[i], &bodies[j]);
            bodies.set(i, a);
            bodies.set(j, b);
            assert(bodies@ == collide_at(before, i as int, j as int));
            j += 1;
        }
        i += 1;
    }
}

// ----- merging -----

/// `a + b`, saturated at `u32::MAX`.
pub open spec fn sat_add(a: u32, b: int) -> u32 {
    if a + b > u32::MAX {
        u32::MAX
    } else {
        (a + b) as u32
    }
}

/// Progress of the merge scan: which bodies are taken, the bodies made so
/// far, the next id and the score.
pub struct MergeScan {
    pub consumed: Seq<bool>,
    pub made: Seq<Body>,
    pub next_id: u32,
    pub score: u32,
}

/// The scan after the pair `(i, j)`: it merges when neither body is taken
/// yet, the two merge, and an id is left.
pub open spec fn merge_at(s: Seq<Body>, st: MergeScan, i: int, j: int) -> MergeScan {
    if !st.consumed[i] && !st.consumed[j] && merges(s[i], s[j]) && st.next_id < u32::MAX {
        MergeScan {
            consumed: st.consumed.update(i, true).update(j, true),
            made: st.made.push(merged_body(s[i], s[j], st.next_id)),
            next_id: (st.next_id + 1) as u32,
            score: sat_add(st.score, score_of(s[i].rank)),
        }
    } else {
        st
    }
}

/// The scan after the pairs `(i, j)`, ..., `(i, n - 1)`.
pub open spec fn merge_row(s: Seq<Body>, st: MergeScan, i: int, j: int) -> MergeScan
    decreases s.len() - j,
{
    if j < s.len() {
        merge_row(s, merge_at(s, st, i, j), i, j + 1)
    } else {
        st
    }
}

/// The scan after the rows `i`, ..., `n - 1`.
pub open spec fn merge_rows(s: Seq<Body>, st: MergeScan, i: int) -> MergeScan
    decreases s.len() - i,
{
    if i < s.len() {
        merge_rows(s, merge_row(s, st, i, i + 1), i + 1)
    } else {
        st
    }
}

/// The whole scan over the pairs `(i, j)`, `i < j`, `i` then `j` ascending.
pub open spec fn merge_scan(s: Seq<Body>, next_id: u32, score: u32) -> MergeScan {
    merge_rows(
        s,
        MergeScan { consumed: Seq::new(s.len(), |k: int| false), made: seq![], next_id, score },
        0,
    )
}

/// The bodies among the first `k` of `s` that are not taken, in order.
pub open spec fn kept(s: Seq<Body>, consumed: Seq<bool>, k: int) -> Seq<Body>
    decreases k,
{
    if k <= 0 {
        seq![]
    } else if consumed[k - 1] {
        kept(s, consumed, k - 1)
    } else {
        kept(s, consumed, k - 1).push(s[k - 1])
    }
}

/// Merge stage: the bodies left untouched, in order, then the merged ones
/// in the order they were made.
pub open spec fn merge_all(s: Seq<Body>, scan: MergeScan) -> Seq<Body> {
    kept(s, scan.consumed, s.len() as int) + scan.made
}

fn saturating_add(a: u32, b: u32) -> (r: u32)
    ensures
        r == sat_add(a, b as int),
{
    if a > u32::MAX - b {
        u32::MAX
    } else {
        a + b
    }
}

/// Merge stage (see `merge_all`): ids come from the spawner, points go to
/// the score.
pub fn apply_merges(bodies: &mut Vec<Body>, spawner: &mut Spawner, score: &mut u32)
    requires
        all_wf(old(bodies)@),
    ensures
        final(bodies)@ == merge_all(
            old(bodies)@,
            merge_scan(old(bodies)@, old(spawner).next_id, *old(score)),
        ),
        *final(spawner) == (Spawner {
            next_id: merge_scan(old(bodies)@, old(spawner).next_id, *old(score)).next_id,
            ..*old(spawner)
        }),
        *final(score) == merge_scan(old(bodies)@, old(spawner).next_id, *old(score)).score,
{
    let ghost s = bodies@;
    let ghost fin = merge_scan(s, spawner.next_id, *score);
    let n = bodies.len();
    let mut consumed: Vec<bool> = Vec::new();
    let mut k: usize = 0;
    while k < n
        invariant
            k <= n,
            consumed@ == Seq::new(k as nat, |m: int| false),
        decreases n - k,
    {
        consumed.push(false);
        k += 1;
        assert(consumed@ =~= Seq::new(k as nat, |m: int| false));
    }
    let mut made: Vec<Body> = Vec::new();
    let mut next_id: u32 = spawner.next_id;
    let mut sc: u32 = *score;
    assert(consumed@ =~= Seq::new(s.len(), |m: int| false));
    let mut i: usize = 0;
    while i < n
        invariant
            n == s.len(),
            bodies@ == s,
            all_wf(s),
            i <= n,
            consumed@.len() == n,
            merge_rows(s, MergeScan { consumed: consumed@, made: made@, next_id, score: sc }, i as int)
                == fin,
        decreases n - i,
    {
        let mut j: usize = i + 1;
        while j < n
            invariant
                n == s.len(),
                bodies@ == s,
                all_wf(s),
                i < n,
                i < j <= n,
                consumed@.len() == n,
                merge_rows(
                    s,
                    merge_row(s, MergeScan { consumed: consumed@, made: made@, next_id, score: sc }, i as int, j as int),
                    i + 1,
                ) == fin,
            decreases n - j,
        {
            let ghost st = MergeScan { consumed: consumed@, made: made@, next_id, score: sc };
            if !consumed[i] && !consumed[j] && next_id < u32::MAX {
                assert(s[i as int].wf() && s[j as int].wf());
                let a = &bodies[i];
                let b = &bodies[j];
                if a.rank == b.rank && a.rank < TOP_RANK && overlapping(a, b) {
                    made.push(merge_pair(a, b, next_id));
                    consumed.set(i, true);
                    consumed.set(j, true);
                    let points = rank_score(a.rank);
                    sc = saturating_add(sc, points);
                    next_id = next_id + 1;
                }
            }
            assert(MergeScan { consumed: consumed@, made: made@, next_id, score: sc } == merge_at(s, st, i as int, j as int));
            j += 1;
        }
        i += 1;
    }
    let mut out: Vec<Body> = Vec::new();
    let mut k: usize = 0;
    while k < n
        invariant
            n == s.len(),
            bodies@ == s,
            k <= n,
            consumed@.len() == n,
            out@ == kept(s, consumed@, k as int),
        decreases n - k,
    {
        if !consumed[k] {
            out.push(bodies[k]);
        }
        k += 1;
    }
    let m = made.len();
    let mut k: usize = 0;
    while k < m
        invariant
            m == made@.len(),
            k <= m,
            out@ == kept(s, consumed@, n as int) + made@.take(k as int),
        decreases m - k,
    {
        out.push(made[k]);
        k += 1;
        assert(made@.take(k as int) =~= made@.take(k - 1).push(made@[k - 1]));
    }
    assert(made@.take(m as int) =~= made@);
    *bodies = out;
    spawner.next_id = next_id;
    *score = sc;
}

// ----- what the merge stage preserves -----

/// The body made by a merge is well formed, one rank up, with the given id.
pub proof fn lemma_merged_wf(a: Body, b: Body, id: u32)
    requires
        a.wf(),
        b.wf(),
        a.rank < TOP_RANK,
    ensures
        merged_body(a, b, id).wf(),
        merged_body(a, b, id).id == id,
        merged_body(a, b, id).rank == a.rank + 1,
{
    lemma_div_toward_zero_abs(a.pos.x + b.pos.x, 2);
    lemma_div_toward_zero_abs(a.pos.y + b.pos.y, 2);
}

/// What holds of the scan at every step, `base` being the first id it gives.
pub open spec fn merge_inv(s: Seq<Body>, base: int, st: MergeScan) -> bool {
    &&& st.consumed.len() == s.len()
    &&& st.next_id == base + st.made.len()
    &&& forall|k: int| 0 <= k < st.made.len() ==> (#[trigger] st.made[k]).wf() && st.made[k].id == base + k
    &&& forall|k: int| 0 <= k < s.len() && #[trigger] st.consumed[k] ==> s[k].rank < TOP_RANK
}

proof fn lemma_merge_at(s: Seq<Body>, base: int, st: MergeScan, i: int, j: int)
    requires
        all_wf(s),
        merge_inv(s, base, st),
        0 <= i < j < s.len(),
    ensures
        merge_inv(s, base, merge_at(s, st, i, j)),
{
    if !st.consumed[i] && !st.consumed[j] && merges(s[i], s[j]) && st.next_id < u32::MAX {
        lemma_merged_wf(s[i], s[j], st.next_id);
        let nt = merge_at(s, st, i, j);
        assert forall|k: int| 0 <= k < s.len() && #[trigger] nt.consumed[k] implies s[k].rank < TOP_RANK by {
            if k != i && k != j {
                assert(st.consumed[k]);
            }
        }
    }
}

proof fn lemma_merge_row(s: Seq<Body>, base: int, st: MergeScan, i: int, j: int)
    requires
        all_wf(s),
        merge_inv(s, base, st),
        0 <= i < j,
        i < s.len(),
    ensures
        merge_inv(s, base, merge_row(s, st, i, j)),
    decreases s.len() - j,
{
    if j < s.len() {
        lemma_merge_at(s, base, st, i, j);
        lemma_merge_row(s, base, merge_at(s, st, i, j), i, j + 1);
    }
}

proof fn lemma_merge_rows(s: Seq<Body>, base: int, st: MergeScan, i: int)
    requires
        all_wf(s),
        merge_inv(s, base, st),
        0 <= i,
    ensures
        merge_inv(s, base, merge_rows(s, st, i)),
    decreases s.len() - i,
{
    if i < s.len() {
        lemma_merge_row(s, base, st, i, i + 1);
        lemma_merge_rows(s, base, merge_row(s, st, i, i + 1), i + 1);
    }
}

/// The kept bodies are bodies of `s` that are not taken, in order; every
/// body not taken is among them.
pub proof fn lemma_kept(s: Seq<Body>, c: Seq<bool>, k: int, bound: int)
    requires
        all_wf(s),
        ids_distinct(s),
        ids_below(s, bound),
        c.len() == s.len(),
        0 <= k <= s.len(),
    ensures
        all_wf(kept(s, c, k)),
        ids_distinct(kept(s, c, k)),
        ids_below(kept(s, c, k), bound),
        forall|x: int|
            0 <= x < kept(s, c, k).len() ==> exists|m: int|
                0 <= m < k && !c[m] && #[trigger] kept(s, c, k)[x] == s[m],
        forall|m: int|
            0 <= m < k && !c[m] ==> exists|x: int|
                0 <= x < kept(s, c, k).len() && #[trigger] kept(s, c, k)[x] == s[m],
    decreases k,
{
    if k > 0 {
        lemma_kept(s, c, k - 1, bound);
        let p = kept(s, c, k - 1);
        let t = kept(s, c, k);
        if !c[k - 1] {
            assert(t == p.push(s[k - 1]));
            assert forall|x: int| 0 <= x < t.len() implies exists|m: int|
                0 <= m < k && !c[m] && #[trigger] t[x] == s[m] by {
                if x < p.len() {
                    assert(t[x] == p[x]);
                } else {
                    assert(t[x] == s[k - 1]);
                }
            }
            assert forall|m: int| 0 <= m < k && !c[m] implies exists|x: int|
                0 <= x < t.len() && #[trigger] t[x] == s[m] by {
                if m < k - 1 {
                    let x = choose|x: int| 0 <= x < p.len() && #[trigger] p[x] == s[m];
                    assert(t[x] == p[x]);
                } else {
                    assert(t[p.len() as int] == s[m]);
                }
            }
            assert forall|x: int, y: int|
                0 <= x < t.len() && 0 <= y < t.len() && x != y implies (#[trigger] t[x]).id
                != (#[trigger] t[y]).id by {
                if x < p.len() && y < p.len() {
                    assert(t[x] == p[x] && t[y] == p[y]);
                } else if x < p.len() {
                    let m = choose|m: int| 0 <= m < k - 1 && !c[m] && #[trigger] p[x] == s[m];
                    assert(t[x] == p[x]);
                    assert(t[y] == s[k - 1]);
                } else {
                    let m = choose|m: int| 0 <= m < k - 1 && !c[m] && #[trigger] p[y] == s[m];
                    assert(t[y] == p[y]);
                    assert(t[x] == s[k - 1]);
                }
            }
            assert forall|x: int| 0 <= x < t.len() implies (#[trigger] t[x]).wf() && t[x].id < bound by {
                if x < p.len() {
                    assert(t[x] == p[x]);
                } else {
                    assert(t[x] == s[k - 1]);
                }
            }
        }
    }
}

/// The merge stage keeps the bodies well formed and their ids distinct; a
/// body after it either was there before, untouched, or is new with an id
/// the spawner had not given yet; a top-rank body is never removed.
pub proof fn lemma_merge_all(s: Seq<Body>, next_id: u32, score: u32)
    requires
        all_wf(s),
        ids_distinct(s),
        ids_below(s, next_id as int),
    ensures
        ({
            let fin = merge_scan(s, next_id, score);
            let t = merge_all(s, fin);
            &&& all_wf(t)
            &&& ids_distinct(t)
            &&& ids_below(t, fin.next_id as int)
            &&& next_id <= fin.next_id
            &&& forall|x: int|
                0 <= x < t.len() ==> (exists|m: int| 0 <= m < s.len() && #[trigger] t[x] == s[m]) || (
                next_id <= t[x].id < fin.next_id)
            &&& forall|m: int|
                0 <= m < s.len() && s[m].rank == TOP_RANK ==> exists|x: int|
                    0 <= x < t.len() && #[trigger] t[x] == s[m]
        }),
{
    let init = MergeScan { consumed: Seq::new(s.len(), |k: int| false), made: seq![], next_id, score };
    assert(merge_inv(s, next_id as int, init));
    lemma_merge_rows(s, next_id as int, init, 0);
    let fin = merge_scan(s, next_id, score);
    let kp = kept(s, fin.consumed, s.len() as int);
    lemma_kept(s, fin.consumed, s.len() as int, next_id as int);
    let t = merge_all(s, fin);
    assert forall|x: int| 0 <= x < t.len() implies (#[trigger] t[x]).wf() && t[x].id < fin.next_id by {
        if x >= kp.len() {
            assert(t[x] == fin.made[x - kp.len()]);
        } else {
            assert(t[x] == kp[x]);
        }
    }
    assert forall|x: int, y: int|
        0 <= x < t.len() && 0 <= y < t.len() && x != y implies (#[trigger] t[x]).id != (#[trigger] t[y]).id by {
        if x < kp.len() {
            assert(t[x] == kp[x]);
        } else {
            assert(t[x] == fin.made[x - kp.len()]);
        }
        if y < kp.len() {
            assert(t[y] == kp[y]);
        } else {
            assert(t[y] == fin.made[y - kp.len()]);
        }
    }
    assert forall|x: int| 0 <= x < t.len() implies (exists|m: int| 0 <= m < s.len() && #[trigger] t[x] == s[m])
        || (next_id <= t[x].id < fin.next_id) by {
        if x < kp.len() {
            assert(t[x] == kp[x]);
            let m = choose|m: int| 0 <= m < s.len() && !fin.consumed[m] && #[trigger] kp[x] == s[m];
            assert(t[x] == s[m]);
        } else {
            assert(t[x] == fin.made[x - kp.len()]);
        }
    }
    assert forall|m: int| 0 <= m < s.len() && s[m].rank == TOP_RANK implies exists|x: int|
        0 <= x < t.len() && #[trigger] t[x] == s[m] by {
        assert(!fin.consumed[m]);
        let x = choose|x: int| 0 <= x < kp.len() && #[trigger] kp[x] == s[m];
        assert(t[x] == kp[x]);
    }
}

// ----- what the other stages preserve -----

proof fn lemma_resolve_pair(a: Body, b: Body)
    requires
        a.wf(),
        b.wf(),
    ensures
        resolve_pair(a, b).0.wf(),
        resolve_pair(a, b).1.wf(),
        resolve_pair(a, b).0.id == a.id && resolve_pair(a, b).0.rank == a.rank,
        resolve_pair(a, b).1.id == b.id && resolve_pair(a, b).1.rank == b.rank,
{
}

proof fn lemma_collide_row(s: Seq<Body>, i: int, j: int, n: int)
    requires
        all_wf(s),
        n == s.len(),
        0 <= i < j,
        i < n,
    ensures
        same_bodies(s, collide_row(s, i, j, n)),
    decreases n - j,
{
    if j < n {
        lemma_resolve_pair(s[i], s[j]);
        let s1 = collide_at(s, i, j);
        assert(same_bodies(s, s1));
        lemma_collide_row(s1, i, j + 1, n);
    }
}

proof fn lemma_collide_rows(s: Seq<Body>, i: int, n: int)
    requires
        all_wf(s),
        n == s.len(),
        0 <= i,
    ensures
        same_bodies(s, collide_rows(s, i, n)),
    decreases n - i,
{
    if i < n {
        lemma_collide_row(s, i, i + 1, n);
        lemma_collide_rows(collide_row(s, i, i + 1, n), i + 1, n);
    }
}

/// The collision stage keeps every body in its place, with its id and rank,
/// well formed.
pub proof fn lemma_collide_all(s: Seq<Body>)
    requires
        all_wf(s),
    ensures
        same_bodies(s, collide_all(s)),
{
    lemma_collide_rows(s, 0, s.len() as int);
}

/// Bodies with the same ids in the same places have distinct ids, below a
/// bound, as the originals do.
pub proof fn lemma_same_bodies_ids(s: Seq<Body>, t: Seq<Body>, bound: int)
    requires
        same_bodies(s, t),
        ids_distinct(s),
        ids_below(s, bound),
    ensures
        ids_distinct(t),
        ids_below(t, bound),
        all_wf(t),
{
    assert forall|i: int, j: int|
        0 <= i < t.len() && 0 <= j < t.len() && i != j implies (#[trigger] t[i]).id != (#[trigger] t[j]).id by {
        assert(s[i].id != s[j].id);
    }
    assert forall|k: int| 0 <= k < t.len() implies (#[trigger] t[k]).id < bound by {
        assert(s[k].id < bound);
    }
}

/// Gravity, the walls and the Verlet step keep every body in its place,
/// with its id and rank, well formed.
pub proof fn lemma_map_stages(s: Seq<Body>, dt: int)
    requires
        all_wf(s),
        0 <= dt <= MAX_DT_US,
    ensures
        same_bodies(s, gravity_all(s)),
        same_bodies(s, constrain_all(s)),
        same_bodies(s, integrate_all(s, dt)),
{
    assert forall|k: int| 0 <= k < s.len() implies (#[trigger] gravity_all(s)[k]).wf() by {
        assert(s[k].wf());
    }
    assert forall|k: int| 0 <= k < s.len() implies (#[trigger] constrain_all(s)[k]).wf() by {
        assert(s[k].wf());
        lemma_radius_bounds(s[k].rank);
    }
    assert forall|k: int| 0 <= k < s.len() implies (#[trigger] integrate_all(s, dt)[k]).wf() by {
        assert(s[k].wf());
    }
}

} // verus!
