//! Properties of the simulation that relate several of its operations.
use vstd::prelude::*;
use crate::config::{
    MAX_DT_US, SPAWN_RANKS, TOP_RANK, BOTTOM_WALL, LEFT_WALL, RIGHT_WALL, HALF_WALL, BOUNCE_NUM,
    BOUNCE_DEN, score_of, lemma_radius_bounds,
};
use crate::body::{Body, zero, coord_ok};
use crate::fixed::{
    div_toward_zero, lemma_div_toward_zero_abs, lemma_ceil_sqrt, ceil_sqrt, lemma_floor_sqrt_exists,
};
use crate::physics::{
    merges, merged_body, gravity_body, constrain_body, integrate_body, resolve_pair, overlap, norm2,
    separation, shift, capped, speed_cap, accel_step,
};
use vstd::arithmetic::div_mod::lemma_div_is_ordered;
use vstd::math::abs;
use crate::spawner::Spawner;
use crate::stages::{
    sat_add, merge_at, merge_row, merge_rows, kept, MergeScan, collide_row, collide_rows, lemma_merged_wf,
    gravity_all, merge_all, merge_scan, collide_all, constrain_all, integrate_all, lemma_map_stages,
    lemma_merge_all, lemma_collide_all, lemma_same_bodies_ids,
};
use crate::world::{world_wf, tick_bodies, tick_next_id, tick_score, input_step};

verus! {

/// Ids are never reused across ticks: after a tick the bodies' ids are still
/// distinct, the spawner's next id has not gone down, and every body either
/// has the id of a body before the tick or an id at or above the spawner's
/// next id before it, which no body had been given.
pub proof fn lemma_tick_ids_fresh(s: Seq<Body>, sp: Spawner, score: u32, dt: int)
    requires
        world_wf(s, sp),
        0 < dt <= MAX_DT_US,
    ensures
        world_wf(tick_bodies(s, sp.next_id, score, dt), Spawner { next_id: tick_next_id(s, sp.next_id, score), ..sp }),
        sp.next_id <= tick_next_id(s, sp.next_id, score),
        forall|x: int|
            0 <= x < tick_bodies(s, sp.next_id, score, dt).len() ==> (exists|m: int|
                0 <= m < s.len() && (#[trigger] tick_bodies(s, sp.next_id, score, dt)[x]).id == s[m].id)
                || sp.next_id <= tick_bodies(s, sp.next_id, score, dt)[x].id,
{
    let g = gravity_all(s);
    lemma_map_stages(s, dt);
    lemma_same_bodies_ids(s, g, sp.next_id as int);
    lemma_merge_all(g, sp.next_id, score);
    let fin = merge_scan(g, sp.next_id, score);
    let m = merge_all(g, fin);
    let c = collide_all(m);
    lemma_collide_all(m);
    lemma_same_bodies_ids(m, c, fin.next_id as int);
    let k = constrain_all(c);
    lemma_map_stages(c, dt);
    lemma_same_bodies_ids(c, k, fin.next_id as int);
    let f = integrate_all(k, dt);
    lemma_map_stages(k, dt);
    lemma_same_bodies_ids(k, f, fin.next_id as int);
    assert(f == tick_bodies(s, sp.next_id, score, dt));
    assert forall|x: int| 0 <= x < f.len() implies (exists|j: int|
        0 <= j < s.len() && (#[trigger] f[x]).id == s[j].id) || sp.next_id <= f[x].id by {
        assert(f[x].id == k[x].id && k[x].id == c[x].id && c[x].id == m[x].id);
        if sp.next_id > m[x].id {
            let j = choose|j: int| 0 <= j < g.len() && #[trigger] m[x] == g[j];
            assert(g[j].id == s[j].id);
        }
    }
}

/// Ids are never reused by drops: after the player's input the bodies' ids
/// are still distinct; a dropped body has the spawner's next id, which then
/// goes up by one.
pub proof fn lemma_input_ids_fresh(
    s: Seq<Body>,
    sp: Spawner,
    direction: i8,
    spawn_requested: bool,
    dt: u64,
    drawn: u8,
)
    requires
        world_wf(s, sp),
        -1 <= direction <= 1,
        dt <= MAX_DT_US,
        drawn < SPAWN_RANKS,
    ensures
        ({
            let (t, sp2) = input_step(s, sp, direction, spawn_requested, dt, drawn);
            &&& world_wf(t, sp2)
            &&& t.len() == s.len() || t.len() == s.len() + 1
            &&& forall|k: int| 0 <= k < s.len() ==> t[k] == s[k]
            &&& t.len() == s.len() ==> sp2.next_id == sp.next_id
            &&& t.len() == s.len() + 1 ==> t[s.len() as int].id == sp.next_id && sp2.next_id == sp.next_id + 1
        }),
{
    let (t, sp2) = input_step(s, sp, direction, spawn_requested, dt, drawn);
    lemma_radius_bounds(sp.next_rank);
    lemma_radius_bounds(drawn);
    if t.len() == s.len() + 1 {
        assert forall|i: int, j: int|
            0 <= i < t.len() && 0 <= j < t.len() && i != j implies (#[trigger] t[i]).id != (#[trigger] t[j]).id by {
            if i < s.len() && j < s.len() {
                assert(t[i] == s[i] && t[j] == s[j]);
            } else if i < s.len() {
                assert(t[i] == s[i]);
            } else {
                assert(t[j] == s[j]);
            }
        }
        assert forall|k: int| 0 <= k < t.len() implies (#[trigger] t[k]).wf() && t[k].id < sp2.next_id by {
            if k < s.len() {
                assert(t[k] == s[k]);
            }
        }
    }
}

/// The body touches no wall.
pub open spec fn clear_of_walls(b: Body) -> bool {
    &&& b.pos.y - b.radius >= BOTTOM_WALL + HALF_WALL
    &&& b.pos.x - b.radius >= LEFT_WALL + HALF_WALL
    &&& b.pos.x + b.radius <= RIGHT_WALL - HALF_WALL
}

/// Merge conservation: two overlapping bodies of one rank below the top,
/// alone in the arena, leave after one tick exactly one body, one rank
/// higher, with the spawner's next id; it was made at the midpoint of their
/// positions (and, away from the walls, its Verlet step starts there); the
/// score goes up by the rank's points.
pub proof fn lemma_merge_conservation(a: Body, b: Body, next_id: u32, score: u32, dt: int)
    requires
        a.wf(),
        b.wf(),
        merges(a, b),
        next_id < u32::MAX,
        0 < dt <= MAX_DT_US,
    ensures
        ({
            let g = gravity_all(seq![a, b]);
            merge_all(g, merge_scan(g, next_id, score)) == seq![merged_body(a, b, next_id)]
        }),
        merged_body(a, b, next_id).pos.x == div_toward_zero(a.pos.x + b.pos.x, 2),
        merged_body(a, b, next_id).pos.y == div_toward_zero(a.pos.y + b.pos.y, 2),
        tick_bodies(seq![a, b], next_id, score, dt).len() == 1,
        tick_bodies(seq![a, b], next_id, score, dt)[0].rank == a.rank + 1,
        tick_bodies(seq![a, b], next_id, score, dt)[0].id == next_id,
        tick_next_id(seq![a, b], next_id, score) == next_id + 1,
        tick_score(seq![a, b], next_id, score) == sat_add(score, score_of(a.rank)),
        score + score_of(a.rank) <= u32::MAX ==> tick_score(seq![a, b], next_id, score) == score
            + score_of(a.rank),
        clear_of_walls(merged_body(a, b, next_id)) ==> tick_bodies(seq![a, b], next_id, score, dt)[0].pos_prev
            == merged_body(a, b, next_id).pos,
{
    let s = seq![a, b];
    let g = gravity_all(s);
    assert(g[0] == gravity_body(a) && g[1] == gravity_body(b));
    let init = MergeScan { consumed: Seq::new(2, |k: int| false), made: seq![], next_id, score };
    let m = merged_body(a, b, next_id);
    assert(merged_body(g[0], g[1], next_id) == m);
    let st1 = merge_at(g, init, 0, 1);
    assert(merge_row(g, init, 0, 1) == merge_row(g, st1, 0, 2));
    assert(merge_row(g, init, 0, 1) == st1);
    assert(merge_row(g, st1, 1, 2) == st1);
    assert(merge_rows(g, st1, 1) == merge_rows(g, st1, 2));
    assert(merge_rows(g, init, 0) == st1);
    let fin = merge_scan(g, next_id, score);
    assert(fin == st1);
    assert(kept(g, fin.consumed, 2) == kept(g, fin.consumed, 1));
    assert(kept(g, fin.consumed, 1) == kept(g, fin.consumed, 0));
    assert(merge_all(g, fin) =~= seq![m]);
    lemma_merged_wf(a, b, next_id);
    lemma_collide_single(m);
    let c = collide_all(seq![m]);
    let k = constrain_all(c);
    assert(k[0] == constrain_body(m));
    let f = integrate_all(k, dt);
    assert(f[0] == integrate_body(constrain_body(m), dt));
}

/// With a single body the collision stage has no pair to resolve.
proof fn lemma_collide_single(b: Body)
    ensures
        collide_all(seq![b]) == seq![b],
{
    let s = seq![b];
    assert(s.len() == 1);
    assert(collide_row(s, 0, 1, 1) == s);
    assert(collide_rows(s, 1, 1) == s);
    assert(collide_rows(s, 0, 1) == collide_rows(collide_row(s, 0, 1, 1), 1, 1));
}

/// Top-rank immunity: two bodies of the top rank, overlapping or not, are
/// not merged: the merge stage leaves them as they are, no id is used, the
/// score stays, and both are there after the tick.
pub proof fn lemma_top_rank_immunity(a: Body, b: Body, next_id: u32, score: u32, dt: int)
    requires
        a.wf(),
        b.wf(),
        a.rank == TOP_RANK,
        b.rank == TOP_RANK,
        0 < dt <= MAX_DT_US,
    ensures
        ({
            let g = gravity_all(seq![a, b]);
            merge_all(g, merge_scan(g, next_id, score)) == g
        }),
        tick_bodies(seq![a, b], next_id, score, dt).len() == 2,
        tick_bodies(seq![a, b], next_id, score, dt)[0].id == a.id,
        tick_bodies(seq![a, b], next_id, score, dt)[1].id == b.id,
        tick_bodies(seq![a, b], next_id, score, dt)[0].rank == TOP_RANK,
        tick_bodies(seq![a, b], next_id, score, dt)[1].rank == TOP_RANK,
        tick_next_id(seq![a, b], next_id, score) == next_id,
        tick_score(seq![a, b], next_id, score) == score,
{
    let s = seq![a, b];
    let g = gravity_all(s);
    assert(g[0] == gravity_body(a) && g[1] == gravity_body(b));
    let init = MergeScan { consumed: Seq::new(2, |k: int| false), made: seq![], next_id, score };
    assert(merge_at(g, init, 0, 1) == init);
    assert(merge_row(g, init, 0, 1) == merge_row(g, init, 0, 2));
    assert(merge_row(g, init, 1, 2) == init);
    assert(merge_rows(g, init, 1) == merge_rows(g, init, 2));
    assert(merge_rows(g, init, 0) == init);
    let fin = merge_scan(g, next_id, score);
    assert(fin == init);
    assert(kept(g, fin.consumed, 0) == Seq::<Body>::empty());
    assert(kept(g, fin.consumed, 1) =~= seq![g[0]]);
    assert(kept(g, fin.consumed, 2) =~= g);
    assert(merge_all(g, fin) =~= g);
    lemma_map_stages(s, dt);
    let c = collide_all(g);
    lemma_collide_all(g);
    let k = constrain_all(c);
    lemma_map_stages(c, dt);
    let f = integrate_all(k, dt);
    lemma_map_stages(k, dt);
}

/// A body at rest: no velocity, no spin, no acceleration.
pub open spec fn at_rest(b: Body) -> bool {
    &&& b.pos == b.pos_prev
    &&& b.angle == b.angle_prev
    &&& b.accel == zero()
    &&& b.angular_accel == 0
}

/// Rest is kept: a body at rest, alone and clear of the walls, is left
/// exactly as it is by merging, collision, the walls and the Verlet step;
/// in a whole tick only gravity moves it, so its previous position after
/// the tick is where it rested.
pub proof fn lemma_rest_is_kept(b: Body, next_id: u32, score: u32, dt: int)
    requires
        b.wf(),
        at_rest(b),
        clear_of_walls(b),
        0 < dt <= MAX_DT_US,
    ensures
        merge_all(seq![b], merge_scan(seq![b], next_id, score)) == seq![b],
        merge_scan(seq![b], next_id, score).next_id == next_id,
        merge_scan(seq![b], next_id, score).score == score,
        collide_all(seq![b]) == seq![b],
        constrain_body(b) == b,
        integrate_body(b, dt) == b,
        tick_bodies(seq![b], next_id, score, dt) == seq![integrate_body(gravity_body(b), dt)],
        tick_bodies(seq![b], next_id, score, dt)[0].pos_prev == b.pos,
{
    let s = seq![b];
    let init = MergeScan { consumed: Seq::new(1, |k: int| false), made: seq![], next_id, score };
    assert(merge_row(s, init, 0, 1) == init);
    assert(merge_rows(s, init, 1) == init);
    assert(merge_rows(s, init, 0) == init);
    assert(kept(s, init.consumed, 0) == Seq::<Body>::empty());
    assert(kept(s, init.consumed, 1) =~= s);
    assert(merge_all(s, init) =~= s);
    assert(integrate_body(b, dt) == b);
    lemma_collide_single(b);
    let g = gravity_all(s);
    assert(g[0] == gravity_body(b));
    let init_g = MergeScan { consumed: Seq::new(1, |k: int| false), made: seq![], next_id, score };
    assert(merge_row(g, init_g, 0, 1) == init_g);
    assert(merge_rows(g, init_g, 1) == init_g);
    assert(merge_rows(g, init_g, 0) == init_g);
    assert(kept(g, init_g.consumed, 0) == Seq::<Body>::empty());
    assert(kept(g, init_g.consumed, 1) =~= g);
    assert(merge_all(g, init_g) =~= g);
    lemma_collide_single(g[0]);
    assert(g =~= seq![g[0]]);
    assert(collide_all(g) == g);
    assert(constrain_body(g[0]) == g[0]);
    assert(constrain_all(g) =~= g);
    assert(integrate_all(g, dt) =~= seq![integrate_body(gravity_body(b), dt)]);
}

/// Mass ordering in a collision: of two overlapping bodies at distinct
/// centres, the smaller one (`b`) receives along each axis a correction at
/// least as large as the larger one's; and each body moves by exactly its
/// correction wherever the new position is in the representable range.
pub proof fn lemma_smaller_moves_more(a: Body, b: Body)
    requires
        a.wf(),
        b.wf(),
        overlap(a, b),
        norm2(b.pos.x - a.pos.x, b.pos.y - a.pos.y) > 0,
        b.radius < a.radius,
    ensures
        ({
            let dx = b.pos.x - a.pos.x;
            let dy = b.pos.y - a.pos.y;
            let rsum = a.radius + b.radius;
            let dist = separation(a, b);
            let gap = rsum - dist;
            let sa_x = shift(dx, b.radius as int, gap, dist, rsum);
            let sa_y = shift(dy, b.radius as int, gap, dist, rsum);
            let sb_x = shift(dx, a.radius as int, gap, dist, rsum);
            let sb_y = shift(dy, a.radius as int, gap, dist, rsum);
            let r = resolve_pair(a, b);
            &&& abs(sb_x) >= abs(sa_x)
            &&& abs(sb_y) >= abs(sa_y)
            &&& coord_ok(a.pos.x - sa_x) ==> r.0.pos.x == a.pos.x - sa_x
            &&& coord_ok(a.pos.y - sa_y) ==> r.0.pos.y == a.pos.y - sa_y
            &&& coord_ok(b.pos.x + sb_x) ==> r.1.pos.x == b.pos.x + sb_x
            &&& coord_ok(b.pos.y + sb_y) ==> r.1.pos.y == b.pos.y + sb_y
        }),
{
    let dx = b.pos.x - a.pos.x;
    let dy = b.pos.y - a.pos.y;
    let rsum = a.radius + b.radius;
    let n = norm2(dx, dy);
    lemma_floor_sqrt_exists(n as nat);
    let dist = separation(a, b);
    lemma_radius_bounds(a.rank);
    lemma_radius_bounds(b.rank);
    assert(0 < dist < rsum) by (nonlinear_arith)
        requires
            dist * dist <= n < (dist + 1) * (dist + 1),
            0 <= dist,
            n < rsum * rsum,
            n > 0,
            rsum > 0,
    ;
    let gap = rsum - dist;
    let den = 2 * dist * rsum;
    assert(den > 0) by (nonlinear_arith)
        requires
            den == 2 * dist * rsum,
            dist > 0,
            rsum > 0,
    ;
    lemma_axis(dx, a.radius as int, b.radius as int, gap, den);
    lemma_axis(dy, a.radius as int, b.radius as int, gap, den);
}

proof fn lemma_axis(d: int, ra: int, rb: int, gap: int, den: int)
    requires
        0 < rb < ra,
        gap > 0,
        den > 0,
    ensures
        abs(div_toward_zero(d * ra * gap, den)) >= abs(div_toward_zero(d * rb * gap, den)),
{
    let big = d * ra * gap;
    let small = d * rb * gap;
    lemma_div_toward_zero_abs(big, den);
    lemma_div_toward_zero_abs(small, den);
    let mb = if big >= 0 { big } else { -big };
    let ms = if small >= 0 { small } else { -small };
    let md = if d >= 0 { d } else { -d };
    assert(mb == md * ra * gap && ms == md * rb * gap) by (nonlinear_arith)
        requires
            big == d * ra * gap,
            small == d * rb * gap,
            md == (if d >= 0 { d } else { -d }),
            mb == (if big >= 0 { big } else { -big }),
            ms == (if small >= 0 { small } else { -small }),
            ra > 0,
            rb > 0,
            gap > 0,
    ;
    assert(ms <= mb) by (nonlinear_arith)
        requires
            mb == md * ra * gap,
            ms == md * rb * gap,
            md >= 0,
            0 < rb < ra,
            gap > 0,
    ;
    lemma_div_is_ordered(ms, mb, den);
}

/// Wall containment: after the wall constraints a body lies inside the
/// arena (on or above the floor, between the side walls); a body that was
/// below the floor, clear of the side walls, leaves with its vertical
/// velocity reversed and scaled by the restitution, and one past a side
/// wall, on or above the floor, with its horizontal velocity so.
pub proof fn lemma_wall_containment(b: Body)
    requires
        b.wf(),
    ensures
        ({
            let c = constrain_body(b);
            &&& c.pos.y - c.radius >= BOTTOM_WALL + HALF_WALL
            &&& c.pos.x - c.radius >= LEFT_WALL + HALF_WALL
            &&& c.pos.x + c.radius <= RIGHT_WALL - HALF_WALL
            &&& (b.pos.y - b.radius < BOTTOM_WALL + HALF_WALL && b.pos.x - b.radius >= LEFT_WALL
                + HALF_WALL && b.pos.x + b.radius <= RIGHT_WALL - HALF_WALL) ==> c.disp_y()
                == div_toward_zero(-b.disp_y() * BOUNCE_NUM, BOUNCE_DEN as int)
            &&& (b.pos.y - b.radius >= BOTTOM_WALL + HALF_WALL && (b.pos.x - b.radius < LEFT_WALL
                + HALF_WALL || b.pos.x + b.radius > RIGHT_WALL - HALF_WALL)) ==> c.disp_x()
                == div_toward_zero(-b.disp_x() * BOUNCE_NUM, BOUNCE_DEN as int)
        }),
{
    lemma_radius_bounds(b.rank);
    lemma_div_toward_zero_abs(-b.disp_y() * BOUNCE_NUM, BOUNCE_DEN as int);
    lemma_div_toward_zero_abs(-b.disp_x() * BOUNCE_NUM, BOUNCE_DEN as int);
}

/// Speed cap: the displacement a body carries into its Verlet step is at
/// most the cap for the tick; without acceleration the body's displacement
/// after the step, its derived velocity, is within the cap too.
pub proof fn lemma_speed_cap(b: Body, dt: int)
    requires
        b.wf(),
        0 < dt <= MAX_DT_US,
    ensures
        ({
            let cap = speed_cap(dt);
            let vx = capped(b.disp_x(), b.disp_x(), b.disp_y(), cap);
            let vy = capped(b.disp_y(), b.disp_x(), b.disp_y(), cap);
            &&& norm2(vx, vy) <= cap * cap
            &&& (b.accel == zero() ==> norm2(integrate_body(b, dt).disp_x(), integrate_body(b, dt).disp_y())
                <= cap * cap)
        }),
{
    let cap = speed_cap(dt);
    let dx = b.disp_x();
    let dy = b.disp_y();
    let n = norm2(dx, dy);
    let vx = capped(dx, dx, dy, cap);
    let vy = capped(dy, dx, dy, cap);
    assert(cap >= 0) by (nonlinear_arith)
        requires
            cap == speed_cap(dt),
            dt > 0,
    ;
    if n >= cap * cap && n > 0 {
        let s = ceil_sqrt(n as nat) as int;
        lemma_ceil_sqrt(n as nat);
        assert(s > 0) by (nonlinear_arith)
            requires
                n <= s * s,
                n > 0,
                s >= 0,
        ;
        lemma_div_toward_zero_abs(dx * cap, s);
        lemma_div_toward_zero_abs(dy * cap, s);
        lemma_scaled_within(dx, dy, cap, s, n, vx, vy);
    } else {
        assert(n < cap * cap || n == 0);
        assert(n <= cap * cap) by (nonlinear_arith)
            requires
                n < cap * cap || n == 0,
                cap >= 0,
        ;
    }
    if b.accel == zero() {
        let c = integrate_body(b, dt);
        assert(accel_step(0, dt) == 0);
        assert(abs(c.disp_x()) <= abs(vx));
        assert(abs(c.disp_y()) <= abs(vy));
        assert(norm2(c.disp_x(), c.disp_y()) <= norm2(vx, vy)) by (nonlinear_arith)
            requires
                abs(c.disp_x()) <= abs(vx),
                abs(c.disp_y()) <= abs(vy),
        ;
    }
}

/// A vector scaled by `cap / s`, rounded toward zero, with `s * s` at
/// least its squared length, has squared length at most `cap * cap`.
proof fn lemma_scaled_within(dx: int, dy: int, cap: int, s: int, n: int, vx: int, vy: int)
    requires
        s > 0,
        cap >= 0,
        n == dx * dx + dy * dy,
        n <= s * s,
        vx == div_toward_zero(dx * cap, s),
        vy == div_toward_zero(dy * cap, s),
    ensures
        vx * vx + vy * vy <= cap * cap,
{
    lemma_div_toward_zero_abs(dx * cap, s);
    lemma_div_toward_zero_abs(dy * cap, s);
    let ax = abs(vx) as int;
    let ay = abs(vy) as int;
    let mx = abs(dx * cap) as int;
    let my = abs(dy * cap) as int;
    assert(ax * s <= mx) by (nonlinear_arith)
        requires
            ax == mx / s,
            s > 0,
            mx >= 0,
    ;
    assert(ay * s <= my) by (nonlinear_arith)
        requires
            ay == my / s,
            s > 0,
            my >= 0,
    ;
    assert(mx * mx == dx * dx * cap * cap && my * my == dy * dy * cap * cap) by (nonlinear_arith)
        requires
            mx == abs(dx * cap),
            my == abs(dy * cap),
    ;
    assert((ax * s) * (ax * s) <= mx * mx) by (nonlinear_arith)
        requires
            0 <= ax * s <= mx,
    ;
    assert((ay * s) * (ay * s) <= my * my) by (nonlinear_arith)
        requires
            0 <= ay * s <= my,
    ;
    assert((ax * s) * (ax * s) == (ax * ax) * (s * s)) by (nonlinear_arith);
    assert((ay * s) * (ay * s) == (ay * ay) * (s * s)) by (nonlinear_arith);
    assert(dx * dx * cap * cap + dy * dy * cap * cap == n * (cap * cap)) by (nonlinear_arith)
        requires
            n == dx * dx + dy * dy,
    ;
    assert((ax * ax + ay * ay) * (s * s) == (ax * ax) * (s * s) + (ay * ay) * (s * s)) by (nonlinear_arith);
    assert((ax * ax + ay * ay) * (s * s) <= n * (cap * cap));
    assert((ax * ax + ay * ay) * (s * s) <= (s * s) * (cap * cap)) by (nonlinear_arith)
        requires
            (ax * ax + ay * ay) * (s * s) <= n * (cap * cap),
            n <= s * s,
            cap * cap >= 0,
    ;
    assert(ax * ax + ay * ay <= cap * cap) by (nonlinear_arith)
        requires
            (ax * ax + ay * ay) * (s * s) <= (s * s) * (cap * cap),
            s > 0,
    ;
    assert(vx * vx == ax * ax && vy * vy == ay * ay) by (nonlinear_arith)
        requires
            ax == abs(vx),
            ay == abs(vy),
    ;
}

} // verus!
