use std::collections::HashSet;

use fruit_merge::body::Body;
use fruit_merge::config::{Vec2i, WallLocation, rank_hue, rank_radius, rank_score, N_RANKS, TOP_RANK};
use fruit_merge::fixed::{clamp_sym, quot, sqrt_ceil, sqrt_floor};
use fruit_merge::physics::{collide_pair, merge_pair};
use fruit_merge::spawner::{draw_spawn_rank, Spawner};
use fruit_merge::stages::{apply_collisions, apply_gravity, apply_merges, overlapping};
use fruit_merge::world::World;

const DT: u64 = 16_667;

fn moving(id: u32, rank: u8, x: i64, y: i64, dx: i64, dy: i64) -> Body {
    let mut b = Body::new(id, rank, Vec2i { x, y });
    b.set_displacement(Vec2i { x: dx, y: dy });
    b
}

fn world_of(bodies: Vec<Body>, next_id: u32) -> World {
    let mut spawner = Spawner::new(0);
    spawner.next_id = next_id;
    World { bodies, spawner, score: 0 }
}

#[test]
fn merge_conservation() {
    let a = moving(0, 2, 0, 0, 100, 0);
    let b = moving(1, 2, 30_000, 0, -300, 0);
    let mut w = world_of(vec![a, b], 2);
    w.tick(DT);
    assert_eq!(w.bodies.len(), 1);
    let m = w.bodies[0];
    assert_eq!(m.rank, 3);
    assert_eq!(m.id, 2);
    assert_eq!(m.radius, 40_000);
    assert_eq!(w.score, 6);
    assert_eq!(w.spawner.next_id, 3);
    // made at the midpoint, with the average velocity (-100, 0)
    assert_eq!(m.pos_prev, Vec2i { x: 15_000, y: 0 });
    assert_eq!(m.pos, Vec2i { x: 14_900, y: 0 });
}

#[test]
fn merge_pair_midpoint_and_average_velocity() {
    let a = moving(4, 0, -1_001, 500, 10, -20);
    let b = moving(5, 0, 2_000, -500, 30, 40);
    let m = merge_pair(&a, &b, 9);
    assert_eq!(m.id, 9);
    assert_eq!(m.rank, 1);
    assert_eq!(m.radius, 25_000);
    assert_eq!(m.pos, Vec2i { x: 499, y: 0 });
    assert_eq!(m.displacement(), Vec2i { x: 20, y: 10 });
    assert_eq!(m.accel, Vec2i { x: 0, y: 0 });
}

#[test]
fn top_rank_immunity() {
    let a = Body::new(0, TOP_RANK, Vec2i { x: 0, y: 0 });
    let b = Body::new(1, TOP_RANK, Vec2i { x: 100_000, y: 0 });
    let mut w = world_of(vec![a, b], 2);
    w.tick(DT);
    assert_eq!(w.bodies.len(), 2);
    assert_eq!(w.score, 0);
    assert_eq!(w.spawner.next_id, 2);
    assert_eq!(w.bodies[0].id, 0);
    assert_eq!(w.bodies[1].id, 1);
    assert_eq!(w.bodies[0].rank, TOP_RANK);
    assert_eq!(w.bodies[1].rank, TOP_RANK);
    // pushed apart by 37 500 each, then the speed cap holds the step to 13 333
    assert_eq!(w.bodies[0].pos_prev, Vec2i { x: -37_500, y: 0 });
    assert_eq!(w.bodies[1].pos_prev, Vec2i { x: 137_500, y: 0 });
    assert_eq!(w.bodies[0].pos, Vec2i { x: -50_833, y: -555 });
    assert_eq!(w.bodies[1].pos, Vec2i { x: 150_833, y: -555 });
}

#[test]
fn mass_ordering_in_collision() {
    let large = Body::new(0, 9, Vec2i { x: 0, y: 0 });
    let small = Body::new(1, 0, Vec2i { x: 100_000, y: 0 });
    let (l, s) = collide_pair(&large, &small);
    assert_eq!(l.pos, Vec2i { x: -2_592, y: 0 });
    assert_eq!(s.pos, Vec2i { x: 114_907, y: 0 });
    let moved_large = (l.pos.x - large.pos.x).abs();
    let moved_small = (s.pos.x - small.pos.x).abs();
    assert!(moved_small > moved_large);
    // a hundredth of the correction goes into the velocity
    assert_eq!(l.pos_prev, Vec2i { x: 25, y: 0 });
    assert_eq!(s.pos_prev, Vec2i { x: 99_851, y: 0 });
}

#[test]
fn collision_at_equal_centres_is_skipped() {
    let a = Body::new(0, 3, Vec2i { x: 7, y: 7 });
    let b = Body::new(1, 5, Vec2i { x: 7, y: 7 });
    let (ra, rb) = collide_pair(&a, &b);
    assert_eq!(ra, a);
    assert_eq!(rb, b);
}

#[test]
fn separated_bodies_do_not_collide() {
    let a = Body::new(0, 0, Vec2i { x: 0, y: 0 });
    let b = Body::new(1, 0, Vec2i { x: 40_000, y: 0 });
    assert!(!overlapping(&a, &b));
    let (ra, rb) = collide_pair(&a, &b);
    assert_eq!(ra, a);
    assert_eq!(rb, b);
    let c = Body::new(2, 0, Vec2i { x: 39_999, y: 0 });
    assert!(overlapping(&a, &c));
}

#[test]
fn wall_containment_bottom() {
    let mut b = moving(0, 0, 0, -340_000, 0, -10_000);
    b.constrain();
    assert_eq!(b.pos, Vec2i { x: 0, y: -325_000 });
    assert!(b.pos.y - b.radius >= -345_000);
    assert_eq!(b.displacement(), Vec2i { x: 0, y: 4_000 });
}

#[test]
fn wall_containment_left_and_right() {
    let mut l = moving(0, 0, -260_000, 0, -5_000, 1_000);
    l.constrain();
    assert_eq!(l.pos, Vec2i { x: -245_000, y: 0 });
    assert_eq!(l.displacement(), Vec2i { x: 2_000, y: 950 });
    let mut r = moving(1, 1, 250_000, 0, 3_000, -2_000);
    r.constrain();
    assert_eq!(r.pos, Vec2i { x: 240_000, y: 0 });
    assert_eq!(r.displacement(), Vec2i { x: -1_200, y: -1_900 });
}

#[test]
fn wall_containment_corner() {
    let mut b = moving(0, 0, -300_000, -400_000, -1_000, -1_000);
    b.constrain();
    assert_eq!(b.pos, Vec2i { x: -245_000, y: -325_000 });
    assert!(b.pos.x - b.radius >= -265_000);
    assert!(b.pos.y - b.radius >= -345_000);
}

#[test]
fn speed_cap_straight() {
    let mut b = moving(0, 0, 0, 0, 100_000, 0);
    b.integrate(DT);
    assert_eq!(b.displacement(), Vec2i { x: 13_333, y: 0 });
}

#[test]
fn speed_cap_diagonal() {
    let mut b = moving(0, 0, 0, 0, 30_000, 40_000);
    b.integrate(DT);
    let d = b.displacement();
    assert_eq!(d, Vec2i { x: 7_999, y: 10_666 });
    let cap: i128 = 13_333;
    assert!((d.x as i128) * (d.x as i128) + (d.y as i128) * (d.y as i128) <= cap * cap);
}

#[test]
fn speed_cap_with_huge_acceleration() {
    let mut b = moving(0, 0, 0, 0, 0, 0);
    b.accel = Vec2i { x: 0, y: -1_000_000_000 };
    b.integrate(DT);
    // the carried velocity is capped; this tick's acceleration is added on top
    assert_eq!(b.displacement(), Vec2i { x: 0, y: -277_788 });
    b.integrate(DT);
    assert_eq!(b.displacement(), Vec2i { x: 0, y: -13_333 });
}

#[test]
fn gravity_step_over_one_tick() {
    let mut bodies = vec![Body::new(0, 0, Vec2i { x: 0, y: 0 })];
    apply_gravity(&mut bodies);
    assert_eq!(bodies[0].accel, Vec2i { x: 0, y: -2_000_000 });
    bodies[0].integrate(DT);
    assert_eq!(bodies[0].pos, Vec2i { x: 0, y: -555 });
    assert_eq!(bodies[0].accel, Vec2i { x: 0, y: 0 });
}

#[test]
fn gravity_saturates() {
    let mut b = Body::new(0, 0, Vec2i { x: 0, y: 0 });
    b.accel.y = -999_999_000_000;
    b.apply_gravity();
    assert_eq!(b.accel.y, -1_000_000_000_000);
}

#[test]
fn rest_state_is_kept() {
    let b = Body::new(0, 4, Vec2i { x: 1_000, y: 2_000 });
    let mut once = b;
    once.constrain();
    assert_eq!(once, b);
    once.integrate(DT);
    assert_eq!(once, b);
    let mut bodies = vec![b];
    apply_collisions(&mut bodies);
    assert_eq!(bodies, vec![b]);
    let mut spawner = Spawner::new(0);
    spawner.next_id = 1;
    let mut score: u32 = 0;
    apply_merges(&mut bodies, &mut spawner, &mut score);
    assert_eq!(bodies, vec![b]);
    // a whole tick: only gravity moves it
    let mut w = world_of(vec![b], 1);
    w.tick(DT);
    assert_eq!(w.bodies[0].pos_prev, b.pos);
    assert_eq!(w.bodies[0].pos, Vec2i { x: 1_000, y: 2_000 - 555 });
}

#[test]
fn merge_first_match_order() {
    let a = Body::new(0, 1, Vec2i { x: 0, y: 0 });
    let b = Body::new(1, 1, Vec2i { x: 10_000, y: 0 });
    let c = Body::new(2, 1, Vec2i { x: 20_000, y: 0 });
    let mut bodies = vec![a, b, c];
    let mut spawner = Spawner::new(0);
    spawner.next_id = 3;
    let mut score: u32 = 0;
    apply_merges(&mut bodies, &mut spawner, &mut score);
    assert_eq!(bodies.len(), 2);
    assert_eq!(bodies[0], c);
    assert_eq!(bodies[1].id, 3);
    assert_eq!(bodies[1].rank, 2);
    assert_eq!(bodies[1].pos, Vec2i { x: 5_000, y: 0 });
    assert_eq!(score, 3);
    assert_eq!(spawner.next_id, 4);
}

#[test]
fn merge_result_waits_a_tick() {
    let a = Body::new(0, 0, Vec2i { x: 0, y: 0 });
    let b = Body::new(1, 0, Vec2i { x: 2_000, y: 0 });
    let c = Body::new(2, 1, Vec2i { x: 1_000, y: 0 });
    let mut bodies = vec![a, b, c];
    let mut spawner = Spawner::new(0);
    spawner.next_id = 3;
    let mut score: u32 = 0;
    apply_merges(&mut bodies, &mut spawner, &mut score);
    assert_eq!(bodies.len(), 2);
    assert_eq!(bodies[0], c);
    assert_eq!(bodies[1].rank, 1);
    assert_eq!(score, 1);
    apply_merges(&mut bodies, &mut spawner, &mut score);
    assert_eq!(bodies.len(), 1);
    assert_eq!(bodies[0].rank, 2);
    assert_eq!(bodies[0].id, 4);
    assert_eq!(score, 4);
}

#[test]
fn merge_needs_a_free_id() {
    let a = Body::new(0, 0, Vec2i { x: 0, y: 0 });
    let b = Body::new(1, 0, Vec2i { x: 2_000, y: 0 });
    let mut bodies = vec![a, b];
    let mut spawner = Spawner::new(0);
    spawner.next_id = u32::MAX;
    let mut score: u32 = 0;
    apply_merges(&mut bodies, &mut spawner, &mut score);
    assert_eq!(bodies, vec![a, b]);
    assert_eq!(score, 0);
}

#[test]
fn score_saturates() {
    let a = Body::new(0, 9, Vec2i { x: 0, y: 0 });
    let b = Body::new(1, 9, Vec2i { x: 2_000, y: 0 });
    let mut bodies = vec![a, b];
    let mut spawner = Spawner::new(0);
    spawner.next_id = 2;
    let mut score: u32 = u32::MAX - 10;
    apply_merges(&mut bodies, &mut spawner, &mut score);
    assert_eq!(score, u32::MAX);
    assert_eq!(bodies[0].rank, TOP_RANK);
}

#[test]
fn no_id_reuse() {
    let mut w = World::new_with_rank(0);
    let mut ever: HashSet<u32> = HashSet::new();
    let mut gone: HashSet<u32> = HashSet::new();
    let mut merges_seen = false;
    for step in 0..900u32 {
        let direction: i8 = if step % 300 < 150 { 0 } else { 1 };
        w.apply_input_with_rank(direction, true, DT, 0);
        let before = w.bodies.len();
        w.tick(DT);
        if w.bodies.len() < before {
            merges_seen = true;
        }
        let live: HashSet<u32> = w.bodies.iter().map(|b| b.id).collect();
        assert_eq!(live.len(), w.bodies.len());
        for id in &live {
            assert!(!gone.contains(id));
            assert!(*id < w.spawner.next_id);
        }
        for id in &ever {
            if !live.contains(id) {
                gone.insert(*id);
            }
        }
        ever.extend(live);
    }
    assert!(merges_seen);
    assert!(!gone.is_empty());
}

#[test]
fn spawner_cooldown_and_ids() {
    let mut sp = Spawner::new(3);
    assert!(!sp.can_spawn());
    assert_eq!(sp.spawn_with_rank(Vec2i { x: 0, y: 300_000 }, 1), None);
    sp.advance(1);
    assert!(sp.can_spawn());
    let b = sp.spawn_with_rank(Vec2i { x: 5, y: 300_000 }, 1).unwrap();
    assert_eq!(b.id, 0);
    assert_eq!(b.rank, 3);
    assert_eq!(b.pos, Vec2i { x: 5, y: 300_000 });
    assert_eq!(b.pos_prev, b.pos);
    assert_eq!(b.angle, 785_398);
    assert_eq!(sp.next_id, 1);
    assert_eq!(sp.next_rank, 1);
    assert_eq!(sp.cooldown_us, 0);
    assert!(!sp.can_spawn());
    assert_eq!(sp.spawn_with_rank(Vec2i { x: 5, y: 300_000 }, 2), None);
    assert_eq!(sp.next_id, 1);
}

#[test]
fn spawner_ids_run_out() {
    let mut sp = Spawner::new(0);
    sp.next_id = u32::MAX;
    sp.advance(1);
    assert_eq!(sp.spawn_with_rank(Vec2i { x: 0, y: 0 }, 0), None);
}

#[test]
fn spawner_steering_is_clamped() {
    let mut sp = Spawner::new(0);
    sp.steer(1, DT);
    assert_eq!(sp.x, 10_000);
    sp.steer(-1, DT);
    sp.steer(-1, DT);
    assert_eq!(sp.x, -10_000);
    sp.x = 240_000;
    sp.steer(1, DT);
    assert_eq!(sp.x, 245_000);
    sp.x = -244_000;
    sp.steer(-1, DT);
    assert_eq!(sp.x, -245_000);
}

#[test]
fn input_moves_only_after_cooldown() {
    let mut w = World::new_with_rank(2);
    w.apply_input_with_rank(1, true, DT, 4);
    assert_eq!(w.bodies.len(), 1);
    assert_eq!(w.bodies[0].rank, 2);
    assert_eq!(w.bodies[0].pos, Vec2i { x: 0, y: 300_000 });
    assert_eq!(w.spawner.next_rank, 4);
    assert_eq!(w.spawner.x, 10_000);
    // cooling down: no drop, no move
    w.apply_input_with_rank(1, true, DT, 0);
    assert_eq!(w.bodies.len(), 1);
    assert_eq!(w.spawner.x, 10_000);
}

#[test]
fn random_ranks_are_in_the_spawn_range() {
    for _ in 0..500 {
        assert!(draw_spawn_rank() < 5);
    }
    for _ in 0..50 {
        let w = World::new();
        assert!(w.spawner.next_rank < 5);
        let mut sp = Spawner::new(0);
        sp.advance(1);
        let b = sp.spawn(Vec2i { x: 0, y: 0 }).unwrap();
        assert_eq!(b.rank, 0);
        assert!(sp.next_rank < 5);
    }
}

#[test]
fn rank_table() {
    let radii: Vec<i64> = (0..N_RANKS).map(rank_radius).collect();
    assert_eq!(
        radii,
        vec![20_000, 25_000, 35_000, 40_000, 50_000, 60_000, 75_000, 95_000, 105_000, 115_000, 125_000]
    );
    for k in 1..radii.len() {
        assert!(radii[k - 1] < radii[k]);
    }
    let scores: Vec<u32> = (0..N_RANKS).map(rank_score).collect();
    assert_eq!(scores, vec![1, 3, 6, 10, 15, 21, 28, 36, 45, 55, 0]);
    assert_eq!(rank_hue(0), 0);
    assert_eq!(rank_hue(7), 70);
}

#[test]
fn wall_geometry() {
    assert_eq!(WallLocation::Left.position(), Vec2i { x: -270_000, y: -50_000 });
    assert_eq!(WallLocation::Right.position(), Vec2i { x: 270_000, y: -50_000 });
    assert_eq!(WallLocation::Bottom.position(), Vec2i { x: 0, y: -350_000 });
    assert_eq!(WallLocation::Top.position(), Vec2i { x: 0, y: 250_000 });
    assert_eq!(WallLocation::Left.size(), Vec2i { x: 10_000, y: 610_000 });
    assert_eq!(WallLocation::Top.size(), Vec2i { x: 550_000, y: 10_000 });
}

#[test]
fn velocity_through_previous_position() {
    let mut b = Body::new(0, 0, Vec2i { x: 100, y: 200 });
    b.set_displacement(Vec2i { x: 3, y: -4 });
    assert_eq!(b.pos_prev, Vec2i { x: 97, y: 204 });
    assert_eq!(b.displacement(), Vec2i { x: 3, y: -4 });
    b.add_displacement(Vec2i { x: 1, y: 1 });
    assert_eq!(b.displacement(), Vec2i { x: 4, y: -3 });
    assert_eq!(b.pos, Vec2i { x: 100, y: 200 });
    b.set_angular_displacement(10);
    assert_eq!(b.angular_displacement(), 10);
    b.add_angular_displacement(-3);
    assert_eq!(b.angular_displacement(), 7);
    assert_eq!(b.angle, 785_398);
}

#[test]
fn integer_helpers() {
    assert_eq!(sqrt_floor(0), 0);
    assert_eq!(sqrt_floor(15), 3);
    assert_eq!(sqrt_floor(16), 4);
    assert_eq!(sqrt_floor(10_000_000_000), 100_000);
    assert_eq!(sqrt_ceil(15), 4);
    assert_eq!(sqrt_ceil(16), 4);
    assert_eq!(quot(-7, 2), -3);
    assert_eq!(quot(7, 2), 3);
    assert_eq!(clamp_sym(5, 3), 3);
    assert_eq!(clamp_sym(-5, 3), -3);
    assert_eq!(clamp_sym(2, 3), 2);
}
