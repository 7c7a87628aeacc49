//! The whole simulation: bodies, spawner and score, advanced one tick at a
//! time, with the player's input applied between ticks.
use vstd::prelude::*;
use crate::config::{Vec2i, SPAWN_RANKS, SPAWNER_Y, MAX_DT_US};
use crate::body::Body;
use crate::spawner::{Spawner, draw_spawn_rank};
use crate::stages::{
    all_wf, ids_distinct, ids_below, gravity_all, constrain_all, integrate_all,
    collide_all, merge_all, merge_scan, apply_gravity, apply_merges, apply_collisions,
    apply_constraint, apply_integration, lemma_merge_all, lemma_same_bodies_ids,
};

verus! {

/// Bodies and spawner fit together: every body is well formed, ids are
/// distinct and all below the spawner's next id, the spawner is well formed.
pub open spec fn world_wf(bodies: Seq<Body>, spawner: Spawner) -> bool {
    &&& all_wf(bodies)
    &&& ids_distinct(bodies)
    &&& ids_below(bodies, spawner.next_id as int)
    &&& spawner.wf()
}

/// The bodies after one tick of `dt` microseconds: gravity, merging,
/// collision, walls, integration.
pub open spec fn tick_bodies(s: Seq<Body>, next_id: u32, score: u32, dt: int) -> Seq<Body> {
    let g = gravity_all(s);
    integrate_all(constrain_all(collide_all(merge_all(g, merge_scan(g, next_id, score)))), dt)
}

/// The spawner's next id after one tick.
pub open spec fn tick_next_id(s: Seq<Body>, next_id: u32, score: u32) -> u32 {
    merge_scan(gravity_all(s), next_id, score).next_id
}

/// The score after one tick.
pub open spec fn tick_score(s: Seq<Body>, next_id: u32, score: u32) -> u32 {
    merge_scan(gravity_all(s), next_id, score).score
}

/// The spawner after `dt` microseconds pass.
pub open spec fn advanced(sp: Spawner, dt: u64) -> Spawner {
    Spawner {
        cooldown_us: if sp.cooldown_us + dt > u64::MAX { u64::MAX } else { (sp.cooldown_us + dt) as u64 },
        ..sp
    }
}

/// Bodies and spawner after the player's input for one tick: time passes;
/// once the drop interval is over the move is taken and, if asked, a body
/// is dropped below the drop point (`drawn` being the next rank); then the
/// drop point moves and is held inside the walls.
pub open spec fn input_step(
    s: Seq<Body>,
    sp: Spawner,
    direction: i8,
    spawn_requested: bool,
    dt: u64,
    drawn: u8,
) -> (Seq<Body>, Spawner) {
    let a = advanced(sp, dt);
    if !a.ready() {
        (s, Spawner { x: a.steered_x(0, dt) as i64, ..a })
    } else if !spawn_requested {
        (s, Spawner { x: a.steered_x(direction, dt) as i64, ..a })
    } else {
        let (b, dropped) = a.spawned(Vec2i { x: a.x, y: SPAWNER_Y }, drawn);
        let t = match dropped {
            Some(body) => s.push(body),
            None => s,
        };
        (t, Spawner { x: b.steered_x(direction, dt) as i64, ..b })
    }
}

/// The simulation state.
pub struct World {
    pub bodies: Vec<Body>,
    pub spawner: Spawner,
    pub score: u32,
}

impl World {
    pub open spec fn wf(&self) -> bool {
        world_wf(self.bodies@, self.spawner)
    }

    /// An empty arena, the first body to drop being of `first_rank`.
    pub fn new_with_rank(first_rank: u8) -> (r: World)
        requires
            first_rank < SPAWN_RANKS,
        ensures
            r.bodies@.len() == 0,
            r.spawner == Spawner::new_spec(first_rank),
            r.score == 0,
            r.wf(),
    {
        World { bodies: Vec::new(), spawner: Spawner::new(first_rank), score: 0 }
    }

    /// An empty arena, the first body's rank drawn at random.
    pub fn new() -> (r: World)
        ensures
            r.bodies@.len() == 0,
            exists|first: u8| first < SPAWN_RANKS && r.spawner == Spawner::new_spec(first),
            r.score == 0,
            r.wf(),
    {
        let first = draw_spawn_rank();
        World::new_with_rank(first)
    }

    /// One tick of `dt_us` microseconds: gravity, merging, collision, walls,
    /// integration, in that order. The ids of the bodies after it are
    /// distinct; each is the id of a body before it, or one the spawner had
    /// not given before.
    pub fn tick(&mut self, dt_us: u64)
        requires
            old(self).wf(),
            0 < dt_us <= MAX_DT_US,
        ensures
            final(self).bodies@ == tick_bodies(old(self).bodies@, old(self).spawner.next_id, old(self).score, dt_us as int),
            final(self).spawner == (Spawner {
                next_id: tick_next_id(old(self).bodies@, old(self).spawner.next_id, old(self).score),
                ..old(self).spawner
            }),
            final(self).score == tick_score(old(self).bodies@, old(self).spawner.next_id, old(self).score),
            final(self).wf(),
            old(self).spawner.next_id <= final(self).spawner.next_id,
            forall|x: int|
                0 <= x < final(self).bodies@.len() ==> (exists|m: int|
                    0 <= m < old(self).bodies@.len() && (#[trigger] final(self).bodies@[x]).id == old(self).bodies@[m].id)
                    || old(self).spawner.next_id <= final(self).bodies@[x].id,
    {
        let ghost s = self.bodies@;
        let ghost next0 = self.spawner.next_id;
        let ghost score0 = self.score;
        apply_gravity(&mut self.bodies);
        let ghost g = self.bodies@;
        proof {
            lemma_same_bodies_ids(s, g, next0 as int);
            lemma_merge_all(g, next0, score0);
        }
        apply_merges(&mut self.bodies, &mut self.spawner, &mut self.score);
        let ghost m = self.bodies@;
        apply_collisions(&mut self.bodies);
        let ghost c = self.bodies@;
        proof {
            lemma_same_bodies_ids(m, c, self.spawner.next_id as int);
        }
        apply_constraint(&mut self.bodies);
        let ghost k = self.bodies@;
        proof {
            lemma_same_bodies_ids(c, k, self.spawner.next_id as int);
        }
        apply_integration(&mut self.bodies, dt_us);
        proof {
            lemma_same_bodies_ids(k, self.bodies@, self.spawner.next_id as int);
            let f = self.bodies@;
            assert forall|x: int| 0 <= x < f.len() implies (exists|j: int|
                0 <= j < s.len() && (#[trigger] f[x]).id == s[j].id) || next0 <= f[x].id by {
                assert(f[x].id == k[x].id && k[x].id == c[x].id && c[x].id == m[x].id);
                if next0 > m[x].id {
                    let j = choose|j: int| 0 <= j < g.len() && #[trigger] m[x] == g[j];
                    assert(g[j].id == s[j].id);
                }
            }
        }
    }

    /// The player's input for one tick, `drawn` being the rank that follows
    /// a drop (see `input_step`).
    pub fn apply_input_with_rank(&mut self, direction: i8, spawn_requested: bool, dt_us: u64, drawn: u8)
        requires
            old(self).wf(),
            -1 <= direction <= 1,
            dt_us <= MAX_DT_US,
            drawn < SPAWN_RANKS,
        ensures
            (final(self).bodies@, final(self).spawner) == input_step(
                old(self).bodies@,
                old(self).spawner,
                direction,
                spawn_requested,
                dt_us,
                drawn,
            ),
            final(self).score == old(self).score,
            final(self).wf(),
    {
        self.spawner.advance(dt_us);
        let mut dir: i8 = 0;
        if self.spawner.can_spawn() {
            dir = direction;
            if spawn_requested {
                let pos = Vec2i { x: self.spawner.x, y: SPAWNER_Y };
                let ghost s = self.bodies@;
                let ghost next0 = self.spawner.next_id;
                let dropped = self.spawner.spawn_with_rank(pos, drawn);
                if let Some(b) = dropped {
                    self.bodies.push(b);
                    proof {
                        let t = self.bodies@;
                        assert forall|i: int, j: int|
                            0 <= i < t.len() && 0 <= j < t.len() && i != j implies (#[trigger] t[i]).id
                            != (#[trigger] t[j]).id by {
                            if i < s.len() && j < s.len() {
                                assert(t[i] == s[i] && t[j] == s[j]);
                            } else if i < s.len() {
                                assert(t[i] == s[i]);
                            } else {
                                assert(t[j] == s[j]);
                            }
                        }
                        assert forall|k: int| 0 <= k < t.len() implies (#[trigger] t[k]).wf() && t[k].id
                            < self.spawner.next_id by {
                            if k < s.len() {
                                assert(t[k] == s[k]);
                            }
                        }
                    }
                }
            }
        }
        self.spawner.steer(dir, dt_us);
    }

    /// The player's input for one tick; the rank after a drop is drawn at
    /// random.
    pub fn apply_input(&mut self, direction: i8, spawn_requested: bool, dt_us: u64)
        requires
            old(self).wf(),
            -1 <= direction <= 1,
            dt_us <= MAX_DT_US,
        ensures
            exists|drawn: u8|
                drawn < SPAWN_RANKS && (final(self).bodies@, final(self).spawner) == input_step(
                    old(self).bodies@,
                    old(self).spawner,
                    direction,
                    spawn_requested,
                    dt_us,
                    drawn,
                ),
            final(self).score == old(self).score,
            final(self).wf(),
    {
        let drawn = draw_spawn_rank();
        self.apply_input_with_rank(direction, spawn_requested, dt_us, drawn);
    }
}

} // verus!
