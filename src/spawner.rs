//! The player's drop point: where the next body falls, which rank it has,
//! which id it gets, and how long since the last drop.
use vstd::prelude::*;
use rand::Rng;
use crate::config::{
    Vec2i, radius_of, rank_radius, SPAWN_RANKS, SPAWN_INTERVAL_US, PLAYER_SPEED,
    MICROS_PER_SECOND, LEFT_WALL, RIGHT_WALL, HALF_WALL, MAX_DT_US, lemma_radius_bounds,
};
use crate::fixed::{div_toward_zero, clamp_to, quot, lemma_div_toward_zero_abs};
use crate::body::{Body, coord_ok, point_ok};

verus! {

/// Relies on rand's `thread_rng().gen_range(0..n)`: a value of `0..n`,
/// drawn at random; it panics on an empty range.
#[verifier::external_body]
fn draw_below(n: u8) -> (r: u8)
    requires
        n > 0,
    ensures
        r < n,
{
    rand::thread_rng().gen_range(0..n)
}

/// Draws the rank of the body the player drops next.
pub fn draw_spawn_rank() -> (r: u8)
    ensures
        r < SPAWN_RANKS,
{
    draw_below(SPAWN_RANKS)
}

/// Leftmost x of the drop point while the next body has `rank`.
pub open spec fn steer_lo(rank: u8) -> int {
    LEFT_WALL + radius_of(rank) + HALF_WALL
}

/// Rightmost x of the drop point while the next body has `rank`.
pub open spec fn steer_hi(rank: u8) -> int {
    RIGHT_WALL - radius_of(rank) - HALF_WALL
}

/// The drop point.
#[derive(Clone, Copy, Debug, PartialEq, Eq, Structural)]
pub struct Spawner {
    /// Id of the next body, whether dropped or made by a merge.
    pub next_id: u32,
    /// Rank of the next dropped body.
    pub next_rank: u8,
    /// Horizontal position of the drop point.
    pub x: i64,
    /// Microseconds since the last drop (saturating).
    pub cooldown_us: u64,
}

impl Spawner {
    pub open spec fn wf(&self) -> bool {
        self.next_rank < SPAWN_RANKS && coord_ok(self.x as int)
    }

    /// Whether the time since the last drop exceeds the drop interval.
    pub open spec fn ready(&self) -> bool {
        self.cooldown_us > SPAWN_INTERVAL_US
    }

    /// The spawner after a drop of a body at `pos`, the next rank being
    /// `drawn`: `None` and no change while cooling down or when ids are used
    /// up; else the body, the id advanced, the new rank, the time reset.
    pub open spec fn spawned(self, pos: Vec2i, drawn: u8) -> (Spawner, Option<Body>) {
        if !self.ready() || self.next_id == u32::MAX {
            (self, None)
        } else {
            (
                Spawner {
                    next_id: (self.next_id + 1) as u32,
                    next_rank: drawn,
                    cooldown_us: 0,
                    ..self
                },
                Some(Body::at_rest(self.next_id, self.next_rank, pos)),
            )
        }
    }

    /// The drop point's x after a move in `direction` over `dt_us`
    /// microseconds, held between the walls less the next body's radius.
    pub open spec fn steered_x(self, direction: i8, dt_us: u64) -> int {
        clamp_to(
            self.x + div_toward_zero(direction * PLAYER_SPEED * dt_us, MICROS_PER_SECOND as int),
            steer_lo(self.next_rank),
            steer_hi(self.next_rank),
        )
    }

    /// A spawner at the centre, ready to drop a body of `first_rank` once
    /// the next tick has passed.
    pub open spec fn new_spec(first_rank: u8) -> Spawner {
        Spawner { next_id: 0, next_rank: first_rank, x: 0, cooldown_us: SPAWN_INTERVAL_US }
    }

    /// A spawner at the centre (see `new_spec`).
    pub fn new(first_rank: u8) -> (r: Spawner)
        requires
            first_rank < SPAWN_RANKS,
        ensures
            r == Spawner::new_spec(first_rank),
            r.wf(),
    {
        Spawner { next_id: 0, next_rank: first_rank, x: 0, cooldown_us: SPAWN_INTERVAL_US }
    }

    /// Lets `dt_us` microseconds pass.
    pub fn advance(&mut self, dt_us: u64)
        ensures
            *final(self) == (Spawner {
                cooldown_us: if old(self).cooldown_us + dt_us > u64::MAX {
                    u64::MAX
                } else {
                    (old(self).cooldown_us + dt_us) as u64
                },
                ..*old(self)
            }),
    {
        self.cooldown_us = if self.cooldown_us > u64::MAX - dt_us {
            u64::MAX
        } else {
            self.cooldown_us + dt_us
        };
    }

    /// Whether a body may be dropped now.
    pub fn can_spawn(&self) -> (r: bool)
        ensures
            r == self.ready(),
    {
        self.cooldown_us > SPAWN_INTERVAL_US
    }

    /// Drops a body at `pos`, making `drawn` the next rank (see `spawned`).
    pub fn spawn_with_rank(&mut self, pos: Vec2i, drawn: u8) -> (r: Option<Body>)
        requires
            old(self).wf(),
            point_ok(pos),
            drawn < SPAWN_RANKS,
        ensures
            (*final(self), r) == old(self).spawned(pos, drawn),
            final(self).wf(),
            r matches Some(b) ==> b.wf(),
    {
        if !self.can_spawn() || self.next_id == u32::MAX {
            return None;
        }
        let b = Body::new(self.next_id, self.next_rank, pos);
        self.next_id = self.next_id + 1;
        self.next_rank = drawn;
        self.cooldown_us = 0;
        Some(b)
    }

    /// Drops a body at `pos` and draws the next rank at random.
    pub fn spawn(&mut self, pos: Vec2i) -> (r: Option<Body>)
        requires
            old(self).wf(),
            point_ok(pos),
        ensures
            exists|drawn: u8| drawn < SPAWN_RANKS && (*final(self), r) == old(self).spawned(pos, drawn),
            final(self).wf(),
            r matches Some(b) ==> b.wf(),
    {
        let drawn = draw_spawn_rank();
        self.spawn_with_rank(pos, drawn)
    }

    /// Moves the drop point in `direction` (-1, 0 or 1) for `dt_us`
    /// microseconds and holds it inside the walls.
    pub fn steer(&mut self, direction: i8, dt_us: u64)
        requires
            old(self).wf(),
            -1 <= direction <= 1,
            dt_us <= MAX_DT_US,
        ensures
            *final(self) == (Spawner { x: old(self).steered_x(direction, dt_us) as i64, ..*old(self) }),
            final(self).wf(),
    {
        proof {
            lemma_radius_bounds(self.next_rank);
        }
        let r = rank_radius(self.next_rank) as i128;
        assert(-PLAYER_SPEED * MAX_DT_US <= direction * PLAYER_SPEED * dt_us <= PLAYER_SPEED
            * MAX_DT_US) by (nonlinear_arith)
            requires
                -1 <= direction <= 1,
                0 <= dt_us <= MAX_DT_US,
        ;
        let step = quot(direction as i128 * PLAYER_SPEED as i128 * dt_us as i128, MICROS_PER_SECOND as i128);
        proof {
            lemma_div_toward_zero_abs(direction * PLAYER_SPEED * dt_us, MICROS_PER_SECOND as int);
        }
        let nx: i128 = self.x as i128 + step;
        let lo: i128 = LEFT_WALL as i128 + r + HALF_WALL as i128;
        let hi: i128 = RIGHT_WALL as i128 - r - HALF_WALL as i128;
        let x: i128 = if nx < lo {
            lo
        } else if nx > hi {
            hi
        } else {
            nx
        };
        self.x = x as i64;
    }
}

} // verus!
