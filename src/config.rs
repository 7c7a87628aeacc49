//! Physical constants, the arena and the rank table.
//!
//! Lengths are in thousandths of a pixel, times in microseconds, angles in
//! microradians.
use vstd::prelude::*;

verus! {

/// Length units per pixel.
pub const UNITS_PER_PIXEL: i64 = 1000;

/// Microseconds per second.
pub const MICROS_PER_SECOND: i64 = 1_000_000;

/// Number of ranks in the rank table.
pub const N_RANKS: u8 = 11;

/// The highest rank: two bodies of it do not merge.
pub const TOP_RANK: u8 = 10;

/// A new body dropped by the player has a rank below this one.
pub const SPAWN_RANKS: u8 = 5;

/// Downward acceleration, in units per second squared.
pub const GRAVITY: i64 = 2_000_000;

/// Speed cap, in units per second.
pub const MAX_SPEED: i64 = 800_000;

/// Horizontal speed of the drop point, in units per second.
pub const PLAYER_SPEED: i64 = 600_000;

/// Restitution at a wall: the normal velocity is scaled by `BOUNCE_NUM / BOUNCE_DEN`.
pub const BOUNCE_NUM: i64 = 4;

pub const BOUNCE_DEN: i64 = 10;

/// Friction at a wall: the tangential velocity is scaled by `FRICTION_NUM / FRICTION_DEN`.
pub const FRICTION_NUM: i64 = 95;

pub const FRICTION_DEN: i64 = 100;

/// A collision's positional correction also changes the velocity by
/// `1 / VELOCITY_RESPONSE_DEN` of it, through the previous position.
pub const VELOCITY_RESPONSE_DEN: i64 = 100;

/// Arena edges (centre lines of the walls).
pub const LEFT_WALL: i64 = -270_000;

pub const RIGHT_WALL: i64 = 270_000;

pub const BOTTOM_WALL: i64 = -350_000;

pub const TOP_WALL: i64 = 250_000;

pub const WALL_THICKNESS: i64 = 10_000;

pub const HALF_WALL: i64 = 5_000;

/// Lowest height a body's centre may have: the floor plus the radius.
pub open spec fn floor_level(radius: int) -> int {
    BOTTOM_WALL + HALF_WALL + radius
}

/// Leftmost x a body's centre may have.
pub open spec fn left_level(radius: int) -> int {
    LEFT_WALL + HALF_WALL + radius
}

/// Rightmost x a body's centre may have.
pub open spec fn right_level(radius: int) -> int {
    RIGHT_WALL - HALF_WALL - radius
}

/// Height of the drop point.
pub const SPAWNER_Y: i64 = 300_000;

/// Time that must pass between two drops, in microseconds.
pub const SPAWN_INTERVAL_US: u64 = 500_000;

/// Orientation of a new body (a quarter of pi, in microradians).
pub const START_ANGLE: i64 = 785_398;

/// Coordinates and angles saturate at this magnitude.
pub const COORD_LIMIT: i64 = 1_000_000_000_000;

/// Accelerations saturate at this magnitude.
pub const ACCEL_LIMIT: i64 = 1_000_000_000_000;

/// The longest tick, in microseconds.
pub const MAX_DT_US: u64 = 1_000_000;

/// Radius of a body of `rank`.
pub open spec fn radius_of(rank: u8) -> int {
    if rank == 0 {
        20_000
    } else if rank == 1 {
        25_000
    } else if rank == 2 {
        35_000
    } else if rank == 3 {
        40_000
    } else if rank == 4 {
        50_000
    } else if rank == 5 {
        60_000
    } else if rank == 6 {
        75_000
    } else if rank == 7 {
        95_000
    } else if rank == 8 {
        105_000
    } else if rank == 9 {
        115_000
    } else {
        125_000
    }
}

/// Points added to the score when two bodies of `rank` merge.
pub open spec fn score_of(rank: u8) -> int {
    if rank == 0 {
        1
    } else if rank == 1 {
        3
    } else if rank == 2 {
        6
    } else if rank == 3 {
        10
    } else if rank == 4 {
        15
    } else if rank == 5 {
        21
    } else if rank == 6 {
        28
    } else if rank == 7 {
        36
    } else if rank == 8 {
        45
    } else if rank == 9 {
        55
    } else {
        0
    }
}

/// Hue of a body of `rank`, in degrees.
pub open spec fn hue_of(rank: u8) -> int {
    10 * rank
}

/// Radius of a body of `rank`.
pub fn rank_radius(rank: u8) -> (r: i64)
    requires
        rank < N_RANKS,
    ensures
        r == radius_of(rank),
        20_000 <= r <= 125_000,
{
    if rank == 0 {
        20_000
    } else if rank == 1 {
        25_000
    } else if rank == 2 {
        35_000
    } else if rank == 3 {
        40_000
    } else if rank == 4 {
        50_000
    } else if rank == 5 {
        60_000
    } else if rank == 6 {
        75_000
    } else if rank == 7 {
        95_000
    } else if rank == 8 {
        105_000
    } else if rank == 9 {
        115_000
    } else {
        125_000
    }
}

/// Points for merging two bodies of `rank`.
pub fn rank_score(rank: u8) -> (r: u32)
    requires
        rank < N_RANKS,
    ensures
        r == score_of(rank),
{
    if rank == 0 {
        1
    } else if rank == 1 {
        3
    } else if rank == 2 {
        6
    } else if rank == 3 {
        10
    } else if rank == 4 {
        15
    } else if rank == 5 {
        21
    } else if rank == 6 {
        28
    } else if rank == 7 {
        36
    } else if rank == 8 {
        45
    } else if rank == 9 {
        55
    } else {
        0
    }
}

/// Hue of a body of `rank`, in degrees.
pub fn rank_hue(rank: u8) -> (r: u32)
    requires
        rank < N_RANKS,
    ensures
        r == hue_of(rank),
{
    10 * rank as u32
}

/// The radius grows strictly with the rank.
pub proof fn lemma_radius_increases(a: u8, b: u8)
    requires
        a < b < N_RANKS,
    ensures
        radius_of(a) < radius_of(b),
{
}

/// Radii lie between the smallest and the largest entry of the table.
pub proof fn lemma_radius_bounds(rank: u8)
    ensures
        20_000 <= radius_of(rank) <= 125_000,
{
}

/// One of the four walls around the arena.
#[derive(Clone, Copy, Debug, PartialEq, Eq, Structural)]
pub enum WallLocation {
    Left,
    Right,
    Bottom,
    Top,
}

/// A point or a vector of the plane, in length units.
#[derive(Clone, Copy, Debug, PartialEq, Eq, Structural)]
pub struct Vec2i {
    pub x: i64,
    pub y: i64,
}

impl WallLocation {
    /// Centre of the wall.
    pub fn position(&self) -> (r: Vec2i)
        ensures
            *self == WallLocation::Left ==> r.x == LEFT_WALL && r.y == (TOP_WALL + BOTTOM_WALL) / 2,
            *self == WallLocation::Right ==> r.x == RIGHT_WALL && r.y == (TOP_WALL + BOTTOM_WALL) / 2,
            *self == WallLocation::Bottom ==> r.x == 0 && r.y == BOTTOM_WALL,
            *self == WallLocation::Top ==> r.x == 0 && r.y == TOP_WALL,
    {
        match self {
            WallLocation::Left => Vec2i { x: LEFT_WALL, y: (TOP_WALL + BOTTOM_WALL) / 2 },
            WallLocation::Right => Vec2i { x: RIGHT_WALL, y: (TOP_WALL + BOTTOM_WALL) / 2 },
            WallLocation::Bottom => Vec2i { x: 0, y: BOTTOM_WALL },
            WallLocation::Top => Vec2i { x: 0, y: TOP_WALL },
        }
    }

    /// Width and height of the wall.
    pub fn size(&self) -> (r: Vec2i)
        ensures
            (*self == WallLocation::Left || *self == WallLocation::Right) ==> r.x == WALL_THICKNESS
                && r.y == TOP_WALL - BOTTOM_WALL + WALL_THICKNESS,
            (*self == WallLocation::Bottom || *self == WallLocation::Top) ==> r.x == RIGHT_WALL
                - LEFT_WALL + WALL_THICKNESS && r.y == WALL_THICKNESS,
            r.x > 0,
            r.y > 0,
    {
        let arena_height: i64 = TOP_WALL - BOTTOM_WALL;
        let arena_width: i64 = RIGHT_WALL - LEFT_WALL;
        match self {
            WallLocation::Left | WallLocation::Right => Vec2i {
                x: WALL_THICKNESS,
                y: arena_height + WALL_THICKNESS,
            },
            WallLocation::Bottom | WallLocation::Top => Vec2i {
                x: arena_width + WALL_THICKNESS,
                y: WALL_THICKNESS,
            },
        }
    }
}

} // verus!
