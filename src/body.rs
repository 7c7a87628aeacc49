//! A body: its state, its well-formedness, and velocity read and written
//! through the previous position.
use vstd::prelude::*;
use crate::config::{
    Vec2i, radius_of, rank_radius, N_RANKS, COORD_LIMIT, ACCEL_LIMIT, START_ANGLE,
};
use crate::fixed::{clamp_to, clamp_sym};

verus! {

/// `v` is a coordinate or an angle in the representable range.
pub open spec fn coord_ok(v: int) -> bool {
    -COORD_LIMIT <= v <= COORD_LIMIT
}

/// `v` is an acceleration in the representable range.
pub open spec fn accel_ok(v: int) -> bool {
    -ACCEL_LIMIT <= v <= ACCEL_LIMIT
}

/// `v` saturated to the representable range of coordinates.
pub open spec fn sat_coord(v: int) -> int {
    clamp_to(v, -COORD_LIMIT, COORD_LIMIT as int)
}

/// The point `(x, y)`, each coordinate saturated.
pub open spec fn sat_point(x: int, y: int) -> Vec2i {
    Vec2i { x: sat_coord(x) as i64, y: sat_coord(y) as i64 }
}

pub open spec fn point_ok(p: Vec2i) -> bool {
    coord_ok(p.x as int) && coord_ok(p.y as int)
}

/// The zero vector.
pub open spec fn zero() -> Vec2i {
    Vec2i { x: 0, y: 0 }
}

/// Builds the point `(x, y)`, each coordinate saturated.
pub fn saturated_point(x: i128, y: i128) -> (r: Vec2i)
    ensures
        r == sat_point(x as int, y as int),
        point_ok(r),
{
    Vec2i { x: clamp_sym(x, COORD_LIMIT), y: clamp_sym(y, COORD_LIMIT) }
}

/// One falling body.
///
/// Its velocity is never stored: it is the displacement `pos - pos_prev`
/// over one tick, and likewise for the angle.
#[derive(Clone, Copy, Debug, PartialEq, Eq, Structural)]
pub struct Body {
    pub id: u32,
    pub rank: u8,
    pub pos: Vec2i,
    pub pos_prev: Vec2i,
    pub accel: Vec2i,
    pub angle: i64,
    pub angle_prev: i64,
    pub angular_accel: i64,
    pub radius: i64,
}

impl Body {
    /// The rank is in the table, the radius is the rank's, and every
    /// quantity is in its representable range.
    pub open spec fn wf(&self) -> bool {
        &&& self.rank < N_RANKS
        &&& self.radius == radius_of(self.rank)
        &&& point_ok(self.pos)
        &&& point_ok(self.pos_prev)
        &&& accel_ok(self.accel.x as int)
        &&& accel_ok(self.accel.y as int)
        &&& coord_ok(self.angle as int)
        &&& coord_ok(self.angle_prev as int)
        &&& accel_ok(self.angular_accel as int)
    }

    /// Horizontal displacement over the last tick.
    pub open spec fn disp_x(&self) -> int {
        self.pos.x - self.pos_prev.x
    }

    /// Vertical displacement over the last tick.
    pub open spec fn disp_y(&self) -> int {
        self.pos.y - self.pos_prev.y
    }

    /// Change of angle over the last tick.
    pub open spec fn angular_disp(&self) -> int {
        self.angle - self.angle_prev
    }

    /// A body at rest at `pos`, as the spawner or a merge creates it.
    pub open spec fn at_rest(id: u32, rank: u8, pos: Vec2i) -> Body {
        Body {
            id,
            rank,
            pos,
            pos_prev: pos,
            accel: zero(),
            angle: START_ANGLE,
            angle_prev: START_ANGLE,
            angular_accel: 0,
            radius: radius_of(rank) as i64,
        }
    }

    /// A new body of `rank` at rest at `pos`, with no acceleration and the
    /// starting orientation.
    pub fn new(id: u32, rank: u8, pos: Vec2i) -> (r: Body)
        requires
            rank < N_RANKS,
            point_ok(pos),
        ensures
            r == Body::at_rest(id, rank, pos),
            r.wf(),
    {
        Body {
            id,
            rank,
            pos,
            pos_prev: pos,
            accel: Vec2i { x: 0, y: 0 },
            angle: START_ANGLE,
            angle_prev: START_ANGLE,
            angular_accel: 0,
            radius: rank_radius(rank),
        }
    }

    /// Displacement over the last tick (the velocity times the tick).
    pub fn displacement(&self) -> (r: Vec2i)
        requires
            self.wf(),
        ensures
            r.x == self.disp_x(),
            r.y == self.disp_y(),
    {
        Vec2i { x: self.pos.x - self.pos_prev.x, y: self.pos.y - self.pos_prev.y }
    }

    /// Sets the displacement over the last tick to `d` by moving the
    /// previous position (saturated).
    pub fn set_displacement(&mut self, d: Vec2i)
        requires
            old(self).wf(),
        ensures
            *final(self) == (Body {
                pos_prev: sat_point(old(self).pos.x - d.x, old(self).pos.y - d.y),
                ..*old(self)
            }),
            final(self).wf(),
    {
        self.pos_prev = saturated_point(
            self.pos.x as i128 - d.x as i128,
            self.pos.y as i128 - d.y as i128,
        );
    }

    /// Adds `d` to the displacement over the last tick by moving the
    /// previous position back (saturated).
    pub fn add_displacement(&mut self, d: Vec2i)
        requires
            old(self).wf(),
        ensures
            *final(self) == (Body {
                pos_prev: sat_point(old(self).pos_prev.x - d.x, old(self).pos_prev.y - d.y),
                ..*old(self)
            }),
            final(self).wf(),
    {
        self.pos_prev = saturated_point(
            self.pos_prev.x as i128 - d.x as i128,
            self.pos_prev.y as i128 - d.y as i128,
        );
    }

    /// Change of angle over the last tick.
    pub fn angular_displacement(&self) -> (r: i64)
        requires
            self.wf(),
        ensures
            r == self.angular_disp(),
    {
        self.angle - self.angle_prev
    }

    /// Sets the change of angle over the last tick to `d` (saturated).
    pub fn set_angular_displacement(&mut self, d: i64)
        requires
            old(self).wf(),
        ensures
            *final(self) == (Body {
                angle_prev: sat_coord(old(self).angle - d) as i64,
                ..*old(self)
            }),
            final(self).wf(),
    {
        self.angle_prev = clamp_sym(self.angle as i128 - d as i128, COORD_LIMIT);
    }

    /// Adds `d` to the change of angle over the last tick (saturated).
    pub fn add_angular_displacement(&mut self, d: i64)
        requires
            old(self).wf(),
        ensures
            *final(self) == (Body {
                angle_prev: sat_coord(old(self).angle_prev - d) as i64,
                ..*old(self)
            }),
            final(self).wf(),
    {
        self.angle_prev = clamp_sym(self.angle_prev as i128 - d as i128, COORD_LIMIT);
    }
}

} // verus!
