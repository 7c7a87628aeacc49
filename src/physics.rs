//! The rules that act on one body or one pair of bodies: gravity, the walls,
//! the Verlet step, collision response and the merge of two bodies.
use vstd::prelude::*;
use crate::config::{
    Vec2i, radius_of, rank_radius, GRAVITY, ACCEL_LIMIT, COORD_LIMIT, MAX_SPEED,
    MICROS_PER_SECOND, BOUNCE_NUM, BOUNCE_DEN, FRICTION_NUM, FRICTION_DEN,
    VELOCITY_RESPONSE_DEN, BOTTOM_WALL, LEFT_WALL, RIGHT_WALL, HALF_WALL, MAX_DT_US,
    START_ANGLE, TOP_RANK, floor_level, left_level, right_level, lemma_radius_bounds,
};
use crate::fixed::{
    div_toward_zero, floor_sqrt, ceil_sqrt, quot, clamp_sym, sqrt_floor, sqrt_ceil,
    lemma_div_toward_zero_abs, lemma_ceil_sqrt,
};
use crate::body::{Body, sat_coord, sat_point, zero, saturated_point};

verus! {

/// Squared length of the vector `(x, y)`.
pub open spec fn norm2(x: int, y: int) -> int {
    x * x + y * y
}

// ----- gravity -----

/// The body after gravity is added to its acceleration (saturated).
pub open spec fn gravity_body(b: Body) -> Body {
    let ay = b.accel.y - GRAVITY;
    Body {
        accel: Vec2i { x: b.accel.x, y: (if ay < -ACCEL_LIMIT { -ACCEL_LIMIT as int } else { ay }) as i64 },
        ..b
    }
}

// ----- walls -----

/// Bottom wall: a body below the floor is put on it; its vertical velocity
/// is reflected and scaled by the restitution, its horizontal velocity
/// scaled by the friction.
pub open spec fn bounce_bottom(b: Body) -> Body {
    if b.pos.y - b.radius < BOTTOM_WALL + HALF_WALL {
        let y = floor_level(b.radius as int);
        let vx = div_toward_zero(b.disp_x() * FRICTION_NUM, FRICTION_DEN as int);
        let vy = div_toward_zero(-b.disp_y() * BOUNCE_NUM, BOUNCE_DEN as int);
        Body { pos: Vec2i { x: b.pos.x, y: y as i64 }, pos_prev: sat_point(b.pos.x - vx, y - vy), ..b }
    } else {
        b
    }
}

/// Left wall: a body past it is put against it; its horizontal velocity is
/// reflected and scaled by the restitution, its vertical velocity scaled by
/// the friction.
pub open spec fn bounce_left(b: Body) -> Body {
    if b.pos.x - b.radius < LEFT_WALL + HALF_WALL {
        let x = left_level(b.radius as int);
        let vx = div_toward_zero(-b.disp_x() * BOUNCE_NUM, BOUNCE_DEN as int);
        let vy = div_toward_zero(b.disp_y() * FRICTION_NUM, FRICTION_DEN as int);
        Body { pos: Vec2i { x: x as i64, y: b.pos.y }, pos_prev: sat_point(x - vx, b.pos.y - vy), ..b }
    } else {
        b
    }
}

/// Right wall: as the left one, mirrored.
pub open spec fn bounce_right(b: Body) -> Body {
    if b.pos.x + b.radius > RIGHT_WALL - HALF_WALL {
        let x = right_level(b.radius as int);
        let vx = div_toward_zero(-b.disp_x() * BOUNCE_NUM, BOUNCE_DEN as int);
        let vy = div_toward_zero(b.disp_y() * FRICTION_NUM, FRICTION_DEN as int);
        Body { pos: Vec2i { x: x as i64, y: b.pos.y }, pos_prev: sat_point(x - vx, b.pos.y - vy), ..b }
    } else {
        b
    }
}

/// The three walls, tested in turn: bottom, left, right.
pub open spec fn constrain_body(b: Body) -> Body {
    bounce_right(bounce_left(bounce_bottom(b)))
}

// ----- Verlet step -----

/// Largest displacement in one tick of `dt` microseconds.
pub open spec fn speed_cap(dt: int) -> int {
    MAX_SPEED * dt / (MICROS_PER_SECOND as int)
}

/// One component of a displacement `(dx, dy)` held to length `cap`: a longer
/// one is rescaled to that length (rounded toward zero) in the same direction.
pub open spec fn capped(d: int, dx: int, dy: int, cap: int) -> int {
    let n = norm2(dx, dy);
    if n >= cap * cap && n > 0 {
        div_toward_zero(d * cap, ceil_sqrt(n as nat) as int)
    } else {
        d
    }
}

/// Displacement added by acceleration `a` over a tick of `dt` microseconds.
pub open spec fn accel_step(a: int, dt: int) -> int {
    div_toward_zero(a * dt * dt, MICROS_PER_SECOND * MICROS_PER_SECOND)
}

/// The Verlet step: the displacement is capped, the previous position takes
/// the current one, the position advances by the displacement plus the
/// acceleration's share, and the accelerations are cleared.
pub open spec fn integrate_body(b: Body, dt: int) -> Body {
    let cap = speed_cap(dt);
    let dx = capped(b.disp_x(), b.disp_x(), b.disp_y(), cap);
    let dy = capped(b.disp_y(), b.disp_x(), b.disp_y(), cap);
    Body {
        pos: sat_point(
            b.pos.x + dx + accel_step(b.accel.x as int, dt),
            b.pos.y + dy + accel_step(b.accel.y as int, dt),
        ),
        pos_prev: b.pos,
        accel: zero(),
        angle: sat_coord(b.angle + b.angular_disp() + accel_step(b.angular_accel as int, dt)) as i64,
        angle_prev: b.angle,
        angular_accel: 0,
        ..b
    }
}

// ----- collision -----

/// The circles of `a` and `b` overlap.
pub open spec fn overlap(a: Body, b: Body) -> bool {
    norm2(b.pos.x - a.pos.x, b.pos.y - a.pos.y) < (a.radius + b.radius) * (a.radius + b.radius)
}

/// Positional correction of one coordinate for a body whose partner lies
/// `d` away along it: the overlap `gap` split in proportion to the partner's
/// radius `r_other`, half of it, along the unit normal `d / dist`.
pub open spec fn shift(d: int, r_other: int, gap: int, dist: int, rsum: int) -> int {
    div_toward_zero(d * r_other * gap, 2 * dist * rsum)
}

/// `b` moved by `(mx, my)`; the previous position moves back by a
/// hundredth of it, which adds to the velocity.
pub open spec fn nudge(b: Body, mx: int, my: int) -> Body {
    Body {
        pos: sat_point(b.pos.x + mx, b.pos.y + my),
        pos_prev: sat_point(
            b.pos_prev.x - div_toward_zero(mx, VELOCITY_RESPONSE_DEN as int),
            b.pos_prev.y - div_toward_zero(my, VELOCITY_RESPONSE_DEN as int),
        ),
        ..b
    }
}

/// Separation of the centres of `a` and `b`, rounded down.
pub open spec fn separation(a: Body, b: Body) -> int {
    floor_sqrt(norm2(b.pos.x - a.pos.x, b.pos.y - a.pos.y) as nat) as int
}

/// Collision response of one pair: overlapping bodies at distinct centres
/// are pushed apart along the line of centres; others are left alone.
/// Contacts apply no rotational friction: the angles are left as they are.
pub open spec fn resolve_pair(a: Body, b: Body) -> (Body, Body) {
    let dx = b.pos.x - a.pos.x;
    let dy = b.pos.y - a.pos.y;
    let rsum = a.radius + b.radius;
    if overlap(a, b) && norm2(dx, dy) > 0 {
        let dist = separation(a, b);
        let gap = rsum - dist;
        (
            nudge(a, -shift(dx, b.radius as int, gap, dist, rsum), -shift(dy, b.radius as int, gap, dist, rsum)),
            nudge(b, shift(dx, a.radius as int, gap, dist, rsum), shift(dy, a.radius as int, gap, dist, rsum)),
        )
    } else {
        (a, b)
    }
}

// ----- merging -----

/// `a` and `b` merge: same rank, not the top one, overlapping.
pub open spec fn merges(a: Body, b: Body) -> bool {
    a.rank == b.rank && a.rank < TOP_RANK && overlap(a, b)
}

/// The body that replaces `a` and `b`: one rank higher, at their midpoint,
/// with their average velocity, no acceleration and the starting orientation.
pub open spec fn merged_body(a: Body, b: Body, id: u32) -> Body {
    let cx = div_toward_zero(a.pos.x + b.pos.x, 2);
    let cy = div_toward_zero(a.pos.y + b.pos.y, 2);
    let vx = div_toward_zero(a.disp_x() + b.disp_x(), 2);
    let vy = div_toward_zero(a.disp_y() + b.disp_y(), 2);
    let rank = (a.rank + 1) as u8;
    Body {
        id,
        rank,
        pos: Vec2i { x: cx as i64, y: cy as i64 },
        pos_prev: sat_point(cx - vx, cy - vy),
        accel: zero(),
        angle: START_ANGLE,
        angle_prev: START_ANGLE,
        angular_accel: 0,
        radius: radius_of(rank) as i64,
    }
}

impl Body {
    /// Adds gravity to the acceleration.
    pub fn apply_gravity(&mut self)
        requires
            old(self).wf(),
        ensures
            *final(self) == gravity_body(*old(self)),
            final(self).wf(),
    {
        let ay: i64 = self.accel.y - GRAVITY;
        self.accel.y = if ay < -ACCEL_LIMIT { -ACCEL_LIMIT } else { ay };
    }

    fn bounce_on_bottom(&mut self)
        requires
            old(self).wf(),
        ensures
            *final(self) == bounce_bottom(*old(self)),
            final(self).wf(),
    {
        if self.pos.y - self.radius < BOTTOM_WALL + HALF_WALL {
            proof {
                lemma_radius_bounds(self.rank);
            }
            let d = self.displacement();
            let y: i64 = BOTTOM_WALL + HALF_WALL + self.radius;
            let vx = quot(d.x as i128 * FRICTION_NUM as i128, FRICTION_DEN as i128);
            let vy = quot(-(d.y as i128 * BOUNCE_NUM as i128), BOUNCE_DEN as i128);
            self.pos.y = y;
            self.pos_prev = saturated_point(self.pos.x as i128 - vx, y as i128 - vy);
        }
    }

    fn bounce_on_left(&mut self)
        requires
            old(self).wf(),
        ensures
            *final(self) == bounce_left(*old(self)),
            final(self).wf(),
    {
        if self.pos.x - self.radius < LEFT_WALL + HALF_WALL {
            proof {
                lemma_radius_bounds(self.rank);
            }
            let d = self.displacement();
            let x: i64 = LEFT_WALL + HALF_WALL + self.radius;
            let vx = quot(-(d.x as i128 * BOUNCE_NUM as i128), BOUNCE_DEN as i128);
            let vy = quot(d.y as i128 * FRICTION_NUM as i128, FRICTION_DEN as i128);
            self.pos.x = x;
            self.pos_prev = saturated_point(x as i128 - vx, self.pos.y as i128 - vy);
        }
    }

    fn bounce_on_right(&mut self)
        requires
            old(self).wf(),
        ensures
            *final(self) == bounce_right(*old(self)),
            final(self).wf(),
    {
        if self.pos.x + self.radius > RIGHT_WALL - HALF_WALL {
            proof {
                lemma_radius_bounds(self.rank);
            }
            let d = self.displacement();
            let x: i64 = RIGHT_WALL - HALF_WALL - self.radius;
            let vx = quot(-(d.x as i128 * BOUNCE_NUM as i128), BOUNCE_DEN as i128);
            let vy = quot(d.y as i128 * FRICTION_NUM as i128, FRICTION_DEN as i128);
            self.pos.x = x;
            self.pos_prev = saturated_point(x as i128 - vx, self.pos.y as i128 - vy);
        }
    }

    /// Holds the body inside the arena: bottom, then left, then right wall.
    pub fn constrain(&mut self)
        requires
            old(self).wf(),
        ensures
            *final(self) == constrain_body(*old(self)),
            final(self).wf(),
    {
        self.bounce_on_bottom();
        self.bounce_on_left();
        self.bounce_on_right();
    }

    /// The Verlet step over a tick of `dt_us` microseconds.
    pub fn integrate(&mut self, dt_us: u64)
        requires
            old(self).wf(),
            dt_us <= MAX_DT_US,
        ensures
            *final(self) == integrate_body(*old(self), dt_us as int),
            final(self).wf(),
    {
        let d = self.displacement();
        let dx = d.x as i128;
        let dy = d.y as i128;
        let cap: i128 = MAX_SPEED as i128 * dt_us as i128 / MICROS_PER_SECOND as i128;
        assert(0 <= cap <= MAX_SPEED) by (nonlinear_arith)
            requires
                cap == MAX_SPEED * dt_us / (MICROS_PER_SECOND as int),
                0 <= dt_us <= MAX_DT_US,
        ;
        assert(0 <= dx * dx <= 0x8_0000_0000_0000_0000_0000 && 0 <= dy * dy <= 0x8_0000_0000_0000_0000_0000)
            by (nonlinear_arith)
            requires
                -2 * COORD_LIMIT <= dx <= 2 * COORD_LIMIT,
                -2 * COORD_LIMIT <= dy <= 2 * COORD_LIMIT,
        ;
        let n: i128 = dx * dx + dy * dy;
        assert(0 <= cap * cap <= MAX_SPEED * MAX_SPEED) by (nonlinear_arith)
            requires
                0 <= cap <= MAX_SPEED,
        ;
        let mut vx: i128 = dx;
        let mut vy: i128 = dy;
        if n >= cap * cap && n > 0 {
            let s = sqrt_ceil(n as u128) as i128;
            proof {
                lemma_ceil_sqrt(n as nat);
            }
            assert(s > 0) by (nonlinear_arith)
                requires
                    n <= s * s,
                    n > 0,
                    s >= 0,
            ;
            assert(-0x1_0000_0000_0000_0000_0000 < dx * cap < 0x1_0000_0000_0000_0000_0000
                && -0x1_0000_0000_0000_0000_0000 < dy * cap < 0x1_0000_0000_0000_0000_0000)
                by (nonlinear_arith)
                requires
                    -2 * COORD_LIMIT <= dx <= 2 * COORD_LIMIT,
                    -2 * COORD_LIMIT <= dy <= 2 * COORD_LIMIT,
                    0 <= cap <= MAX_SPEED,
            ;
            vx = quot(dx * cap, s);
            vy = quot(dy * cap, s);
            proof {
                lemma_div_toward_zero_abs(dx * cap, s as int);
                lemma_div_toward_zero_abs(dy * cap, s as int);
            }
        }
        let dt = dt_us as i128;
        let den: i128 = MICROS_PER_SECOND as i128 * MICROS_PER_SECOND as i128;
        assert(dt * dt <= MAX_DT_US * MAX_DT_US) by (nonlinear_arith)
            requires
                0 <= dt <= MAX_DT_US,
        ;
        let ax = self.accel.x as i128;
        let ay = self.accel.y as i128;
        let aa = self.angular_accel as i128;
        assert(-ACCEL_LIMIT * (MAX_DT_US * MAX_DT_US) <= ax * (dt * dt) <= ACCEL_LIMIT * (MAX_DT_US
            * MAX_DT_US)) by (nonlinear_arith)
            requires
                -ACCEL_LIMIT <= ax <= ACCEL_LIMIT,
                0 <= dt * dt <= MAX_DT_US * MAX_DT_US,
        ;
        assert(-ACCEL_LIMIT * (MAX_DT_US * MAX_DT_US) <= ay * (dt * dt) <= ACCEL_LIMIT * (MAX_DT_US
            * MAX_DT_US)) by (nonlinear_arith)
            requires
                -ACCEL_LIMIT <= ay <= ACCEL_LIMIT,
                0 <= dt * dt <= MAX_DT_US * MAX_DT_US,
        ;
        assert(-ACCEL_LIMIT * (MAX_DT_US * MAX_DT_US) <= aa * (dt * dt) <= ACCEL_LIMIT * (MAX_DT_US
            * MAX_DT_US)) by (nonlinear_arith)
            requires
                -ACCEL_LIMIT <= aa <= ACCEL_LIMIT,
                0 <= dt * dt <= MAX_DT_US * MAX_DT_US,
        ;
        assert(ax * dt * dt == ax * (dt * dt) && ay * dt * dt == ay * (dt * dt) && aa * dt * dt
            == aa * (dt * dt)) by (nonlinear_arith);
        let sx = quot(ax * (dt * dt), den);
        let sy = quot(ay * (dt * dt), den);
        let sa = quot(aa * (dt * dt), den);
        proof {
            lemma_div_toward_zero_abs(ax * (dt * dt), den as int);
            lemma_div_toward_zero_abs(ay * (dt * dt), den as int);
            lemma_div_toward_zero_abs(aa * (dt * dt), den as int);
        }
        let pos = self.pos;
        let ad = self.angle as i128 - self.angle_prev as i128;
        self.pos_prev = pos;
        self.pos = saturated_point(pos.x as i128 + vx + sx, pos.y as i128 + vy + sy);
        self.angle_prev = self.angle;
        self.angle = clamp_sym(self.angle as i128 + ad + sa, COORD_LIMIT);
        self.accel = Vec2i { x: 0, y: 0 };
        self.angular_accel = 0;
    }
}

/// Collision response of one pair (see `resolve_pair`).
pub fn collide_pair(a: &Body, b: &Body) -> (r: (Body, Body))
    requires
        a.wf(),
        b.wf(),
    ensures
        r == resolve_pair(*a, *b),
        r.0.wf(),
        r.1.wf(),
        r.0.id == a.id && r.0.rank == a.rank && r.0.radius == a.radius,
        r.1.id == b.id && r.1.rank == b.rank && r.1.radius == b.radius,
{
    proof {
        lemma_radius_bounds(a.rank);
        lemma_radius_bounds(b.rank);
    }
    let dx: i128 = b.pos.x as i128 - a.pos.x as i128;
    let dy: i128 = b.pos.y as i128 - a.pos.y as i128;
    let rsum: i128 = a.radius as i128 + b.radius as i128;
    assert(0 <= dx * dx <= 0x8_0000_0000_0000_0000_0000 && 0 <= dy * dy <= 0x8_0000_0000_0000_0000_0000)
        by (nonlinear_arith)
        requires
            -2 * COORD_LIMIT <= dx <= 2 * COORD_LIMIT,
            -2 * COORD_LIMIT <= dy <= 2 * COORD_LIMIT,
    ;
    let n: i128 = dx * dx + dy * dy;
    assert(0 < rsum * rsum <= 250_000 * 250_000) by (nonlinear_arith)
        requires
            40_000 <= rsum <= 250_000,
    ;
    if n < rsum * rsum && n > 0 {
        let dist = sqrt_floor(n as u128) as i128;
        assert(0 < dist < rsum && -rsum < dx < rsum && -rsum < dy < rsum) by (nonlinear_arith)
            requires
                dist * dist <= n < (dist + 1) * (dist + 1),
                0 <= dist,
                n == dx * dx + dy * dy,
                n < rsum * rsum,
                n > 0,
                rsum > 0,
        ;
        let gap: i128 = rsum - dist;
        assert(0 < 2 * dist * rsum <= 2 * 250_000 * 250_000) by (nonlinear_arith)
            requires
                0 < dist < rsum,
                rsum <= 250_000,
        ;
        let den: i128 = 2 * dist * rsum;
        let ra = a.radius as i128;
        let rb = b.radius as i128;
        assert(0 < den && 0 < gap <= rsum <= 250_000) by (nonlinear_arith)
            requires
                den == 2 * dist * rsum,
                0 < dist < rsum,
                gap == rsum - dist,
                rsum == ra + rb,
                20_000 <= ra <= 125_000,
                20_000 <= rb <= 125_000,
        ;
        assert(-0x1_0000_0000_0000 < dx * rb < 0x1_0000_0000_0000 && -0x1_0000_0000_0000 < dy * rb
            < 0x1_0000_0000_0000 && -0x1_0000_0000_0000 < dx * ra < 0x1_0000_0000_0000
            && -0x1_0000_0000_0000 < dy * ra < 0x1_0000_0000_0000) by (nonlinear_arith)
            requires
                -250_000 < dx < 250_000,
                -250_000 < dy < 250_000,
                20_000 <= ra <= 125_000,
                20_000 <= rb <= 125_000,
        ;
        assert(-0x1_0000_0000_0000_0000 < dx * rb * gap < 0x1_0000_0000_0000_0000
            && -0x1_0000_0000_0000_0000 < dy * rb * gap < 0x1_0000_0000_0000_0000
            && -0x1_0000_0000_0000_0000 < dx * ra * gap < 0x1_0000_0000_0000_0000
            && -0x1_0000_0000_0000_0000 < dy * ra * gap < 0x1_0000_0000_0000_0000) by (nonlinear_arith)
            requires
                -250_000 < dx < 250_000,
                -250_000 < dy < 250_000,
                0 < gap <= 250_000,
                20_000 <= ra <= 125_000,
                20_000 <= rb <= 125_000,
        ;
        let ax = quot(dx * rb * gap, den);
        let ay = quot(dy * rb * gap, den);
        let bx = quot(dx * ra * gap, den);
        let by = quot(dy * ra * gap, den);
        proof {
            lemma_div_toward_zero_abs(dx * rb * gap, den as int);
            lemma_div_toward_zero_abs(dy * rb * gap, den as int);
            lemma_div_toward_zero_abs(dx * ra * gap, den as int);
            lemma_div_toward_zero_abs(dy * ra * gap, den as int);
        }
        (nudge_body(a, -ax, -ay), nudge_body(b, bx, by))
    } else {
        (*a, *b)
    }
}

/// Moves `b` by `(mx, my)` and its previous position back by a hundredth of
/// that (see `nudge`).
fn nudge_body(b: &Body, mx: i128, my: i128) -> (r: Body)
    requires
        b.wf(),
        -0x1_0000_0000_0000_0000 < mx < 0x1_0000_0000_0000_0000,
        -0x1_0000_0000_0000_0000 < my < 0x1_0000_0000_0000_0000,
    ensures
        r == nudge(*b, mx as int, my as int),
        r.wf(),
{
    let px = quot(mx, VELOCITY_RESPONSE_DEN as i128);
    let py = quot(my, VELOCITY_RESPONSE_DEN as i128);
    proof {
        lemma_div_toward_zero_abs(mx as int, VELOCITY_RESPONSE_DEN as int);
        lemma_div_toward_zero_abs(my as int, VELOCITY_RESPONSE_DEN as int);
    }
    Body {
        pos: saturated_point(b.pos.x as i128 + mx, b.pos.y as i128 + my),
        pos_prev: saturated_point(b.pos_prev.x as i128 - px, b.pos_prev.y as i128 - py),
        ..*b
    }
}

/// The body that replaces the merging pair `a`, `b` (see `merged_body`).
pub fn merge_pair(a: &Body, b: &Body, id: u32) -> (r: Body)
    requires
        a.wf(),
        b.wf(),
        a.rank < TOP_RANK,
    ensures
        r == merged_body(*a, *b, id),
        r.wf(),
{
    let cx = quot(a.pos.x as i128 + b.pos.x as i128, 2);
    let cy = quot(a.pos.y as i128 + b.pos.y as i128, 2);
    let da = a.displacement();
    let db = b.displacement();
    let vx = quot(da.x as i128 + db.x as i128, 2);
    let vy = quot(da.y as i128 + db.y as i128, 2);
    proof {
        lemma_div_toward_zero_abs(a.pos.x + b.pos.x, 2);
        lemma_div_toward_zero_abs(a.pos.y + b.pos.y, 2);
        lemma_div_toward_zero_abs(da.x + db.x, 2);
        lemma_div_toward_zero_abs(da.y + db.y, 2);
    }
    let rank: u8 = a.rank + 1;
    Body {
        id,
        rank,
        pos: Vec2i { x: cx as i64, y: cy as i64 },
        pos_prev: saturated_point(cx - vx, cy - vy),
        accel: Vec2i { x: 0, y: 0 },
        angle: START_ANGLE,
        angle_prev: START_ANGLE,
        angular_accel: 0,
        radius: rank_radius(rank),
    }
}

} // verus!
