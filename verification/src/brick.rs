//! A brick and its motion.
//!
//! A brick has a grid cell and a continuous position. While it rests, the two
//! agree; while it moves, the continuous position advances by the velocity
//! once per tick until it reaches the limit, where the grid cell is taken
//! from the position again.

use vstd::prelude::*;
use crate::consts::{BRICK_DEF_SPEED, BRICK_SIZE, EPSILON, GRID_LIMIT};
use crate::field::BrickKind;

verus! {

/// A position or a velocity in position units.
#[derive(Debug, Copy, Clone, PartialEq, Eq, Structural)]
pub struct Point {
    pub x: i64,
    pub y: i64,
}

/// Largest coordinate that a position may take.
pub open spec fn span() -> int {
    GRID_LIMIT * BRICK_SIZE
}

/// Whether `p` lies exactly on the corner of cell (`x`, `y`).
pub open spec fn on_cell(p: Point, x: int, y: int) -> bool {
    p.x == x * BRICK_SIZE && p.y == y * BRICK_SIZE
}

/// Whether both coordinates of `p` lie between zero and the largest coordinate.
pub open spec fn in_range(p: Point) -> bool {
    0 <= p.x <= span() && 0 <= p.y <= span()
}

/// Whether `p` is the corner of some cell within range.
pub open spec fn aligned(p: Point) -> bool {
    in_range(p) && p.x % BRICK_SIZE == 0 && p.y % BRICK_SIZE == 0
}

/// Whether a velocity counts as motion: one of its components exceeds the
/// tolerance in magnitude.
pub open spec fn is_motion(v: Point) -> bool {
    v.x > EPSILON || v.x < -EPSILON || v.y > EPSILON || v.y < -EPSILON
}

/// Whether a velocity is small enough to be added to any position in range.
pub open spec fn is_speed(v: Point) -> bool {
    -span() <= v.x <= span() && -span() <= v.y <= span()
}

/// The cell that a non-negative coordinate rounds to.
pub open spec fn cell_of(pos: int) -> int {
    (pos + BRICK_SIZE / 2) / (BRICK_SIZE as int)
}

/// One coordinate after one tick: it advances by the velocity, and stops at
/// the limit where it would pass it in the direction of travel.
pub open spec fn step_axis(pos: int, vel: int, limit: int) -> int {
    let next = pos + vel;
    if (next > limit && vel > 0) || (next < limit && vel < 0) {
        limit
    } else {
        next
    }
}

/// Converts a cell to the position of its corner.
pub fn b2s(x: usize, y: usize) -> (p: Point)
    requires
        x <= GRID_LIMIT,
        y <= GRID_LIMIT,
    ensures
        on_cell(p, x as int, y as int),
        aligned(p),
{
    Point { x: x as i64 * BRICK_SIZE, y: y as i64 * BRICK_SIZE }
}

/// A single tile: one of the board, or the player's.
#[derive(Debug, Copy, Clone, PartialEq, Eq, Structural)]
pub struct Brick {
    /// Column, in whole cells. Authoritative while the brick rests.
    pub x: usize,
    /// Row, in whole cells. Authoritative while the brick rests.
    pub y: usize,
    /// Exact position.
    pub scr_pos: Point,
    /// Kind of the brick.
    pub kind: BrickKind,
    /// Velocity per tick.
    pub vel: Point,
    /// Where the motion ends.
    pub limit: Point,
}

impl Brick {
    /// A resting brick of kind `kind` in cell (`x`, `y`).
    pub open spec fn at(x: usize, y: usize, kind: BrickKind) -> Brick {
        Brick {
            x,
            y,
            kind,
            scr_pos: Point { x: (x * BRICK_SIZE) as i64, y: (y * BRICK_SIZE) as i64 },
            vel: Point { x: 0, y: 0 },
            limit: Point { x: 0, y: 0 },
        }
    }

    /// Whether the brick is moving.
    pub open spec fn moving(self) -> bool {
        is_motion(self.vel)
    }

    /// Whether the brick has a vertical velocity.
    pub open spec fn moving_down(self) -> bool {
        self.vel.y > EPSILON || self.vel.y < -EPSILON
    }

    /// The invariant of a brick: its numbers are in range; while it rests its
    /// position is exactly that of its cell; while it moves its limit is the
    /// corner of a cell.
    pub open spec fn wf(self) -> bool {
        &&& self.x <= GRID_LIMIT
        &&& self.y <= GRID_LIMIT
        &&& in_range(self.scr_pos)
        &&& is_speed(self.vel)
        &&& self.moving() ==> aligned(self.limit)
        &&& !self.moving() ==> on_cell(self.scr_pos, self.x as int, self.y as int)
    }

    /// The row in which the brick rests, or will come to rest.
    pub open spec fn rest_row(self) -> int {
        if self.moving() {
            self.limit.y / BRICK_SIZE
        } else {
            self.y as int
        }
    }

    /// The brick with a new velocity and limit.
    pub open spec fn launched(self, vel: Point, limit: Point) -> Brick {
        Brick { vel, limit, ..self }
    }

    /// The brick after it was told to fall: a resting brick starts a fall of
    /// one cell; a moving brick has its limit moved one cell further down.
    pub open spec fn falling(self, speed: i64) -> Brick {
        if !self.moving() {
            Brick {
                vel: Point { x: 0, y: speed },
                limit: Point { x: self.scr_pos.x, y: (self.scr_pos.y + BRICK_SIZE) as i64 },
                ..self
            }
        } else {
            Brick {
                limit: Point { x: self.limit.x, y: (self.limit.y + BRICK_SIZE) as i64 },
                ..self
            }
        }
    }

    /// The brick brought to a halt where it is: the velocity is zero and the
    /// cell is the one that holds the position.
    pub open spec fn stopped(self) -> Brick {
        Brick {
            vel: Point { x: 0, y: 0 },
            x: if self.scr_pos.x < 0 { 0 } else { (self.scr_pos.x / BRICK_SIZE) as usize },
            y: if self.scr_pos.y < 0 { 0 } else { (self.scr_pos.y / BRICK_SIZE) as usize },
            ..self
        }
    }

    /// The brick one tick later. A resting brick stays as it is. A moving one
    /// advances by its velocity in both coordinates, but not past its limit.
    /// Where that brings it onto its limit in both coordinates it rests
    /// there, and its cell is the one that the limit rounds to.
    pub open spec fn updated(self) -> Brick {
        if !self.moving() {
            self
        } else {
            let nx = step_axis(self.scr_pos.x as int, self.vel.x as int, self.limit.x as int);
            let ny = step_axis(self.scr_pos.y as int, self.vel.y as int, self.limit.y as int);
            if nx == self.limit.x && ny == self.limit.y {
                Brick {
                    x: cell_of(self.limit.x as int) as usize,
                    y: cell_of(self.limit.y as int) as usize,
                    scr_pos: self.limit,
                    vel: Point { x: 0, y: 0 },
                    ..self
                }
            } else {
                Brick { scr_pos: Point { x: nx as i64, y: ny as i64 }, ..self }
            }
        }
    }

    /// Creates a resting brick in cell (`x`, `y`).
    pub fn new(x: usize, y: usize, kind: BrickKind) -> (b: Brick)
        requires
            x <= GRID_LIMIT,
            y <= GRID_LIMIT,
        ensures
            b == Brick::at(x, y, kind),
            b.wf(),
            !b.moving(),
    {
        Brick {
            x,
            y,
            kind,
            scr_pos: b2s(x, y),
            vel: Point { x: 0, y: 0 },
            limit: Point { x: 0, y: 0 },
        }
    }

    /// Sets the brick in motion with velocity `vel` towards `limit`.
    pub fn start_moving(&mut self, vel: Point, limit: Point)
        requires
            old(self).wf(),
            is_speed(vel),
            aligned(limit),
            is_motion(vel) || !old(self).moving(),
        ensures
            *final(self) == old(self).launched(vel, limit),
            final(self).wf(),
    {
        self.vel = vel;
        self.limit = limit;
    }

    /// Makes the brick fall by one cell more: a resting brick starts to fall
    /// with `speed`; one that is already moving gets one cell further to go.
    pub fn fall(&mut self, speed: i64)
        requires
            old(self).wf(),
            0 <= speed <= span(),
            old(self).rest_row() < GRID_LIMIT,
        ensures
            *final(self) == old(self).falling(speed),
            final(self).wf(),
            speed > EPSILON ==> final(self).moving() && final(self).rest_row() == old(self).rest_row() + 1,
    {
        if !self.is_moving() {
            self.vel = Point { x: 0, y: speed };
            self.limit = Point { x: self.scr_pos.x, y: self.scr_pos.y + BRICK_SIZE };
        } else {
            self.limit.y = self.limit.y + BRICK_SIZE;
        }
    }

    /// Whether the brick is moving: a velocity component exceeds the
    /// tolerance in magnitude.
    pub fn is_moving(&self) -> (r: bool)
        ensures
            r == self.moving(),
    {
        self.vel.x > EPSILON || self.vel.x < -EPSILON || self.vel.y > EPSILON || self.vel.y
            < -EPSILON
    }

    /// Whether the brick has a vertical velocity above the tolerance.
    pub fn is_moving_down(&self) -> (r: bool)
        ensures
            r == self.moving_down(),
    {
        self.vel.y > EPSILON || self.vel.y < -EPSILON
    }

    /// Halts the brick where it is. The invariant survives where the brick
    /// stands on the corner of a cell, as it does once its motion has ended.
    pub fn stop(&mut self)
        ensures
            *final(self) == old(self).stopped(),
            old(self).wf() && !old(self).moving() ==> final(self).wf() && final(self).x == old(self).x && final(self).y == old(self).y,
    {
        self.vel = Point { x: 0, y: 0 };
        self.x = if self.scr_pos.x < 0 {
            0
        } else {
            (self.scr_pos.x / BRICK_SIZE) as usize
        };
        self.y = if self.scr_pos.y < 0 {
            0
        } else {
            (self.scr_pos.y / BRICK_SIZE) as usize
        };
    }

    /// Advances the brick by one tick. A resting brick is left alone. A moving
    /// one advances by its velocity, never past its limit; once it has
    /// reached the limit in both coordinates it takes its cell from it and
    /// rests.
    pub fn update(&mut self)
        requires
            old(self).wf(),
        ensures
            *final(self) == old(self).updated(),
            final(self).wf(),
            final(self).rest_row() == old(self).rest_row(),
            final(self).kind == old(self).kind,
            final(self).limit == old(self).limit,
            old(self).moving() ==> final(self).scr_pos.x == step_axis(
                old(self).scr_pos.x as int,
                old(self).vel.x as int,
                old(self).limit.x as int,
            ) && final(self).scr_pos.y == step_axis(
                old(self).scr_pos.y as int,
                old(self).vel.y as int,
                old(self).limit.y as int,
            ),
            final(self).moving() ==> final(self).vel == old(self).vel && final(self).x == old(self).x && final(self).y == old(self).y,
    {
        if !self.is_moving() {
            return ;
        }
        let mut nx: i64 = self.scr_pos.x + self.vel.x;
        let mut ny: i64 = self.scr_pos.y + self.vel.y;
        if (nx > self.limit.x && self.vel.x > 0) || (nx < self.limit.x && self.vel.x < 0) {
            nx = self.limit.x;
        }
        if (ny > self.limit.y && self.vel.y > 0) || (ny < self.limit.y && self.vel.y < 0) {
            ny = self.limit.y;
        }
        if nx == self.limit.x && ny == self.limit.y {
            self.scr_pos = self.limit;
            self.x = ((self.limit.x + BRICK_SIZE / 2) / BRICK_SIZE) as usize;
            self.y = ((self.limit.y + BRICK_SIZE / 2) / BRICK_SIZE) as usize;
            self.vel = Point { x: 0, y: 0 };
        } else {
            self.scr_pos = Point { x: nx, y: ny };
        }
    }
}

/// A brick that rests stands exactly on its cell: its position is its cell
/// times the cell size, in both coordinates.
pub proof fn lemma_rest_is_on_grid(b: Brick)
    requires
        b.wf(),
        !b.moving(),
    ensures
        b.scr_pos.x == b.x * BRICK_SIZE,
        b.scr_pos.y == b.y * BRICK_SIZE,
        b.scr_pos.x / BRICK_SIZE == b.x,
        b.scr_pos.y / BRICK_SIZE == b.y,
        b.scr_pos.x % BRICK_SIZE == 0,
        b.scr_pos.y % BRICK_SIZE == 0,
{
}

/// The quotient of `a` by a positive `b`, rounded away from zero.
pub open spec fn away_from_zero(a: int, b: int) -> int {
    if a >= 0 {
        (a + b - 1) / b
    } else {
        -((-a + b - 1) / b)
    }
}

/// The brick after `k` ticks.
pub open spec fn after_ticks(b: Brick, k: int) -> Brick
    decreases k,
{
    if k <= 0 {
        b
    } else {
        after_ticks(b, k - 1).updated()
    }
}

/// A coordinate `k` ticks into a flight: as far as the speed has taken it,
/// but not past the limit.
pub open spec fn flown(pos: int, vel: int, limit: int, k: int) -> int {
    let to = pos + k * vel;
    if (vel > 0 && to > limit) || (vel < 0 && to < limit) {
        limit
    } else {
        to
    }
}

/// The brick `k` ticks into a flight that has not ended.
pub open spec fn in_flight(b: Brick, k: int) -> Brick {
    Brick {
        scr_pos: Point {
            x: flown(b.scr_pos.x as int, b.vel.x as int, b.limit.x as int, k) as i64,
            y: flown(b.scr_pos.y as int, b.vel.y as int, b.limit.y as int, k) as i64,
        },
        ..b
    }
}

/// A flight to the right at full speed takes as many ticks as there are
/// cells to go, if the vertical speed is the vertical way divided by that
/// number of ticks, rounded away from zero. Until the last tick the brick
/// moves; with the last it rests on its limit.
pub proof fn lemma_straight_flight(b: Brick, ticks: int)
    requires
        b.wf(),
        1 <= ticks,
        b.vel.x == BRICK_DEF_SPEED,
        b.limit.x == b.scr_pos.x + ticks * BRICK_DEF_SPEED,
        b.vel.y == away_from_zero(b.limit.y - b.scr_pos.y, ticks),
    ensures
        forall|k: int| 0 <= k < ticks ==> (#[trigger] after_ticks(b, k)).moving(),
        after_ticks(b, ticks) == (Brick {
            x: (b.limit.x / BRICK_SIZE) as usize,
            y: (b.limit.y / BRICK_SIZE) as usize,
            scr_pos: b.limit,
            vel: Point { x: 0, y: 0 },
            ..b
        }),
{
    assert forall|k: int| 0 <= k < ticks implies (#[trigger] after_ticks(b, k)).moving() by {
        lemma_flight_goes_on(b, ticks, k);
    }
    lemma_flight_goes_on(b, ticks, ticks - 1);
    lemma_flight_step(b, ticks, ticks - 1);
}

/// The quotient rounded away from zero, taken as often as the divisor says,
/// reaches the number and passes it by less than the divisor; it has the
/// sign of the number and is no larger in size.
pub proof fn lemma_away_from_zero(a: int, b: int)
    requires
        b >= 1,
    ensures
        a >= 0 ==> 0 <= b * away_from_zero(a, b) - a < b && 0 <= away_from_zero(a, b) <= a,
        a < 0 ==> -b < b * away_from_zero(a, b) - a <= 0 && a <= away_from_zero(a, b) <= 0,
        a == 0 <==> away_from_zero(a, b) == 0,
{
    let n = if a >= 0 {
        a
    } else {
        -a
    };
    let q = (n + b - 1) / b;
    vstd::arithmetic::div_mod::lemma_fundamental_div_mod(n + b - 1, b);
    vstd::arithmetic::div_mod::lemma_mod_bound(n + b - 1, b);
    assert(0 <= b * q - n < b);
    assert(0 <= q <= n && (n == 0 <==> q == 0)) by (nonlinear_arith)
        requires
            0 <= b * q - n < b,
            b >= 1,
            n >= 0,
    ;
    if a < 0 {
        assert(b * (-q) == -(b * q)) by (nonlinear_arith);
    }
}

/// The way that a speed makes in `k` of `ticks` ticks lies between zero and
/// the way that it makes in all of them.
proof fn lemma_flight_part(speed: int, ticks: int, k: int)
    requires
        0 <= k <= ticks,
    ensures
        speed >= 0 ==> 0 <= k * speed <= ticks * speed,
        speed <= 0 ==> ticks * speed <= k * speed <= 0,
        (k + 1) * speed == k * speed + speed,
        speed > 0 && k < ticks ==> ticks * speed - (k + 1) * speed >= 0 && k * speed < ticks
            * speed,
{
    assert(speed >= 0 ==> 0 <= k * speed <= ticks * speed) by (nonlinear_arith)
        requires
            0 <= k <= ticks,
    ;
    assert(speed <= 0 ==> ticks * speed <= k * speed <= 0) by (nonlinear_arith)
        requires
            0 <= k <= ticks,
    ;
    assert((k + 1) * speed == k * speed + speed) by (nonlinear_arith);
    assert(speed > 0 && k < ticks ==> ticks * speed - (k + 1) * speed >= 0 && k * speed < ticks
        * speed) by (nonlinear_arith)
        requires
            0 <= k <= ticks,
    ;
}

/// Before the last tick of a straight flight the brick is where its speed
/// has taken it, and moves.
proof fn lemma_flight_goes_on(b: Brick, ticks: int, k: int)
    requires
        b.wf(),
        1 <= ticks,
        0 <= k < ticks,
        b.vel.x == BRICK_DEF_SPEED,
        b.limit.x == b.scr_pos.x + ticks * BRICK_DEF_SPEED,
        b.vel.y == away_from_zero(b.limit.y - b.scr_pos.y, ticks),
    ensures
        after_ticks(b, k) == in_flight(b, k),
        after_ticks(b, k).moving(),
    decreases k,
{
    if k > 0 {
        lemma_flight_goes_on(b, ticks, k - 1);
        lemma_flight_step(b, ticks, k - 1);
    } else {
        assert(in_flight(b, 0) == b);
    }
}

/// One tick of a straight flight: where the brick is after it.
proof fn lemma_flight_step(b: Brick, ticks: int, k: int)
    requires
        b.wf(),
        1 <= ticks,
        0 <= k < ticks,
        b.vel.x == BRICK_DEF_SPEED,
        b.limit.x == b.scr_pos.x + ticks * BRICK_DEF_SPEED,
        b.vel.y == away_from_zero(b.limit.y - b.scr_pos.y, ticks),
    ensures
        k + 1 < ticks ==> in_flight(b, k).updated() == in_flight(b, k + 1),
        k + 1 == ticks ==> in_flight(b, k).updated() == (Brick {
            x: (b.limit.x / BRICK_SIZE) as usize,
            y: (b.limit.y / BRICK_SIZE) as usize,
            scr_pos: b.limit,
            vel: Point { x: 0, y: 0 },
            ..b
        }),
{
    let way = b.limit.y - b.scr_pos.y;
    let speed = b.vel.y as int;
    let full = BRICK_DEF_SPEED as int;
    lemma_away_from_zero(way, ticks);
    lemma_flight_part(speed, ticks, k);
    lemma_flight_part(speed, ticks, k + 1);
    lemma_flight_part(full, ticks, k);
    lemma_flight_part(full, ticks, k + 1);
    assert(b.moving());
    assert(in_range(b.limit));
    let px = b.scr_pos.x as int;
    let py = b.scr_pos.y as int;
    let lx = b.limit.x as int;
    let ly = b.limit.y as int;
    assert(flown(px, full, lx, k) == px + k * full);
    assert(flown(px, full, lx, k + 1) == px + (k + 1) * full);
    assert(way >= 0 ==> py <= flown(py, speed, ly, k) <= ly);
    assert(way < 0 ==> ly <= flown(py, speed, ly, k) <= py);
    let here = in_flight(b, k);
    assert(here.scr_pos.x == px + k * full);
    assert(here.scr_pos.y == flown(py, speed, ly, k));
    let nx = step_axis(here.scr_pos.x as int, here.vel.x as int, here.limit.x as int);
    let ny = step_axis(here.scr_pos.y as int, here.vel.y as int, here.limit.y as int);
    assert(nx == px + (k + 1) * full);
    assert(ny == flown(py, speed, ly, k + 1));
    if k + 1 < ticks {
        lemma_flight_part(full, ticks, k + 1);
        assert(nx != lx);
        assert(here.updated().scr_pos == in_flight(b, k + 1).scr_pos);
    } else {
        assert(ticks * speed == speed * ticks) by (nonlinear_arith);
        assert(ny == ly);
    }
}

} // verus!
