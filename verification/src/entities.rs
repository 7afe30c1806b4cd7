//! Agent data: fixed-point vectors, kinematic state, and the per-agent
//! movement state machine that consumes a route.

use vstd::prelude::*;
use crate::constants::DT_MAX;
use crate::constants::GRID_MAX_DIM;
use crate::constants::HALF_TILE_FX;
use crate::constants::GRID_MAX_LEN;
use crate::constants::IMPULSE_PER_SEC;
use crate::constants::NEAR_SQ;
use crate::constants::POS_LIMIT;
use crate::constants::SCALE;
use crate::constants::TILE_FX;
use crate::constants::TILE_SIZE;
use crate::constants::VEL_LIMIT;
use crate::math::clamp_spec;
use crate::math::clamp_to;
use crate::math::div_to_zero;
use crate::math::div_trunc;
use crate::math::isqrt;
use crate::math::lemma_div_bound;
use crate::math::lemma_sqrt_floor_exists;
use crate::math::sqrt_floor;
use crate::pathfind::edge;
use crate::tiles::Tiles;
use crate::utils::index_to_v2;

verus! {

/// A 2D vector in fixed-point counts (thousandths of a world unit).
#[derive(Debug, Clone, Copy, PartialEq, Eq, Structural)]
pub struct Vec2Fx {
    pub x: i64,
    pub y: i64,
}

/// An agent's position in fixed-point world coordinates.
#[derive(Debug, Clone, Copy, PartialEq, Eq, Structural)]
pub struct Position {
    pub p: Vec2Fx,
}

/// An agent's velocity in fixed-point counts per frame.
#[derive(Debug, Clone, Copy, PartialEq, Eq, Structural)]
pub struct Velocity {
    pub v: Vec2Fx,
}

/// Sprite-animation state; no influence on movement.
#[derive(Debug, Clone, Copy, PartialEq, Eq, Structural)]
pub struct Animated {
    pub sprite: u8,
    pub step: u8,
}

/// A linear index into the tile grid.
#[derive(Debug, Clone, Copy, PartialEq, Eq, Hash, Structural)]
pub struct WorldIndex(pub i32);

/// Both coordinates lie within the saturation bound.
pub open spec fn vec_in_bounds(v: Vec2Fx, lim: int) -> bool {
    -lim <= v.x <= lim && -lim <= v.y <= lim
}

impl Position {
    /// The linear grid index of the tile under this position. With `divide`
    /// the position is first brought from world units to tile coordinates;
    /// without it the caller already works in tile coordinates.
    pub fn to_world_index(&self, world_width: usize, divide: bool) -> (r: WorldIndex)
        requires
            vec_in_bounds(self.p, POS_LIMIT as int),
            1 <= world_width <= GRID_MAX_DIM,
            i32::MIN <= world_tile_index_spec(*self, world_width as int, divide) <= i32::MAX,
        ensures
            r.0 == world_tile_index_spec(*self, world_width as int, divide),
    {
        let divisor: i64 = if divide {
            SCALE * TILE_SIZE
        } else {
            SCALE
        };
        let x = div_trunc(self.p.x, divisor);
        let y = div_trunc(self.p.y, divisor);
        assert(-1000000 <= x <= 1000000 && -1000000 <= y <= 1000000);
        let idx: i64 = x + y * (world_width as i64);
        proof {
            vstd::arithmetic::mul::lemma_mul_inequality(y as int, 1000000, world_width as int);
            vstd::arithmetic::mul::lemma_mul_inequality(-1000000, y as int, world_width as int);
        }
        WorldIndex(idx as i32)
    }
}

/// The tile index `to_world_index` computes, as a mathematical value.
pub open spec fn world_tile_index_spec(pos: Position, width: int, divide: bool) -> int {
    let divisor = if divide {
        SCALE * TILE_SIZE
    } else {
        SCALE as int
    };
    div_to_zero(pos.p.x as int, divisor) + div_to_zero(pos.p.y as int, divisor) * width
}

impl WorldIndex {
    /// The traversable cardinal neighbors of this tile, enumerated above,
    /// right, below, left. A neighbor is kept when it lies in the flat tile
    /// vector, stays in the same row for the sideways cases, and does not
    /// block.
    pub fn successors(&self, tiles: &Tiles) -> (r: Vec<WorldIndex>)
        requires
            tiles.wf(),
            0 <= self.0,
            (self.0 as int) < tiles.tiles@.len(),
        ensures
            r@.len() <= 4,
            forall|k: int|
                0 <= k < r@.len() ==> edge(*tiles, self.0 as int, (#[trigger] r@[k]).0 as int),
            forall|v: int|
                edge(*tiles, self.0 as int, v) ==> exists|k: int|
                    0 <= k < r@.len() && (#[trigger] r@[k]).0 as int == v,
            forall|k1: int, k2: int|
                0 <= k1 < k2 < r@.len() ==> (#[trigger] r@[k1]).0 != (#[trigger] r@[k2]).0,
    {
        let u = self.0 as usize;
        let ghost ui = u as int;
        let col = u % tiles.width;
        let mut available: Vec<WorldIndex> = Vec::new();

        if let Some(top) = tiles.tile_above(u) {
            if !top.is_blocked() {
                available.push(WorldIndex((u - tiles.width) as i32));
            }
        }
        if col + 1 < tiles.width {
            if let Some(right) = tiles.tile_at_right(u) {
                if !right.is_blocked() {
                    available.push(WorldIndex((u + 1) as i32));
                }
            }
        }
        if let Some(bottom) = tiles.tile_below(u) {
            if !bottom.is_blocked() {
                available.push(WorldIndex((u + tiles.width) as i32));
            }
        }
        if col >= 1 {
            if let Some(left) = tiles.tile_at_left(u) {
                if !left.is_blocked() {
                    available.push(WorldIndex((u - 1) as i32));
                }
            }
        }
        proof {
            assert forall|v: int| edge(*tiles, ui, v) implies exists|k: int|
                0 <= k < available@.len() && (#[trigger] available@[k]).0 as int == v by {
                let wd = tiles.width as int;
                if ui >= tiles.width && v == ui - tiles.width {
                    assert(available@[0].0 as int == v);
                } else if ui % wd + 1 < wd && ui + 1 < tiles.tiles@.len() && v == ui + 1 {
                    let a = if ui >= tiles.width && !tiles.tiles@[ui - tiles.width].is_blocked_spec() {
                        1int
                    } else {
                        0int
                    };
                    assert(available@[a].0 as int == v);
                } else if ui + tiles.width < tiles.tiles@.len() && v == ui + tiles.width {
                    let a = if ui >= tiles.width && !tiles.tiles@[ui - tiles.width].is_blocked_spec() {
                        1int
                    } else {
                        0int
                    };
                    let b = if ui % wd + 1 < wd && ui + 1 < tiles.tiles@.len()
                        && !tiles.tiles@[ui + 1].is_blocked_spec() {
                        1int
                    } else {
                        0int
                    };
                    assert(available@[a + b].0 as int == v);
                } else {
                    assert(ui % wd >= 1 && v == ui - 1);
                    assert(available@[available@.len() - 1].0 as int == v);
                }
            }
        }
        available
    }

    /// Fixed-point tile coordinates of this index.
    pub fn to_vec(&self, width: usize) -> (r: Vec2Fx)
        requires
            self.0 >= 0,
            1 <= width <= GRID_MAX_DIM,
        ensures
            r.x == (self.0 as int % width as int) * SCALE,
            r.y == (self.0 as int / width as int) * SCALE,
    {
        index_to_v2(self.0, width)
    }
}


/// Every waypoint of a route is a valid index for a grid of the given width.
pub open spec fn wf_route_w(path: Seq<WorldIndex>, width: int) -> bool {
    forall|i: int|
        0 <= i < path.len() ==> 0 <= (#[trigger] path[i]).0 && (path[i].0 as int) <= width * (
        GRID_MAX_DIM as int)
}

/// Fixed-point x coordinate of a waypoint's tile center.
pub open spec fn waypoint_x(wi: WorldIndex, width: int) -> int {
    (wi.0 as int % width) * (TILE_FX as int) + HALF_TILE_FX
}

/// Fixed-point y coordinate of a waypoint's tile center.
pub open spec fn waypoint_y(wi: WorldIndex, width: int) -> int {
    (wi.0 as int / width) * (TILE_FX as int) + HALF_TILE_FX
}

/// The walking impulse toward a target offset `(dx, dy)`: the offset is
/// normalized by its floor square-root length and scaled by the per-second
/// impulse and the elapsed milliseconds. A zero offset gives no impulse.
pub open spec fn impulse_spec(dx: int, dy: int, dt: int) -> (int, int) {
    let l = sqrt_floor((dx * dx + dy * dy) as nat) as int;
    if l == 0 {
        (0, 0)
    } else {
        (
            div_to_zero(dx * (IMPULSE_PER_SEC as int) * dt, l),
            div_to_zero(dy * (IMPULSE_PER_SEC as int) * dt, l),
        )
    }
}

/// A route being followed, waypoint by waypoint.
#[derive(Debug)]
pub struct Moving {
    pub path: Vec<WorldIndex>,
    pub curr: usize,
}

/// The cursor after one step: it advances exactly when the current waypoint
/// lies within the proximity threshold, and is left alone past the end.
pub open spec fn next_cursor_spec(m: Moving, width: int, pos: Position) -> int {
    if m.curr >= m.path@.len() {
        m.curr as int
    } else {
        let dx = waypoint_x(m.path@[m.curr as int], width) - pos.p.x;
        let dy = waypoint_y(m.path@[m.curr as int], width) - pos.p.y;
        if dx * dx + dy * dy < NEAR_SQ {
            m.curr + 1
        } else {
            m.curr as int
        }
    }
}

/// The velocity after the walking impulse toward the waypoint under `m.curr`,
/// each component saturated at the velocity bound.
pub open spec fn vel_after_impulse(
    m: Moving,
    width: int,
    pos: Position,
    v0: Velocity,
    v1: Velocity,
    dt: int,
) -> bool {
    let dx = waypoint_x(m.path@[m.curr as int], width) - pos.p.x;
    let dy = waypoint_y(m.path@[m.curr as int], width) - pos.p.y;
    let imp = impulse_spec(dx, dy, dt);
    &&& v1.v.x == clamp_spec(v0.v.x + imp.0, VEL_LIMIT as int)
    &&& v1.v.y == clamp_spec(v0.v.y + imp.1, VEL_LIMIT as int)
}

impl Moving {
    /// One frame of route following: advance the cursor when the center of
    /// the current waypoint's tile lies within the proximity threshold, then
    /// push the agent toward the waypoint the frame started with. Returns
    /// whether the route is exhausted; the caller then goes idle.
    pub fn update(&mut self, world_width: usize, pos: &Position, vel: &mut Velocity, dt: u32) -> (finished:
        bool)
        requires
            1 <= world_width <= GRID_MAX_DIM,
            wf_route_w(old(self).path@, world_width as int),
            vec_in_bounds(pos.p, POS_LIMIT as int),
            vec_in_bounds(old(vel).v, VEL_LIMIT as int),
            dt <= DT_MAX,
        ensures
            final(self).path@ == old(self).path@,
            final(self).curr as int == next_cursor_spec(*old(self), world_width as int, *pos),
            finished == (final(self).curr >= old(self).path@.len()),
            finished ==> *final(vel) == *old(vel),
            !finished ==> vel_after_impulse(
                *old(self),
                world_width as int,
                *pos,
                *old(vel),
                *final(vel),
                dt as int,
            ),
            vec_in_bounds(final(vel).v, VEL_LIMIT as int),
    {
        if self.curr >= self.path.len() {
            return true;
        }
        let wi = self.path[self.curr];
        proof {
            assert(wf_route_w(self.path@, world_width as int));
            assert(0 <= self.path@[self.curr as int].0);
            lemma_div_bound(wi.0 as int, world_width as int, GRID_MAX_DIM as int);
        }
        let tv = wi.to_vec(world_width);
        let tx = tv.x * TILE_SIZE + HALF_TILE_FX;
        let ty = tv.y * TILE_SIZE + HALF_TILE_FX;
        let dx = tx - pos.p.x;
        let dy = ty - pos.p.y;
        proof {
            assert(dx * dx <= 4000000000000000000 && dy * dy <= 4000000000000000000 && dx * dx
                >= 0 && dy * dy >= 0) by (nonlinear_arith)
                requires
                    -2000000000 <= dx <= 2000000000,
                    -2000000000 <= dy <= 2000000000,
            ;
        }
        let ds = dx * dx + dy * dy;

        if ds < NEAR_SQ {
            self.curr = self.curr + 1;
            if self.curr >= self.path.len() {
                return true;
            }
        }

        let l = isqrt(ds as u64);
        proof {
            assert(ds >= 0);
            assert((ds as u64) as nat == ds as nat);
            assert(l as nat == sqrt_floor(ds as nat));
            lemma_sqrt_floor_exists(ds as nat);
            assert((l as nat) * (l as nat) <= ds as nat);
            assert(l as int <= 3000000000) by (nonlinear_arith)
                requires
                    (l as int) * (l as int) <= 8000000000000000000,
                    l as int >= 0,
            ;
        }
        if l > 0 {
            let k = IMPULSE_PER_SEC * (dt as i64);
            proof {
                assert(-10000000000000 <= dx * k <= 10000000000000 && -10000000000000 <= dy * k
                    <= 10000000000000) by (nonlinear_arith)
                    requires
                        -2000000000 <= dx <= 2000000000,
                        -2000000000 <= dy <= 2000000000,
                        0 <= k <= 4000,
                ;
            }
            proof {
                assert(dx * k == dx * (IMPULSE_PER_SEC as int) * (dt as int) && dy * k == dy * (
                IMPULSE_PER_SEC as int) * (dt as int)) by (nonlinear_arith)
                    requires
                        k == (IMPULSE_PER_SEC as int) * (dt as int),
                ;
            }
            let ix = div_trunc(dx * k, l as i64);
            let iy = div_trunc(dy * k, l as i64);
            vel.v.x = clamp_to(vel.v.x + ix, VEL_LIMIT);
            vel.v.y = clamp_to(vel.v.y + iy, VEL_LIMIT);
        }
        false
    }
}

/// The per-agent movement state machine.
#[derive(Debug)]
pub enum State {
    Idle,
    Moving(Moving),
}

/// The routes held by a state are valid for a grid of the given width.
pub open spec fn state_wf(s: State, width: int) -> bool {
    match s {
        State::Idle => true,
        State::Moving(m) => wf_route_w(m.path@, width),
    }
}

/// The one-frame transition relation of the movement state machine.
pub open spec fn state_step_spec(
    pre: State,
    post: State,
    width: int,
    pos: Position,
    v0: Velocity,
    v1: Velocity,
    dt: int,
) -> bool {
    match pre {
        State::Idle => post is Idle && v1 == v0,
        State::Moving(m) => {
            let c2 = next_cursor_spec(m, width, pos);
            if c2 >= m.path@.len() {
                post is Idle && v1 == v0
            } else {
                match post {
                    State::Moving(m1) => {
                        &&& m1.path@ == m.path@
                        &&& m1.curr as int == c2
                        &&& vel_after_impulse(m, width, pos, v0, v1, dt)
                    },
                    State::Idle => false,
                }
            }
        },
    }
}

impl State {
    /// Arms the state machine with a freshly found route.
    pub fn new_moving(path: Vec<WorldIndex>) -> (r: State)
        ensures
            r == State::Moving(Moving { path, curr: 0usize }),
    {
        State::Moving(Moving { path, curr: 0 })
    }

    /// One frame of the state machine: an idle agent is left untouched; a
    /// following agent advances along its route and contributes a velocity
    /// impulse, going idle exactly when the route is exhausted.
    pub fn update(&mut self, world_width: usize, pos: &Position, vel: &mut Velocity, dt: u32)
        requires
            1 <= world_width <= GRID_MAX_DIM,
            state_wf(*old(self), world_width as int),
            vec_in_bounds(pos.p, POS_LIMIT as int),
            vec_in_bounds(old(vel).v, VEL_LIMIT as int),
            dt <= DT_MAX,
        ensures
            state_step_spec(
                *old(self),
                *final(self),
                world_width as int,
                *pos,
                *old(vel),
                *final(vel),
                dt as int,
            ),
            state_wf(*final(self), world_width as int),
            vec_in_bounds(final(vel).v, VEL_LIMIT as int),
    {
        let mut tmp = State::Idle;
        core::mem::swap(self, &mut tmp);
        match tmp {
            State::Idle => {},
            State::Moving(mut moving) => {
                let finished = moving.update(world_width, pos, vel, dt);
                if !finished {
                    *self = State::Moving(moving);
                }
            },
        }
    }

    /// The route cursor, when a route is being followed.
    pub fn cursor(&self) -> (r: Option<usize>)
        ensures
            r == (match *self {
                State::Idle => Option::<usize>::None,
                State::Moving(m) => Some(m.curr),
            }),
    {
        match self {
            State::Idle => None,
            State::Moving(m) => Some(m.curr),
        }
    }

    /// The length of the route being followed, if any.
    pub fn route_len(&self) -> (r: Option<usize>)
        ensures
            r == (match *self {
                State::Idle => Option::<usize>::None,
                State::Moving(m) => Some(m.path.len()),
            }),
    {
        match self {
            State::Idle => None,
            State::Moving(m) => Some(m.path.len()),
        }
    }
}

/// Law: while a route is followed the cursor never decreases, advances at
/// most one waypoint per frame, and never passes the route's end; the state
/// goes idle exactly when the cursor reaches the route's length.
pub proof fn lemma_route_monotonic(
    pre: State,
    post: State,
    width: int,
    pos: Position,
    v0: Velocity,
    v1: Velocity,
    dt: int,
)
    requires
        pre is Moving,
        state_step_spec(pre, post, width, pos, v0, v1, dt),
    ensures
        match (pre, post) {
            (State::Moving(m0), State::Moving(m1)) => {
                &&& m1.path@ == m0.path@
                &&& m0.curr <= m1.curr <= m0.curr + 1
                &&& (m1.curr as int) < m1.path@.len()
            },
            (State::Moving(m0), State::Idle) => next_cursor_spec(m0, width, pos) >= m0.path@.len(),
            _ => true,
        },
        post is Idle <==> next_cursor_spec(pre->Moving_0, width, pos) >= pre->Moving_0.path@.len(),
{
}

/// Law: a frame step on an idle agent changes neither the state nor the
/// velocity, and its position is not touched at all.
pub proof fn lemma_idle_step(
    post: State,
    width: int,
    pos: Position,
    v0: Velocity,
    v1: Velocity,
    dt: int,
)
    requires
        state_step_spec(State::Idle, post, width, pos, v0, v1, dt),
    ensures
        post is Idle,
        v1 == v0,
{
}

} // verus!
