//! Spawning agents into the table, with randomized art and scatter.

use vstd::prelude::*;
use crate::constants::POS_LIMIT;
use crate::constants::TILE_FX;
use crate::constants::VEL_LIMIT;
use crate::entities::vec_in_bounds;
use crate::entities::Animated;
use crate::entities::Position;
use crate::entities::State;
use crate::entities::Vec2Fx;
use crate::entities::Velocity;
use crate::rng::random_in_i64;
use crate::rng::random_in_u32;
use crate::steps::Werfs;

verus! {

/// Builds one agent's components at the given position and velocity, with
/// the given sprite row, and counts it.
pub fn werf(counter: &mut i32, p: Position, v: Velocity, sprite: u8) -> (r: (
    Position,
    Velocity,
    Animated,
    State,
))
    requires
        *old(counter) < i32::MAX,
    ensures
        *final(counter) == *old(counter) + 1,
        r.0 == p,
        r.1 == v,
        r.2 == (Animated { sprite, step: 0u8 }),
        r.3 is Idle,
{
    *counter = *counter + 1;
    (p, v, Animated { sprite, step: 0 }, State::Idle)
}

/// Appends one agent to the table.
fn push_werf(w: &mut Werfs, parts: (Position, Velocity, Animated, State))
    requires
        old(w).vel@.len() == old(w).pos@.len(),
        old(w).anim@.len() == old(w).pos@.len(),
        old(w).state@.len() == old(w).pos@.len(),
    ensures
        final(w).pos@ == old(w).pos@.push(parts.0),
        final(w).vel@ == old(w).vel@.push(parts.1),
        final(w).anim@ == old(w).anim@.push(parts.2),
        final(w).state@ == old(w).state@.push(parts.3),
{
    let (p, v, a, s) = parts;
    w.pos.push(p);
    w.vel.push(v);
    w.anim.push(a);
    w.state.push(s);
}

/// Spawns the two starting agents eight tiles left and right of `base`, at
/// rest, idle, with random sprite rows. Returns the id of the first.
pub fn two_werfs(counter: &mut i32, w: &mut Werfs, rng: &mut rand::rngs::ThreadRng, base: Position) -> (id:
    usize)
    requires
        *old(counter) < i32::MAX - 1,
        vec_in_bounds(base.p, POS_LIMIT - 8 * TILE_FX as int),
        old(w).vel@.len() == old(w).pos@.len(),
        old(w).anim@.len() == old(w).pos@.len(),
        old(w).state@.len() == old(w).pos@.len(),
    ensures
        *final(counter) == *old(counter) + 2,
        id == old(w).pos@.len(),
        final(w).pos@.len() == old(w).pos@.len() + 2,
        final(w).vel@.len() == old(w).vel@.len() + 2,
        final(w).anim@.len() == old(w).anim@.len() + 2,
        final(w).state@.len() == old(w).state@.len() + 2,
        forall|j: int|
            0 <= j < old(w).pos@.len() ==> #[trigger] final(w).pos@[j] == old(w).pos@[j],
        forall|j: int| 0 <= j < old(w).pos@.len() ==> #[trigger] final(w).vel@[j] == old(w).vel@[j],
        forall|j: int|
            0 <= j < old(w).pos@.len() ==> #[trigger] final(w).anim@[j] == old(w).anim@[j],
        forall|j: int|
            0 <= j < old(w).pos@.len() ==> #[trigger] final(w).state@[j] == old(w).state@[j],
        final(w).pos@[id as int].p == (Vec2Fx { x: (base.p.x - 8 * TILE_FX) as i64, y: base.p.y }),
        final(w).pos@[id as int + 1].p == (Vec2Fx {
            x: (base.p.x + 8 * TILE_FX) as i64,
            y: base.p.y,
        }),
        final(w).vel@[id as int].v == (Vec2Fx { x: 0i64, y: 0i64 }),
        final(w).vel@[id as int + 1].v == (Vec2Fx { x: 0i64, y: 0i64 }),
        final(w).state@[id as int] is Idle,
        final(w).state@[id as int + 1] is Idle,
        final(w).anim@[id as int].sprite <= 3,
        final(w).anim@[id as int + 1].sprite <= 3,
        final(w).anim@[id as int].step == 0,
        final(w).anim@[id as int + 1].step == 0,
        vec_in_bounds(final(w).pos@[id as int].p, POS_LIMIT as int),
        vec_in_bounds(final(w).pos@[id as int + 1].p, POS_LIMIT as int),
{
    let id = w.pos.len();
    let s1 = random_in_u32(rng, 0, 3) as u8;
    let parts = werf(
        counter,
        Position { p: Vec2Fx { x: base.p.x - 8 * TILE_FX, y: base.p.y } },
        Velocity { v: Vec2Fx { x: 0, y: 0 } },
        s1,
    );
    push_werf(w, parts);
    let s2 = random_in_u32(rng, 0, 3) as u8;
    let parts2 = werf(
        counter,
        Position { p: Vec2Fx { x: base.p.x + 8 * TILE_FX, y: base.p.y } },
        Velocity { v: Vec2Fx { x: 0, y: 0 } },
        s2,
    );
    push_werf(w, parts2);
    id
}

/// Spawns `amount` agents scattered uniformly over the rectangle from one
/// tile in up to the given extents, drifting with small random velocities,
/// idle, with random sprite rows.
pub fn many_werfs(
    counter: &mut i32,
    w: &mut Werfs,
    amount: usize,
    rng: &mut rand::rngs::ThreadRng,
    x_max: i64,
    y_max: i64,
)
    requires
        amount < 1000000,
        *old(counter) + amount < i32::MAX,
        TILE_FX < x_max <= POS_LIMIT,
        TILE_FX < y_max <= POS_LIMIT,
        old(w).vel@.len() == old(w).pos@.len(),
        old(w).anim@.len() == old(w).pos@.len(),
        old(w).state@.len() == old(w).pos@.len(),
    ensures
        *final(counter) == *old(counter) + amount,
        final(w).pos@.len() == old(w).pos@.len() + amount,
        final(w).vel@.len() == old(w).vel@.len() + amount,
        final(w).anim@.len() == old(w).anim@.len() + amount,
        final(w).state@.len() == old(w).state@.len() + amount,
        forall|j: int|
            0 <= j < old(w).pos@.len() ==> #[trigger] final(w).pos@[j] == old(w).pos@[j],
        forall|j: int| 0 <= j < old(w).pos@.len() ==> #[trigger] final(w).vel@[j] == old(w).vel@[j],
        forall|j: int|
            0 <= j < old(w).pos@.len() ==> #[trigger] final(w).anim@[j] == old(w).anim@[j],
        forall|j: int|
            0 <= j < old(w).pos@.len() ==> #[trigger] final(w).state@[j] == old(w).state@[j],
        forall|j: int|
            old(w).pos@.len() <= j < final(w).pos@.len() ==> vec_in_bounds(
                (#[trigger] final(w).pos@[j]).p, POS_LIMIT as int) && vec_in_bounds(
                final(w).vel@[j].v, VEL_LIMIT as int) && final(w).state@[j] is Idle,
{
    let mut k: usize = 0;
    while k < amount
        invariant
            k <= amount,
            amount < 1000000,
            *counter == *old(counter) + k,
            *old(counter) + amount < i32::MAX,
            TILE_FX < x_max <= POS_LIMIT,
            TILE_FX < y_max <= POS_LIMIT,
            w.pos@.len() == old(w).pos@.len() + k,
            w.vel@.len() == old(w).vel@.len() + k,
            w.anim@.len() == old(w).anim@.len() + k,
            w.state@.len() == old(w).state@.len() + k,
            w.vel@.len() == w.pos@.len(),
            w.anim@.len() == w.pos@.len(),
            w.state@.len() == w.pos@.len(),
            forall|j: int|
                0 <= j < old(w).pos@.len() ==> #[trigger] w.pos@[j] == old(w).pos@[j],
            forall|j: int| 0 <= j < old(w).pos@.len() ==> #[trigger] w.vel@[j] == old(w).vel@[j],
            forall|j: int| 0 <= j < old(w).pos@.len() ==> #[trigger] w.anim@[j] == old(w).anim@[j],
            forall|j: int|
                0 <= j < old(w).pos@.len() ==> #[trigger] w.state@[j] == old(w).state@[j],
            forall|j: int|
                old(w).pos@.len() <= j < w.pos@.len() ==> vec_in_bounds(
                    (#[trigger] w.pos@[j]).p, POS_LIMIT as int) && vec_in_bounds(w.vel@[j].v,
                    VEL_LIMIT as int) && w.state@[j] is Idle,
        decreases amount - k,
    {
        let px = random_in_i64(rng, TILE_FX, x_max - 1);
        let py = random_in_i64(rng, TILE_FX, y_max - 1);
        let vx = random_in_i64(rng, -700, 699);
        let vy = random_in_i64(rng, -700, 699);
        let sprite = random_in_u32(rng, 0, 3) as u8;
        let parts = werf(
            counter,
            Position { p: Vec2Fx { x: px, y: py } },
            Velocity { v: Vec2Fx { x: vx, y: vy } },
            sprite,
        );
        push_werf(w, parts);
        k = k + 1;
    }
}

} // verus!
