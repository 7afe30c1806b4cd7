//! Fixed-point constants of the simulation.
//!
//! Positions and velocities are integers counted in thousandths of a world
//! unit; a tile is 16 world units on a side.

use vstd::prelude::*;

verus! {

/// Fixed-point counts per world unit.
pub const SCALE: i64 = 1000;

/// Side of one tile, in world units.
pub const TILE_SIZE: i64 = 16;

/// Side of one tile, in fixed-point counts.
pub const TILE_FX: i64 = 16000;

/// Half a tile in fixed-point counts: the offset from a tile's corner to
/// its center.
pub const HALF_TILE_FX: i64 = 8000;

/// Collision radius `R`: a quarter tile, in fixed-point counts.
pub const RADIUS_FX: i64 = 4000;

/// Radius of the neighborhood query: `2 * R`.
pub const COLLIDE_RANGE_FX: i64 = 8000;

/// The square of the neighborhood query radius.
pub const COLLIDE_RANGE_SQ: i64 = 64000000;

/// Numerator and denominator of the collision push ratio
/// `R / setback`, where `setback = 1.8 * R`; the quotient is exactly `5 / 9`.
pub const PUSH_NUM: i64 = 5;
/// See `PUSH_NUM`.
pub const PUSH_DEN: i64 = 9;

/// Velocity damping applied on collision: multiply by `85 / 100`.
pub const DAMP_NUM: i64 = 85;
/// See `DAMP_NUM`.
pub const DAMP_DEN: i64 = 100;

/// Ambient per-frame velocity decay: multiply by `24 / 25` (i.e. `0.96`).
pub const DECAY_NUM: i64 = 24;
/// See `DECAY_NUM`.
pub const DECAY_DEN: i64 = 25;

/// A velocity whose squared length falls below this is zeroed
/// (`0.001` square world units, in squared fixed-point counts).
pub const VEL_STOP_SQ: i64 = 1000;

/// A velocity whose squared length is above this animates the sprite
/// (`0.005` square world units, in squared fixed-point counts).
pub const ANIM_SQ: i64 = 5000;

/// A waypoint is reached when the squared distance to it falls below this
/// (`50` square world units, in squared fixed-point counts).
pub const NEAR_SQ: i64 = 50000000;

/// Walking impulse per second, in world units.
pub const IMPULSE_PER_SEC: i64 = 4;

/// Largest magnitude a position coordinate can take; coordinates saturate
/// here so that every squared distance fits in an `i64`.
pub const POS_LIMIT: i64 = 1000000000;

/// Largest magnitude a velocity coordinate can take.
pub const VEL_LIMIT: i64 = 1000000;

/// Largest elapsed frame time accepted, in milliseconds.
pub const DT_MAX: u32 = 1000;

/// Largest accepted grid width, in tiles.
pub const GRID_MAX_DIM: usize = 60000;

/// Largest accepted tile count of a grid.
pub const GRID_MAX_LEN: usize = 100000000;

} // verus!
