//! Conversions between 2D tile coordinates and linear grid indices.

use vstd::prelude::*;
use crate::constants::GRID_MAX_DIM;
use crate::constants::SCALE;
use crate::entities::Vec2Fx;
use crate::math::div_to_zero;
use crate::math::div_trunc;

verus! {

pub fn xy_to_index(x: usize, y: usize, width: usize) -> (r: usize)
    requires
        y * width + x <= usize::MAX,
    ensures
        r == y * width + x,
{
    y * width + x
}

/// Linear index of the tile that holds `v`, a point in fixed-point tile
/// coordinates. Coordinates are truncated to whole tiles first.
pub fn v2_to_index(v: Vec2Fx, width: usize) -> (r: usize)
    requires
        0 <= v.x <= GRID_MAX_DIM as int * SCALE,
        0 <= v.y <= GRID_MAX_DIM as int * SCALE,
        1 <= width <= GRID_MAX_DIM,
    ensures
        r == div_to_zero(v.y as int, SCALE as int) * width + div_to_zero(v.x as int, SCALE as int),
{
    let xt = div_trunc(v.x, SCALE);
    let yt = div_trunc(v.y, SCALE);
    assert(0 <= xt <= 60000 && 0 <= yt <= 60000);
    let x = xt as usize;
    let y = yt as usize;
    proof {
        vstd::arithmetic::mul::lemma_mul_inequality(y as int, 60000, width as int);
        vstd::arithmetic::mul::lemma_mul_nonnegative(y as int, width as int);
    }
    xy_to_index(x, y, width)
}

/// Tile coordinates of a linear index, in fixed-point tile units.
pub fn index_to_v2(idx: i32, width: usize) -> (r: Vec2Fx)
    requires
        idx >= 0,
        1 <= width <= i32::MAX,
    ensures
        r.x == (idx as int % width as int) * SCALE,
        r.y == (idx as int / width as int) * SCALE,
{
    let w = width as i32;
    let x = idx % w;
    let y = idx / w;
    Vec2Fx { x: (x as i64) * SCALE, y: (y as i64) * SCALE }
}

} // verus!
