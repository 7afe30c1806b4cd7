//! A crowd-walking simulation core: agents ("werfs") on a 2D tile grid walk to
//! commanded destinations along shortest routes and are kept apart by a
//! per-frame spatial collision resolver.
//!
//! World geometry is carried in fixed-point integers: one world unit (a
//! pixel at the art's native scale) is `SCALE` counts, and one tile is
//! `TILE_FX` counts on a side.

pub mod commands;
pub mod constants;
pub mod entities;
pub mod math;
pub mod pathfind;
pub mod rng;
pub mod spawn;
pub mod steps;
pub mod tile;
pub mod tiles;
pub mod utils;
