//! Spatial core of a 2D tile-based action game: a layered grid level, a
//! constraint-based auto-tiling resolver, and an axis-separated collision and
//! movement solver working at sub-tile resolution.
//!
//! World coordinates are integers in sub-pixel units: three units per pixel,
//! so that one collision section (a third of a tile edge) is a whole number
//! of units and boundary arithmetic is exact.

use vstd::prelude::*;

pub mod body;
pub mod laws;
pub mod level;
pub mod num;
pub mod object;
pub mod tiles;
pub mod tileset;

verus! {

/// Number of collision sections along each axis of a tile. The probe step
/// size and the boundary bias are derived from this constant.
pub const TILE_COLLISION_SECTIONS: i64 = 3;

/// Edge length of one tile in world units (16 pixels at 3 units per pixel).
pub const TILE_SIZE: i64 = 48;

/// Edge length of one collision section in world units:
/// `TILE_SIZE / TILE_COLLISION_SECTIONS` (see `lemma_portion_exact`).
pub const TILE_PORTION: i64 = 16;

/// The tile edge splits exactly into `TILE_COLLISION_SECTIONS` sections:
/// the sweep step size and the derived hit boundaries are exact.
pub proof fn lemma_portion_exact()
    ensures
        TILE_PORTION * TILE_COLLISION_SECTIONS == TILE_SIZE,
{
}

/// Edge length of one tile in texture pixels, for source-rectangle origins.
pub const TILE_PIXELS: u32 = 16;

} // verus!
