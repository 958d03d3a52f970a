pub mod fx;
pub mod vec3;
pub mod misc;
pub mod camera;
pub mod tile;
pub mod map;
pub mod value;
pub mod sdf3d;
pub mod world;
pub mod buffer;
pub mod context;

use vstd::prelude::*;

verus! {

/// Fixed-point scale: one world unit is this many fixed-point steps.
pub const FX_ONE: i64 = 100000;

/// Largest magnitude a coordinate may take, in whole world units.
pub const UNIT_BOUND: i64 = 10000000;

/// Largest magnitude a fixed-point coordinate may take; chosen so that a
/// product of three such values (as in the slab test) stays inside `i128`.
pub const FX_BOUND: i64 = UNIT_BOUND * FX_ONE;

/// Edge length of a tile's voxel grid, in voxels.
pub const TILE_SIZE: usize = 50;

/// Width of one voxel in fixed-point steps: the scale divided by the tile
/// edge length.
pub const FX_VOXEL: i64 = 2000;

} // verus!
