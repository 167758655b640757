//! The clipmap.

use vstd::prelude::*;

use crate::layers::TerrainLayer;

verus! {

/// The near-range detail overlay: per-material textures blended over the baked ones
/// near the camera, and faded out with distance.
#[derive(Clone, Debug)]
pub struct DetailConfig<S, H> {
    /// Albedo array, one slice per layer.
    pub albedo_array: H,
    /// Normal array, for close-up relief.
    pub normal_array: H,
    /// Occlusion, roughness and metallic array.
    pub orm_array: H,
    /// World size of one detail tile.
    pub tiling: S,
    /// Strength of the detail normals.
    pub normal_strength: S,
    /// Strength of the albedo grain.
    pub albedo_strength: S,
    /// Camera distances over which the overlay fades out.
    pub near: S,
    pub far: S,
}

/// A clipmap: nested grids of doubling cell size around a target, displaced by a
/// heightmap. `H` stands for a handle to an image.
#[derive(Clone, Debug)]
pub struct Clipmap<S, H> {
    /// Half width of the grid; half, because the full width must be even.
    pub half_width: u32,
    /// Number of levels. Each next level covers twice the width of the one before.
    pub levels: u32,
    /// Cell size of the finest level.
    pub base_scale: S,
    /// World size of one heightmap texel.
    pub texel_size: S,
    /// The entity to follow.
    pub target: u64,
    pub heightmap: H,
    /// Albedo array, one slice per layer, with the height in alpha.
    pub albedo_array: H,
    /// Tangent-space normal array, one slice per layer.
    pub normal_array: H,
    /// Occlusion, roughness and metallic array, one slice per layer.
    pub orm_array: H,
    /// Material layers, placed by slope and height.
    pub layers: Vec<TerrainLayer<S>>,
    /// Near-range detail overlay.
    pub detail: DetailConfig<S, H>,
    /// Height bounds.
    pub min: S,
    pub max: S,
    /// Draw a wireframe over the terrain.
    pub wireframe: bool,
}

} // verus!
