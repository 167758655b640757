//! GPU geometry clipmaps for huge terrains.

pub mod bake;
pub mod bake_view;
pub mod clipmap;
pub mod dev_controls;
pub mod fog;
pub mod grid;
pub mod heightfield;
pub mod heightfield_laws;
pub mod layers;
pub mod layout_laws;
pub mod march_laws;
pub mod material;
pub mod quality;
pub mod scalar;
pub mod setup;
pub mod visibility;

pub use clipmap::{Clipmap, DetailConfig};
pub use fog::{HeightFog, HeightFogParams, InlineFog, TerrainFog};
pub use heightfield::{HeightImage, Heightfield, TextureFormat};
pub use layers::{HeightRule, SlopeRule, TerrainLayer, TerrainParams, MAX_TERRAIN_LAYERS};
pub use quality::{FogTier, TerrainQuality};
pub use scalar::{Scalar, Vec2, Vec3};
pub use visibility::{ShadedClipmap, SunVisibility};
