//! The terrain's performance profile.

use vstd::prelude::*;

verus! {

/// How the fog is rendered.
#[derive(Clone, Copy, PartialEq, Eq, Structural, Debug)]
pub enum FogTier {
    /// Fullscreen fog pass, which fogs the sky too. Forces MSAA off.
    High,
    /// Inline terrain fog, virtually free, with fourfold MSAA.
    Low,
}

impl Default for FogTier {
    fn default() -> (r: Self)
        ensures
            r == FogTier::High,
    {
        FogTier::High
    }
}

/// Terrain performance profile, set once at startup. Only `fog` applies live; the
/// other fields are read when a clipmap is baked.
#[derive(Clone, Copy, PartialEq, Eq, Structural, Debug)]
pub struct TerrainQuality {
    /// Fog method and MSAA.
    pub fog: FogTier,
    /// Side of the square bake targets, in texels.
    pub rvt_size: u32,
    /// Bake and sample the macro-AO / bent-normal / cavity channel.
    pub ambient_gather: bool,
    /// Materials blended per fragment in the near-detail overlay, one or two.
    pub detail_layers: u8,
}

impl TerrainQuality {
    /// Cheapest, for standalone VR and low-end machines: inline fog, small bake
    /// targets, no ambient gather, single-layer detail.
    pub open spec fn lowest() -> Self {
        TerrainQuality {
            fog: FogTier::Low,
            rvt_size: 2048,
            ambient_gather: false,
            detail_layers: 1,
        }
    }

    /// Between the two: fullscreen fog, ambient gather, single-layer detail.
    pub open spec fn middle() -> Self {
        TerrainQuality {
            fog: FogTier::High,
            rvt_size: 4096,
            ambient_gather: true,
            detail_layers: 1,
        }
    }

    /// Best, for the desktop: fullscreen fog, large bake targets, ambient gather,
    /// two-layer detail.
    pub open spec fn highest() -> Self {
        TerrainQuality {
            fog: FogTier::High,
            rvt_size: 8192,
            ambient_gather: true,
            detail_layers: 2,
        }
    }

    /// The cheapest preset.
    pub fn low() -> (r: Self)
        ensures
            r == Self::lowest(),
    {
        TerrainQuality {
            fog: FogTier::Low,
            rvt_size: 2048,
            ambient_gather: false,
            detail_layers: 1,
        }
    }

    /// The middle preset.
    pub fn medium() -> (r: Self)
        ensures
            r == Self::middle(),
    {
        TerrainQuality {
            fog: FogTier::High,
            rvt_size: 4096,
            ambient_gather: true,
            detail_layers: 1,
        }
    }

    /// The best preset.
    pub fn high() -> (r: Self)
        ensures
            r == Self::highest(),
    {
        TerrainQuality {
            fog: FogTier::High,
            rvt_size: 8192,
            ambient_gather: true,
            detail_layers: 2,
        }
    }
}

impl Default for TerrainQuality {
    fn default() -> (r: Self)
        ensures
            r == TerrainQuality::highest(),
    {
        Self::high()
    }
}

} // verus!
