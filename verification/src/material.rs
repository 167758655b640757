//! The terrain's materials: what the main pass and the bake pass are given.

use vstd::prelude::*;

use crate::bake::RvtTexture;
use crate::clipmap::{Clipmap, DetailConfig};
use crate::fog::HeightFogParams;
use crate::heightfield::TextureFormat;
use crate::layers::{self, TerrainParams};
use crate::quality::TerrainQuality;
use crate::scalar::{self, Scalar, Vec2, Vec3};

verus! {

/// Side of an image that only keeps a binding valid.
pub const STUB_SIZE: u32 = 4;

/// Near-range detail parameters, packed for the GPU.
#[derive(Clone, Copy, Debug)]
pub struct DetailParams<S> {
    pub tiling: S,
    pub normal_strength: S,
    pub albedo_strength: S,
    pub near: S,
    pub far: S,
}

impl<S: Scalar> DetailParams<S> {
    /// The parameters hold the configuration.
    pub open spec fn packs<H>(self, d: DetailConfig<S, H>) -> bool {
        &&& layers::divisor_is(d.tiling, self.tiling)
        &&& self.normal_strength == d.normal_strength
        &&& self.albedo_strength == d.albedo_strength
        &&& self.near == d.near
        &&& self.far == d.far
    }

    /// Packs a configuration.
    pub fn from_config<H>(d: &DetailConfig<S, H>) -> (r: Self)
        ensures
            r.packs(*d),
    {
        DetailParams {
            tiling: layers::divisor(d.tiling),
            normal_strength: d.normal_strength,
            albedo_strength: d.albedo_strength,
            near: d.near,
            far: d.far,
        }
    }
}

/// An image that a clipmap's bake renders into.
#[derive(Clone, Copy, Debug, PartialEq, Eq, Structural)]
pub struct RvtImage {
    pub texture: RvtTexture,
    pub size: u32,
    pub format: TextureFormat,
}

impl RvtImage {
    /// The image of one of the baked textures. Where the ambient channel is not gathered,
    /// its image is a stub.
    pub open spec fn of(texture: RvtTexture, quality: TerrainQuality) -> Self {
        RvtImage {
            texture,
            size: if texture == RvtTexture::Ao && !quality.ambient_gather {
                STUB_SIZE
            } else {
                quality.rvt_size
            },
            format: if texture == RvtTexture::Albedo {
                TextureFormat::Rgba8UnormSrgb
            } else {
                TextureFormat::Rgba8Unorm
            },
        }
    }

    /// Bytes that the image takes: four for each texel.
    pub open spec fn bytes(self) -> int {
        4 * (self.size * self.size)
    }

    /// The image of one of the baked textures.
    pub fn new(texture: RvtTexture, quality: &TerrainQuality) -> (r: Self)
        ensures
            r == Self::of(texture, *quality),
    {
        RvtImage {
            texture,
            size: if texture == RvtTexture::Ao && !quality.ambient_gather {
                STUB_SIZE
            } else {
                quality.rvt_size
            },
            format: if texture == RvtTexture::Albedo {
                TextureFormat::Rgba8UnormSrgb
            } else {
                TextureFormat::Rgba8Unorm
            },
        }
    }
}

/// A truth value as a bit.
pub open spec fn bit(b: bool) -> int {
    if b {
        1
    } else {
        0
    }
}

/// The flags of a terrain material: bit 0 wireframe, bit 1 ambient gather, bit 2
/// single-layer detail.
pub open spec fn flags_of(wireframe: bool, quality: TerrainQuality) -> int {
    bit(wireframe) + 2 * bit(quality.ambient_gather) + 4 * bit(quality.detail_layers <= 1)
}

/// The flags of a terrain material.
pub fn material_flags(wireframe: bool, quality: &TerrainQuality) -> (r: u32)
    ensures
        r == flags_of(wireframe, *quality),
{
    let w: u32 = if wireframe {
        1
    } else {
        0
    };
    let g: u32 = if quality.ambient_gather {
        1
    } else {
        0
    };
    let d: u32 = if quality.detail_layers <= 1 {
        1
    } else {
        0
    };
    assert(w | ((g << 1) | (d << 2)) == w + 2 * g + 4 * d) by (bit_vector)
        requires
            w <= 1,
            g <= 1,
            d <= 1,
    ;
    w | ((g << 1) | (d << 2))
}

/// What a terrain material's pipeline depends on.
#[derive(Clone, Copy, Debug, PartialEq, Eq, Structural, Hash)]
pub struct WireframeKey {
    pub wireframe: bool,
}

impl WireframeKey {
    /// The key of a material with the given flags.
    pub open spec fn of(flags: u32) -> Self {
        WireframeKey { wireframe: flags % 2 == 1 }
    }

    /// The key of a material with the given flags.
    pub fn of_flags(flags: u32) -> (r: Self)
        ensures
            r == Self::of(flags),
            r.wireframe == (flags % 2 == 1),
    {
        assert((flags & 1 != 0) == (flags % 2 == 1)) by (bit_vector);
        WireframeKey { wireframe: flags & 1 != 0 }
    }
}

/// The flags give back everything that was packed into them.
pub proof fn law_flags_round_trip(wireframe: bool, quality: TerrainQuality)
    ensures
        0 <= flags_of(wireframe, quality) < 8,
        (flags_of(wireframe, quality) % 2 == 1) == wireframe,
        (flags_of(wireframe, quality) / 2 % 2 == 1) == quality.ambient_gather,
        (flags_of(wireframe, quality) / 4 % 2 == 1) == (quality.detail_layers <= 1),
{
}

/// The material of the main pass.
#[derive(Clone, Debug)]
pub struct GridMaterial<S, H, L> {
    pub heightmap: H,
    pub rvt_albedo: H,
    pub rvt_normal: H,
    pub rvt_ao: H,
    /// Strength of the macro AO: zero off, one full.
    pub ao_strength: S,
    /// Strength of the bent normals: zero off, one full.
    pub bent_strength: S,
    /// Channel shown instead of the lit terrain, if not zero.
    pub debug_view: u32,
    /// Inline fog.
    pub fog: HeightFogParams<S, L>,
    pub detail_albedo_array: H,
    pub detail_normal_array: H,
    pub detail: DetailParams<S>,
    pub detail_orm_array: H,
    pub texel_size: S,
    /// Height bounds.
    pub minmax: Vec2<S>,
    pub flags: u32,
}

/// A clipmap's two materials, shared by all its grids.
#[derive(Clone, Debug)]
pub struct ClipmapMaterials<S, H, L> {
    pub solid: GridMaterial<S, H, L>,
    pub wireframe: GridMaterial<S, H, L>,
}

/// The material of the bake pass.
#[derive(Clone, Debug)]
pub struct BakeMaterial<S, H> {
    pub heightmap: H,
    pub texel_size: S,
    /// Height bounds.
    pub minmax: Vec2<S>,
    pub albedo_array: H,
    pub params: TerrainParams<S>,
    pub normal_array: H,
    pub orm_array: H,
    pub output_mode: u32,
    pub sun_direction: Vec3<S>,
}

/// State of a clipmap's bake.
#[derive(Clone, Debug)]
pub struct ClipmapRvt<S, H> {
    pub albedo: H,
    pub normal: H,
    pub ao: H,
    /// Whether the bake has been set up.
    pub initialized: bool,
    /// Bakes that are left to finish.
    pub pending_bakes: u32,
    /// Sun direction of the baked shadow, once the bake has been set up.
    pub sun_direction: Vec3<S>,
}

impl<S: Scalar, H> ClipmapRvt<S, H> {
    /// This is a bake to the given images that waits to be set up.
    pub open spec fn waits(self, albedo: H, normal: H, ao: H) -> bool {
        &&& self.albedo == albedo
        &&& self.normal == normal
        &&& self.ao == ao
        &&& !self.initialized
        &&& self.pending_bakes == 0
        &&& scalar::int_is(0, self.sun_direction.x)
        &&& scalar::int_is(0, self.sun_direction.y)
        &&& scalar::int_is(0, self.sun_direction.z)
    }

    /// A new bake goes to the images that it was given, each in its place. It is not set up,
    /// has nothing to finish, and no sun.
    pub proof fn law_a_new_bake_waits(self, albedo: H, normal: H, ao: H)
        requires
            self.waits(albedo, normal, ao),
        ensures
            self.albedo == albedo,
            self.normal == normal,
            self.ao == ao,
            !self.initialized,
            self.pending_bakes == 0,
            scalar::int_is(0, self.sun_direction.x),
            scalar::int_is(0, self.sun_direction.y),
            scalar::int_is(0, self.sun_direction.z),
    {
    }

    /// A bake that waits to be set up.
    pub fn new(albedo: H, normal: H, ao: H) -> (r: Self)
        ensures
            r.waits(albedo, normal, ao),
    {
        ClipmapRvt {
            albedo,
            normal,
            ao,
            initialized: false,
            pending_bakes: 0,
            sun_direction: Vec3 { x: S::of_int(0), y: S::of_int(0), z: S::of_int(0) },
        }
    }
}

impl<S: Scalar, H: Clone, L: Copy> GridMaterial<S, H, L> {
    /// The material is that of a clipmap whose bake goes to the images of `rvt`.
    pub open spec fn draws(
        self,
        clipmap: Clipmap<S, H>,
        rvt: ClipmapRvt<S, H>,
        fog: HeightFogParams<S, L>,
        quality: TerrainQuality,
        wireframe: bool,
    ) -> bool {
        &&& cloned(clipmap.heightmap, self.heightmap)
        &&& cloned(rvt.albedo, self.rvt_albedo)
        &&& cloned(rvt.normal, self.rvt_normal)
        &&& cloned(rvt.ao, self.rvt_ao)
        &&& scalar::int_is(1, self.ao_strength)
        &&& scalar::int_is(1, self.bent_strength)
        &&& self.debug_view == 0
        &&& self.fog == fog
        &&& cloned(clipmap.detail.albedo_array, self.detail_albedo_array)
        &&& cloned(clipmap.detail.normal_array, self.detail_normal_array)
        &&& self.detail.packs(clipmap.detail)
        &&& cloned(clipmap.detail.orm_array, self.detail_orm_array)
        &&& self.texel_size == clipmap.texel_size
        &&& self.minmax == (Vec2 { x: clipmap.min, y: clipmap.max })
        &&& self.flags == flags_of(wireframe, quality)
    }

    /// The material of a clipmap.
    pub fn new(
        clipmap: &Clipmap<S, H>,
        rvt: &ClipmapRvt<S, H>,
        fog: HeightFogParams<S, L>,
        quality: &TerrainQuality,
        wireframe: bool,
    ) -> (r: Self)
        ensures
            r.draws(*clipmap, *rvt, fog, *quality, wireframe),
    {
        GridMaterial {
            heightmap: clipmap.heightmap.clone(),
            rvt_albedo: rvt.albedo.clone(),
            rvt_normal: rvt.normal.clone(),
            rvt_ao: rvt.ao.clone(),
            ao_strength: S::of_int(1),
            bent_strength: S::of_int(1),
            debug_view: 0,
            fog,
            detail_albedo_array: clipmap.detail.albedo_array.clone(),
            detail_normal_array: clipmap.detail.normal_array.clone(),
            detail: DetailParams::from_config(&clipmap.detail),
            detail_orm_array: clipmap.detail.orm_array.clone(),
            texel_size: clipmap.texel_size,
            minmax: Vec2 { x: clipmap.min, y: clipmap.max },
            flags: material_flags(wireframe, quality),
        }
    }
}

impl<S: Scalar, H: Clone> BakeMaterial<S, H> {
    /// The material bakes one output of a clipmap against a sun.
    pub open spec fn bakes(
        self,
        clipmap: Clipmap<S, H>,
        mode: u32,
        sun_direction: Vec3<S>,
    ) -> bool {
        &&& cloned(clipmap.heightmap, self.heightmap)
        &&& self.texel_size == clipmap.texel_size
        &&& self.minmax == (Vec2 { x: clipmap.min, y: clipmap.max })
        &&& cloned(clipmap.albedo_array, self.albedo_array)
        &&& self.params.packs(clipmap.layers@)
        &&& cloned(clipmap.normal_array, self.normal_array)
        &&& cloned(clipmap.orm_array, self.orm_array)
        &&& self.output_mode == mode
        &&& self.sun_direction == sun_direction
    }

    /// The material that bakes one output of a clipmap.
    pub fn new(clipmap: &Clipmap<S, H>, mode: u32, sun_direction: Vec3<S>) -> (r: Self)
        ensures
            r.bakes(*clipmap, mode, sun_direction),
    {
        BakeMaterial {
            heightmap: clipmap.heightmap.clone(),
            texel_size: clipmap.texel_size,
            minmax: Vec2 { x: clipmap.min, y: clipmap.max },
            albedo_array: clipmap.albedo_array.clone(),
            params: TerrainParams::from_clipmap(clipmap),
            normal_array: clipmap.normal_array.clone(),
            orm_array: clipmap.orm_array.clone(),
            output_mode: mode,
            sun_direction,
        }
    }
}

/// A material's pipeline draws a wireframe if and only if the material was made to, whatever
/// the other flags say. Flags that differ in an even number make no other pipeline.
pub proof fn law_key_reads_the_wireframe(wireframe: bool, quality: TerrainQuality, a: u32, b: u32)
    requires
        a % 2 == b % 2,
    ensures
        WireframeKey::of(flags_of(wireframe, quality) as u32).wireframe == wireframe,
        WireframeKey::of(a) == WireframeKey::of(b),
{
}

/// The ambient image has the full size if and only if its channel is gathered, and four by
/// four texels otherwise; the other two always have the full size. The albedo alone is
/// gamma encoded.
pub proof fn law_image_sizes_and_formats(quality: TerrainQuality)
    ensures
        RvtImage::of(RvtTexture::Albedo, quality).size == quality.rvt_size,
        RvtImage::of(RvtTexture::Normal, quality).size == quality.rvt_size,
        quality.ambient_gather ==> RvtImage::of(RvtTexture::Ao, quality).size == quality.rvt_size,
        !quality.ambient_gather ==> RvtImage::of(RvtTexture::Ao, quality).size == 4,
        RvtImage::of(RvtTexture::Albedo, quality).format == TextureFormat::Rgba8UnormSrgb,
        RvtImage::of(RvtTexture::Normal, quality).format == TextureFormat::Rgba8Unorm,
        RvtImage::of(RvtTexture::Ao, quality).format == TextureFormat::Rgba8Unorm,
        RvtImage::of(RvtTexture::Albedo, quality).texture == RvtTexture::Albedo,
        RvtImage::of(RvtTexture::Normal, quality).texture == RvtTexture::Normal,
        RvtImage::of(RvtTexture::Ao, quality).texture == RvtTexture::Ao,
{
}

/// The detail parameters are those of the configuration. Only the tiling, which is divided
/// by, is held at one thousandth or more, where the scalar's operations keep the order of the
/// values.
pub proof fn law_detail_keeps_its_configuration<S: Scalar, H>(
    val: spec_fn(S) -> real,
    num: spec_fn(S) -> bool,
    d: DetailConfig<S, H>,
    p: DetailParams<S>,
    least: S,
)
    requires
        scalar::ordered(val, num),
        scalar::repeatable::<S>(),
        scalar::ratio_is(1, 1000, least),
        num(d.tiling),
        p.packs(d),
    ensures
        val(d.tiling) >= val(least) ==> val(p.tiling) == val(d.tiling),
        val(d.tiling) <= val(least) ==> val(p.tiling) == val(least),
        p.normal_strength == d.normal_strength,
        p.albedo_strength == d.albedo_strength,
        p.near == d.near,
        p.far == d.far,
{
}

/// A terrain material shows the clipmap's own heightmap over its texel size and between its
/// height bounds, the images that its bake goes to, its own detail, and the fog that it was
/// given. It starts lit, with the ambient channels at full strength.
pub proof fn law_material_shows_its_clipmap<S: Scalar, H: Clone, L: Copy>(
    m: GridMaterial<S, H, L>,
    clipmap: Clipmap<S, H>,
    rvt: ClipmapRvt<S, H>,
    fog: HeightFogParams<S, L>,
    quality: TerrainQuality,
    wireframe: bool,
)
    requires
        m.draws(clipmap, rvt, fog, quality, wireframe),
    ensures
        cloned(clipmap.heightmap, m.heightmap),
        m.texel_size == clipmap.texel_size,
        m.minmax.x == clipmap.min,
        m.minmax.y == clipmap.max,
        cloned(rvt.albedo, m.rvt_albedo),
        cloned(rvt.normal, m.rvt_normal),
        cloned(rvt.ao, m.rvt_ao),
        cloned(clipmap.detail.albedo_array, m.detail_albedo_array),
        cloned(clipmap.detail.normal_array, m.detail_normal_array),
        cloned(clipmap.detail.orm_array, m.detail_orm_array),
        m.detail.packs(clipmap.detail),
        m.fog.density == fog.density,
        m.fog.look == fog.look,
        m.debug_view == 0,
        scalar::int_is(1, m.ao_strength),
        scalar::int_is(1, m.bent_strength),
        m.flags < 8,
        (m.flags % 2 == 1) == wireframe,
        (m.flags / 2 % 2 == 1) == quality.ambient_gather,
        (m.flags / 4 == 1) == (quality.detail_layers <= 1),
{
}

/// A bake material bakes the clipmap's own heightmap, arrays and layers over its texel size
/// and between its height bounds, to the output and against the sun that it was given.
pub proof fn law_bake_material_bakes_its_clipmap<S: Scalar, H: Clone>(
    m: BakeMaterial<S, H>,
    clipmap: Clipmap<S, H>,
    mode: u32,
    sun_direction: Vec3<S>,
)
    requires
        m.bakes(clipmap, mode, sun_direction),
    ensures
        cloned(clipmap.heightmap, m.heightmap),
        m.texel_size == clipmap.texel_size,
        m.minmax.x == clipmap.min,
        m.minmax.y == clipmap.max,
        cloned(clipmap.albedo_array, m.albedo_array),
        cloned(clipmap.normal_array, m.normal_array),
        cloned(clipmap.orm_array, m.orm_array),
        m.params.packs(clipmap.layers@),
        m.output_mode == mode,
        m.sun_direction.x == sun_direction.x,
        m.sun_direction.y == sun_direction.y,
        m.sun_direction.z == sun_direction.z,
{
}

} // verus!
