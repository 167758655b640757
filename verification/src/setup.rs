//! Setting a clipmap up: its images and materials, its grids, and its bake.

use vstd::prelude::*;

use crate::bake::{self, BakeTarget, RvtBakeCamera, RvtTexture, Sentinel};
use crate::bake_view::{Arrow, BakeView, BAKE_CAMERA_HEIGHT};
use crate::clipmap::Clipmap;
use crate::fog::{self, HeightFogParams, Msaa, TerrainFog};
use crate::grid::{self, Aabb, ClipmapGrid, GridPart, PlacedPart};
use crate::heightfield::{Heightfield, TextureFormat};
use crate::heightfield_laws::lemma_half_side_value;
use crate::material::{
    BakeMaterial, ClipmapMaterials, ClipmapRvt, GridMaterial, RvtImage, STUB_SIZE,
};
use crate::quality::{FogTier, TerrainQuality};
use crate::scalar::{self, Scalar, Vec2, Vec3};

verus! {

/// The images that a clipmap's bake renders into.
pub open spec fn images_of(quality: TerrainQuality) -> Seq<RvtImage> {
    seq![
        RvtImage::of(RvtTexture::Albedo, quality),
        RvtImage::of(RvtTexture::Normal, quality),
        RvtImage::of(RvtTexture::Ao, quality),
    ]
}

/// A bake has three images, one for each texture: albedo, normal, ambient. Every image but a
/// stub has the full size, and the ambient one is a stub if and only if its channel is not
/// gathered.
pub proof fn law_an_image_for_each_texture(quality: TerrainQuality)
    ensures
        images_of(quality).len() == 3,
        images_of(quality)[0].texture == RvtTexture::Albedo,
        images_of(quality)[1].texture == RvtTexture::Normal,
        images_of(quality)[2].texture == RvtTexture::Ao,
        images_of(quality)[0].size == quality.rvt_size,
        images_of(quality)[1].size == quality.rvt_size,
        images_of(quality)[2].size == if quality.ambient_gather {
            quality.rvt_size
        } else {
            4
        },
        images_of(quality)[0].format == TextureFormat::Rgba8UnormSrgb,
        images_of(quality)[1].format == TextureFormat::Rgba8Unorm,
        images_of(quality)[2].format == TextureFormat::Rgba8Unorm,
{
}

/// The images that a clipmap's bake renders into: albedo, normal, ambient.
pub fn rvt_images(quality: &TerrainQuality) -> (r: [RvtImage; 3])
    ensures
        r@ == images_of(*quality),
{
    let r = [
        RvtImage::new(RvtTexture::Albedo, quality),
        RvtImage::new(RvtTexture::Normal, quality),
        RvtImage::new(RvtTexture::Ao, quality),
    ];
    assert(r@ =~= seq![
        RvtImage::of(RvtTexture::Albedo, *quality),
        RvtImage::of(RvtTexture::Normal, *quality),
        RvtImage::of(RvtTexture::Ao, *quality),
    ]);
    r
}

/// The baked images take four bytes for each of their texels: three images of full size
/// where the ambient channel is gathered, and otherwise two and a stub.
pub proof fn law_bake_memory(quality: TerrainQuality)
    ensures
        ({
            let total = RvtImage::of(RvtTexture::Albedo, quality).bytes() + RvtImage::of(
                RvtTexture::Normal,
                quality,
            ).bytes() + RvtImage::of(RvtTexture::Ao, quality).bytes();
            let full = 4 * (quality.rvt_size * quality.rvt_size);
            &&& quality.ambient_gather ==> total == 3 * full
            &&& !quality.ambient_gather ==> total == 2 * full + 64
        }),
{
    let stub = STUB_SIZE as int;
    assert(stub * stub == 16) by (nonlinear_arith)
        requires
            stub == 4,
    ;
}

/// A baked target always goes to an image of its own format and of full size, never to
/// a stub.
pub proof fn law_targets_fit_their_images(quality: TerrainQuality, i: int)
    requires
        0 <= i < BakeTarget::list(quality.ambient_gather).len(),
    ensures
        ({
            let target = BakeTarget::list(quality.ambient_gather)[i];
            let image = RvtImage::of(target.texture, quality);
            &&& image.format == target.format
            &&& image.size == quality.rvt_size
        }),
{
}

/// What a new clipmap starts with.
#[derive(Clone, Debug)]
pub struct ClipmapStart<S, H, L> {
    pub materials: ClipmapMaterials<S, H, L>,
    pub rvt: ClipmapRvt<S, H>,
    /// One grid for each level, the finest first.
    pub grids: Vec<ClipmapGrid>,
}

/// The grids of a clipmap.
pub open spec fn grids_of(levels: nat) -> Seq<ClipmapGrid> {
    Seq::new(levels, |i: int| ClipmapGrid { level: i as u32 })
}

impl<S: Scalar, H: Clone, L: Copy> ClipmapStart<S, H, L> {
    /// This is the start of a clipmap whose bake goes to the images `albedo`, `normal` and
    /// `ao`.
    pub open spec fn starts(
        self,
        clipmap: Clipmap<S, H>,
        albedo: H,
        normal: H,
        ao: H,
        terrain_fog: TerrainFog<S, L>,
        quality: TerrainQuality,
    ) -> bool {
        &&& self.rvt.albedo == albedo
        &&& self.rvt.normal == normal
        &&& self.rvt.ao == ao
        &&& !self.rvt.initialized
        &&& self.rvt.pending_bakes == 0
        &&& scalar::int_is(0, self.rvt.sun_direction.x)
        &&& scalar::int_is(0, self.rvt.sun_direction.y)
        &&& scalar::int_is(0, self.rvt.sun_direction.z)
        &&& fog::inline_is(terrain_fog, quality.fog, self.materials.solid.fog)
        &&& self.materials.solid.draws(
            clipmap,
            self.rvt,
            self.materials.solid.fog,
            quality,
            false,
        )
        &&& self.materials.wireframe.draws(
            clipmap,
            self.rvt,
            self.materials.solid.fog,
            quality,
            true,
        )
        &&& self.grids@ == grids_of(clipmap.levels as nat)
    }

    /// A clipmap starts with exactly as many grids as it has levels, the grid at each place
    /// being that level.
    pub proof fn law_one_grid_for_each_level(
        self,
        clipmap: Clipmap<S, H>,
        albedo: H,
        normal: H,
        ao: H,
        terrain_fog: TerrainFog<S, L>,
        quality: TerrainQuality,
        i: int,
    )
        requires
            self.starts(clipmap, albedo, normal, ao, terrain_fog, quality),
        ensures
            self.grids@.len() == clipmap.levels,
            0 <= i < clipmap.levels ==> self.grids@[i].level == i,
    {
    }

    /// A clipmap's materials are alike but for the wireframe: both draw the clipmap from the
    /// images that its bake goes to, in the fog of the active tier. Its bake waits to be set
    /// up, and has no sun yet.
    pub proof fn law_a_clipmap_starts_unbaked(
        self,
        clipmap: Clipmap<S, H>,
        albedo: H,
        normal: H,
        ao: H,
        terrain_fog: TerrainFog<S, L>,
        quality: TerrainQuality,
    )
        requires
            self.starts(clipmap, albedo, normal, ao, terrain_fog, quality),
        ensures
            self.rvt.albedo == albedo,
            self.rvt.normal == normal,
            self.rvt.ao == ao,
            !self.rvt.initialized,
            self.rvt.pending_bakes == 0,
            scalar::int_is(0, self.rvt.sun_direction.x),
            scalar::int_is(0, self.rvt.sun_direction.y),
            scalar::int_is(0, self.rvt.sun_direction.z),
            cloned(albedo, self.materials.solid.rvt_albedo),
            cloned(normal, self.materials.solid.rvt_normal),
            cloned(ao, self.materials.solid.rvt_ao),
            cloned(albedo, self.materials.wireframe.rvt_albedo),
            cloned(normal, self.materials.wireframe.rvt_normal),
            cloned(ao, self.materials.wireframe.rvt_ao),
            cloned(clipmap.heightmap, self.materials.solid.heightmap),
            cloned(clipmap.heightmap, self.materials.wireframe.heightmap),
            self.materials.solid.flags % 2 == 0,
            self.materials.wireframe.flags == self.materials.solid.flags + 1,
            self.materials.wireframe.fog == self.materials.solid.fog,
            self.materials.solid.fog.look == terrain_fog.0.look,
            quality.fog == FogTier::Low ==> self.materials.solid.fog.density
                == terrain_fog.0.density,
            quality.fog == FogTier::High ==> scalar::int_is(0, self.materials.solid.fog.density),
    {
    }
}

/// Sets up a new clipmap whose bake goes to the images `albedo`, `normal` and `ao`. Its
/// materials are born with the active tier's inline fog.
pub fn init_clipmap<S: Scalar, H: Clone, L: Copy>(
    clipmap: &Clipmap<S, H>,
    albedo: H,
    normal: H,
    ao: H,
    terrain_fog: &TerrainFog<S, L>,
    quality: &TerrainQuality,
) -> (r: ClipmapStart<S, H, L>)
    ensures
        r.starts(*clipmap, albedo, normal, ao, *terrain_fog, *quality),
        r.grids@.len() == clipmap.levels,
        forall|i: int| 0 <= i < clipmap.levels ==> (#[trigger] r.grids@[i]).level == i,
{
    let initial_fog: HeightFogParams<S, L> = fog::inline_fog_params(terrain_fog, quality.fog);
    let rvt = ClipmapRvt::new(albedo, normal, ao);
    let solid = GridMaterial::new(clipmap, &rvt, initial_fog, quality, false);
    let wireframe = GridMaterial::new(clipmap, &rvt, initial_fog, quality, true);
    let mut grids: Vec<ClipmapGrid> = Vec::new();
    let mut level: u32 = 0;
    while level < clipmap.levels
        invariant
            level <= clipmap.levels,
            grids@ == grids_of(level as nat),
        decreases clipmap.levels - level,
    {
        grids.push(ClipmapGrid { level });
        level = level + 1;
        assert(grids@ =~= grids_of(level as nat));
    }
    ClipmapStart { materials: ClipmapMaterials { solid, wireframe }, rvt, grids }
}

/// The boxes of the flat meshes that the grids are made of.
#[derive(Clone, Copy, Debug)]
pub struct PartBoxes<S> {
    pub square: Aabb<S>,
    pub center: Aabb<S>,
    pub filler: Aabb<S>,
    pub stitch: Aabb<S>,
    pub trim: Aabb<S>,
}

impl<S: Scalar> PartBoxes<S> {
    /// The box of a part's mesh.
    pub open spec fn of(self, part: GridPart) -> Aabb<S> {
        match part {
            GridPart::Square => self.square,
            GridPart::Center => self.center,
            GridPart::Filler => self.filler,
            GridPart::Stitch => self.stitch,
            GridPart::Trim => self.trim,
        }
    }

    /// The box of a part's mesh.
    fn get(&self, part: GridPart) -> (r: Aabb<S>)
        ensures
            r == self.of(part),
    {
        match part {
            GridPart::Square => self.square,
            GridPart::Center => self.center,
            GridPart::Filler => self.filler,
            GridPart::Stitch => self.stitch,
            GridPart::Trim => self.trim,
        }
    }
}

/// A part to spawn within its grid.
#[derive(Clone, Copy, Debug)]
pub struct SpawnedPart<S> {
    pub part: GridPart,
    pub translation: Vec3<S>,
    /// The same along every axis.
    pub scale: S,
    /// The part's box for culling.
    pub aabb: Aabb<S>,
    /// Draw a wireframe over the part.
    pub wireframe: bool,
}

impl<S: Scalar> SpawnedPart<S> {
    /// This is the part that `placed` places in a grid of the clipmap.
    pub open spec fn spawns<H>(
        self,
        placed: PlacedPart,
        grid: ClipmapGrid,
        clipmap: Clipmap<S, H>,
        boxes: PartBoxes<S>,
    ) -> bool {
        &&& self.part == placed.part
        &&& placed.translation_is(clipmap.half_width as int, self.translation)
        &&& if placed.halved {
            scalar::ratio_is(1, 2, self.scale)
        } else {
            scalar::int_is(1, self.scale)
        }
        &&& grid.displaced(clipmap.min, clipmap.max, boxes.of(placed.part), self.aabb)
        &&& self.wireframe == clipmap.wireframe
    }
}

/// What a new grid starts with.
#[derive(Clone, Debug)]
pub struct GridStart<S> {
    /// Cell size, the same along every axis.
    pub scale: S,
    /// The parts, the trim last.
    pub parts: Vec<SpawnedPart<S>>,
}

impl<S: Scalar> GridStart<S> {
    /// This is the start of a grid of the clipmap: its scale, and its parts in place.
    pub open spec fn lays_out<H>(
        self,
        grid: ClipmapGrid,
        clipmap: Clipmap<S, H>,
        boxes: PartBoxes<S>,
    ) -> bool {
        let placed = grid::parts_of(grid.level as int, clipmap.half_width as int);
        &&& grid.scale_is(clipmap.base_scale, self.scale)
        &&& self.parts@.len() == placed.len()
        &&& forall|i: int|
            0 <= i < placed.len() ==> (#[trigger] self.parts@[i]).spawns(
                placed[i],
                grid,
                clipmap,
                boxes,
            )
    }
}

/// Sets up a grid of a clipmap.
pub fn init_grid<S: Scalar, H>(
    grid: &ClipmapGrid,
    clipmap: &Clipmap<S, H>,
    boxes: &PartBoxes<S>,
) -> (r: GridStart<S>)
    requires
        clipmap.half_width <= i32::MAX,
        grid.level < 31,
    ensures
        r.lays_out(*grid, *clipmap, *boxes),
{
    let scale = grid.scale(clipmap.base_scale);
    let placed: Vec<PlacedPart> = grid.parts(clipmap.half_width);
    let mut parts: Vec<SpawnedPart<S>> = Vec::new();
    let mut i: usize = 0;
    while i < placed.len()
        invariant
            clipmap.half_width <= i32::MAX,
            grid.level < 31,
            i <= placed@.len(),
            parts@.len() == i,
            forall|j: int|
                0 <= j < i ==> (#[trigger] parts@[j]).spawns(placed@[j], *grid, *clipmap, *boxes),
        decreases placed@.len() - i,
    {
        let p: PlacedPart = placed[i];
        parts.push(
            SpawnedPart {
                part: p.part,
                translation: p.translation(clipmap.half_width),
                scale: if p.halved {
                    S::ratio(1, 2)
                } else {
                    S::of_int(1)
                },
                aabb: grid.displaced_aabb(clipmap.min, clipmap.max, boxes.get(p.part)),
                wireframe: clipmap.wireframe,
            },
        );
        i = i + 1;
    }
    GridStart { scale, parts }
}

/// One bake to set up: a camera for the target, and a sentinel with the same material
/// on a layer and at an order of its own.
#[derive(Clone, Debug)]
pub struct PlannedBake<S, H> {
    pub target: BakeTarget,
    /// The image that the bake renders into.
    pub image: H,
    pub material: BakeMaterial<S, H>,
    pub camera: RvtBakeCamera,
    pub sentinel: Sentinel,
}

impl<S: Scalar, H: Clone> PlannedBake<S, H> {
    /// The image of one of the baked textures.
    pub open spec fn image_of(rvt: ClipmapRvt<S, H>, texture: RvtTexture) -> H {
        match texture {
            RvtTexture::Albedo => rvt.albedo,
            RvtTexture::Normal => rvt.normal,
            RvtTexture::Ao => rvt.ao,
        }
    }

    /// This bakes `target` of a clipmap, from a camera that waits for its sentinel.
    pub open spec fn plans(
        self,
        target: BakeTarget,
        id: u64,
        clipmap: Clipmap<S, H>,
        rvt: ClipmapRvt<S, H>,
        sun_direction: Vec3<S>,
    ) -> bool {
        &&& self.target == target
        &&& cloned(Self::image_of(rvt, target.texture), self.image)
        &&& self.material.bakes(clipmap, target.mode, sun_direction)
        &&& self.camera == RvtBakeCamera::waiting(id)
        &&& self.sentinel == target.sentinel_of()
    }

    /// Plans the bake of one target.
    fn new(
        target: BakeTarget,
        id: u64,
        clipmap: &Clipmap<S, H>,
        rvt: &ClipmapRvt<S, H>,
        sun_direction: Vec3<S>,
    ) -> (r: Self)
        requires
            1 <= target.layer <= 3,
            -3 <= target.order < 0,
        ensures
            r.plans(target, id, *clipmap, *rvt, sun_direction),
    {
        PlannedBake {
            target,
            image: match target.texture {
                RvtTexture::Albedo => rvt.albedo.clone(),
                RvtTexture::Normal => rvt.normal.clone(),
                RvtTexture::Ao => rvt.ao.clone(),
            },
            material: BakeMaterial::new(clipmap, target.mode, sun_direction),
            camera: RvtBakeCamera::new(id),
            sentinel: target.sentinel(),
        }
    }
}

/// The size of a loaded heightmap, in texels.
#[derive(Clone, Copy, Debug)]
pub struct HeightmapSize {
    pub width: u32,
    pub height: u32,
}

/// The bakes of a clipmap.
#[derive(Clone, Debug)]
pub struct BakePlan<S, H> {
    /// World size of the terrain along x. The baked ground and the view of every bake
    /// camera reach half of it to each side of the origin.
    pub size_x: S,
    /// World size of the terrain along z, as `size_x` is along x.
    pub size_z: S,
    /// The view of every bake camera, and of every sentinel's.
    pub view: BakeView<S>,
    pub bakes: Vec<PlannedBake<S, H>>,
}

impl<S: Scalar, H: Clone> BakePlan<S, H> {
    /// `r` is the world size of `texels` texels of the heightmap.
    pub open spec fn side_is(clipmap: Clipmap<S, H>, texels: u32, r: S) -> bool {
        exists|n: S| #[trigger]
            scalar::int_is(texels as int, n) && scalar::product_is(clipmap.texel_size, n, r)
    }

    /// The world size of `texels` texels of the heightmap.
    fn side(clipmap: &Clipmap<S, H>, texels: u32) -> (r: S)
        ensures
            Self::side_is(*clipmap, texels, r),
    {
        let n = S::of_int(texels as i64);
        assert(scalar::int_is(texels as int, n));
        clipmap.texel_size.times(n)
    }

    /// The bakes span the whole terrain, its width along x and its height along z, and all
    /// cameras look down on just that ground.
    pub open spec fn spans(self, clipmap: Clipmap<S, H>, heightmap: HeightmapSize) -> bool {
        &&& Self::side_is(clipmap, heightmap.width, self.size_x)
        &&& Self::side_is(clipmap, heightmap.height, self.size_z)
        &&& self.view.looks_down(self.size_x, self.size_z)
    }

    /// The bakes are those of the clipmap's targets, in order.
    pub open spec fn covers(
        self,
        id: u64,
        clipmap: Clipmap<S, H>,
        rvt: ClipmapRvt<S, H>,
        sun_direction: Vec3<S>,
        quality: TerrainQuality,
    ) -> bool {
        let targets = BakeTarget::list(quality.ambient_gather);
        &&& self.bakes@.len() == targets.len()
        &&& forall|i: int|
            0 <= i < targets.len() ==> (#[trigger] self.bakes@[i]).plans(
                targets[i],
                id,
                clipmap,
                rvt,
                sun_direction,
            )
    }
}

/// The bake of a clipmap can be set up: it has not been yet, its heightmap is loaded,
/// and there is a sun.
pub open spec fn can_bake<S, H>(
    rvt: ClipmapRvt<S, H>,
    heightmap: Option<HeightmapSize>,
    sun: Option<Vec3<S>>,
) -> bool {
    !rvt.initialized && heightmap is Some && sun is Some
}

/// `r` is the bake of the clipmap with the given identity, and its state was `before` and is
/// `after`.
pub open spec fn sets_up<S: Scalar, H: Clone>(
    id: u64,
    clipmap: Clipmap<S, H>,
    before: ClipmapRvt<S, H>,
    after: ClipmapRvt<S, H>,
    heightmap: Option<HeightmapSize>,
    sun: Option<Vec3<S>>,
    quality: TerrainQuality,
    r: Option<BakePlan<S, H>>,
) -> bool {
    &&& r is Some <==> can_bake(before, heightmap, sun)
    &&& r is None ==> after == before
    &&& r matches Some(plan) ==> {
        &&& plan.spans(clipmap, heightmap->0)
        &&& plan.covers(id, clipmap, before, sun->0, quality)
        &&& after == (ClipmapRvt {
            initialized: true,
            sun_direction: sun->0,
            pending_bakes: plan.bakes@.len() as u32,
            ..before
        })
    }
}

/// Setting a bake up fixes its sun and counts its bakes, three with the ambient channel and
/// two without, and keeps its images. It happens once: nothing changes while the heightmap or
/// the sun is missing, and nothing ever again after.
pub proof fn law_a_bake_is_set_up_once<S: Scalar, H: Clone>(
    id: u64,
    clipmap: Clipmap<S, H>,
    before: ClipmapRvt<S, H>,
    after: ClipmapRvt<S, H>,
    later: ClipmapRvt<S, H>,
    heightmap: Option<HeightmapSize>,
    sun: Option<Vec3<S>>,
    later_sun: Option<Vec3<S>>,
    quality: TerrainQuality,
    r: Option<BakePlan<S, H>>,
    again: Option<BakePlan<S, H>>,
)
    requires
        sets_up(id, clipmap, before, after, heightmap, sun, quality, r),
        sets_up(id, clipmap, after, later, heightmap, later_sun, quality, again),
    ensures
        r is Some <==> !before.initialized && heightmap is Some && sun is Some,
        r is None ==> after == before,
        after.albedo == before.albedo,
        after.normal == before.normal,
        after.ao == before.ao,
        r is Some ==> {
            &&& after.initialized
            &&& after.sun_direction == sun->0
            &&& quality.ambient_gather ==> after.pending_bakes == 3
            &&& !quality.ambient_gather ==> after.pending_bakes == 2
            &&& after.pending_bakes == (r->0).bakes@.len()
            &&& (r->0).spans(clipmap, heightmap->0)
            &&& (r->0).covers(id, clipmap, before, sun->0, quality)
            &&& again is None
            &&& later == after
        },
{
}

/// Sets up the bake of the clipmap with the given identity, once its heightmap is loaded
/// and there is a sun. `None` while there is nothing to do.
pub fn init_rvt<S: Scalar, H: Clone>(
    id: u64,
    clipmap: &Clipmap<S, H>,
    rvt: &mut ClipmapRvt<S, H>,
    heightmap: Option<HeightmapSize>,
    sun: Option<Vec3<S>>,
    quality: &TerrainQuality,
) -> (r: Option<BakePlan<S, H>>)
    ensures
        sets_up(id, *clipmap, *old(rvt), *final(rvt), heightmap, sun, *quality, r),
        r is Some <==> !old(rvt).initialized && heightmap is Some && sun is Some,
{
    if rvt.initialized {
        return None;
    }
    let (size, sun_direction) = match (heightmap, sun) {
        (Some(size), Some(sun_direction)) => (size, sun_direction),
        _ => {
            return None;
        },
    };
    let size_x = BakePlan::side(clipmap, size.width);
    let size_z = BakePlan::side(clipmap, size.height);
    let targets: Vec<BakeTarget> = bake::bake_targets(quality.ambient_gather);
    let mut bakes: Vec<PlannedBake<S, H>> = Vec::new();
    let ghost rvt0 = *rvt;
    let mut i: usize = 0;
    while i < targets.len()
        invariant
            *rvt == rvt0,
            targets@ == BakeTarget::list(quality.ambient_gather),
            i <= targets@.len(),
            bakes@.len() == i,
            forall|j: int|
                0 <= j < i ==> (#[trigger] bakes@[j]).plans(
                    targets@[j],
                    id,
                    *clipmap,
                    rvt0,
                    sun_direction,
                ),
        decreases targets@.len() - i,
    {
        let target: BakeTarget = targets[i];
        bakes.push(PlannedBake::new(target, id, clipmap, rvt, sun_direction));
        i = i + 1;
    }
    rvt.initialized = true;
    rvt.sun_direction = sun_direction;
    rvt.pending_bakes = if quality.ambient_gather {
        3
    } else {
        2
    };
    let view = BakeView::over(size_x, size_z);
    let plan = BakePlan { size_x, size_z, view, bakes };
    assert(plan.spans(*clipmap, size));
    assert(plan.covers(id, *clipmap, rvt0, sun_direction, *quality));
    Some(plan)
}

/// Where arithmetic is exact, the bake covers the terrain, whole and no more: its sides are
/// twice the half extents of the heightfield over the same heightmap, and both are centered
/// on the origin.
pub proof fn law_bake_covers_the_terrain<'a, S: Scalar, H: Clone>(
    val: spec_fn(S) -> real,
    clipmap: Clipmap<S, H>,
    heightmap: HeightmapSize,
    plan: BakePlan<S, H>,
    field: Heightfield<'a, S>,
    half: Vec2<S>,
)
    requires
        scalar::exact(val),
        plan.spans(clipmap, heightmap),
        field.width == heightmap.width,
        field.height == heightmap.height,
        field.texel_size == clipmap.texel_size,
        field.half_extent_is(half),
    ensures
        val(plan.size_x) == 2 as real * val(half.x),
        val(plan.size_z) == 2 as real * val(half.y),
{
    lemma_side_is_two_halves(val, clipmap, heightmap.width, plan.size_x, half.x);
    lemma_side_is_two_halves(val, clipmap, heightmap.height, plan.size_z, half.y);
}

/// Where arithmetic is exact, a point of the terrain is seen in every bake where the main
/// pass looks it up: at `x / size_x + 1/2` from the left and `z / size_z + 1/2` from the top,
/// within the image, and neither too near nor too far if it is within the camera's height of
/// the ground.
pub proof fn law_bake_shows_the_terrain<'a, S: Scalar, H: Clone>(
    val: spec_fn(S) -> real,
    clipmap: Clipmap<S, H>,
    heightmap: HeightmapSize,
    plan: BakePlan<S, H>,
    field: Heightfield<'a, S>,
    p: Vec3<S>,
    u: real,
    v: real,
    depth: real,
)
    requires
        scalar::exact(val),
        val(clipmap.texel_size) > 0 as real,
        0 < heightmap.width,
        0 < heightmap.height,
        plan.spans(clipmap, heightmap),
        field.width == heightmap.width,
        field.height == heightmap.height,
        field.texel_size == clipmap.texel_size,
        field.contains_is(p, true),
        plan.view.shows(val, Arrow::of(val, p), u, v, depth),
    ensures
        val(p.x) == (u - 1 as real / 2 as real) * val(plan.size_x),
        val(p.z) == (v - 1 as real / 2 as real) * val(plan.size_z),
        0 as real <= u && u <= 1 as real,
        0 as real <= v && v <= 1 as real,
        -(BAKE_CAMERA_HEIGHT as real) <= val(p.y) && val(p.y) <= BAKE_CAMERA_HEIGHT as real ==> val(
            plan.view.near,
        ) <= depth && depth <= val(plan.view.far),
{
    plan.view.law_image_lies_as_sampled(
        val,
        plan.size_x,
        plan.size_z,
        Arrow::of(val, p),
        u,
        v,
        depth,
    );
    field.law_contains_the_extent(val, p, true);
    lemma_share_of_side(val, clipmap, heightmap.width, plan.size_x, val(p.x), u);
    lemma_share_of_side(val, clipmap, heightmap.height, plan.size_z, val(p.z), v);
}

/// What lies over half a side from the middle lies over the image.
proof fn lemma_share_of_side<S: Scalar, H: Clone>(
    val: spec_fn(S) -> real,
    clipmap: Clipmap<S, H>,
    texels: u32,
    side: S,
    coord: real,
    share: real,
)
    requires
        scalar::exact(val),
        val(clipmap.texel_size) > 0 as real,
        0 < texels,
        BakePlan::side_is(clipmap, texels, side),
        -(texels as real * val(clipmap.texel_size)) <= 2 as real * coord,
        2 as real * coord <= texels as real * val(clipmap.texel_size),
        coord == (share - 1 as real / 2 as real) * val(side),
    ensures
        0 as real <= share,
        share <= 1 as real,
{
    let size = val(clipmap.texel_size);
    let n = texels as real;
    let whole = val(side);
    assert(whole == size * n);
    let half = 1 as real / 2 as real;
    assert(0 as real <= share && share <= 1 as real) by (nonlinear_arith)
        requires
            whole == size * n,
            size > 0 as real,
            n > 0 as real,
            -(n * size) <= 2 as real * coord,
            2 as real * coord <= n * size,
            coord == (share - half) * whole,
            half * 2 as real == 1 as real,
    ;
}

/// A sentinel needs the pipeline of its bake: it renders the same material to the same
/// format as the image that the bake goes to, by the view that both share. So a sentinel
/// that has rendered shows that its bake can be.
pub proof fn law_sentinels_match_their_bakes<S: Scalar, H: Clone>(
    plan: BakePlan<S, H>,
    id: u64,
    clipmap: Clipmap<S, H>,
    rvt: ClipmapRvt<S, H>,
    sun_direction: Vec3<S>,
    quality: TerrainQuality,
    i: int,
)
    requires
        plan.covers(id, clipmap, rvt, sun_direction, quality),
        0 <= i < plan.bakes@.len(),
    ensures
        ({
            let bake = plan.bakes@[i];
            &&& bake.sentinel.format == RvtImage::of(bake.target.texture, quality).format
            &&& bake.sentinel.size == bake::SENTINEL_SIZE
            &&& bake.sentinel.layer != bake.target.layer
            &&& bake.sentinel.order < bake.target.order
        }),
{
    let targets = BakeTarget::list(quality.ambient_gather);
    assert(plan.bakes@[i].plans(targets[i], id, clipmap, rvt, sun_direction));
    law_targets_fit_their_images(quality, i);
}

/// A bake can be set up if and only if it has not been, the heightmap is loaded, and there is
/// a sun, whatever else is known of any of them.
pub proof fn law_bake_waits_for_all_three<S, H>(
    rvt: ClipmapRvt<S, H>,
    heightmap: Option<HeightmapSize>,
    sun: Option<Vec3<S>>,
)
    ensures
        rvt.initialized ==> !can_bake(rvt, heightmap, sun),
        heightmap is None ==> !can_bake(rvt, heightmap, sun),
        sun is None ==> !can_bake(rvt, heightmap, sun),
        !rvt.initialized && heightmap is Some && sun is Some ==> can_bake(rvt, heightmap, sun),
{
}

/// Where arithmetic is exact, the baked ground is as large as the heightmap's texels: its
/// width along x and its height along z, times the texel size.
pub proof fn law_bake_is_as_large_as_the_texels<S: Scalar, H: Clone>(
    val: spec_fn(S) -> real,
    clipmap: Clipmap<S, H>,
    heightmap: HeightmapSize,
    plan: BakePlan<S, H>,
)
    requires
        scalar::exact(val),
        plan.spans(clipmap, heightmap),
    ensures
        val(plan.size_x) == val(clipmap.texel_size) * heightmap.width as real,
        val(plan.size_z) == val(clipmap.texel_size) * heightmap.height as real,
        plan.view.width == plan.size_x,
        plan.view.height == plan.size_z,
        val(plan.view.position.x) == 0 as real,
        val(plan.view.position.y) == 10000 as real,
        val(plan.view.position.z) == 0 as real,
        val(plan.view.near) == 0 as real,
        val(plan.view.far) == 20000 as real,
        val(plan.view.clear_color.x) == 0 as real,
        val(plan.view.clear_color.y) == 0 as real,
        val(plan.view.clear_color.z) == 0 as real,
        !plan.view.tonemapped,
        plan.view.msaa == Msaa::Off,
{
}

/// A clipmap's bakes are albedo, normal, and the ambient channel where it is gathered, in
/// that order. Each renders its own output of the clipmap's layers against the sun into its
/// own image, on a layer and at an order of its own, from a camera that waits for its
/// sentinel: four by four texels of the same format, with a layer and an order of its own.
pub proof fn law_bakes_of_a_clipmap<S: Scalar, H: Clone>(
    plan: BakePlan<S, H>,
    id: u64,
    clipmap: Clipmap<S, H>,
    rvt: ClipmapRvt<S, H>,
    sun_direction: Vec3<S>,
    quality: TerrainQuality,
    i: int,
)
    requires
        plan.covers(id, clipmap, rvt, sun_direction, quality),
    ensures
        quality.ambient_gather ==> plan.bakes@.len() == 3,
        !quality.ambient_gather ==> plan.bakes@.len() == 2,
        0 <= i < plan.bakes@.len() ==> {
            let b = plan.bakes@[i];
            &&& cloned(
                if i == 0 {
                    rvt.albedo
                } else if i == 1 {
                    rvt.normal
                } else {
                    rvt.ao
                },
                b.image,
            )
            &&& b.target.mode == i
            &&& b.target.layer == i + 1
            &&& b.target.order == i - 3
            &&& b.target.format == b.sentinel.format
            &&& b.material.output_mode == i
            &&& b.material.sun_direction == sun_direction
            &&& b.material.params.packs(clipmap.layers@)
            &&& cloned(clipmap.heightmap, b.material.heightmap)
            &&& cloned(clipmap.albedo_array, b.material.albedo_array)
            &&& cloned(clipmap.normal_array, b.material.normal_array)
            &&& cloned(clipmap.orm_array, b.material.orm_array)
            &&& b.material.texel_size == clipmap.texel_size
            &&& b.material.minmax.x == clipmap.min
            &&& b.material.minmax.y == clipmap.max
            &&& b.camera == (RvtBakeCamera {
                is_active: false,
                ready: false,
                frames: 2,
                clipmap: id,
            })
            &&& b.sentinel.size == 4
            &&& b.sentinel.layer == i + 4
            &&& b.sentinel.order == i - 13
        },
{
    if 0 <= i < plan.bakes@.len() {
        let targets = BakeTarget::list(quality.ambient_gather);
        assert(plan.bakes@[i].plans(targets[i], id, clipmap, rvt, sun_direction));
        bake::law_ambient_target_comes_last(quality.ambient_gather, i);
        bake::law_sentinel_of_a_target(targets[i]);
    }
}

/// The side of a bake is twice the half side of the terrain.
proof fn lemma_side_is_two_halves<S: Scalar, H: Clone>(
    val: spec_fn(S) -> real,
    clipmap: Clipmap<S, H>,
    texels: u32,
    side: S,
    half_side: S,
)
    requires
        scalar::exact(val),
        BakePlan::side_is(clipmap, texels, side),
        Heightfield::half_side_is(texels as int, clipmap.texel_size, half_side),
    ensures
        val(side) == 2 as real * val(half_side),
{
    let size = val(clipmap.texel_size);
    let n = texels as real;
    assert(val(side) == size * n);
    lemma_half_side_value(val, texels as int, clipmap.texel_size, half_side);
    assert(size * n == n * size) by (nonlinear_arith);
}

/// The cameras of a plan, as they start.
pub open spec fn cameras_of<S, H>(plan: BakePlan<S, H>) -> Seq<RvtBakeCamera> {
    plan.bakes@.map_values(|b: PlannedBake<S, H>| b.camera)
}

/// Setting a bake up keeps the counts right: the bakes left to finish for the clipmap are
/// those of its new cameras, and no other clipmap's count changes.
pub proof fn law_setup_keeps_counts<S: Scalar, H: Clone>(
    cameras: Seq<RvtBakeCamera>,
    pending: Map<u64, u32>,
    plan: BakePlan<S, H>,
    id: u64,
    clipmap: Clipmap<S, H>,
    rvt: ClipmapRvt<S, H>,
    sun_direction: Vec3<S>,
    quality: TerrainQuality,
)
    requires
        bake::counted(cameras, pending),
        forall|i: int| 0 <= i < cameras.len() ==> (#[trigger] cameras[i]).clipmap != id,
        plan.covers(id, clipmap, rvt, sun_direction, quality),
    ensures
        bake::counted(
            cameras + cameras_of(plan),
            pending.insert(id, plan.bakes@.len() as u32),
        ),
{
    let added = cameras_of(plan);
    let all = cameras + added;
    let after = pending.insert(id, plan.bakes@.len() as u32);
    assert forall|i: int| 0 <= i < added.len() implies #[trigger] added[i]
        == RvtBakeCamera::waiting(id) by {
        assert(plan.bakes@[i].plans(
            BakeTarget::list(quality.ambient_gather)[i],
            id,
            clipmap,
            rvt,
            sun_direction,
        ));
    }
    assert forall|other: u64| #[trigger] after.contains_key(other) implies after[other]
        == bake::unfinished(all, other, all.len()) by {
        bake::lemma_unfinished_appended(cameras, added, id, other, added.len());
        if other == id {
            bake::lemma_unfinished_none(cameras, id, cameras.len());
        } else {
            assert(pending.contains_key(other));
        }
    }
}

} // verus!
