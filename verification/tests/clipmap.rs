use std::collections::HashMap;

use bevy_clipmap::bake::{
    bake_targets, drive_rvt_bake, has_whole_pixels, readback_is_baked, RvtBakeCamera, RvtTexture,
    RVT_BAKE_FRAMES, RVT_SENTINEL_LAYER_OFFSET,
};
use bevy_clipmap::dev_controls::{
    bypasses_tonemapping, debug_cycle_view, debug_view_name, toggle_ao, toggle_bent, Inspection,
};
use bevy_clipmap::fog::{
    apply_terrain_quality, fog_new_mesh_material, inline_fog_params, MaterialEvent, Msaa,
};
use bevy_clipmap::grid::{
    filler_width, level_factor, square_width, Aabb, ClipmapGrid, GridPart, QuarterTurn,
};
use bevy_clipmap::layers::{divisor, TerrainParams};
use bevy_clipmap::material::{
    material_flags, BakeMaterial, ClipmapRvt, DetailParams, GridMaterial, RvtImage, WireframeKey,
};
use bevy_clipmap::setup::{
    init_clipmap, init_grid, init_rvt, rvt_images, HeightmapSize, PartBoxes,
};
use bevy_clipmap::{
    Clipmap, DetailConfig, FogTier, HeightFog, HeightFogParams, HeightImage, HeightRule,
    Heightfield, InlineFog, Scalar, ShadedClipmap, SlopeRule, SunVisibility, TerrainFog,
    TerrainLayer, TerrainQuality, TextureFormat, Vec2, Vec3, MAX_TERRAIN_LAYERS,
};

/// Single precision, as the renderer computes.
#[derive(Clone, Copy, Debug, PartialEq, PartialOrd)]
struct Real(f32);

impl Scalar for Real {
    fn of_int(n: i64) -> Self {
        Real(n as f32)
    }
    fn ratio(num: i64, den: i64) -> Self {
        Real(num as f32 / den as f32)
    }
    fn plus(self, rhs: Self) -> Self {
        Real(self.0 + rhs.0)
    }
    fn minus(self, rhs: Self) -> Self {
        Real(self.0 - rhs.0)
    }
    fn times(self, rhs: Self) -> Self {
        Real(self.0 * rhs.0)
    }
    fn over(self, rhs: Self) -> Self {
        Real(self.0 / rhs.0)
    }
    fn negated(self) -> Self {
        Real(-self.0)
    }
    fn floored(self) -> Self {
        Real(self.0.floor())
    }
    fn lesser(self, rhs: Self) -> Self {
        Real(self.0.min(rhs.0))
    }
    fn greater(self, rhs: Self) -> Self {
        Real(self.0.max(rhs.0))
    }
    fn held_between(self, lo: Self, hi: Self) -> Self {
        Real(self.0.clamp(lo.0, hi.0))
    }
    fn radians(self) -> Self {
        Real(self.0.to_radians())
    }
    fn below(self, rhs: Self) -> bool {
        self.0 < rhs.0
    }
    fn at_most(self, rhs: Self) -> bool {
        self.0 <= rhs.0
    }
    fn whole64(self) -> i64 {
        self.0 as i64
    }
    fn whole32(self) -> i32 {
        self.0 as i32
    }
}

fn vec2(x: f32, y: f32) -> Vec2<Real> {
    Vec2 { x: Real(x), y: Real(y) }
}

fn vec3(x: f32, y: f32, z: f32) -> Vec3<Real> {
    Vec3 { x: Real(x), y: Real(y), z: Real(z) }
}

fn plain(v: Vec3<Real>) -> (f32, f32, f32) {
    (v.x.0, v.y.0, v.z.0)
}

/// The texels of a 16x16 heightmap; `h(x, y)` gives each texel's raw 16-bit height.
fn heightmap(h: impl Fn(usize, usize) -> u16) -> Vec<u8> {
    const N: usize = 16;
    let mut data = Vec::with_capacity(N * N * 2);
    for y in 0..N {
        for x in 0..N {
            data.extend_from_slice(&h(x, y).to_le_bytes());
        }
    }
    data
}

fn image(data: &[u8]) -> HeightImage<'_> {
    HeightImage { format: TextureFormat::R16Unorm, data: Some(data), width: 16, height: 16 }
}

fn field(data: &[u8]) -> Heightfield<'_, Real> {
    Heightfield::new(image(data), Real(1.0), Real(0.0), Real(100.0)).unwrap()
}

fn low_sun() -> Vec3<Real> {
    let sun = bevy::math::Vec3::new(1.0, 0.3, 0.0).normalize();
    vec3(sun.x, sun.y, sun.z)
}

#[test]
fn height_decodes_and_centers_on_origin() {
    // Wall (max height) on the +X columns, flat (0) elsewhere. min..max = 0..100.
    let img = heightmap(|x, _| if x >= 12 { u16::MAX } else { 0 });
    let field = field(&img);
    // texel_size 1, width 16 -> world spans [-8, 8]; column 13 is world x = 5.
    assert!((field.height(vec2(5.0, 0.0)).0 - 100.0).abs() < 1e-2);
    assert!(field.height(vec2(-5.0, 0.0)).0.abs() < 1e-2);
    assert!(field.contains(vec3(7.0, 0.0, 0.0)));
    assert!(!field.contains(vec3(9.0, 0.0, 0.0)));
}

#[test]
fn flat_terrain_is_fully_lit() {
    let img = heightmap(|_, _| 0);
    let field = field(&img);
    // A point above flat ground sees the sun unobstructed.
    assert!((field.sun_visibility(vec3(0.0, 5.0, 0.0), low_sun()).0 - 1.0).abs() < 1e-3);
}

#[test]
fn tall_wall_casts_shadow_toward_the_sun() {
    // Wall along +X; sun is low in the +X sky, so points on the -X side of the wall are
    // occluded.
    let img = heightmap(|x, _| if x >= 12 { u16::MAX } else { 0 });
    let field = field(&img);
    let shadowed = field.sun_visibility(vec3(-6.0, 2.0, 0.0), low_sun()).0;
    assert!(shadowed < 0.5, "expected shadow behind the wall, got {shadowed}");
    // Above the wall's height, nothing occludes the same column.
    let lit = field.sun_visibility(vec3(-6.0, 150.0, 0.0), low_sun()).0;
    assert!((lit - 1.0).abs() < 1e-3, "expected full sun above the wall, got {lit}");
}

#[test]
fn above_all_terrain_the_sun_is_exactly_full() {
    let img = heightmap(|_, _| u16::MAX);
    let field = field(&img);
    assert_eq!(field.sun_visibility(vec3(0.0, 101.0, 0.0), low_sun()), Real(1.0));
    assert_eq!(field.sun_visibility(vec3(0.0, 50.0, 0.0), low_sun()), Real(0.0));
}

#[test]
fn the_march_agrees_with_the_same_march_in_single_precision() {
    let img = heightmap(|x, y| (x * 15 + y * 7) as u16);
    let field = field(&img);
    let (origin, sun) = (vec3(-7.0, 2.0, -3.0), vec3(0.9, 0.05, 0.1));
    let (mut vis, mut step, mut t) = (1.0f32, 3.0f32, 3.0f32);
    for _ in 0..96 {
        if t > 6000.0 {
            break;
        }
        let p = (origin.x.0 + sun.x.0 * t, origin.y.0 + sun.y.0 * t, origin.z.0 + sun.z.0 * t);
        if p.1 > 100.0 {
            break;
        }
        let clearance = p.1 - field.height(vec2(p.0, p.2)).0;
        vis = vis.min((10.0 * clearance / t).clamp(0.0, 1.0));
        if vis <= 0.001 {
            break;
        }
        step *= 1.12;
        t += step;
    }
    assert_eq!(field.sun_visibility(origin, sun).0, vis);
    assert!(0.0 < vis && vis < 1.0);
}

#[test]
fn texels_are_little_endian_and_edge_clamped() {
    let img = heightmap(|x, y| (y * 256 + x) as u16);
    let field = field(&img);
    assert_eq!(field.raw_texel(3, 2), 2 * 256 + 3);
    assert_eq!(field.raw_texel(-5, 99), 15 * 256);
    assert_eq!(field.raw_texel(i64::MAX, i64::MIN), 15);
    assert_eq!(field.texel(15, 0), Real(15.0 / 65535.0));
}

#[test]
fn height_is_bilinear_between_texels() {
    let img = heightmap(|x, _| if x == 8 { 65535 } else { 0 });
    let field = field(&img);
    assert_eq!(field.height(vec2(0.0, 0.0)), Real(100.0));
    assert_eq!(field.height(vec2(0.25, 0.0)), Real(75.0));
    assert_eq!(field.height(vec2(-0.5, 3.3)), Real(50.0));
    // Far beyond the map the edge is read.
    assert_eq!(field.height(vec2(1e30, 0.0)), Real(0.0));
}

#[test]
fn the_extent_is_centered_and_closed() {
    let img = heightmap(|_, _| 0);
    let wide = Heightfield::new(
        HeightImage { width: 32, height: 8, ..image(&img) },
        Real(2.0),
        Real(0.0),
        Real(1.0),
    )
    .unwrap();
    let half = wide.half_extent();
    assert_eq!((half.x.0, half.y.0), (32.0, 8.0));
    assert!(wide.contains(vec3(32.0, -1e9, -8.0)));
    assert!(!wide.contains(vec3(0.0, 0.0, 8.5)));
    assert!(!wide.contains(vec3(f32::NAN, 0.0, 0.0)));
}

#[test]
fn only_resident_single_channel_images_are_heightmaps() {
    let img = heightmap(|_, _| 0);
    for format in [TextureFormat::Rgba8Unorm, TextureFormat::Rgba8UnormSrgb, TextureFormat::Other] {
        let other = HeightImage { format, ..image(&img) };
        assert!(Heightfield::new(other, Real(1.0), Real(0.0), Real(1.0)).is_none());
    }
    let absent = HeightImage { data: None, ..image(&img) };
    assert!(Heightfield::new(absent, Real(1.0), Real(0.0), Real(1.0)).is_none());
}

fn shaded(data: &[u8]) -> ShadedClipmap<'_, Real> {
    ShadedClipmap {
        initialized: true,
        heightmap: Some(image(data)),
        texel_size: Real(1.0),
        min: Real(0.0),
        max: Real(100.0),
        sun_direction: low_sun(),
    }
}

#[test]
fn sample_asks_the_first_clipmap_that_covers_the_point() {
    let wall = heightmap(|x, _| if x >= 12 { u16::MAX } else { 0 });
    let flat = heightmap(|_, _| 0);
    let point = vec3(-6.0, 2.0, 0.0);
    let sun = SunVisibility { clipmaps: vec![shaded(&wall), shaded(&flat)] };
    assert_eq!(sun.sample(point), Some(field(&wall).sun_visibility(point, low_sun())));
    let sun = SunVisibility { clipmaps: vec![shaded(&flat), shaded(&wall)] };
    assert_eq!(sun.sample(point), Some(field(&flat).sun_visibility(point, low_sun())));
}

#[test]
fn sample_passes_over_clipmaps_that_cannot_answer() {
    let wall = heightmap(|x, _| if x >= 12 { u16::MAX } else { 0 });
    let flat = heightmap(|_, _| 0);
    let point = vec3(-6.0, 2.0, 0.0);
    let waiting = ShadedClipmap { initialized: false, ..shaded(&wall) };
    let loading = ShadedClipmap { heightmap: None, ..shaded(&wall) };
    let color = ShadedClipmap {
        heightmap: Some(HeightImage { format: TextureFormat::Rgba8Unorm, ..image(&wall) }),
        ..shaded(&wall)
    };
    let small = ShadedClipmap { texel_size: Real(0.5), ..shaded(&wall) };
    let sun = SunVisibility { clipmaps: vec![waiting, loading, color, small, shaded(&flat)] };
    assert_eq!(sun.sample(point), Some(field(&flat).sun_visibility(point, low_sun())));
    let sun = SunVisibility { clipmaps: vec![waiting, loading, color, small] };
    assert_eq!(sun.sample(point), None);
    let sun: SunVisibility<'_, Real> = SunVisibility { clipmaps: vec![] };
    assert_eq!(sun.sample(point), None);
}

fn layer(n: u8) -> TerrainLayer<Real> {
    TerrainLayer {
        tiling_scale: Real(n as f32),
        height_blend: Real(0.1),
        normal_strength: Real(0.2),
        roughness: Real(0.3),
        slope: None,
        height: None,
    }
}

fn clipmap(layers: Vec<TerrainLayer<Real>>) -> Clipmap<Real, &'static str> {
    Clipmap {
        half_width: 7,
        levels: 3,
        base_scale: Real(0.5),
        texel_size: Real(8.0),
        target: 42,
        heightmap: "heightmap",
        albedo_array: "albedo array",
        normal_array: "normal array",
        orm_array: "orm array",
        layers,
        detail: DetailConfig {
            albedo_array: "detail albedo",
            normal_array: "detail normal",
            orm_array: "detail orm",
            tiling: Real(0.0),
            normal_strength: Real(0.8),
            albedo_strength: Real(0.7),
            near: Real(60.0),
            far: Real(600.0),
        },
        min: Real(-20.0),
        max: Real(100.0),
        wireframe: false,
    }
}

#[test]
fn layers_are_packed_lane_by_lane() {
    let ruled = TerrainLayer {
        slope: Some(SlopeRule { min_deg: Real(18.0), max_deg: Real(90.0), blend_deg: Real(0.0) }),
        height: Some(HeightRule { min: Real(5.0), max: Real(6.0), blend: Real(2.0) }),
        ..layer(0)
    };
    let params = TerrainParams::from_clipmap(&clipmap(vec![layer(3), ruled]));
    assert_eq!(params.layer_count, 2);
    assert_eq!(params.tiling_scale, [Real(3.0), Real(1e-3), Real(1.0), Real(1.0)]);
    assert_eq!(params.height_blend, [Real(0.1), Real(0.1), Real(0.0), Real(0.0)]);
    assert_eq!(params.roughness, [Real(0.3), Real(0.3), Real(1.0), Real(1.0)]);
    assert_eq!(params.normal_strength, [Real(0.2), Real(0.2), Real(1.0), Real(1.0)]);
    let open = Real(-10.0);
    assert_eq!(params.slope_min, [open, Real(18.0f32.to_radians()), open, open]);
    let open = Real(10.0);
    assert_eq!(params.slope_max, [open, Real(90.0f32.to_radians()), open, open]);
    let open = Real(0.01);
    assert_eq!(params.slope_blend, [open, Real(1e-3), open, open]);
    let open = Real(-1.0e9);
    assert_eq!(params.height_min, [open, Real(5.0), open, open]);
    let open = Real(1.0e9);
    assert_eq!(params.height_max, [open, Real(6.0), open, open]);
    let open = Real(1.0);
    assert_eq!(params.height_range_blend, [open, Real(2.0), open, open]);
}

#[test]
fn layers_beyond_the_fourth_are_left_out() {
    let params = TerrainParams::from_clipmap(&clipmap((1..=6).map(layer).collect()));
    assert_eq!(params.layer_count as usize, MAX_TERRAIN_LAYERS);
    assert_eq!(params.tiling_scale, [Real(1.0), Real(2.0), Real(3.0), Real(4.0)]);
    assert_eq!(TerrainParams::from_clipmap(&clipmap(vec![])).layer_count, 0);
}

#[test]
fn divisors_stay_off_zero() {
    assert_eq!(divisor(Real(0.0)), Real(1e-3));
    assert_eq!(divisor(Real(-4.0)), Real(1e-3));
    assert_eq!(divisor(Real(2.0)), Real(2.0));
    let params = DetailParams::from_config(&clipmap(vec![]).detail);
    assert_eq!(params.tiling, Real(1e-3));
    let packed = TerrainParams::from_clipmap(&clipmap(vec![layer(0), layer(1)]));
    assert!(packed.tiling_scale.iter().all(|s| s.0 >= 1e-3));
    assert!(packed.slope_blend.iter().all(|s| s.0 >= 1e-3));
    assert!(packed.height_range_blend.iter().all(|s| s.0 >= 1e-3));
    assert_eq!((params.normal_strength, params.albedo_strength), (Real(0.8), Real(0.7)));
    assert_eq!((params.near, params.far), (Real(60.0), Real(600.0)));
}

#[test]
fn widths_make_up_the_half_width() {
    assert_eq!((filler_width(7), square_width(7)), (1, 3));
    assert_eq!((filler_width(8), square_width(8)), (2, 3));
    assert_eq!((filler_width(128), square_width(128)), (2, 63));
    assert_eq!((filler_width(1), square_width(1)), (1, 0));
    assert_eq!((filler_width(0), square_width(0)), (2, -1));
    for n in 1..200u32 {
        assert_eq!(2 * square_width(n) + filler_width(n), n as i32);
    }
}

#[test]
fn levels_double_in_scale() {
    assert_eq!((level_factor(0), level_factor(5), level_factor(31)), (1, 32, 1 << 31));
    assert_eq!(ClipmapGrid { level: 3 }.scale(Real(0.5)), Real(4.0));
    assert_eq!(ClipmapGrid { level: 0 }.scale(Real(0.5)), Real(0.5));
    for level in 0..30 {
        let scale = ClipmapGrid { level }.scale(Real(0.75)).0;
        assert_eq!(ClipmapGrid { level: level + 1 }.scale(Real(0.75)), Real(2.0 * scale));
    }
}

#[test]
fn the_finest_level_is_whole_and_the_others_have_a_hole() {
    let finest = ClipmapGrid { level: 0 }.parts(8);
    let squares = |parts: &[bevy_clipmap::grid::PlacedPart]| {
        parts.iter().filter(|p| p.part == GridPart::Square).count()
    };
    assert_eq!((finest.len(), squares(&finest)), (18, 16));
    assert_eq!(finest[16].part, GridPart::Center);
    assert_eq!(finest[17].part, GridPart::Trim);
    let coarser = ClipmapGrid { level: 2 }.parts(8);
    assert_eq!((coarser.len(), squares(&coarser)), (15, 12));
    assert_eq!(coarser[12].part, GridPart::Filler);
    assert_eq!(coarser[13].part, GridPart::Stitch);
    assert_eq!(coarser[14].part, GridPart::Trim);
}

#[test]
fn squares_tile_without_overlap() {
    for half_width in [5u32, 8] {
        for level in [0u32, 1] {
            let mut cells = std::collections::HashSet::new();
            let width = square_width(half_width);
            for p in (ClipmapGrid { level }).parts(half_width) {
                if p.part != GridPart::Square {
                    continue;
                }
                let at = p.translation::<Real>(half_width);
                for x in 0..width {
                    for z in 0..width {
                        let cell = (at.x.0 as i32 + x, at.z.0 as i32 + z);
                        assert!(cells.insert(cell));
                        assert!(filler_width(half_width) - half_width as i32 <= cell.0);
                        assert!(cell.0 < half_width as i32);
                    }
                }
            }
        }
    }
}

fn flat_box(n: f32) -> Aabb<Real> {
    Aabb { center: vec3(n, 0.0, n), half_extents: vec3(n, 0.0, n) }
}

fn boxes() -> PartBoxes<Real> {
    PartBoxes {
        square: flat_box(1.0),
        center: flat_box(2.0),
        filler: flat_box(3.0),
        stitch: flat_box(4.0),
        trim: flat_box(5.0),
    }
}

#[test]
fn a_grid_starts_with_its_parts_in_place() {
    let map = clipmap(vec![]);
    let start = init_grid(&ClipmapGrid { level: 1 }, &map, &boxes());
    assert_eq!(start.scale, Real(1.0));
    assert_eq!(start.parts.len(), 15);
    // half width 7: squares of 3, filler of 1.
    assert_eq!(plain(start.parts[0].translation), (-6.0, 0.0, -6.0));
    assert_eq!(plain(start.parts[3].translation), (4.0, 0.0, -6.0));
    let stitch = start.parts[13];
    assert_eq!(stitch.part, GridPart::Stitch);
    assert_eq!(plain(stitch.translation), (-3.0, 0.0, -3.0));
    assert_eq!(stitch.scale, Real(0.5));
    assert_eq!(start.parts[14].scale, Real(1.0));
    assert_eq!(plain(start.parts[14].translation), (-6.0, 0.0, -6.0));
    // (100 - 20) / 4 and (100 + 20) / 4.
    assert_eq!(plain(stitch.aabb.center), (4.0, 20.0, 4.0));
    assert_eq!(plain(stitch.aabb.half_extents), (4.0, 30.0, 4.0));
    assert_eq!(plain(start.parts[12].aabb.center), (3.0, 20.0, 3.0));
    assert!(!stitch.wireframe);
    let wired = Clipmap { wireframe: true, ..clipmap(vec![]) };
    assert!(init_grid(&ClipmapGrid { level: 0 }, &wired, &boxes()).parts[0].wireframe);
}

#[test]
fn grids_snap_to_even_and_odd_multiples() {
    let map = clipmap(vec![]);
    let grid = ClipmapGrid { level: 1 };
    // Scale 1, filler 1: snap size 1. Offsets are 1 - 7 and 7.
    let snap = |x: f32, z: f32| grid.update(Some(&map), Some(vec3(x, 9.0, z))).unwrap();
    let s = snap(2.5, 4.0);
    assert_eq!(plain(s.position), (2.0, 0.0, 4.0));
    assert_eq!(plain(s.trim_position), (-6.0, 0.0, -6.0));
    assert_eq!(s.trim_turn, QuarterTurn::Zero);
    let s = snap(2.5, 5.9);
    assert_eq!(plain(s.trim_position), (-6.0, 0.0, 7.0));
    assert_eq!(s.trim_turn, QuarterTurn::Left);
    let s = snap(-0.5, -1.5);
    assert_eq!(plain(s.position), (-1.0, 0.0, -2.0));
    assert_eq!(plain(s.trim_position), (7.0, 0.0, -6.0));
    assert_eq!(s.trim_turn, QuarterTurn::Right);
    let s = snap(-3.0, 3.0);
    assert_eq!(plain(s.trim_position), (7.0, 0.0, 7.0));
    assert_eq!(s.trim_turn, QuarterTurn::Half);
}

#[test]
fn a_level_with_its_trim_fills_the_hole_of_the_next() {
    let map = clipmap(vec![]);
    let (half, width, filler) = (7.0, 3.0, 1.0);
    for n in -20..20 {
        let target = vec3(n as f32 * 0.3, 0.0, 0.0);
        let fine = ClipmapGrid { level: 0 }.update(Some(&map), Some(target)).unwrap();
        let coarse = ClipmapGrid { level: 1 }.update(Some(&map), Some(target)).unwrap();
        let anchor = fine.trim_position.x.0;
        let other = if anchor < 0.0 { anchor + 2.0 * half } else { anchor - 2.0 * half };
        let low = fine.position.x.0 + 0.5 * anchor.min(other);
        let high = fine.position.x.0 + 0.5 * anchor.max(other);
        assert_eq!(low, coarse.position.x.0 - width);
        assert_eq!(high, coarse.position.x.0 + width + filler);
    }
}

#[test]
fn grids_stay_while_their_clipmap_or_target_is_gone() {
    let map = clipmap(vec![]);
    let grid = ClipmapGrid { level: 0 };
    assert!(grid.update::<Real, &str>(None, Some(vec3(1.0, 2.0, 3.0))).is_none());
    assert!(grid.update(Some(&map), None).is_none());
}

#[test]
fn presets_hold_their_documented_values() {
    let low = TerrainQuality::low();
    assert_eq!(low.fog, FogTier::Low);
    assert_eq!((low.rvt_size, low.ambient_gather, low.detail_layers), (2048, false, 1));
    let medium = TerrainQuality::medium();
    assert_eq!(medium.fog, FogTier::High);
    assert_eq!((medium.rvt_size, medium.ambient_gather, medium.detail_layers), (4096, true, 1));
    let high = TerrainQuality::high();
    assert_eq!(high.fog, FogTier::High);
    assert_eq!((high.rvt_size, high.ambient_gather, high.detail_layers), (8192, true, 2));
    assert_eq!(TerrainQuality::default(), high);
    assert_eq!(FogTier::default(), FogTier::High);
}

#[test]
fn flags_pack_wireframe_and_quality() {
    assert_eq!(material_flags(false, &TerrainQuality::low()), 0b100);
    assert_eq!(material_flags(true, &TerrainQuality::medium()), 0b111);
    assert_eq!(material_flags(false, &TerrainQuality::high()), 0b010);
    assert!(WireframeKey::of_flags(0b111).wireframe);
    assert!(!WireframeKey::of_flags(0b110).wireframe);
}

#[test]
fn the_ambient_image_is_a_stub_where_nothing_is_gathered() {
    let [albedo, normal, ao] = rvt_images(&TerrainQuality::low());
    assert_eq!((albedo.size, albedo.format), (2048, TextureFormat::Rgba8UnormSrgb));
    assert_eq!((normal.size, normal.format), (2048, TextureFormat::Rgba8Unorm));
    assert_eq!((ao.size, ao.format), (4, TextureFormat::Rgba8Unorm));
    assert_eq!(RvtImage::new(RvtTexture::Ao, &TerrainQuality::high()).size, 8192);
}

fn fog(density: f32) -> TerrainFog<Real, char> {
    TerrainFog(HeightFog { density: Real(density), look: 'g' })
}

#[test]
fn a_clipmap_starts_with_materials_and_grids() {
    let map = clipmap(vec![]);
    let start = init_clipmap(&map, "a", "n", "o", &fog(0.2), &TerrainQuality::low());
    assert_eq!((start.rvt.albedo, start.rvt.normal, start.rvt.ao), ("a", "n", "o"));
    assert!(!start.rvt.initialized);
    assert_eq!(start.rvt.pending_bakes, 0);
    assert_eq!(plain(start.rvt.sun_direction), (0.0, 0.0, 0.0));
    let solid: &GridMaterial<Real, &str, char> = &start.materials.solid;
    assert_eq!((solid.rvt_albedo, solid.rvt_normal, solid.rvt_ao), ("a", "n", "o"));
    assert_eq!(solid.heightmap, "heightmap");
    assert_eq!(solid.detail_albedo_array, "detail albedo");
    assert_eq!(solid.detail_normal_array, "detail normal");
    assert_eq!(solid.detail_orm_array, "detail orm");
    assert_eq!((solid.ao_strength, solid.bent_strength), (Real(1.0), Real(1.0)));
    assert_eq!(solid.debug_view, 0);
    assert_eq!((solid.minmax.x, solid.minmax.y), (Real(-20.0), Real(100.0)));
    assert_eq!(solid.texel_size, Real(8.0));
    assert_eq!((solid.fog.density, solid.fog.look), (Real(0.2), 'g'));
    assert_eq!(solid.flags, 0b100);
    assert_eq!(start.materials.wireframe.flags, 0b101);
    let levels: Vec<u32> = start.grids.iter().map(|g| g.level).collect();
    assert_eq!(levels, [0, 1, 2]);
}

#[test]
fn bake_targets_keep_apart() {
    let all = bake_targets(true);
    let modes: Vec<_> = all.iter().map(|t| (t.mode, t.texture, t.layer, t.order)).collect();
    assert_eq!(
        modes,
        [
            (0, RvtTexture::Albedo, 1, -3),
            (1, RvtTexture::Normal, 2, -2),
            (2, RvtTexture::Ao, 3, -1),
        ]
    );
    assert_eq!(all[0].format, TextureFormat::Rgba8UnormSrgb);
    assert_eq!(all[2].format, TextureFormat::Rgba8Unorm);
    let mut layers = std::collections::HashSet::new();
    let mut orders = std::collections::HashSet::new();
    for t in &all {
        let sentinel = t.sentinel();
        assert!(layers.insert(t.layer) && layers.insert(sentinel.layer));
        assert!(orders.insert(t.order) && orders.insert(sentinel.order));
        assert_eq!(sentinel.layer, t.layer + RVT_SENTINEL_LAYER_OFFSET);
        assert_eq!((sentinel.size, sentinel.format), (4, t.format));
    }
    assert_eq!(all[2].sentinel().order, -11);
    assert_eq!(bake_targets(false).len(), 2);
}

fn square(side: u32) -> Option<HeightmapSize> {
    Some(HeightmapSize { width: side, height: side })
}

#[test]
fn the_bake_covers_terrain_of_any_shape() {
    let map = clipmap(vec![]);
    let sun = Some(vec3(0.0, 1.0, 0.0));
    let high = TerrainQuality::high();
    for (width, height) in [(1024, 2048), (2048, 1024), (16, 3)] {
        let mut rvt = ClipmapRvt::new("a", "n", "o");
        let size = Some(HeightmapSize { width, height });
        let plan = init_rvt(7, &map, &mut rvt, size, sun, &high).unwrap();
        assert_eq!(plan.size_x, Real(8.0 * width as f32));
        assert_eq!(plan.size_z, Real(8.0 * height as f32));
        let texels = vec![0; 2 * (width * height) as usize];
        let image =
            HeightImage { format: TextureFormat::R16Unorm, data: Some(&texels), width, height };
        let field = Heightfield::new(image, map.texel_size, map.min, map.max).unwrap();
        let half = field.half_extent();
        assert_eq!((plan.size_x.0, plan.size_z.0), (2.0 * half.x.0, 2.0 * half.y.0));
        // The corner of the terrain is the corner of the bake.
        let (x, z) = (plan.size_x.0 / 2.0, plan.size_z.0 / 2.0);
        assert!(field.contains(vec3(x, 0.0, z)) && field.contains(vec3(-x, 0.0, -z)));
        assert!(!field.contains(vec3(x + 1.0, 0.0, z)) && !field.contains(vec3(x, 0.0, z + 1.0)));
    }
}

#[test]
fn the_bake_looks_straight_down_with_negative_z_up() {
    let map = clipmap(vec![]);
    let mut rvt = ClipmapRvt::new("a", "n", "o");
    let size = Some(HeightmapSize { width: 1024, height: 512 });
    let sun = Some(vec3(0.0, 1.0, 0.0));
    let plan = init_rvt(7, &map, &mut rvt, size, sun, &TerrainQuality::high()).unwrap();
    let view = plan.view;
    assert_eq!(plain(view.position), (0.0, 10000.0, 0.0));
    assert_eq!(plain(view.look_at), (0.0, 0.0, 0.0));
    assert_eq!(plain(view.up), (0.0, 0.0, -1.0));
    assert_eq!((view.near, view.far), (Real(0.0), Real(20000.0)));
    assert_eq!((view.width, view.height), (Real(8192.0), Real(4096.0)));
    assert_eq!(plain(view.clear_color), (0.0, 0.0, 0.0));
    assert!(!view.tonemapped);
    assert_eq!(view.msaa, Msaa::Off);
    // The engine's camera lays the image out as the main pass samples it.
    let to = |v: Vec3<Real>| bevy::math::Vec3::new(v.x.0, v.y.0, v.z.0);
    let camera = bevy::transform::components::Transform::from_translation(to(view.position))
        .looking_at(to(view.look_at), to(view.up));
    for (x, z) in [(0.0, 0.0), (1000.0, -300.0), (-4096.0, 2048.0), (4096.0, -2048.0)] {
        let way = bevy::math::Vec3::new(x, 0.0, z) - camera.translation;
        let u = way.dot(*camera.right()) / view.width.0 + 0.5;
        let v = 0.5 - way.dot(*camera.up()) / view.height.0;
        assert!((u - (x / plan.size_x.0 + 0.5)).abs() < 1e-4);
        assert!((v - (z / plan.size_z.0 + 0.5)).abs() < 1e-4);
        let depth = way.dot(*camera.forward());
        assert!(view.near.0 <= depth && depth <= view.far.0);
    }
}

#[test]
fn readbacks_may_be_cut_off_only_where_nothing_is_missed() {
    assert!(has_whole_pixels(&[]) && has_whole_pixels(&[0; 8]) && has_whole_pixels(&[0; 7]));
    assert!(!has_whole_pixels(&[0; 5]) && !has_whole_pixels(&[0; 6]));
    assert!(has_whole_pixels(&[0, 0, 0, 0, 3]) && has_whole_pixels(&[9, 0, 0, 0, 0, 0]));
    assert!(!has_whole_pixels(&[0, 0, 0, 9, 0]));
    assert!(readback_is_baked(&[0, 0, 0, 0, 3]));
}

#[test]
fn baked_images_take_four_bytes_a_texel() {
    let bytes = |quality: &TerrainQuality| -> u64 {
        rvt_images(quality).iter().map(|i| 4 * i.size as u64 * i.size as u64).sum()
    };
    let high = TerrainQuality::high();
    assert_eq!(bytes(&TerrainQuality { rvt_size: 8192, ..high }), 768 << 20);
    assert_eq!(bytes(&TerrainQuality { rvt_size: 4096, ..high }), 192 << 20);
    let bare = TerrainQuality { rvt_size: 4096, ambient_gather: false, ..high };
    assert_eq!(bytes(&bare), (128 << 20) + 64);
}

#[test]
fn a_cut_off_heightmap_matters_only_where_it_is_read() {
    let flat = heightmap(|_, _| 0);
    let cut = ShadedClipmap {
        heightmap: Some(HeightImage { data: Some(&[]), ..image(&flat) }),
        ..shaded(&flat)
    };
    // Elsewhere than the point, or after the clipmap that answers.
    let elsewhere = ShadedClipmap { texel_size: Real(0.25), ..cut };
    let sun = SunVisibility { clipmaps: vec![elsewhere, shaded(&flat), cut] };
    assert_eq!(sun.sample(vec3(-6.0, 5.0, 0.0)), Some(Real(1.0)));
}

#[test]
fn above_all_terrain_every_sun_is_full() {
    let img = heightmap(hill);
    let field = field(&img);
    for sun in [vec3(1.0, 0.0, 0.0), vec3(0.0, 1.0, 0.0), low_sun()] {
        for y in [100.5, 101.0, 5000.0] {
            assert_eq!(field.sun_visibility(vec3(-3.0, y, 2.0), sun), Real(1.0));
        }
    }
}

#[test]
fn grids_stand_on_the_last_multiple_below_the_target() {
    let map = clipmap(vec![]);
    for level in 0..3 {
        let grid = ClipmapGrid { level };
        let size = grid.scale(map.base_scale).0;
        for n in -40..40 {
            let x = 0.37 * n as f32;
            let at = grid.update(Some(&map), Some(vec3(x, 3.0, -x))).unwrap().position;
            assert_eq!((at.x.0 / size).fract(), 0.0);
            assert!(at.x.0 <= x && x < at.x.0 + size);
            assert!(at.z.0 <= -x && -x < at.z.0 + size && at.y == Real(0.0));
        }
    }
}

#[test]
fn the_bake_is_set_up_once_everything_is_there() {
    let map = clipmap(vec![layer(3)]);
    let sun = vec3(0.0, 1.0, 0.0);
    let high = TerrainQuality::high();
    let mut rvt = ClipmapRvt::new("a", "n", "o");
    assert!(init_rvt(7, &map, &mut rvt, None, Some(sun), &high).is_none());
    assert!(init_rvt(7, &map, &mut rvt, square(1024), None, &high).is_none());
    assert!(!rvt.initialized);
    let plan = init_rvt(7, &map, &mut rvt, square(1024), Some(sun), &high).unwrap();
    assert_eq!((plan.size_x, plan.size_z), (Real(8192.0), Real(8192.0)));
    assert!(rvt.initialized);
    assert_eq!(rvt.pending_bakes, 3);
    assert_eq!(plain(rvt.sun_direction), (0.0, 1.0, 0.0));
    let images: Vec<_> = plan.bakes.iter().map(|b| (b.image, b.material.output_mode)).collect();
    assert_eq!(images, [("a", 0), ("n", 1), ("o", 2)]);
    let bake = &plan.bakes[1];
    let sentinel = bake.sentinel;
    assert_eq!((sentinel.layer, sentinel.order, sentinel.size), (5, -12, 4));
    for bake in &plan.bakes {
        let image = RvtImage::new(bake.target.texture, &high);
        assert_eq!((bake.sentinel.format, bake.target.format), (image.format, image.format));
    }
    assert_eq!(
        bake.camera,
        RvtBakeCamera { is_active: false, ready: false, frames: RVT_BAKE_FRAMES, clipmap: 7 }
    );
    assert_eq!(bake.material.albedo_array, "albedo array");
    assert_eq!(bake.material.normal_array, "normal array");
    assert_eq!(bake.material.orm_array, "orm array");
    assert_eq!(bake.material.params.layer_count, 1);
    assert_eq!(plain(bake.material.sun_direction), (0.0, 1.0, 0.0));
    // A second time there is nothing to do.
    assert!(init_rvt(7, &map, &mut rvt, square(1024), Some(sun), &high).is_none());
    let mut rvt = ClipmapRvt::new("a", "n", "o");
    let plan = init_rvt(7, &map, &mut rvt, square(4), Some(sun), &TerrainQuality::low()).unwrap();
    assert_eq!((plan.bakes.len(), rvt.pending_bakes), (2, 2));
}

#[test]
fn a_bake_material_holds_its_mode_and_bounds() {
    let m = BakeMaterial::new(&clipmap(vec![]), 2, vec3(1.0, 0.0, 0.0));
    assert_eq!((m.heightmap, m.texel_size, m.output_mode), ("heightmap", Real(8.0), 2));
    assert_eq!((m.minmax.x, m.minmax.y), (Real(-20.0), Real(100.0)));
}

#[test]
fn readbacks_count_color_but_not_alpha() {
    assert!(!readback_is_baked(&[]));
    assert!(!readback_is_baked(&[0, 0, 0, 255, 0, 0, 0, 255]));
    assert!(readback_is_baked(&[0, 0, 0, 255, 0, 0, 1, 0]));
    assert!(readback_is_baked(&[1, 0, 0]));
    assert!(!readback_is_baked(&[0, 0, 0]));
}

#[test]
fn a_sentinel_is_torn_down_once() {
    let mut camera = RvtBakeCamera::new(1);
    assert!(!camera.on_readback(&[0, 0, 0, 255]));
    assert!(!camera.ready);
    assert!(camera.on_readback(&[9, 0, 0, 255]));
    assert!(camera.ready);
    assert!(!camera.on_readback(&[9, 0, 0, 255]));
    assert!(!camera.on_readback(&[0, 0, 0, 255]));
    assert!(camera.ready);
}

#[test]
fn a_clipmap_is_ready_when_its_last_bake_finishes() {
    let ready = RvtBakeCamera { ready: true, ..RvtBakeCamera::new(5) };
    let mut cameras = vec![RvtBakeCamera::new(5), ready, RvtBakeCamera::new(6)];
    let mut pending = HashMap::from([(5u64, 2u32), (6, 1)]);
    for _ in 0..2 {
        assert!(drive_rvt_bake(&mut cameras, &mut pending).is_empty());
        assert!(cameras[1].is_active && !cameras[0].is_active);
    }
    assert!(drive_rvt_bake(&mut cameras, &mut pending).is_empty());
    assert!(!cameras[1].is_active);
    assert_eq!((pending[&5], pending[&6]), (1, 1));
    cameras[0].ready = true;
    for _ in 0..2 {
        assert!(drive_rvt_bake(&mut cameras, &mut pending).is_empty());
    }
    assert_eq!(drive_rvt_bake(&mut cameras, &mut pending), [5]);
    assert_eq!(pending[&5], 0);
    for _ in 0..5 {
        assert!(drive_rvt_bake(&mut cameras, &mut pending).is_empty());
    }
    assert_eq!((pending[&5], pending[&6]), (0, 1));
    assert_eq!(cameras[2], RvtBakeCamera::new(6));
}

#[test]
fn bakes_of_a_clipmap_that_is_gone_are_not_counted() {
    let done = RvtBakeCamera { is_active: true, ready: true, frames: 0, clipmap: 9 };
    let mut cameras = vec![done];
    let mut pending = HashMap::new();
    assert!(drive_rvt_bake(&mut cameras, &mut pending).is_empty());
    assert!(pending.is_empty());
    assert!(!cameras[0].is_active);
    // A count that is down already stays down.
    let mut cameras = vec![done];
    let mut pending = HashMap::from([(9u64, 0u32)]);
    assert_eq!(drive_rvt_bake(&mut cameras, &mut pending), [9]);
    assert_eq!(pending[&9], 0);
}

#[test]
fn inline_fog_is_for_the_low_tier() {
    let low: HeightFogParams<Real, char> = inline_fog_params(&fog(0.25), FogTier::Low);
    assert_eq!((low.density, low.look), (Real(0.25), 'g'));
    let high = inline_fog_params(&fog(0.25), FogTier::High);
    assert_eq!((high.density, high.look), (Real(0.0), 'g'));
}

#[test]
fn a_change_of_tier_moves_the_fog_to_the_other_path() {
    let none = HeightFogParams { density: Real(9.0), look: 'x' };
    let mut inline = InlineFog(none);
    let low = TerrainQuality::low();
    assert!(apply_terrain_quality(&low, false, &fog(0.5), false, &mut inline).is_none());
    assert_eq!(inline.0.density, Real(9.0));
    let update = apply_terrain_quality(&low, true, &fog(0.5), false, &mut inline).unwrap();
    assert_eq!(update.msaa, Msaa::Sample4);
    assert_eq!((update.inline.density, update.camera_fog.density), (Real(0.5), Real(0.0)));
    assert_eq!((inline.0.density, inline.0.look), (Real(0.5), 'g'));
    let high = TerrainQuality::high();
    let update = apply_terrain_quality(&high, false, &fog(0.5), true, &mut inline).unwrap();
    assert_eq!(update.msaa, Msaa::Off);
    assert_eq!((update.inline.density, update.camera_fog.density), (Real(0.0), Real(0.5)));
    assert_eq!(update.camera_fog.look, 'g');
    assert_eq!(inline.0.density, Real(0.0));
}

#[test]
fn new_mesh_materials_are_fogged_at_once() {
    let low = TerrainQuality::low();
    let (id, params) =
        fog_new_mesh_material(&MaterialEvent::Added { id: 3u8 }, &low, &fog(0.5)).unwrap();
    assert_eq!((id, params.density, params.look), (3, Real(0.5), 'g'));
    let other: MaterialEvent<u8> = MaterialEvent::Other;
    assert!(fog_new_mesh_material(&other, &low, &fog(0.5)).is_none());
}

fn inspection(ao: f32, bent: f32, debug_view: u32) -> Inspection<Real> {
    Inspection { ao_strength: Real(ao), bent_strength: Real(bent), debug_view }
}

#[test]
fn debug_views_cycle() {
    let mut all = vec![inspection(0.7, 1.0, 2), inspection(0.0, 0.2, 0)];
    let before = all.clone();
    assert_eq!(debug_cycle_view(false, &mut all), None);
    assert_eq!(all, before);
    assert_eq!(debug_cycle_view(true, &mut all), Some(3));
    assert_eq!(all, [inspection(0.7, 1.0, 3), inspection(0.0, 0.2, 3)]);
    assert_eq!(debug_cycle_view(true, &mut all), Some(0));
    assert_eq!(debug_cycle_view(true, &mut all), Some(1));
    assert_eq!(debug_cycle_view::<Real>(true, &mut vec![]), Some(0));
    let names: Vec<_> = (0..5).map(debug_view_name).collect();
    let lit = "off (lit terrain)";
    assert_eq!(names, [lit, "macro AO", "bent normal", "cavity", lit]);
    assert!(!bypasses_tonemapping(0) && bypasses_tonemapping(2));
}

#[test]
fn strengths_toggle_between_off_and_full() {
    let mut all = vec![inspection(0.7, 0.2, 1), inspection(0.0, 0.9, 3)];
    let before = all.clone();
    assert_eq!((toggle_ao(false, &mut all), toggle_bent(false, &mut all)), (None, None));
    assert_eq!(all, before);
    assert_eq!(toggle_ao(true, &mut all), Some(false));
    assert_eq!(all, [inspection(0.0, 0.2, 1), inspection(0.0, 0.9, 3)]);
    assert_eq!(toggle_bent(true, &mut all), Some(true));
    assert_eq!(all, [inspection(0.0, 1.0, 1), inspection(0.0, 1.0, 3)]);
    assert_eq!(toggle_ao(true, &mut all), Some(true));
    assert_eq!(all, [inspection(1.0, 1.0, 1), inspection(1.0, 1.0, 3)]);
    let mut half = vec![inspection(0.5, 0.5, 0)];
    assert_eq!(toggle_ao(true, &mut half), Some(true));
    assert_eq!(toggle_bent(true, &mut half), Some(true));
    assert_eq!(toggle_ao::<Real>(true, &mut vec![]), Some(true));
    assert_eq!(toggle_bent::<Real>(true, &mut vec![]), Some(true));
}

#[test]
fn toggling_twice_restores_the_strengths() {
    for a in [0.0, 1.0] {
        let before = vec![inspection(a, a, 2), inspection(a, a, 0), inspection(a, a, 1)];
        let mut all = before.clone();
        assert_eq!(toggle_ao(true, &mut all), Some(a == 0.0));
        assert!(all.iter().all(|i| i.ao_strength == Real(1.0 - a)));
        assert!(all.iter().all(|i| i.bent_strength == Real(a)));
        assert_eq!(toggle_ao(true, &mut all), Some(a == 1.0));
        assert_eq!(all, before);
        assert_eq!(toggle_bent(true, &mut all), Some(a == 0.0));
        assert!(all.iter().all(|i| i.bent_strength == Real(1.0 - a)));
        assert!(all.iter().all(|i| i.ao_strength == Real(a)));
        assert_eq!(toggle_bent(true, &mut all), Some(a == 1.0));
        assert_eq!(all, before);
    }
}

/// Hilly texels, without a pattern.
fn hill(x: usize, y: usize) -> u16 {
    ((x * 7919 + y * 104729 + x * y * 31) % 65536) as u16
}

#[test]
fn the_edge_height_goes_on_beyond_the_map() {
    let img = heightmap(hill);
    let field = field(&img);
    for (x, z) in [(9.0, 2.5), (-20.25, 2.5), (1.75, 31.0), (0.5, -8.5), (100.0, -100.0)] {
        let beyond = field.height(vec2(x, z)).0;
        let edge = field.height(vec2(x.clamp(-8.0, 8.0), z.clamp(-8.0, 8.0))).0;
        assert!((beyond - edge).abs() < 1e-3);
        assert!((-1e-3..=100.001).contains(&beyond));
    }
    // Beyond a corner it is the corner texel's.
    assert_eq!(field.height(vec2(1e6, 1e6)), field.height(vec2(8.0, 8.0)));
    let corner = field.texel(15, 15).0 * 100.0;
    assert!((field.height(vec2(1e6, 1e6)).0 - corner).abs() < 1e-3);
}

#[test]
fn the_terrain_goes_through_its_texels() {
    let img = heightmap(hill);
    let field = field(&img);
    for x in 0..16 {
        for y in 0..16 {
            let at = vec2(x as f32 - 8.0, y as f32 - 8.0);
            let level = field.texel(x, y).0;
            assert!((field.height(at).0 - 100.0 * level).abs() < 1e-3);
        }
    }
}

#[test]
fn a_higher_point_is_no_darker() {
    let img = heightmap(hill);
    let field = field(&img);
    let mut grew = false;
    for x in [-7.0, -2.5, 0.0, 3.25] {
        let mut last = 0.0;
        for y in 0..30 {
            let vis = field.sun_visibility(vec3(x, 4.0 * y as f32, 1.5), low_sun()).0;
            assert!((0.0..=1.0).contains(&vis));
            assert!(vis >= last || last <= 0.001);
            grew = grew || vis > last;
            last = vis;
        }
        assert_eq!(last, 1.0);
    }
    assert!(grew);
}

#[test]
fn higher_terrain_adds_no_light() {
    let low = heightmap(|x, y| hill(x, y) / 4);
    let high = heightmap(|x, y| hill(x, y) / 4 + 9000);
    let (low, high) = (field(&low), field(&high));
    let mut dimmed = false;
    for x in [-7.0, -2.5, 0.0, 3.25] {
        for y in 0..20 {
            let origin = vec3(x, 2.0 * y as f32, -3.5);
            let before = low.sun_visibility(origin, low_sun()).0;
            let after = high.sun_visibility(origin, low_sun()).0;
            assert!(after <= before.max(0.001));
            dimmed = dimmed || after < before;
        }
    }
    assert!(dimmed);
}

#[test]
fn grids_move_with_their_target_by_double_snap_sizes() {
    // Level 2 of base size 1/2 with filler 1: the snap size is 2.
    let map = clipmap(vec![]);
    let grid = ClipmapGrid { level: 2 };
    let snap = |x: f32, y: f32, z: f32| grid.update(Some(&map), Some(vec3(x, y, z))).unwrap();
    let all = |s: bevy_clipmap::grid::GridSnap<Real>| {
        (plain(s.position), plain(s.trim_position), s.trim_turn)
    };
    for (x, z) in [(0.5, 3.0), (-1.5, 6.25), (-7.0, -0.25), (2.0, 2.0)] {
        let (at, trim, turn) = all(snap(x, 0.0, z));
        for (i, j) in [(1, 0), (-3, 2), (40, -7)] {
            let (dx, dz) = (4.0 * i as f32, 4.0 * j as f32);
            let moved = all(snap(x + dx, 12.5, z + dz));
            assert_eq!(moved, ((at.0 + dx, 0.0, at.2 + dz), trim, turn));
        }
        // Anywhere in the cell the grid stays where it is.
        for (dx, dz) in [(0.0, 0.0), (1.99, 0.5), (0.25, 1.75)] {
            assert_eq!(all(snap(at.0 + dx, -3.0, at.2 + dz)), (at, trim, turn));
        }
    }
}

#[test]
fn only_the_first_four_layers_decide_the_parameters() {
    let five: Vec<_> = (1..=5).map(layer).collect();
    let four = five[..4].to_vec();
    let many = Clipmap { half_width: 99, min: Real(3.0), wireframe: true, ..clipmap(five) };
    let (a, b) = (TerrainParams::from_clipmap(&many), TerrainParams::from_clipmap(&clipmap(four)));
    assert_eq!((a.layer_count, b.layer_count), (4, 4));
    assert_eq!((a.tiling_scale, a.height_blend), (b.tiling_scale, b.height_blend));
    assert_eq!((a.roughness, a.normal_strength), (b.roughness, b.normal_strength));
    assert_eq!((a.slope_min, a.slope_max), (b.slope_min, b.slope_max));
    assert_eq!((a.slope_blend, a.height_min), (b.slope_blend, b.height_min));
    assert_eq!((a.height_max, a.height_range_blend), (b.height_max, b.height_range_blend));
}

#[test]
fn boxes_reach_both_heights() {
    for level in 0..6 {
        let grid = ClipmapGrid { level };
        let aabb = grid.displaced_aabb(Real(-20.0), Real(100.0), flat_box(5.0));
        let factor = level_factor(level) as f32;
        assert_eq!((aabb.center.y.0 - aabb.half_extents.y.0) * factor, -20.0);
        assert_eq!((aabb.center.y.0 + aabb.half_extents.y.0) * factor, 100.0);
        // In the world the heights are scaled by the base size too.
        let scale = grid.scale(Real(0.5)).0;
        assert_eq!((aabb.center.y.0 + aabb.half_extents.y.0) * scale, 50.0);
    }
}
