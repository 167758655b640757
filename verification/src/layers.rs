//! Terrain material layers and their packing for the GPU.

use vstd::prelude::*;

use crate::clipmap::Clipmap;
use crate::scalar::{self, Scalar};

verus! {

/// Most terrain material layers of a clipmap.
pub const MAX_TERRAIN_LAYERS: usize = 4;

/// Slope-angle band a layer occupies, in degrees from horizontal. The layer's weight
/// ramps in over `blend_deg` above `min_deg` and out over `blend_deg` below `max_deg`.
#[derive(Clone, Copy, Debug)]
pub struct SlopeRule<S> {
    pub min_deg: S,
    pub max_deg: S,
    /// Angular range over which the layer blends in and out.
    pub blend_deg: S,
}

/// World-height band a layer occupies. The weight ramps in over `blend` above `min` and
/// out over `blend` below `max`.
#[derive(Clone, Copy, Debug)]
pub struct HeightRule<S> {
    pub min: S,
    pub max: S,
    pub blend: S,
}

/// A tiling material layer. It appears where its bands overlap; a layer with neither
/// rule is present everywhere.
#[derive(Clone, Copy, Debug)]
pub struct TerrainLayer<S> {
    /// World size of one texture tile.
    pub tiling_scale: S,
    /// Strength of the layer's relief in height-based blending.
    pub height_blend: S,
    /// Strength of the detail normals.
    pub normal_strength: S,
    /// Multiplier on the layer's roughness channel.
    pub roughness: S,
    /// Slope band of the layer, if it has one.
    pub slope: Option<SlopeRule<S>>,
    /// Height band of the layer, if it has one.
    pub height: Option<HeightRule<S>>,
}

/// A band on the GPU: the layer's weight ramps in over `blend` above `min` and out over
/// `blend` below `max`.
#[derive(Clone, Copy, Debug)]
pub struct Band<S> {
    pub min: S,
    pub max: S,
    pub blend: S,
}

/// One layer's parameters on the GPU.
#[derive(Clone, Copy, Debug)]
pub struct LayerLane<S> {
    pub tiling_scale: S,
    pub height_blend: S,
    pub roughness: S,
    pub normal_strength: S,
    /// In radians.
    pub slope: Band<S>,
    pub height: Band<S>,
}

/// `r` is `a`, but at least one thousandth: what the shader divides by.
pub open spec fn divisor_is<S: Scalar>(a: S, r: S) -> bool {
    exists|least: S| #[trigger]
        scalar::ratio_is(1, 1000, least) && scalar::greater_is(a, least, r)
}

/// `a`, but at least one thousandth.
pub fn divisor<S: Scalar>(a: S) -> (r: S)
    ensures
        divisor_is(a, r),
{
    let least = S::ratio(1, 1000);
    let r = a.greater(least);
    assert(scalar::ratio_is(1, 1000, least));
    r
}

/// A slope band so wide that its ramps never fire.
pub open spec fn open_slope<S: Scalar>(band: Band<S>) -> bool {
    &&& scalar::int_is(-10, band.min)
    &&& scalar::int_is(10, band.max)
    &&& scalar::ratio_is(1, 100, band.blend)
}

/// A height band so wide that its ramps never fire.
pub open spec fn open_height<S: Scalar>(band: Band<S>) -> bool {
    &&& scalar::int_is(-1_000_000_000, band.min)
    &&& scalar::int_is(1_000_000_000, band.max)
    &&& scalar::int_is(1, band.blend)
}

/// The slope band of a rule, in radians.
pub open spec fn slope_band<S: Scalar>(rule: Option<SlopeRule<S>>, band: Band<S>) -> bool {
    match rule {
        Some(rule) => {
            &&& scalar::radians_is(rule.min_deg, band.min)
            &&& scalar::radians_is(rule.max_deg, band.max)
            &&& exists|blend: S| #[trigger]
                scalar::radians_is(rule.blend_deg, blend) && divisor_is(blend, band.blend)
        },
        None => open_slope(band),
    }
}

/// The height band of a rule.
pub open spec fn height_band<S: Scalar>(rule: Option<HeightRule<S>>, band: Band<S>) -> bool {
    match rule {
        Some(rule) => {
            &&& band.min == rule.min
            &&& band.max == rule.max
            &&& divisor_is(rule.blend, band.blend)
        },
        None => open_height(band),
    }
}

impl<S: Scalar> TerrainLayer<S> {
    /// `lane` holds this layer's parameters.
    pub open spec fn packs_to(self, lane: LayerLane<S>) -> bool {
        &&& divisor_is(self.tiling_scale, lane.tiling_scale)
        &&& lane.height_blend == self.height_blend
        &&& lane.roughness == self.roughness
        &&& lane.normal_strength == self.normal_strength
        &&& slope_band(self.slope, lane.slope)
        &&& height_band(self.height, lane.height)
    }

    /// Packs the layer's parameters.
    fn pack(&self) -> (r: LayerLane<S>)
        ensures
            self.packs_to(r),
    {
        let slope = match self.slope {
            Some(rule) => {
                let blend = rule.blend_deg.radians();
                assert(scalar::radians_is(rule.blend_deg, blend));
                Band {
                    min: rule.min_deg.radians(),
                    max: rule.max_deg.radians(),
                    blend: divisor(blend),
                }
            },
            None => Band { min: S::of_int(-10), max: S::of_int(10), blend: S::ratio(1, 100) },
        };
        let height = match self.height {
            Some(rule) => Band { min: rule.min, max: rule.max, blend: divisor(rule.blend) },
            None => Band {
                min: S::of_int(-1_000_000_000),
                max: S::of_int(1_000_000_000),
                blend: S::of_int(1),
            },
        };
        LayerLane {
            tiling_scale: divisor(self.tiling_scale),
            height_blend: self.height_blend,
            roughness: self.roughness,
            normal_strength: self.normal_strength,
            slope,
            height,
        }
    }
}

impl<S: Scalar> LayerLane<S> {
    /// A lane that no layer uses.
    pub open spec fn unused(self) -> bool {
        &&& scalar::int_is(1, self.tiling_scale)
        &&& scalar::int_is(0, self.height_blend)
        &&& scalar::int_is(1, self.roughness)
        &&& scalar::int_is(1, self.normal_strength)
        &&& open_slope(self.slope)
        &&& open_height(self.height)
    }

    /// A lane that no layer uses.
    fn spare() -> (r: Self)
        ensures
            r.unused(),
    {
        LayerLane {
            tiling_scale: S::of_int(1),
            height_blend: S::of_int(0),
            roughness: S::of_int(1),
            normal_strength: S::of_int(1),
            slope: Band { min: S::of_int(-10), max: S::of_int(10), blend: S::ratio(1, 100) },
            height: Band {
                min: S::of_int(-1_000_000_000),
                max: S::of_int(1_000_000_000),
                blend: S::of_int(1),
            },
        }
    }
}

/// Per-layer parameters packed for the GPU; the lanes index the layers.
#[derive(Clone, Copy, Debug)]
pub struct TerrainParams<S> {
    pub tiling_scale: [S; 4],
    pub height_blend: [S; 4],
    pub roughness: [S; 4],
    pub normal_strength: [S; 4],
    pub slope_min: [S; 4],
    pub slope_max: [S; 4],
    pub slope_blend: [S; 4],
    pub height_min: [S; 4],
    pub height_max: [S; 4],
    pub height_range_blend: [S; 4],
    pub layer_count: u32,
}

impl<S: Scalar> TerrainParams<S> {
    /// What the lanes at `i` hold.
    pub open spec fn lane(self, i: int) -> LayerLane<S> {
        LayerLane {
            tiling_scale: self.tiling_scale@[i],
            height_blend: self.height_blend@[i],
            roughness: self.roughness@[i],
            normal_strength: self.normal_strength@[i],
            slope: Band {
                min: self.slope_min@[i],
                max: self.slope_max@[i],
                blend: self.slope_blend@[i],
            },
            height: Band {
                min: self.height_min@[i],
                max: self.height_max@[i],
                blend: self.height_range_blend@[i],
            },
        }
    }

    /// The lanes hold the first layers, and the lanes beyond them are unused.
    pub open spec fn packs(self, layers: Seq<TerrainLayer<S>>) -> bool {
        &&& self.layer_count == if layers.len() < MAX_TERRAIN_LAYERS {
            layers.len()
        } else {
            MAX_TERRAIN_LAYERS as nat
        }
        &&& forall|i: int| #![trigger self.lane(i)]
            0 <= i < MAX_TERRAIN_LAYERS ==> if i < layers.len() {
                layers[i].packs_to(self.lane(i))
            } else {
                self.lane(i).unused()
            }
    }

    /// The lane of the layer at `i`, or a spare one.
    fn pack_lane(layers: &Vec<TerrainLayer<S>>, i: usize) -> (r: LayerLane<S>)
        ensures
            if i < layers@.len() {
                layers@[i as int].packs_to(r)
            } else {
                r.unused()
            },
    {
        if i < layers.len() {
            layers[i].pack()
        } else {
            LayerLane::spare()
        }
    }

    /// Packs the layers of a clipmap; layers beyond the fourth are left out.
    pub fn from_clipmap<H>(clipmap: &Clipmap<S, H>) -> (r: Self)
        ensures
            r.packs(clipmap.layers@),
    {
        let a = Self::pack_lane(&clipmap.layers, 0);
        let b = Self::pack_lane(&clipmap.layers, 1);
        let c = Self::pack_lane(&clipmap.layers, 2);
        let d = Self::pack_lane(&clipmap.layers, 3);
        let n: usize = clipmap.layers.len();
        let r = TerrainParams {
            tiling_scale: [a.tiling_scale, b.tiling_scale, c.tiling_scale, d.tiling_scale],
            height_blend: [a.height_blend, b.height_blend, c.height_blend, d.height_blend],
            roughness: [a.roughness, b.roughness, c.roughness, d.roughness],
            normal_strength: [
                a.normal_strength,
                b.normal_strength,
                c.normal_strength,
                d.normal_strength,
            ],
            slope_min: [a.slope.min, b.slope.min, c.slope.min, d.slope.min],
            slope_max: [a.slope.max, b.slope.max, c.slope.max, d.slope.max],
            slope_blend: [a.slope.blend, b.slope.blend, c.slope.blend, d.slope.blend],
            height_min: [a.height.min, b.height.min, c.height.min, d.height.min],
            height_max: [a.height.max, b.height.max, c.height.max, d.height.max],
            height_range_blend: [a.height.blend, b.height.blend, c.height.blend, d.height.blend],
            layer_count: if n < MAX_TERRAIN_LAYERS {
                n as u32
            } else {
                MAX_TERRAIN_LAYERS as u32
            },
        };
        assert(r.lane(0) == a && r.lane(1) == b && r.lane(2) == c && r.lane(3) == d);
        r
    }
}

/// The layers that are packed: all of them, or the first four where there are more.
pub open spec fn packed_layers<S>(layers: Seq<TerrainLayer<S>>) -> Seq<TerrainLayer<S>> {
    if layers.len() < MAX_TERRAIN_LAYERS {
        layers
    } else {
        layers.take(MAX_TERRAIN_LAYERS as int)
    }
}

/// Layers past the fourth, and every field of the clipmap but its layers, play no part in
/// the packed parameters: clipmaps that agree in the layers that are packed have the same
/// parameters in every field, where the scalar's operations give one result each. The layer
/// count is the number of packed layers.
pub proof fn law_first_layers_decide<S: Scalar, H, G>(
    a: Clipmap<S, H>,
    b: Clipmap<S, G>,
    p: TerrainParams<S>,
    q: TerrainParams<S>,
)
    requires
        scalar::repeatable::<S>(),
        packed_layers(a.layers@) == packed_layers(b.layers@),
        p.packs(a.layers@),
        q.packs(b.layers@),
    ensures
        p == q,
        p.layer_count == packed_layers(a.layers@).len(),
        p.layer_count <= MAX_TERRAIN_LAYERS,
{
    assert forall|i: int| 0 <= i < MAX_TERRAIN_LAYERS implies #[trigger] p.lane(i) == q.lane(
        i,
    ) by {
        if i < a.layers@.len() {
            assert(packed_layers(a.layers@)[i] == a.layers@[i]);
            assert(packed_layers(b.layers@)[i] == b.layers@[i]);
        }
    }
    assert(p.lane(0) == q.lane(0) && p.lane(1) == q.lane(1) && p.lane(2) == q.lane(2)
        && p.lane(3) == q.lane(3));
    assert(p.tiling_scale =~= q.tiling_scale);
    assert(p.height_blend =~= q.height_blend);
    assert(p.roughness =~= q.roughness);
    assert(p.normal_strength =~= q.normal_strength);
    assert(p.slope_min =~= q.slope_min);
    assert(p.slope_max =~= q.slope_max);
    assert(p.slope_blend =~= q.slope_blend);
    assert(p.height_min =~= q.height_min);
    assert(p.height_max =~= q.height_max);
    assert(p.height_range_blend =~= q.height_range_blend);
}

/// A divisor is at least one thousandth, where the scalar's operations keep the order of the
/// values. This says nothing of one that is no number.
pub proof fn law_divisor_stays_off_zero<S: Scalar>(
    val: spec_fn(S) -> real,
    num: spec_fn(S) -> bool,
    a: S,
    r: S,
    least: S,
)
    requires
        scalar::ordered(val, num),
        scalar::repeatable::<S>(),
        scalar::ratio_is(1, 1000, least),
        divisor_is(a, r),
        num(r),
    ensures
        val(least) > 0 as real,
        val(r) >= val(least),
{
}

/// A divisor is the number that it was made of where that is at least one thousandth, and one
/// thousandth where it is not, where the scalar's operations keep the order of the values.
pub proof fn law_divisor_keeps_what_is_enough<S: Scalar>(
    val: spec_fn(S) -> real,
    num: spec_fn(S) -> bool,
    a: S,
    r: S,
    least: S,
)
    requires
        scalar::ordered(val, num),
        scalar::repeatable::<S>(),
        scalar::ratio_is(1, 1000, least),
        num(a),
        divisor_is(a, r),
    ensures
        val(a) >= val(least) ==> val(r) == val(a),
        val(a) <= val(least) ==> val(r) == val(least),
{
}

/// What the shader divides by stays off zero: every tiling scale and every blend width, used
/// or not, is at least one thousandth, where the scalar's operations keep the order of the
/// values. This says nothing of one that is no number.
pub proof fn law_divisors_stay_off_zero<S: Scalar>(
    val: spec_fn(S) -> real,
    num: spec_fn(S) -> bool,
    layers: Seq<TerrainLayer<S>>,
    p: TerrainParams<S>,
    least: S,
    i: int,
)
    requires
        scalar::ordered(val, num),
        scalar::ratio_is(1, 1000, least),
        scalar::repeatable::<S>(),
        p.packs(layers),
        0 <= i < MAX_TERRAIN_LAYERS,
    ensures
        val(least) > 0 as real,
        num(p.tiling_scale@[i]) ==> val(p.tiling_scale@[i]) >= val(least),
        num(p.slope_blend@[i]) ==> val(p.slope_blend@[i]) >= val(least),
        num(p.height_range_blend@[i]) ==> val(p.height_range_blend@[i]) >= val(least),
{
    let lane = p.lane(i);
    assert(i < layers.len() ==> layers[i].packs_to(lane));
    assert(i >= layers.len() ==> lane.unused());
}

/// The parameters of a packed layer are in its own lane: its relief, normals and roughness as
/// they are, its slope band in radians, its height band in world units. What is divided by,
/// the tiling scale and the two blend widths, is held at one thousandth or more. A layer
/// without a rule has a band that is open on both sides. Holds where the scalar's operations
/// keep the order of the values and give one result each.
pub proof fn law_layer_is_in_its_lane<S: Scalar>(
    val: spec_fn(S) -> real,
    num: spec_fn(S) -> bool,
    layers: Seq<TerrainLayer<S>>,
    p: TerrainParams<S>,
    least: S,
    i: int,
)
    requires
        scalar::ordered(val, num),
        scalar::repeatable::<S>(),
        scalar::ratio_is(1, 1000, least),
        p.packs(layers),
        0 <= i < 4,
        i < layers.len(),
    ensures
        p.height_blend@[i] == layers[i].height_blend,
        p.roughness@[i] == layers[i].roughness,
        p.normal_strength@[i] == layers[i].normal_strength,
        num(layers[i].tiling_scale) && val(layers[i].tiling_scale) >= val(least) ==> val(
            p.tiling_scale@[i],
        ) == val(layers[i].tiling_scale),
        num(layers[i].tiling_scale) && val(layers[i].tiling_scale) <= val(least) ==> val(
            p.tiling_scale@[i],
        ) == val(least),
        match layers[i].slope {
            Some(rule) => {
                &&& scalar::radians_is(rule.min_deg, p.slope_min@[i])
                &&& scalar::radians_is(rule.max_deg, p.slope_max@[i])
                &&& forall|blend: S| #[trigger]
                    scalar::radians_is(rule.blend_deg, blend) && num(blend) ==> val(
                        p.slope_blend@[i],
                    ) == if val(blend) >= val(least) {
                        val(blend)
                    } else {
                        val(least)
                    }
            },
            None => {
                &&& scalar::int_is(-10, p.slope_min@[i])
                &&& scalar::int_is(10, p.slope_max@[i])
                &&& scalar::ratio_is(1, 100, p.slope_blend@[i])
            },
        },
        match layers[i].height {
            Some(rule) => {
                &&& p.height_min@[i] == rule.min
                &&& p.height_max@[i] == rule.max
                &&& num(rule.blend) ==> val(p.height_range_blend@[i]) == if val(rule.blend) >= val(
                    least,
                ) {
                    val(rule.blend)
                } else {
                    val(least)
                }
            },
            None => {
                &&& scalar::int_is(-1_000_000_000, p.height_min@[i])
                &&& scalar::int_is(1_000_000_000, p.height_max@[i])
                &&& scalar::int_is(1, p.height_range_blend@[i])
            },
        },
{
    let lane = p.lane(i);
    assert(layers[i].packs_to(lane));
}

/// The three numbers of a packed slope band are in one unit: where two of the rule's angles
/// are equal, so are the packed ones, but for a blend below one thousandth.
pub proof fn law_slope_band_is_in_one_unit<S: Scalar>(
    val: spec_fn(S) -> real,
    num: spec_fn(S) -> bool,
    layers: Seq<TerrainLayer<S>>,
    p: TerrainParams<S>,
    least: S,
    i: int,
    rule: SlopeRule<S>,
)
    requires
        scalar::ordered(val, num),
        scalar::repeatable::<S>(),
        scalar::ratio_is(1, 1000, least),
        p.packs(layers),
        0 <= i < 4,
        i < layers.len(),
        layers[i].slope == Some(rule),
        num(p.slope_min@[i]),
        num(p.slope_max@[i]),
    ensures
        rule.min_deg == rule.max_deg ==> p.slope_min@[i] == p.slope_max@[i],
        rule.blend_deg == rule.max_deg && val(p.slope_max@[i]) >= val(least) ==> val(
            p.slope_blend@[i],
        ) == val(p.slope_max@[i]),
        rule.blend_deg == rule.min_deg && val(p.slope_min@[i]) >= val(least) ==> val(
            p.slope_blend@[i],
        ) == val(p.slope_min@[i]),
{
    law_layer_is_in_its_lane(val, num, layers, p, least, i);
}

/// A lane that no layer uses changes nothing: no relief, full roughness and normals, a tiling
/// scale of one, and bands that are open on both sides.
pub proof fn law_spare_lanes_change_nothing<S: Scalar>(
    layers: Seq<TerrainLayer<S>>,
    p: TerrainParams<S>,
    i: int,
)
    requires
        p.packs(layers),
        layers.len() <= i < 4,
    ensures
        scalar::int_is(1, p.tiling_scale@[i]),
        scalar::int_is(0, p.height_blend@[i]),
        scalar::int_is(1, p.roughness@[i]),
        scalar::int_is(1, p.normal_strength@[i]),
        scalar::int_is(-10, p.slope_min@[i]),
        scalar::int_is(10, p.slope_max@[i]),
        scalar::ratio_is(1, 100, p.slope_blend@[i]),
        scalar::int_is(-1_000_000_000, p.height_min@[i]),
        scalar::int_is(1_000_000_000, p.height_max@[i]),
        scalar::int_is(1, p.height_range_blend@[i]),
{
    let lane = p.lane(i);
    assert(lane.unused());
}

/// The layer count is that of the layers, and four where there are more.
pub proof fn law_layer_count<S: Scalar>(layers: Seq<TerrainLayer<S>>, p: TerrainParams<S>)
    requires
        p.packs(layers),
    ensures
        layers.len() <= 4 ==> p.layer_count == layers.len(),
        layers.len() > 4 ==> p.layer_count == 4,
{
}

} // verus!
