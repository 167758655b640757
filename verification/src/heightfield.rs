//! The heightmap on the CPU: texel decoding, bilinear height, and the soft march
//! towards the sun.

use vstd::prelude::*;

use crate::scalar::{self, Scalar, Vec2, Vec3};

verus! {

/// How the texels of an image are laid out, as far as the terrain cares.
#[derive(Clone, Copy, Debug, PartialEq, Eq, Structural)]
pub enum TextureFormat {
    /// One 16-bit channel, little endian.
    R16Unorm,
    /// Four 8-bit channels, linear.
    Rgba8Unorm,
    /// Four 8-bit channels, the first three gamma encoded.
    Rgba8UnormSrgb,
    /// Any other layout.
    Other,
}

/// An image that may hold a heightmap.
#[derive(Clone, Copy, Debug)]
pub struct HeightImage<'a> {
    pub format: TextureFormat,
    /// The texel bytes, where the image is resident on the CPU.
    pub data: Option<&'a [u8]>,
    pub width: u32,
    pub height: u32,
}

impl<'a> HeightImage<'a> {
    /// The image can be read as a heightmap at all.
    pub open spec fn is_heightmap(self) -> bool {
        self.format == TextureFormat::R16Unorm && self.data is Some
    }

    /// A heightmap holds at least one texel, and two bytes for each.
    pub open spec fn wf(self) -> bool {
        self.is_heightmap() ==> {
            &&& 0 < self.width
            &&& 0 < self.height
            &&& 2 * self.width * self.height <= self.data->0@.len()
        }
    }
}

/// CPU view over a clipmap heightmap. The world is centered on the origin.
#[derive(Clone, Copy, Debug)]
pub struct Heightfield<'a, S> {
    pub texels: &'a [u8],
    pub width: usize,
    pub height: usize,
    /// World size of one texel.
    pub texel_size: S,
    /// World height of the texel value 0.
    pub min: S,
    /// World height of the largest texel value.
    pub max: S,
}

/// `i`, held between 0 and `n - 1`.
pub open spec fn edge_clamped(i: int, n: int) -> int {
    if i < 0 {
        0
    } else if i >= n {
        n - 1
    } else {
        i
    }
}

/// The steps from a world coordinate to a texel and the fraction beyond it,
/// along one axis.
pub ghost struct AxisSteps<S> {
    pub cells: S,
    pub extent: S,
    pub scaled: S,
    pub half: S,
    pub uv: S,
    pub pos: S,
    pub base: S,
    pub frac: S,
    pub cell: i64,
}

/// `w` evaluates `pos = (coord / (cells * texel_size) + 1/2) * cells` and splits
/// it into a whole and a fractional part.
pub open spec fn axis_steps<S: Scalar>(cells: int, texel_size: S, coord: S, w: AxisSteps<S>) -> bool {
    &&& scalar::int_is(cells, w.cells)
    &&& scalar::product_is(w.cells, texel_size, w.extent)
    &&& scalar::quotient_is(coord, w.extent, w.scaled)
    &&& scalar::ratio_is(1, 2, w.half)
    &&& scalar::sum_is(w.scaled, w.half, w.uv)
    &&& scalar::product_is(w.uv, w.cells, w.pos)
    &&& scalar::floor_is(w.pos, w.base)
    &&& scalar::difference_is(w.pos, w.base, w.frac)
    &&& scalar::whole64_is(w.base, w.cell)
}

/// `coord` falls on texel `cell`, `frac` of a texel beyond it.
pub open spec fn located<S: Scalar>(cells: int, texel_size: S, coord: S, cell: i64, frac: S) -> bool {
    exists|w: AxisSteps<S>| #[trigger]
        axis_steps(cells, texel_size, coord, w) && w.cell == cell && w.frac == frac
}

/// Finds the texel a world coordinate falls on, and how far beyond it.
fn locate<S: Scalar>(cells: i64, texel_size: S, coord: S) -> (r: (i64, S))
    ensures
        located(cells as int, texel_size, coord, r.0, r.1),
{
    let n = S::of_int(cells);
    let extent = n.times(texel_size);
    let scaled = coord.over(extent);
    let half = S::ratio(1, 2);
    let uv = scaled.plus(half);
    let pos = uv.times(n);
    let base = pos.floored();
    let frac = pos.minus(base);
    let cell: i64 = base.whole64();
    proof {
        let w = AxisSteps { cells: n, extent, scaled, half, uv, pos, base, frac, cell };
        assert(axis_steps(cells as int, texel_size, coord, w));
    }
    (cell, frac)
}

/// The steps of a bilinear blend.
pub ghost struct BlendSteps<S> {
    pub one: S,
    pub gx: S,
    pub gy: S,
    pub top_left: S,
    pub top_right: S,
    pub top: S,
    pub bottom_left: S,
    pub bottom_right: S,
    pub bottom: S,
    pub upper: S,
    pub lower: S,
    pub unit: S,
}

/// `w` evaluates `(h00 (1-fx) + h10 fx) (1-fy) + (h01 (1-fx) + h11 fx) fy`.
pub open spec fn blend_steps<S: Scalar>(
    h00: S,
    h10: S,
    h01: S,
    h11: S,
    fx: S,
    fy: S,
    w: BlendSteps<S>,
) -> bool {
    &&& scalar::int_is(1, w.one)
    &&& scalar::difference_is(w.one, fx, w.gx)
    &&& scalar::difference_is(w.one, fy, w.gy)
    &&& scalar::product_is(h00, w.gx, w.top_left)
    &&& scalar::product_is(h10, fx, w.top_right)
    &&& scalar::sum_is(w.top_left, w.top_right, w.top)
    &&& scalar::product_is(h01, w.gx, w.bottom_left)
    &&& scalar::product_is(h11, fx, w.bottom_right)
    &&& scalar::sum_is(w.bottom_left, w.bottom_right, w.bottom)
    &&& scalar::product_is(w.top, w.gy, w.upper)
    &&& scalar::product_is(w.bottom, fy, w.lower)
    &&& scalar::sum_is(w.upper, w.lower, w.unit)
}

/// `r` is the bilinear blend of the four corners.
pub open spec fn blended<S: Scalar>(h00: S, h10: S, h01: S, h11: S, fx: S, fy: S, r: S) -> bool {
    exists|w: BlendSteps<S>| #[trigger]
        blend_steps(h00, h10, h01, h11, fx, fy, w) && w.unit == r
}

/// Blends four corners bilinearly.
fn blend<S: Scalar>(h00: S, h10: S, h01: S, h11: S, fx: S, fy: S) -> (r: S)
    ensures
        blended(h00, h10, h01, h11, fx, fy, r),
{
    let one = S::of_int(1);
    let gx = one.minus(fx);
    let gy = one.minus(fy);
    let top_left = h00.times(gx);
    let top_right = h10.times(fx);
    let top = top_left.plus(top_right);
    let bottom_left = h01.times(gx);
    let bottom_right = h11.times(fx);
    let bottom = bottom_left.plus(bottom_right);
    let upper = top.times(gy);
    let lower = bottom.times(fy);
    let unit = upper.plus(lower);
    proof {
        let w = BlendSteps {
            one,
            gx,
            gy,
            top_left,
            top_right,
            top,
            bottom_left,
            bottom_right,
            bottom,
            upper,
            lower,
            unit,
        };
        assert(blend_steps(h00, h10, h01, h11, fx, fy, w));
    }
    unit
}

/// The steps from a world position to the terrain height there.
pub ghost struct HeightSteps<S> {
    pub x0: i64,
    pub fx: S,
    pub y0: i64,
    pub fy: S,
    pub h00: S,
    pub h10: S,
    pub h01: S,
    pub h11: S,
    pub unit: S,
    pub span: S,
    pub scaled: S,
    pub height: S,
}

/// The steps of the test whether a position lies over the heightmap.
pub ghost struct ContainsSteps<S> {
    pub half: Vec2<S>,
    pub low_x: S,
    pub low_z: S,
    pub above_low_x: bool,
    pub below_high_x: bool,
    pub above_low_z: bool,
    pub below_high_z: bool,
}

/// Most points the march samples.
pub const MARCH_STEPS: u32 = 96;

/// Distance beyond which the march stops.
pub const MARCH_MAX_DIST: i64 = 6000;

/// Clearance per distance, times this, is the visibility.
pub const MARCH_SOFTNESS: i64 = 10;

/// Distance of the first sample, and length of the first step.
pub const MARCH_FIRST_STEP: i64 = 3;

/// Each step is longer than the one before by this many hundredths.
pub const MARCH_GROWTH_PERCENT: i64 = 112;

/// The march stops at or below this many thousandths of visibility.
pub const MARCH_DARK_PERMILLE: i64 = 1;

/// The march's constants as scalars.
#[derive(Clone, Copy, Debug)]
pub struct MarchConstants<S> {
    pub max_dist: S,
    pub softness: S,
    pub first_step: S,
    pub growth: S,
    pub dark: S,
    pub zero: S,
    pub one: S,
}

impl<S: Scalar> MarchConstants<S> {
    /// Every field is a value of the constant it stands for.
    pub open spec fn wf(self) -> bool {
        &&& scalar::int_is(MARCH_MAX_DIST as int, self.max_dist)
        &&& scalar::int_is(MARCH_SOFTNESS as int, self.softness)
        &&& scalar::int_is(MARCH_FIRST_STEP as int, self.first_step)
        &&& scalar::ratio_is(MARCH_GROWTH_PERCENT as int, 100, self.growth)
        &&& scalar::ratio_is(MARCH_DARK_PERMILLE as int, 1000, self.dark)
        &&& scalar::int_is(0, self.zero)
        &&& scalar::int_is(1, self.one)
    }

    /// The constants of the march.
    fn new() -> (r: Self)
        ensures
            r.wf(),
    {
        MarchConstants {
            max_dist: S::of_int(MARCH_MAX_DIST),
            softness: S::of_int(MARCH_SOFTNESS),
            first_step: S::of_int(MARCH_FIRST_STEP),
            growth: S::ratio(MARCH_GROWTH_PERCENT, 100),
            dark: S::ratio(MARCH_DARK_PERMILLE, 1000),
            zero: S::of_int(0),
            one: S::of_int(1),
        }
    }

    /// Where the march starts: nothing in the way yet, one step out.
    pub open spec fn start(self) -> MarchState<S> {
        MarchState { vis: self.one, step: self.first_step, t: self.first_step }
    }
}

/// Where the march stands before a sample.
#[derive(Clone, Copy, Debug)]
pub struct MarchState<S> {
    /// Visibility left by the samples so far.
    pub vis: S,
    /// Length of the last step.
    pub step: S,
    /// Distance from the origin.
    pub t: S,
}

/// `p` is `origin + direction * t`.
pub open spec fn point_at<S: Scalar>(origin: Vec3<S>, direction: Vec3<S>, t: S, p: Vec3<S>) -> bool {
    exists|d: Vec3<S>|
        {
            &&& scalar::product_is(direction.x, t, d.x)
            &&& #[trigger] scalar::product_is(direction.y, t, d.y)
            &&& scalar::product_is(direction.z, t, d.z)
            &&& scalar::sum_is(origin.x, d.x, p.x)
            &&& scalar::sum_is(origin.y, d.y, p.y)
            &&& scalar::sum_is(origin.z, d.z, p.z)
        }
}

/// The point at distance `t` along a ray.
fn along<S: Scalar>(origin: Vec3<S>, direction: Vec3<S>, t: S) -> (p: Vec3<S>)
    ensures
        point_at(origin, direction, t, p),
{
    let d = Vec3 { x: direction.x.times(t), y: direction.y.times(t), z: direction.z.times(t) };
    let p = Vec3 { x: origin.x.plus(d.x), y: origin.y.plus(d.y), z: origin.z.plus(d.z) };
    assert(scalar::product_is(direction.y, t, d.y));
    p
}

/// The steps of one sample of the march.
pub ghost struct SampleSteps<S> {
    pub ground: S,
    pub clearance: S,
    pub softened: S,
    pub slope: S,
    pub held: S,
    pub vis: S,
}

impl<'a, S: Scalar> Heightfield<'a, S> {
    /// Both sides are image sizes.
    pub open spec fn sized(self) -> bool {
        self.width <= u32::MAX && self.height <= u32::MAX
    }

    /// There is at least one texel, every texel has its two bytes, and both sides
    /// are image sizes.
    pub open spec fn wf(self) -> bool {
        &&& self.sized()
        &&& 0 < self.width
        &&& 0 < self.height
        &&& 2 * self.width * self.height <= self.texels@.len()
    }

    /// The heightfield over the texels of a heightmap image.
    pub open spec fn over_image(image: HeightImage<'a>, texel_size: S, min: S, max: S) -> Self {
        Heightfield {
            texels: image.data->0,
            width: image.width as usize,
            height: image.height as usize,
            texel_size,
            min,
            max,
        }
    }

    /// Views an image as a heightfield. Only single-channel 16-bit images that are
    /// resident on the CPU can be read.
    pub fn new(image: HeightImage<'a>, texel_size: S, min: S, max: S) -> (r: Option<Self>)
        ensures
            r == if image.is_heightmap() {
                Some(Self::over_image(image, texel_size, min, max))
            } else {
                None
            },
            r matches Some(field) ==> field.sized() && (field.wf() <==> image.wf()),
            r is Some <==> image.format == TextureFormat::R16Unorm && image.data is Some,
            r matches Some(field) ==> {
                &&& Some(field.texels) == image.data
                &&& field.width == image.width && field.height == image.height
                &&& field.texel_size == texel_size
                &&& field.min == min && field.max == max
            },
    {
        if image.format != TextureFormat::R16Unorm {
            return None;
        }
        match image.data {
            None => None,
            Some(texels) => Some(
                Heightfield {
                    texels,
                    width: image.width as usize,
                    height: image.height as usize,
                    texel_size,
                    min,
                    max,
                },
            ),
        }
    }

    /// The 16-bit value of a texel; positions beyond the image read its edge.
    pub open spec fn raw_at(self, x: int, y: int) -> int {
        let cx = edge_clamped(x, self.width as int);
        let cy = edge_clamped(y, self.height as int);
        let i = (cy * self.width + cx) * 2;
        self.texels@[i] + 256 * self.texels@[i + 1]
    }

    /// Reads the 16-bit value of a texel, edge-clamped.
    pub fn raw_texel(&self, x: i64, y: i64) -> (r: u16)
        requires
            self.wf(),
        ensures
            r == self.raw_at(x as int, y as int),
    {
        let last_x: i64 = self.width as i64 - 1;
        let last_y: i64 = self.height as i64 - 1;
        let cx: usize = (if x < 0 {
            0
        } else if x > last_x {
            last_x
        } else {
            x
        }) as usize;
        let cy: usize = (if y < 0 {
            0
        } else if y > last_y {
            last_y
        } else {
            y
        }) as usize;
        proof {
            let w = self.width as int;
            let h = self.height as int;
            assert(cy * w + cx < h * w) by (nonlinear_arith)
                requires
                    0 <= cy < h,
                    0 <= cx < w,
            ;
            assert(0 <= cy * w) by (nonlinear_arith)
                requires
                    0 <= cy,
                    0 <= w,
            ;
            assert(2 * w * h == 2 * (h * w)) by (nonlinear_arith);
            assert(self.texels@.len() == self.texels.len());
        }
        let i: usize = (cy * self.width + cx) * 2;
        self.texels[i] as u16 + 256 * self.texels[i + 1] as u16
    }

    /// `r` is the height of a texel, with the largest texel value as one.
    pub open spec fn texel_is(self, x: int, y: int, r: S) -> bool {
        exists|raw: S, full: S|
            {
                &&& scalar::int_is(self.raw_at(x, y), raw)
                &&& scalar::int_is(65535, full)
                &&& #[trigger] scalar::quotient_is(raw, full, r)
            }
    }

    /// One texel's height, with the largest texel value as one, edge-clamped.
    pub fn texel(&self, x: i64, y: i64) -> (r: S)
        requires
            self.wf(),
        ensures
            self.texel_is(x as int, y as int, r),
    {
        let raw = S::of_int(self.raw_texel(x, y) as i64);
        let full = S::of_int(65535);
        let r = raw.over(full);
        assert(scalar::quotient_is(raw, full, r));
        r
    }

    /// `w` evaluates the bilinear height at `xz`.
    pub open spec fn height_steps(self, xz: Vec2<S>, w: HeightSteps<S>) -> bool {
        &&& located(self.width as int, self.texel_size, xz.x, w.x0, w.fx)
        &&& located(self.height as int, self.texel_size, xz.y, w.y0, w.fy)
        &&& self.texel_is(w.x0 as int, w.y0 as int, w.h00)
        &&& self.texel_is(w.x0 + 1, w.y0 as int, w.h10)
        &&& self.texel_is(w.x0 as int, w.y0 + 1, w.h01)
        &&& self.texel_is(w.x0 + 1, w.y0 + 1, w.h11)
        &&& blended(w.h00, w.h10, w.h01, w.h11, w.fx, w.fy, w.unit)
        &&& scalar::difference_is(self.max, self.min, w.span)
        &&& scalar::product_is(w.unit, w.span, w.scaled)
        &&& scalar::sum_is(w.scaled, self.min, w.height)
    }

    /// `r` is the terrain height at `xz`.
    pub open spec fn height_is(self, xz: Vec2<S>, r: S) -> bool {
        exists|w: HeightSteps<S>| #[trigger] self.height_steps(xz, w) && w.height == r
    }

    /// World-space terrain height at `xz`, bilinear between texels.
    pub fn height(&self, xz: Vec2<S>) -> (r: S)
        requires
            self.wf(),
        ensures
            self.height_is(xz, r),
    {
        let (x0, fx) = locate(self.width as i64, self.texel_size, xz.x);
        let (y0, fy) = locate(self.height as i64, self.texel_size, xz.y);
        // The successor of the largest index reads the edge, as that index does.
        let x1: i64 = if x0 < i64::MAX {
            x0 + 1
        } else {
            x0
        };
        let y1: i64 = if y0 < i64::MAX {
            y0 + 1
        } else {
            y0
        };
        let h00 = self.texel(x0, y0);
        let h10 = self.texel(x1, y0);
        let h01 = self.texel(x0, y1);
        let h11 = self.texel(x1, y1);
        let unit = blend(h00, h10, h01, h11, fx, fy);
        let span = self.max.minus(self.min);
        let scaled = unit.times(span);
        let height = scaled.plus(self.min);
        proof {
            let w = HeightSteps { x0, fx, y0, fy, h00, h10, h01, h11, unit, span, scaled, height };
            assert(self.raw_at(x0 + 1, y0 as int) == self.raw_at(x1 as int, y0 as int));
            assert(self.raw_at(x0 as int, y0 + 1) == self.raw_at(x0 as int, y1 as int));
            assert(self.raw_at(x0 + 1, y0 + 1) == self.raw_at(x1 as int, y1 as int));
            assert(self.height_steps(xz, w));
        }
        height
    }

    /// `r` is half of `cells` texels in world units.
    pub open spec fn half_side_is(cells: int, texel_size: S, r: S) -> bool {
        exists|n: S, side: S, half: S|
            #![trigger scalar::int_is(cells, n), scalar::product_is(side, half, r)]
            {
                &&& scalar::int_is(cells, n)
                &&& scalar::product_is(n, texel_size, side)
                &&& scalar::ratio_is(1, 2, half)
                &&& scalar::product_is(side, half, r)
            }
    }

    /// Half of `cells` texels in world units.
    fn half_side(cells: i64, texel_size: S) -> (r: S)
        ensures
            Self::half_side_is(cells as int, texel_size, r),
    {
        let n = S::of_int(cells);
        let side = n.times(texel_size);
        let half = S::ratio(1, 2);
        let r = side.times(half);
        assert(scalar::int_is(cells as int, n) && scalar::product_is(side, half, r));
        r
    }

    /// `r` is half the world extent on each axis.
    pub open spec fn half_extent_is(self, r: Vec2<S>) -> bool {
        &&& Self::half_side_is(self.width as int, self.texel_size, r.x)
        &&& Self::half_side_is(self.height as int, self.texel_size, r.y)
    }

    /// Half the world extent on each axis; the world is centered on the origin.
    pub fn half_extent(&self) -> (r: Vec2<S>)
        requires
            self.sized(),
        ensures
            self.half_extent_is(r),
    {
        Vec2 {
            x: Self::half_side(self.width as i64, self.texel_size),
            y: Self::half_side(self.height as i64, self.texel_size),
        }
    }

    /// `w` evaluates `-half <= p <= half` on both ground axes.
    pub open spec fn contains_steps(self, p: Vec3<S>, w: ContainsSteps<S>) -> bool {
        &&& self.half_extent_is(w.half)
        &&& scalar::negation_is(w.half.x, w.low_x)
        &&& scalar::negation_is(w.half.y, w.low_z)
        &&& scalar::at_most_is(w.low_x, p.x, w.above_low_x)
        &&& scalar::at_most_is(p.x, w.half.x, w.below_high_x)
        &&& scalar::at_most_is(w.low_z, p.z, w.above_low_z)
        &&& scalar::at_most_is(p.z, w.half.y, w.below_high_z)
    }

    /// `r` answers whether `p` lies over the heightmap.
    pub open spec fn contains_is(self, p: Vec3<S>, r: bool) -> bool {
        exists|w: ContainsSteps<S>| #[trigger]
            self.contains_steps(p, w) && r == (w.above_low_x && w.below_high_x && w.above_low_z
                && w.below_high_z)
    }

    /// Whether `p` lies over the heightmap, at any altitude.
    pub fn contains(&self, p: Vec3<S>) -> (r: bool)
        requires
            self.sized(),
        ensures
            self.contains_is(p, r),
    {
        let half = self.half_extent();
        let low_x = half.x.negated();
        let low_z = half.y.negated();
        let above_low_x: bool = low_x.at_most(p.x);
        let below_high_x: bool = p.x.at_most(half.x);
        let above_low_z: bool = low_z.at_most(p.z);
        let below_high_z: bool = p.z.at_most(half.y);
        proof {
            let w = ContainsSteps {
                half,
                low_x,
                low_z,
                above_low_x,
                below_high_x,
                above_low_z,
                below_high_z,
            };
            assert(self.contains_steps(p, w));
        }
        above_low_x && below_high_x && above_low_z && below_high_z
    }

    /// `w` evaluates `min(s.vis, clamp(softness * clearance / s.t, 0, 1))` for the
    /// sample at `p`.
    pub open spec fn sample_steps(
        self,
        c: MarchConstants<S>,
        s: MarchState<S>,
        p: Vec3<S>,
        w: SampleSteps<S>,
    ) -> bool {
        &&& self.height_is(Vec2 { x: p.x, y: p.z }, w.ground)
        &&& scalar::difference_is(p.y, w.ground, w.clearance)
        &&& scalar::product_is(c.softness, w.clearance, w.softened)
        &&& scalar::quotient_is(w.softened, s.t, w.slope)
        &&& scalar::held_is(w.slope, c.zero, c.one, w.held)
        &&& scalar::lesser_is(s.vis, w.held, w.vis)
    }

    /// `vis` is the visibility after the sample at `p`.
    pub open spec fn sampled(
        self,
        c: MarchConstants<S>,
        s: MarchState<S>,
        p: Vec3<S>,
        vis: S,
    ) -> bool {
        exists|w: SampleSteps<S>| #[trigger] self.sample_steps(c, s, p, w) && w.vis == vis
    }

    /// Takes the sample at `p`.
    fn take_sample(&self, c: &MarchConstants<S>, s: &MarchState<S>, p: Vec3<S>) -> (vis: S)
        requires
            self.wf(),
        ensures
            self.sampled(*c, *s, p, vis),
    {
        let ground = self.height(Vec2 { x: p.x, y: p.z });
        let clearance = p.y.minus(ground);
        let softened = c.softness.times(clearance);
        let slope = softened.over(s.t);
        let held = slope.held_between(c.zero, c.one);
        let vis = s.vis.lesser(held);
        proof {
            let w = SampleSteps { ground, clearance, softened, slope, held, vis };
            assert(self.sample_steps(*c, *s, p, w));
        }
        vis
    }

    /// The march ends at `s` because it has gone far enough.
    pub open spec fn ends_far(self, c: MarchConstants<S>, s: MarchState<S>) -> bool {
        scalar::below_is(c.max_dist, s.t, true)
    }

    /// The march is still near enough at `s`, and its next sample is at `p`.
    pub open spec fn aims_at(
        self,
        c: MarchConstants<S>,
        origin: Vec3<S>,
        sun_direction: Vec3<S>,
        s: MarchState<S>,
        p: Vec3<S>,
    ) -> bool {
        &&& scalar::below_is(c.max_dist, s.t, false)
        &&& point_at(origin, sun_direction, s.t, p)
    }

    /// The march ends at `s` because its next sample is above all terrain.
    pub open spec fn ends_above(
        self,
        c: MarchConstants<S>,
        origin: Vec3<S>,
        sun_direction: Vec3<S>,
        s: MarchState<S>,
    ) -> bool {
        exists|p: Vec3<S>| #[trigger]
            self.aims_at(c, origin, sun_direction, s, p) && scalar::below_is(self.max, p.y, true)
    }

    /// The sample at `s` leaves the visibility `vis`.
    pub open spec fn dims_to(
        self,
        c: MarchConstants<S>,
        origin: Vec3<S>,
        sun_direction: Vec3<S>,
        s: MarchState<S>,
        vis: S,
    ) -> bool {
        exists|p: Vec3<S>| #[trigger]
            self.aims_at(c, origin, sun_direction, s, p) && scalar::below_is(self.max, p.y, false)
                && self.sampled(c, s, p, vis)
    }

    /// The march ends at `s` because its sample leaves no more than darkness.
    pub open spec fn ends_dark(
        self,
        c: MarchConstants<S>,
        origin: Vec3<S>,
        sun_direction: Vec3<S>,
        s: MarchState<S>,
        vis: S,
    ) -> bool {
        &&& self.dims_to(c, origin, sun_direction, s, vis)
        &&& scalar::at_most_is(vis, c.dark, true)
    }

    /// The march goes on from `s` to `next`, by a step longer than the last.
    pub open spec fn goes_on(
        self,
        c: MarchConstants<S>,
        origin: Vec3<S>,
        sun_direction: Vec3<S>,
        s: MarchState<S>,
        next: MarchState<S>,
    ) -> bool {
        &&& self.dims_to(c, origin, sun_direction, s, next.vis)
        &&& scalar::at_most_is(next.vis, c.dark, false)
        &&& scalar::product_is(s.step, c.growth, next.step)
        &&& scalar::sum_is(s.t, next.step, next.t)
    }

    /// The march from `s`, with `left` samples to go, gives `r`.
    pub open spec fn march_gives(
        self,
        c: MarchConstants<S>,
        origin: Vec3<S>,
        sun_direction: Vec3<S>,
        left: nat,
        s: MarchState<S>,
        r: S,
    ) -> bool
        decreases left,
    {
        if left == 0 {
            r == s.vis
        } else {
            ||| self.ends_far(c, s) && r == s.vis
            ||| self.ends_above(c, origin, sun_direction, s) && r == s.vis
            ||| self.ends_dark(c, origin, sun_direction, s, r)
            ||| exists|next: MarchState<S>| #[trigger]
                self.goes_on(c, origin, sun_direction, s, next) && self.march_gives(
                    c,
                    origin,
                    sun_direction,
                    (left - 1) as nat,
                    next,
                    r,
                )
        }
    }

    /// `r` is the sun visibility at `origin`.
    pub open spec fn sun_visibility_is(self, origin: Vec3<S>, sun_direction: Vec3<S>, r: S) -> bool {
        exists|c: MarchConstants<S>| #[trigger]
            c.wf() && self.march_gives(
                c,
                origin,
                sun_direction,
                MARCH_STEPS as nat,
                c.start(),
                r,
            )
    }

    /// Soft-marches towards the sun from `origin`: one is full sun, zero is full
    /// shadow.
    pub fn sun_visibility(&self, origin: Vec3<S>, sun_direction: Vec3<S>) -> (r: S)
        requires
            self.wf(),
        ensures
            self.sun_visibility_is(origin, sun_direction, r),
    {
        let c = MarchConstants::<S>::new();
        let mut s = MarchState { vis: c.one, step: c.first_step, t: c.first_step };
        let mut left: u32 = MARCH_STEPS;
        while left > 0
            invariant
                self.wf(),
                c.wf(),
                left <= MARCH_STEPS,
                forall|r: S|
                    self.march_gives(c, origin, sun_direction, left as nat, s, r)
                        ==> #[trigger] self.march_gives(
                        c,
                        origin,
                        sun_direction,
                        MARCH_STEPS as nat,
                        c.start(),
                        r,
                    ),
            decreases left,
        {
            if c.max_dist.below(s.t) {
                assert(self.march_gives(c, origin, sun_direction, left as nat, s, s.vis));
                return s.vis;
            }
            let p = along(origin, sun_direction, s.t);
            assert(self.aims_at(c, origin, sun_direction, s, p));
            if self.max.below(p.y) {
                assert(self.march_gives(c, origin, sun_direction, left as nat, s, s.vis));
                return s.vis;
            }
            let vis = self.take_sample(&c, &s, p);
            assert(self.dims_to(c, origin, sun_direction, s, vis));
            if vis.at_most(c.dark) {
                assert(self.march_gives(c, origin, sun_direction, left as nat, s, vis));
                return vis;
            }
            let step = s.step.times(c.growth);
            let t = s.t.plus(step);
            let next = MarchState { vis, step, t };
            proof {
                assert(self.goes_on(c, origin, sun_direction, s, next));
                assert forall|r: S|
                    self.march_gives(
                        c,
                        origin,
                        sun_direction,
                        (left - 1) as nat,
                        next,
                        r,
                    ) implies #[trigger] self.march_gives(
                    c,
                    origin,
                    sun_direction,
                    MARCH_STEPS as nat,
                    c.start(),
                    r,
                ) by {
                    assert(self.march_gives(c, origin, sun_direction, left as nat, s, r));
                }
            }
            s = next;
            left = left - 1;
        }
        assert(self.march_gives(c, origin, sun_direction, 0, s, s.vis));
        s.vis
    }

    /// The terrain has one height at each position, where the scalar's operations
    /// give one result each.
    pub proof fn law_one_height(self, xz: Vec2<S>, a: S, b: S)
        requires
            self.wf(),
            scalar::repeatable::<S>(),
            self.height_is(xz, a),
            self.height_is(xz, b),
        ensures
            a == b,
    {
        let v = choose|w: HeightSteps<S>| #[trigger] self.height_steps(xz, w) && w.height == a;
        let w = choose|w: HeightSteps<S>| #[trigger] self.height_steps(xz, w) && w.height == b;
        lemma_one_location(self.width as int, self.texel_size, xz.x, v.x0, v.fx, w.x0, w.fx);
        lemma_one_location(self.height as int, self.texel_size, xz.y, v.y0, v.fy, w.y0, w.fy);
        lemma_one_blend(v.h00, v.h10, v.h01, v.h11, v.fx, v.fy, v.unit, w.unit);
    }

    /// Two samples from one state leave one visibility.
    proof fn lemma_one_sample(
        self,
        c: MarchConstants<S>,
        origin: Vec3<S>,
        sun_direction: Vec3<S>,
        s: MarchState<S>,
        a: S,
        b: S,
    )
        requires
            self.wf(),
            scalar::repeatable::<S>(),
            self.dims_to(c, origin, sun_direction, s, a),
            self.dims_to(c, origin, sun_direction, s, b),
        ensures
            a == b,
    {
        let p = choose|p: Vec3<S>| #[trigger]
            self.aims_at(c, origin, sun_direction, s, p) && scalar::below_is(self.max, p.y, false)
                && self.sampled(c, s, p, a);
        let q = choose|p: Vec3<S>| #[trigger]
            self.aims_at(c, origin, sun_direction, s, p) && scalar::below_is(self.max, p.y, false)
                && self.sampled(c, s, p, b);
        assert(p == q);
        let v = choose|w: SampleSteps<S>| #[trigger] self.sample_steps(c, s, p, w) && w.vis == a;
        let w = choose|w: SampleSteps<S>| #[trigger] self.sample_steps(c, s, p, w) && w.vis == b;
        self.law_one_height(Vec2 { x: p.x, y: p.z }, v.ground, w.ground);
    }

    /// The march from one state gives one visibility.
    proof fn lemma_one_march(
        self,
        c: MarchConstants<S>,
        origin: Vec3<S>,
        sun_direction: Vec3<S>,
        left: nat,
        s: MarchState<S>,
        a: S,
        b: S,
    )
        requires
            self.wf(),
            scalar::repeatable::<S>(),
            self.march_gives(c, origin, sun_direction, left, s, a),
            self.march_gives(c, origin, sun_direction, left, s, b),
        ensures
            a == b,
        decreases left,
    {
        if left > 0 {
            if self.ends_far(c, s) || self.ends_above(c, origin, sun_direction, s) {
                assert(a == s.vis && b == s.vis);
            } else if self.ends_dark(c, origin, sun_direction, s, a) {
                if self.ends_dark(c, origin, sun_direction, s, b) {
                    self.lemma_one_sample(c, origin, sun_direction, s, a, b);
                } else {
                    let next = choose|next: MarchState<S>| #[trigger]
                        self.goes_on(c, origin, sun_direction, s, next) && self.march_gives(
                            c,
                            origin,
                            sun_direction,
                            (left - 1) as nat,
                            next,
                            b,
                        );
                    self.lemma_one_sample(c, origin, sun_direction, s, a, next.vis);
                }
            } else {
                let m = choose|next: MarchState<S>| #[trigger]
                    self.goes_on(c, origin, sun_direction, s, next) && self.march_gives(
                        c,
                        origin,
                        sun_direction,
                        (left - 1) as nat,
                        next,
                        a,
                    );
                if self.ends_dark(c, origin, sun_direction, s, b) {
                    self.lemma_one_sample(c, origin, sun_direction, s, b, m.vis);
                } else {
                    let n = choose|next: MarchState<S>| #[trigger]
                        self.goes_on(c, origin, sun_direction, s, next) && self.march_gives(
                            c,
                            origin,
                            sun_direction,
                            (left - 1) as nat,
                            next,
                            b,
                        );
                    self.lemma_one_sample(c, origin, sun_direction, s, m.vis, n.vis);
                    assert(m == n);
                    self.lemma_one_march(
                        c,
                        origin,
                        sun_direction,
                        (left - 1) as nat,
                        m,
                        a,
                        b,
                    );
                }
            }
        }
    }

    /// A position has one sun visibility, where the scalar's operations give one
    /// result each.
    pub proof fn law_one_visibility(self, origin: Vec3<S>, sun_direction: Vec3<S>, a: S, b: S)
        requires
            self.wf(),
            scalar::repeatable::<S>(),
            self.sun_visibility_is(origin, sun_direction, a),
            self.sun_visibility_is(origin, sun_direction, b),
        ensures
            a == b,
    {
        let steps = MARCH_STEPS as nat;
        let c = choose|c: MarchConstants<S>| #[trigger]
            c.wf() && self.march_gives(c, origin, sun_direction, steps, c.start(), a);
        let d = choose|c: MarchConstants<S>| #[trigger]
            c.wf() && self.march_gives(c, origin, sun_direction, steps, c.start(), b);
        assert(c == d);
        self.lemma_one_march(c, origin, sun_direction, steps, c.start(), a, b);
    }

    /// Above the highest terrain nothing is in the way: where the first sample
    /// towards the sun is above the highest terrain, the visibility is one.
    pub proof fn law_nothing_above_terrain(
        self,
        c: MarchConstants<S>,
        origin: Vec3<S>,
        sun_direction: Vec3<S>,
        r: S,
    )
        requires
            self.wf(),
            scalar::repeatable::<S>(),
            c.wf(),
            self.ends_above(c, origin, sun_direction, c.start()),
            self.sun_visibility_is(origin, sun_direction, r),
        ensures
            scalar::int_is(1, r),
    {
        assert(self.march_gives(
            c,
            origin,
            sun_direction,
            MARCH_STEPS as nat,
            c.start(),
            c.one,
        ));
        assert(self.sun_visibility_is(origin, sun_direction, c.one));
        self.law_one_visibility(origin, sun_direction, r, c.one);
    }

    /// `r` is full sun, or some value held between zero and one.
    pub open spec fn lit_or_held(c: MarchConstants<S>, r: S) -> bool {
        r == c.one || exists|slope: S| #[trigger] scalar::held_is(slope, c.zero, c.one, r)
    }

    /// Every march keeps the visibility full or held between zero and one.
    proof fn lemma_march_stays_held(
        self,
        c: MarchConstants<S>,
        origin: Vec3<S>,
        sun_direction: Vec3<S>,
        left: nat,
        s: MarchState<S>,
        r: S,
    )
        requires
            scalar::lesser_selects::<S>(),
            Self::lit_or_held(c, s.vis),
            self.march_gives(c, origin, sun_direction, left, s, r),
        ensures
            Self::lit_or_held(c, r),
        decreases left,
    {
        if left > 0 && !(self.ends_far(c, s) && r == s.vis) && !(self.ends_above(
            c,
            origin,
            sun_direction,
            s,
        ) && r == s.vis) && !self.ends_dark(c, origin, sun_direction, s, r) {
            let next = choose|next: MarchState<S>| #[trigger]
                self.goes_on(c, origin, sun_direction, s, next) && self.march_gives(
                    c,
                    origin,
                    sun_direction,
                    (left - 1) as nat,
                    next,
                    r,
                );
            assert(Self::lit_or_held(c, next.vis));
            self.lemma_march_stays_held(
                c,
                origin,
                sun_direction,
                (left - 1) as nat,
                next,
                r,
            );
        }
    }

    /// The visibility is full sun or a value held between zero and one, wherever the
    /// lesser of two scalars is one of them.
    pub proof fn law_visibility_is_held(self, origin: Vec3<S>, sun_direction: Vec3<S>, r: S)
        requires
            scalar::lesser_selects::<S>(),
            self.sun_visibility_is(origin, sun_direction, r),
        ensures
            exists|c: MarchConstants<S>| #[trigger] c.wf() && Self::lit_or_held(c, r),
    {
        let steps = MARCH_STEPS as nat;
        let c = choose|c: MarchConstants<S>| #[trigger]
            c.wf() && self.march_gives(c, origin, sun_direction, steps, c.start(), r);
        self.lemma_march_stays_held(c, origin, sun_direction, steps, c.start(), r);
    }
}

/// A coordinate falls on one texel.
pub(crate) proof fn lemma_one_location<S: Scalar>(
    cells: int,
    texel_size: S,
    coord: S,
    i: i64,
    f: S,
    j: i64,
    g: S,
)
    requires
        scalar::repeatable::<S>(),
        located(cells, texel_size, coord, i, f),
        located(cells, texel_size, coord, j, g),
    ensures
        i == j,
        f == g,
{
}

/// Four corners have one blend.
proof fn lemma_one_blend<S: Scalar>(h00: S, h10: S, h01: S, h11: S, fx: S, fy: S, a: S, b: S)
    requires
        scalar::repeatable::<S>(),
        blended(h00, h10, h01, h11, fx, fy, a),
        blended(h00, h10, h01, h11, fx, fy, b),
    ensures
        a == b,
{
}

} // verus!
