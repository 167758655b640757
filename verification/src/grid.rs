//! The nested grids of a clipmap: which parts each level is made of, where they stand,
//! and how the levels follow the target.

use vstd::arithmetic::power2::pow2;
use vstd::prelude::*;

use crate::clipmap::Clipmap;
use crate::scalar::{self, Scalar, Vec3};

verus! {

/// Width of the strip between the middle squares of a grid: one cell where the half
/// width is odd, two where it is even.
pub open spec fn filler_width_of(half_width: int) -> int {
    2 - half_width % 2
}

/// Width of one of the squares of a grid.
pub open spec fn square_width_of(half_width: int) -> int {
    (half_width - filler_width_of(half_width)) / 2
}

/// Width of the strip between the middle squares of a grid.
pub fn filler_width(half_width: u32) -> (r: i32)
    requires
        half_width <= i32::MAX,
    ensures
        r == filler_width_of(half_width as int),
{
    2 - (half_width % 2) as i32
}

/// Width of one of the squares of a grid.
pub fn square_width(half_width: u32) -> (r: i32)
    requires
        half_width <= i32::MAX,
    ensures
        r == square_width_of(half_width as int),
{
    let filler: i32 = filler_width(half_width);
    let width: i32 = half_width as i32;
    // Only an empty grid has squares narrower than nothing.
    if width < filler {
        -1
    } else {
        (width - filler) / 2
    }
}

/// The factor between the cell sizes of a level and of the finest one.
pub fn level_factor(level: u32) -> (r: u32)
    requires
        level < 32,
    ensures
        r == pow2(level as nat),
{
    proof {
        vstd::bits::lemma_u32_pow2_no_overflow(level as nat);
        vstd::bits::lemma_u32_shl_is_mul(1, level);
    }
    1u32 << level
}

/// A mesh that the grids are made of.
#[derive(Clone, Copy, Debug, PartialEq, Eq, Structural)]
pub enum GridPart {
    /// A square block of cells.
    Square,
    /// The cross between the squares of the finest level.
    Center,
    /// The cross between the squares of the other levels, which have a hole.
    Filler,
    /// The seam around the hole.
    Stitch,
    /// The angle along two sides, next to the coarser level.
    Trim,
}

/// Where a part stands within its grid: on each axis, a number of square widths and a
/// number of cells from the middle.
#[derive(Clone, Copy, Debug, PartialEq, Eq, Structural)]
pub struct PlacedPart {
    pub part: GridPart,
    pub squares_x: i32,
    pub cells_x: i32,
    pub squares_z: i32,
    pub cells_z: i32,
    /// Drawn at half size, in cells of the next finer level.
    pub halved: bool,
}

impl PlacedPart {
    /// Cells from the middle, along x.
    pub open spec fn x(self, half_width: int) -> int {
        self.squares_x * square_width_of(half_width) + self.cells_x
    }

    /// Cells from the middle, along z.
    pub open spec fn z(self, half_width: int) -> int {
        self.squares_z * square_width_of(half_width) + self.cells_z
    }

    /// A part at the grid's corner.
    pub open spec fn at_corner(part: GridPart) -> Self {
        PlacedPart {
            part,
            squares_x: (-2) as i32,
            cells_x: 0,
            squares_z: (-2) as i32,
            cells_z: 0,
            halved: false,
        }
    }

    /// The seam, at the corner of the hole.
    pub open spec fn stitch() -> Self {
        PlacedPart {
            part: GridPart::Stitch,
            squares_x: (-1) as i32,
            cells_x: 0,
            squares_z: (-1) as i32,
            cells_z: 0,
            halved: true,
        }
    }

    /// The square in column `x` and row `z` of four by four. The filler lies between the
    /// second and the third of each.
    pub open spec fn square(half_width: int, x: int, z: int) -> Self {
        PlacedPart {
            part: GridPart::Square,
            squares_x: (x - 2) as i32,
            cells_x: (if x >= 2 {
                filler_width_of(half_width)
            } else {
                0
            }) as i32,
            squares_z: (z - 2) as i32,
            cells_z: (if z >= 2 {
                filler_width_of(half_width)
            } else {
                0
            }) as i32,
            halved: false,
        }
    }

    /// `r` is `squares` square widths and `cells` cells.
    pub open spec fn offset_is<S: Scalar>(squares: int, width: int, cells: int, r: S) -> bool {
        exists|n: S, w: S, moved: S, c: S|
            #![trigger scalar::product_is(n, w, moved), scalar::sum_is(moved, c, r)]
            {
                &&& scalar::int_is(squares, n)
                &&& scalar::int_is(width, w)
                &&& scalar::product_is(n, w, moved)
                &&& scalar::int_is(cells, c)
                &&& scalar::sum_is(moved, c, r)
            }
    }

    /// `squares` square widths and `cells` cells.
    fn offset<S: Scalar>(squares: i32, width: i32, cells: i32) -> (r: S)
        ensures
            Self::offset_is(squares as int, width as int, cells as int, r),
    {
        let n = S::of_int(squares as i64);
        let w = S::of_int(width as i64);
        let moved = n.times(w);
        let c = S::of_int(cells as i64);
        let r = moved.plus(c);
        assert(scalar::product_is(n, w, moved) && scalar::sum_is(moved, c, r));
        r
    }

    /// `r` is the part's translation within its grid.
    pub open spec fn translation_is<S: Scalar>(self, half_width: int, r: Vec3<S>) -> bool {
        let width = square_width_of(half_width);
        &&& Self::offset_is(self.squares_x as int, width, self.cells_x as int, r.x)
        &&& scalar::int_is(0, r.y)
        &&& Self::offset_is(self.squares_z as int, width, self.cells_z as int, r.z)
    }

    /// The part's translation within its grid.
    pub fn translation<S: Scalar>(&self, half_width: u32) -> (r: Vec3<S>)
        requires
            half_width <= i32::MAX,
        ensures
            self.translation_is(half_width as int, r),
    {
        let width: i32 = square_width(half_width);
        Vec3 {
            x: Self::offset(self.squares_x, width, self.cells_x),
            y: S::of_int(0),
            z: Self::offset(self.squares_z, width, self.cells_z),
        }
    }
}

/// The cell of four by four is left out, because finer levels fill it.
pub open spec fn in_hole(level: int, i: int) -> bool {
    level != 0 && 1 <= i % 4 <= 2 && 1 <= i / 4 <= 2
}

/// The cells of four by four that a level fills with squares, row by row: all of them in the
/// finest level, and all but the four in the middle in the others.
pub open spec fn square_cells(level: int) -> Seq<int> {
    if level == 0 {
        Seq::new(16, |i: int| i)
    } else {
        seq![0, 1, 2, 3, 4, 7, 8, 11, 12, 13, 14, 15]
    }
}

/// The squares of a level, one in each of its cells.
pub open spec fn squares_of(level: int, half_width: int) -> Seq<PlacedPart> {
    square_cells(level).map_values(|i: int| PlacedPart::square(half_width, i % 4, i / 4))
}

/// The parts of a level besides its squares and its trim.
pub open spec fn middle_of(level: int) -> Seq<PlacedPart> {
    if level == 0 {
        seq![PlacedPart::at_corner(GridPart::Center)]
    } else {
        seq![PlacedPart::at_corner(GridPart::Filler), PlacedPart::stitch()]
    }
}

/// All parts of a level, the trim last.
pub open spec fn parts_of(level: int, half_width: int) -> Seq<PlacedPart> {
    squares_of(level, half_width) + middle_of(level) + seq![
        PlacedPart::at_corner(GridPart::Trim),
    ]
}

/// A grid: one level of a clipmap.
#[derive(Clone, Copy, Debug, PartialEq, Eq, Structural)]
pub struct ClipmapGrid {
    pub level: u32,
}

impl ClipmapGrid {
    /// `r` is the cell size of the grid.
    pub open spec fn scale_is<S: Scalar>(self, base_scale: S, r: S) -> bool {
        exists|factor: S| #[trigger]
            scalar::int_is(pow2(self.level as nat) as int, factor) && scalar::product_is(
                base_scale,
                factor,
                r,
            )
    }

    /// The cell size of the grid.
    pub fn scale<S: Scalar>(&self, base_scale: S) -> (r: S)
        requires
            self.level < 32,
        ensures
            self.scale_is(base_scale, r),
    {
        let factor = S::of_int(level_factor(self.level) as i64);
        let r = base_scale.times(factor);
        assert(scalar::int_is(pow2(self.level as nat) as int, factor));
        r
    }

    /// The parts of the grid, the trim last.
    pub fn parts(&self, half_width: u32) -> (r: Vec<PlacedPart>)
        requires
            half_width <= i32::MAX,
        ensures
            r@ == parts_of(self.level as int, half_width as int),
    {
        let filler: i32 = filler_width(half_width);
        let mut r: Vec<PlacedPart> = Vec::new();
        let mut i: i32 = 0;
        while i < 16
            invariant
                0 <= i <= 16,
                filler == filler_width_of(half_width as int),
                r@ == squares_among(self.level as int, half_width as int, i as nat),
            decreases 16 - i,
        {
            let x: i32 = i % 4;
            let z: i32 = i / 4;
            if !(self.level != 0 && (x == 1 || x == 2) && (z == 1 || z == 2)) {
                r.push(
                    PlacedPart {
                        part: GridPart::Square,
                        squares_x: x - 2,
                        cells_x: if x >= 2 {
                            filler
                        } else {
                            0
                        },
                        squares_z: z - 2,
                        cells_z: if z >= 2 {
                            filler
                        } else {
                            0
                        },
                        halved: false,
                    },
                );
            }
            i = i + 1;
        }
        proof {
            lemma_squares(self.level as int, half_width as int);
        }
        let corner = PlacedPart {
            part: GridPart::Center,
            squares_x: -2,
            cells_x: 0,
            squares_z: -2,
            cells_z: 0,
            halved: false,
        };
        if self.level == 0 {
            r.push(corner);
        } else {
            r.push(PlacedPart { part: GridPart::Filler, ..corner });
            r.push(
                PlacedPart {
                    part: GridPart::Stitch,
                    squares_x: -1,
                    cells_x: 0,
                    squares_z: -1,
                    cells_z: 0,
                    halved: true,
                },
            );
        }
        r.push(PlacedPart { part: GridPart::Trim, ..corner });
        assert(r@ =~= parts_of(self.level as int, half_width as int));
        r
    }

    /// `r` is the box of a part whose flat mesh has the box `base`: the same on the ground,
    /// and upward from `min` to `max` in units of two to the level. That is the height of
    /// the terrain in cells of the grid where the cells of the finest level have size one.
    pub open spec fn displaced<S: Scalar>(self, min: S, max: S, base: Aabb<S>, r: Aabb<S>) -> bool {
        exists|factor: S, sum: S, span: S|
            #![trigger
                scalar::quotient_is(sum, factor, r.center.y),
                scalar::quotient_is(span, factor, r.half_extents.y)
            ]
            {
                &&& scalar::int_is(pow2((1 + self.level) as nat) as int, factor)
                &&& scalar::sum_is(max, min, sum)
                &&& scalar::quotient_is(sum, factor, r.center.y)
                &&& scalar::difference_is(max, min, span)
                &&& scalar::quotient_is(span, factor, r.half_extents.y)
                &&& r.center.x == base.center.x && r.center.z == base.center.z
                &&& r.half_extents.x == base.half_extents.x && r.half_extents.z
                    == base.half_extents.z
            }
    }

    /// The box of a part for culling. Its mesh is flat with the box `base`; the box takes
    /// the heights of the terrain by which the mesh is displaced.
    pub fn displaced_aabb<S: Scalar>(&self, min: S, max: S, base: Aabb<S>) -> (r: Aabb<S>)
        requires
            self.level < 31,
        ensures
            self.displaced(min, max, base, r),
    {
        let factor = S::of_int(level_factor(1 + self.level) as i64);
        let sum = max.plus(min);
        let cy = sum.over(factor);
        let span = max.minus(min);
        let hy = span.over(factor);
        let r = Aabb {
            center: Vec3 { x: base.center.x, y: cy, z: base.center.z },
            half_extents: Vec3 { x: base.half_extents.x, y: hy, z: base.half_extents.z },
        };
        assert(scalar::quotient_is(sum, factor, r.center.y) && scalar::quotient_is(
            span,
            factor,
            r.half_extents.y,
        ));
        r
    }

    /// `w` evaluates the position of the grid that follows `target`.
    pub open spec fn snap_steps<S: Scalar>(
        self,
        half_width: int,
        base_scale: S,
        target: Vec3<S>,
        w: SnapSteps<S>,
    ) -> bool {
        &&& self.scale_is(base_scale, w.scale)
        &&& scalar::int_is(filler_width_of(half_width), w.filler)
        &&& scalar::product_is(w.scale, w.filler, w.snap_scale)
        &&& axis_snap(target.x, w.snap_scale, w.factor_x, w.position.x)
        &&& scalar::int_is(0, w.position.y)
        &&& axis_snap(target.z, w.snap_scale, w.factor_z, w.position.z)
    }

    /// `r` is how the grid follows `target`: it stands on whole multiples of its snap
    /// size, and its trim on the sides that the multiples leave open.
    pub open spec fn follows<S: Scalar>(
        self,
        half_width: int,
        base_scale: S,
        target: Vec3<S>,
        r: GridSnap<S>,
    ) -> bool {
        exists|w: SnapSteps<S>|
            {
                &&& #[trigger] self.snap_steps(half_width, base_scale, target, w)
                &&& r.position == w.position
                &&& trim_offset_is(half_width, w.factor_x as int, r.trim_position.x)
                &&& scalar::int_is(0, r.trim_position.y)
                &&& trim_offset_is(half_width, w.factor_z as int, r.trim_position.z)
                &&& r.trim_turn == QuarterTurn::of_factors(w.factor_x as int, w.factor_z as int)
            }
    }

    /// Snaps the grid and its trim to the target.
    fn snap<S: Scalar>(&self, half_width: u32, base_scale: S, target: Vec3<S>) -> (r: GridSnap<S>)
        requires
            self.level < 32,
            half_width <= i32::MAX,
        ensures
            self.follows(half_width as int, base_scale, target, r),
    {
        let scale = self.scale(base_scale);
        let filler = S::of_int(filler_width(half_width) as i64);
        let snap_scale = scale.times(filler);
        let (factor_x, x) = snap_axis(target.x, snap_scale);
        let (factor_z, z) = snap_axis(target.z, snap_scale);
        let position = Vec3 { x, y: S::of_int(0), z };
        let odd_x: bool = is_odd(factor_x);
        let odd_z: bool = is_odd(factor_z);
        let r = GridSnap {
            position,
            trim_position: Vec3 {
                x: trim_offset(half_width, odd_x),
                y: S::of_int(0),
                z: trim_offset(half_width, odd_z),
            },
            trim_turn: match (odd_x, odd_z) {
                (false, false) => QuarterTurn::Zero,
                (false, true) => QuarterTurn::Left,
                (true, false) => QuarterTurn::Right,
                (true, true) => QuarterTurn::Half,
            },
        };
        proof {
            let w = SnapSteps { scale, filler, snap_scale, factor_x, factor_z, position };
            assert(self.snap_steps(half_width as int, base_scale, target, w));
        }
        r
    }

    /// `r` is where the grid and its trim go, if the clipmap and its target are there.
    pub open spec fn updates<S: Scalar, H>(
        self,
        clipmap: Option<&Clipmap<S, H>>,
        target: Option<Vec3<S>>,
        r: Option<GridSnap<S>>,
    ) -> bool {
        match (clipmap, target) {
            (Some(c), Some(t)) => r is Some && self.follows(
                c.half_width as int,
                c.base_scale,
                t,
                r->0,
            ),
            _ => r is None,
        }
    }

    /// Where the grid and its trim go to follow the clipmap's target. `None` while the
    /// clipmap or its target is gone, which leaves the grid where it is.
    pub fn update<S: Scalar, H>(
        &self,
        clipmap: Option<&Clipmap<S, H>>,
        target: Option<Vec3<S>>,
    ) -> (r: Option<GridSnap<S>>)
        requires
            self.level < 32,
            clipmap matches Some(c) ==> c.half_width <= i32::MAX,
        ensures
            self.updates(clipmap, target, r),
            r is Some <==> clipmap is Some && target is Some,
    {
        match clipmap {
            Some(c) => match target {
                Some(t) => {
                    let snapped = self.snap(c.half_width, c.base_scale, t);
                    assert(self.follows(c.half_width as int, c.base_scale, t, snapped));
                    Some(snapped)
                },
                None => None,
            },
            None => None,
        }
    }
}

/// An axis-aligned box.
#[derive(Clone, Copy, Debug)]
pub struct Aabb<S> {
    pub center: Vec3<S>,
    pub half_extents: Vec3<S>,
}

/// A turn about the vertical axis, by quarters.
#[derive(Clone, Copy, Debug, PartialEq, Eq, Structural)]
pub enum QuarterTurn {
    /// No turn.
    Zero,
    /// A quarter turn, counterclockwise seen from above.
    Left,
    /// A quarter turn, clockwise seen from above.
    Right,
    /// A half turn.
    Half,
}

impl QuarterTurn {
    /// The turn of the trim of a grid that stands on the given multiples of its snap
    /// size.
    pub open spec fn of_factors(x: int, z: int) -> Self {
        if x % 2 == 0 {
            if z % 2 == 0 {
                QuarterTurn::Zero
            } else {
                QuarterTurn::Left
            }
        } else {
            if z % 2 == 0 {
                QuarterTurn::Right
            } else {
                QuarterTurn::Half
            }
        }
    }

    /// Where the turn takes the point `(x, z)` of the ground. Counterclockwise from above
    /// takes the x axis to the negative z axis.
    pub open spec fn turned(self, x: int, z: int) -> (int, int) {
        match self {
            QuarterTurn::Zero => (x, z),
            QuarterTurn::Left => (z, -x),
            QuarterTurn::Right => (-z, x),
            QuarterTurn::Half => (-x, -z),
        }
    }
}

/// How a grid follows its target.
#[derive(Clone, Copy, Debug)]
pub struct GridSnap<S> {
    pub position: Vec3<S>,
    /// Within the grid, in cells.
    pub trim_position: Vec3<S>,
    pub trim_turn: QuarterTurn,
}

/// The steps of a snap.
pub ghost struct SnapSteps<S> {
    pub scale: S,
    pub filler: S,
    pub snap_scale: S,
    pub factor_x: i32,
    pub factor_z: i32,
    pub position: Vec3<S>,
}

/// Along one axis, `factor` is how often the snap size goes into `coord`, rounded down,
/// and `position` is that many snap sizes.
pub open spec fn axis_snap<S: Scalar>(coord: S, snap_scale: S, factor: i32, position: S) -> bool {
    exists|ratio: S, floor: S, whole: S|
        #![trigger scalar::floor_is(ratio, floor), scalar::product_is(whole, snap_scale, position)]
        {
            &&& scalar::quotient_is(coord, snap_scale, ratio)
            &&& scalar::floor_is(ratio, floor)
            &&& scalar::whole32_is(floor, factor)
            &&& scalar::int_is(factor as int, whole)
            &&& scalar::product_is(whole, snap_scale, position)
        }
}

/// Snaps one coordinate.
fn snap_axis<S: Scalar>(coord: S, snap_scale: S) -> (r: (i32, S))
    ensures
        axis_snap(coord, snap_scale, r.0, r.1),
{
    let ratio = coord.over(snap_scale);
    let floor = ratio.floored();
    let factor: i32 = floor.whole32();
    let whole = S::of_int(factor as i64);
    let position = whole.times(snap_scale);
    assert(scalar::floor_is(ratio, floor) && scalar::product_is(whole, snap_scale, position));
    (factor, position)
}

/// Whether a number is odd.
fn is_odd(n: i32) -> (r: bool)
    ensures
        r == (n as int % 2 == 1),
{
    let low: i32 = n & 1;
    assert(n & 1 == 0 || n & 1 == 1) by (bit_vector);
    assert((n & 1 == 1) == (n % 2 == 1 || n % 2 == -1)) by (bit_vector);
    low == 1
}

/// Along one axis, the cell of the grid at which its trim is anchored: its low end, or
/// its high end where the grid stands on an odd multiple of its snap size.
pub open spec fn trim_anchor(half_width: int, factor: int) -> int {
    if factor % 2 == 0 {
        filler_width_of(half_width) - half_width
    } else {
        half_width
    }
}

/// Along one axis, how far the square that the trim completes reaches from its anchor.
pub open spec fn trim_reach(half_width: int, factor: int) -> int {
    if factor % 2 == 0 {
        2 * half_width
    } else {
        -(2 * half_width)
    }
}

/// `r` is where the trim is anchored.
pub open spec fn trim_offset_is<S: Scalar>(half_width: int, factor: int, r: S) -> bool {
    if factor % 2 == 0 {
        exists|filler: S, half: S| #[trigger]
            scalar::difference_is(filler, half, r) && scalar::int_is(
                filler_width_of(half_width),
                filler,
            ) && scalar::int_is(half_width, half)
    } else {
        scalar::int_is(half_width, r)
    }
}

/// Where the trim is anchored along one axis.
fn trim_offset<S: Scalar>(half_width: u32, odd: bool) -> (r: S)
    requires
        half_width <= i32::MAX,
    ensures
        forall|factor: int|
            (factor % 2 == 1) == odd ==> #[trigger] trim_offset_is(half_width as int, factor, r),
{
    let half = S::of_int(half_width as i64);
    if odd {
        half
    } else {
        let filler = S::of_int(filler_width(half_width) as i64);
        let r = filler.minus(half);
        assert(scalar::difference_is(filler, half, r));
        r
    }
}

/// Two stretches of the same width, from `a` and from `b`, share no cell.
pub open spec fn apart(a: int, b: int, width: int) -> bool {
    a + width <= b || b + width <= a
}

/// The squares among the first `n` cells of four by four.
spec fn squares_among(level: int, half_width: int, n: nat) -> Seq<PlacedPart>
    decreases n,
{
    if n == 0 {
        seq![]
    } else {
        let before = squares_among(level, half_width, (n - 1) as nat);
        if in_hole(level, n - 1) {
            before
        } else {
            before.push(PlacedPart::square(half_width, (n - 1) % 4, (n - 1) / 4))
        }
    }
}

/// The squares among all cells are those of the level.
proof fn lemma_squares(level: int, half_width: int)
    ensures
        squares_among(level, half_width, 16) == squares_of(level, half_width),
{
    reveal_with_fuel(squares_among, 17);
    assert(squares_among(level, half_width, 16) =~= squares_of(level, half_width));
}

/// A level fills every cell of four by four but those in its hole, and each once.
pub proof fn law_squares_fill_all_but_the_hole(level: int, cell: int)
    ensures
        square_cells(level).contains(cell) <==> 0 <= cell < 16 && !in_hole(level, cell),
        square_cells(level).no_duplicates(),
{
    let cells = square_cells(level);
    assert forall|i: int| 0 <= i < cells.len() implies 0 <= #[trigger] cells[i] < 16 && !in_hole(
        level,
        cells[i],
    ) && i == cell_rank(level, cells[i]) by {
        lemma_square_cell(level, i);
    }
    if 0 <= cell < 16 && !in_hole(level, cell) {
        assert(cells[cell_rank(level, cell)] == cell) by {
            if level != 0 {
                assert(cells[0] == 0 && cells[1] == 1 && cells[2] == 2 && cells[3] == 3);
                assert(cells[4] == 4 && cells[5] == 7 && cells[6] == 8 && cells[7] == 11);
                assert(cells[8] == 12 && cells[9] == 13 && cells[10] == 14 && cells[11] == 15);
            }
        }
    }
}

/// A level has sixteen squares, its center and its trim if it is the finest, and twelve
/// squares, its filler, its stitch and its trim if it is not.
pub proof fn law_part_counts(level: int, half_width: int)
    ensures
        level == 0 ==> parts_of(level, half_width).len() == 18,
        level != 0 ==> parts_of(level, half_width).len() == 15,
        parts_of(level, half_width).last() == PlacedPart::at_corner(GridPart::Trim),
{
}

/// The squares of a level share no cell, and lie between its two ends.
pub proof fn law_squares_never_overlap(level: int, half_width: int, i: int, j: int)
    requires
        0 < half_width <= i32::MAX,
        0 <= i < squares_of(level, half_width).len(),
        0 <= j < squares_of(level, half_width).len(),
    ensures
        ({
            let p = squares_of(level, half_width)[i];
            let q = squares_of(level, half_width)[j];
            let width = square_width_of(half_width);
            let low = filler_width_of(half_width) - half_width;
            &&& i != j ==> apart(p.x(half_width), q.x(half_width), width) || apart(
                p.z(half_width),
                q.z(half_width),
                width,
            )
            &&& low <= p.x(half_width) && p.x(half_width) + width <= half_width
            &&& low <= p.z(half_width) && p.z(half_width) + width <= half_width
        }),
{
    lemma_square_cell(level, i);
    lemma_square_cell(level, j);
    let a = square_cells(level)[i];
    let b = square_cells(level)[j];
    lemma_square_place(half_width, a);
    lemma_square_place(half_width, b);
    lemma_widths(half_width);
    assert(squares_of(level, half_width)[i] == PlacedPart::square(half_width, a % 4, a / 4));
    assert(squares_of(level, half_width)[j] == PlacedPart::square(half_width, b % 4, b / 4));
    assert(a == 4 * (a / 4) + a % 4 && b == 4 * (b / 4) + b % 4);
}

/// The squares and the filler make up the grid's width.
pub(crate) proof fn lemma_widths(half_width: int)
    requires
        0 < half_width,
    ensures
        2 * square_width_of(half_width) + filler_width_of(half_width) == half_width,
        0 <= square_width_of(half_width),
        1 <= filler_width_of(half_width) <= 2,
{
}

/// A cell that a level fills tells its place among them, and is not in the level's hole.
pub(crate) proof fn lemma_square_cell(level: int, i: int)
    requires
        0 <= i < square_cells(level).len(),
    ensures
        0 <= square_cells(level)[i] < 16,
        !in_hole(level, square_cells(level)[i]),
        i == cell_rank(level, square_cells(level)[i]),
{
    if level != 0 {
        let cells = square_cells(level);
        assert(cells[0] == 0 && cells[1] == 1 && cells[2] == 2 && cells[3] == 3);
        assert(cells[4] == 4 && cells[5] == 7 && cells[6] == 8 && cells[7] == 11);
        assert(cells[8] == 12 && cells[9] == 13 && cells[10] == 14 && cells[11] == 15);
        assert(i == 0 || i == 1 || i == 2 || i == 3 || i == 4 || i == 5 || i == 6 || i == 7 || i == 8
            || i == 9 || i == 10 || i == 11);
    }
}

/// How many cells before `cell` a level fills.
pub(crate) open spec fn cell_rank(level: int, cell: int) -> int {
    if level == 0 || cell <= 4 {
        cell
    } else if cell <= 8 {
        cell - 2
    } else {
        cell - 4
    }
}

/// Where the low end of a square's cell stands along one axis.
pub open spec fn column(half_width: int, c: int) -> int {
    if c == 0 {
        -(2 * square_width_of(half_width))
    } else if c == 1 {
        -square_width_of(half_width)
    } else if c == 2 {
        filler_width_of(half_width)
    } else {
        square_width_of(half_width) + filler_width_of(half_width)
    }
}

/// The square of a cell stands in the cell's column and row.
pub(crate) proof fn lemma_square_place(half_width: int, i: int)
    requires
        0 < half_width <= i32::MAX,
        0 <= i < 16,
    ensures
        PlacedPart::square(half_width, i % 4, i / 4).x(half_width) == column(half_width, i % 4),
        PlacedPart::square(half_width, i % 4, i / 4).z(half_width) == column(half_width, i / 4),
{
    let w = square_width_of(half_width);
    let p = PlacedPart::square(half_width, i % 4, i / 4);
    assert(p.squares_x * w == (i % 4 - 2) * w);
    assert(p.squares_z * w == (i / 4 - 2) * w);
    assert((-2) * w == -(2 * w) && (-1) * w == -w && 0 * w == 0 && 1 * w == w) by (nonlinear_arith);
}

/// The squares of every level but the finest leave its hole free.
pub proof fn law_squares_spare_the_hole(level: int, half_width: int, i: int)
    requires
        level != 0,
        0 < half_width <= i32::MAX,
        0 <= i < squares_of(level, half_width).len(),
    ensures
        ({
            let p = squares_of(level, half_width)[i];
            let width = square_width_of(half_width);
            let low = -square_width_of(half_width);
            let high = square_width_of(half_width) + filler_width_of(half_width);
            ||| p.x(half_width) + width <= low
            ||| high <= p.x(half_width)
            ||| p.z(half_width) + width <= low
            ||| high <= p.z(half_width)
        }),
{
    lemma_square_cell(level, i);
    let a = square_cells(level)[i];
    lemma_square_place(half_width, a);
    lemma_widths(half_width);
    assert(squares_of(level, half_width)[i] == PlacedPart::square(half_width, a % 4, a / 4));
}

/// There are no gaps between levels. Where a level stands on `factor` of its snap sizes,
/// the next coarser one stands on half as many of its own, which are twice as large. The
/// square that the finer level and its trim make together then is the hole of the
/// coarser one, along each axis, in cells of the finer level.
pub proof fn law_no_gap_between_levels(half_width: int, factor: int)
    requires
        0 < half_width,
    ensures
        ({
            let filler = filler_width_of(half_width);
            let width = square_width_of(half_width);
            let anchor = trim_anchor(half_width, factor);
            let reach = trim_reach(half_width, factor);
            let low = if reach > 0 {
                anchor
            } else {
                anchor + reach
            };
            let high = if reach > 0 {
                anchor + reach
            } else {
                anchor
            };
            &&& factor * filler + low == 2 * (factor / 2 * filler - width)
            &&& factor * filler + high == 2 * (factor / 2 * filler + width + filler)
        }),
{
    let filler = filler_width_of(half_width);
    let g = factor / 2;
    if factor % 2 == 0 {
        assert(factor * filler == 2 * (g * filler)) by (nonlinear_arith)
            requires
                factor == 2 * g,
        ;
    } else {
        assert(factor * filler == 2 * (g * filler) + filler) by (nonlinear_arith)
            requires
                factor == 2 * g + 1,
        ;
    }
}

/// The trim's turn makes it face the way it has to reach, along both axes.
pub proof fn law_trim_faces_its_square(half_width: int, factor_x: int, factor_z: int)
    ensures
        QuarterTurn::of_factors(factor_x, factor_z).turned(2 * half_width, 2 * half_width) == (
            trim_reach(half_width, factor_x),
            trim_reach(half_width, factor_z),
        ),
{
}

/// The anchor of the trim before any turn is the corner where the trim is first placed.
pub proof fn law_trim_starts_at_its_anchor(half_width: int)
    requires
        0 < half_width <= i32::MAX,
    ensures
        PlacedPart::at_corner(GridPart::Trim).x(half_width) == trim_anchor(half_width, 0),
        PlacedPart::at_corner(GridPart::Trim).z(half_width) == trim_anchor(half_width, 0),
{
    lemma_widths(half_width);
    let w = square_width_of(half_width);
    assert(PlacedPart::at_corner(GridPart::Trim).squares_x == -2);
    assert((-2) * w == -(2 * w)) by (nonlinear_arith);
}

impl ClipmapGrid {
    /// Where arithmetic is exact, the cells of the finest level have the base size, and
    /// the cells of each level are twice as large as those of the next finer one.
    pub proof fn law_levels_double<S: Scalar>(
        self,
        val: spec_fn(S) -> real,
        base_scale: S,
        r: S,
        coarser: S,
    )
        requires
            scalar::exact(val),
            self.level + 1 < 32,
            self.scale_is(base_scale, r),
            (ClipmapGrid { level: (self.level + 1) as u32 }).scale_is(base_scale, coarser),
        ensures
            self.level == 0 ==> val(r) == val(base_scale),
            val(coarser) == 2 as real * val(r),
    {
        self.lemma_scale_value(val, base_scale, r);
        let next = ClipmapGrid { level: (self.level + 1) as u32 };
        next.lemma_scale_value(val, base_scale, coarser);
        vstd::arithmetic::power2::lemma_pow2_unfold((self.level + 1) as nat);
        let p = pow2(self.level as nat) as real;
        assert(pow2((self.level + 1) as nat) as real == 2 as real * p);
        let b = val(base_scale);
        assert(b * (2 as real * p) == 2 as real * (b * p)) by (nonlinear_arith);
        if self.level == 0 {
            vstd::arithmetic::power2::lemma2_to64();
            assert(b * 1 as real == b) by (nonlinear_arith);
        }
    }

    /// The cell size of a grid, where arithmetic is exact.
    pub(crate) proof fn lemma_scale_value<S: Scalar>(self, val: spec_fn(S) -> real, base_scale: S, r: S)
        requires
            scalar::exact(val),
            self.level < 32,
            self.scale_is(base_scale, r),
        ensures
            val(r) == val(base_scale) * pow2(self.level as nat) as real,
    {
        vstd::bits::lemma_u32_pow2_no_overflow(self.level as nat);
        let factor = choose|factor: S| #[trigger]
            scalar::int_is(pow2(self.level as nat) as int, factor) && scalar::product_is(
                base_scale,
                factor,
                r,
            );
        assert(val(factor) == pow2(self.level as nat) as real);
    }

    /// Where arithmetic is exact, the box of a part, drawn at the grid's scale, reaches from
    /// the lowest height of the terrain to the highest, both times the base size: just these
    /// heights where the base size is one. On the ground the box stays as it is. A part that
    /// is drawn at half size within its grid has a box half as tall.
    pub proof fn law_box_reaches_both_heights<S: Scalar>(
        self,
        val: spec_fn(S) -> real,
        min: S,
        max: S,
        base: Aabb<S>,
        r: Aabb<S>,
        base_scale: S,
        scale: S,
    )
        requires
            scalar::exact(val),
            self.level < 31,
            self.displaced(min, max, base, r),
            self.scale_is(base_scale, scale),
        ensures
            (val(r.center.y) - val(r.half_extents.y)) * val(scale) == val(base_scale) * val(min),
            (val(r.center.y) + val(r.half_extents.y)) * val(scale) == val(base_scale) * val(max),
            val(base_scale) == 1 as real ==> {
                &&& (val(r.center.y) - val(r.half_extents.y)) * val(scale) == val(min)
                &&& (val(r.center.y) + val(r.half_extents.y)) * val(scale) == val(max)
            },
            r.center.x == base.center.x,
            r.center.z == base.center.z,
            r.half_extents.x == base.half_extents.x,
            r.half_extents.z == base.half_extents.z,
    {
        self.lemma_box_in_units(val, min, max, base, r);
        self.lemma_scale_value(val, base_scale, scale);
        let p = pow2(self.level as nat) as real;
        let (lo, hi) = (val(min), val(max));
        let (c, h) = (val(r.center.y), val(r.half_extents.y));
        let (b, g) = (val(base_scale), val(scale));
        assert((c - h) * g == b * lo && (c + h) * g == b * hi) by (nonlinear_arith)
            requires
                g == b * p,
                (c - h) * p == lo,
                (c + h) * p == hi,
        ;
        assert(1 as real * lo == lo && 1 as real * hi == hi) by (nonlinear_arith);
    }

    /// Where arithmetic is exact, a box reaches from the lowest height to the highest in units
    /// of two to the level.
    pub(crate) proof fn lemma_box_in_units<S: Scalar>(
        self,
        val: spec_fn(S) -> real,
        min: S,
        max: S,
        base: Aabb<S>,
        r: Aabb<S>,
    )
        requires
            scalar::exact(val),
            self.level < 31,
            self.displaced(min, max, base, r),
        ensures
            ({
                let unit = pow2(self.level as nat) as real;
                &&& (val(r.center.y) - val(r.half_extents.y)) * unit == val(min)
                &&& (val(r.center.y) + val(r.half_extents.y)) * unit == val(max)
            }),
            r.center.x == base.center.x && r.center.z == base.center.z,
            r.half_extents.x == base.half_extents.x && r.half_extents.z == base.half_extents.z,
    {
        let (factor, sum, span) = choose|factor: S, sum: S, span: S|
            #![trigger
                scalar::quotient_is(sum, factor, r.center.y),
                scalar::quotient_is(span, factor, r.half_extents.y)
            ]
            {
                &&& scalar::int_is(pow2((1 + self.level) as nat) as int, factor)
                &&& scalar::sum_is(max, min, sum)
                &&& scalar::quotient_is(sum, factor, r.center.y)
                &&& scalar::difference_is(max, min, span)
                &&& scalar::quotient_is(span, factor, r.half_extents.y)
                &&& r.center.x == base.center.x && r.center.z == base.center.z
                &&& r.half_extents.x == base.half_extents.x && r.half_extents.z
                    == base.half_extents.z
            };
        vstd::bits::lemma_u32_pow2_no_overflow((1 + self.level) as nat);
        vstd::arithmetic::power2::lemma_pow2_pos(self.level as nat);
        vstd::arithmetic::power2::lemma_pow2_unfold((1 + self.level) as nat);
        let p = pow2(self.level as nat) as real;
        let double = pow2((1 + self.level) as nat) as real;
        let lo = val(min);
        let hi = val(max);
        let c = val(r.center.y);
        let h = val(r.half_extents.y);
        assert(val(factor) == double);
        assert(double == 2 as real * p);
        assert((c - h) * p == lo && (c + h) * p == hi) by (nonlinear_arith)
            requires
                double == 2 as real * p,
                c * double == hi + lo,
                h * double == hi - lo,
        ;
    }

    /// The distance between the positions that the grid can take along one axis, for
    /// cells of size `base` in the finest level.
    pub open spec fn snap_size(self, half_width: int, base: real) -> real {
        base * pow2(self.level as nat) as real * filler_width_of(half_width) as real
    }

    /// Where arithmetic is exact, a grid snaps by its snap size.
    proof fn lemma_snap_size<S: Scalar>(
        self,
        val: spec_fn(S) -> real,
        half_width: int,
        base_scale: S,
        target: Vec3<S>,
        w: SnapSteps<S>,
    )
        requires
            scalar::exact(val),
            self.level < 32,
            val(base_scale) > 0 as real,
            self.snap_steps(half_width, base_scale, target, w),
        ensures
            val(w.snap_scale) == self.snap_size(half_width, val(base_scale)),
            val(w.snap_scale) > 0 as real,
    {
        self.lemma_scale_value(val, base_scale, w.scale);
        vstd::arithmetic::power2::lemma_pow2_pos(self.level as nat);
        let b = val(base_scale);
        let p = pow2(self.level as nat) as real;
        let f = filler_width_of(half_width) as real;
        assert(val(w.filler) == f);
        assert(b * p * f > 0 as real) by (nonlinear_arith)
            requires
                b > 0 as real,
                p > 0 as real,
                f > 0 as real,
        ;
    }

    /// A grid goes where it follows the target of its clipmap, by the clipmap's own width and
    /// base size, as long as the clipmap and the target are there, and stays otherwise.
    pub proof fn law_grid_follows_its_clipmap<S: Scalar, H>(
        self,
        clipmap: Option<&Clipmap<S, H>>,
        target: Option<Vec3<S>>,
        r: Option<GridSnap<S>>,
    )
        requires
            self.updates(clipmap, target, r),
        ensures
            r is Some <==> clipmap is Some && target is Some,
            r is Some ==> self.follows(
                (clipmap->0).half_width as int,
                (clipmap->0).base_scale,
                target->0,
                r->0,
            ),
    {
    }

    /// Where arithmetic is exact, the grid stands on the ground, along each axis at the
    /// largest whole multiple of its snap size that is not above the target, `f.0` times
    /// along x and `f.1` times along z.
    pub proof fn law_grid_stands_below_its_target<S: Scalar>(
        self,
        val: spec_fn(S) -> real,
        half_width: int,
        base_scale: S,
        target: Vec3<S>,
        r: GridSnap<S>,
    ) -> (f: (int, int))
        requires
            scalar::exact(val),
            self.level < 32,
            val(base_scale) > 0 as real,
            self.follows(half_width, base_scale, target, r),
            countable(self.snap_size(half_width, val(base_scale)), val(target.x)),
            countable(self.snap_size(half_width, val(base_scale)), val(target.z)),
        ensures
            ({
                let size = self.snap_size(half_width, val(base_scale));
                &&& size > 0 as real
                &&& val(r.position.x) == f.0 as real * size
                &&& val(r.position.x) <= val(target.x)
                &&& val(target.x) < val(r.position.x) + size
                &&& val(r.position.y) == 0 as real
                &&& val(r.position.z) == f.1 as real * size
                &&& val(r.position.z) <= val(target.z)
                &&& val(target.z) < val(r.position.z) + size
            }),
    {
        let w = self.follow_steps(half_width, base_scale, target, r);
        self.lemma_snap_size(val, half_width, base_scale, target, w);
        let size = self.snap_size(half_width, val(base_scale));
        let a = lemma_axis_floor(val, size, target.x, w.snap_scale, w.factor_x, w.position.x);
        let b = lemma_axis_floor(val, size, target.z, w.snap_scale, w.factor_z, w.position.z);
        lemma_multiple_below(size, a, w.factor_x as int);
        lemma_multiple_below(size, b, w.factor_z as int);
        (w.factor_x as int, w.factor_z as int)
    }

    /// Where arithmetic is exact, the grid stands along each axis at the largest whole
    /// multiple of its snap size that is not above the target, `f.0` times along x and `f.1`
    /// times along z. The snap size is one cell where the half width is odd, and two where it
    /// is even. Where the multiple is even, the trim stands at the low end of the grid, and
    /// where it is odd, at the high end. It is turned to face inward: not at
    /// all from the two low ends, to the left from the high end along z, to the right from
    /// the one along x, and around from both.
    pub proof fn law_grid_and_trim_stand<S: Scalar>(
        self,
        val: spec_fn(S) -> real,
        half_width: int,
        base_scale: S,
        target: Vec3<S>,
        r: GridSnap<S>,
    ) -> (f: (int, int))
        requires
            scalar::exact(val),
            self.level < 32,
            0 <= half_width <= i32::MAX,
            val(base_scale) > 0 as real,
            self.follows(half_width, base_scale, target, r),
            countable(self.snap_size(half_width, val(base_scale)), val(target.x)),
            countable(self.snap_size(half_width, val(base_scale)), val(target.z)),
        ensures
            ({
                let size = val(base_scale) * pow2(self.level as nat) as real * (2 - half_width
                    % 2) as real;
                &&& size > 0 as real
                &&& val(r.position.x) == f.0 as real * size
                &&& val(r.position.x) <= val(target.x)
                &&& val(target.x) < val(r.position.x) + size
                &&& val(r.position.y) == 0 as real
                &&& val(r.position.z) == f.1 as real * size
                &&& val(r.position.z) <= val(target.z)
                &&& val(target.z) < val(r.position.z) + size
            }),
            ({
                let low = (if half_width % 2 == 0 {
                    2 - half_width
                } else {
                    1 - half_width
                }) as real;
                let high = half_width as real;
                &&& val(r.trim_position.x) == if f.0 % 2 == 0 {
                    low
                } else {
                    high
                }
                &&& val(r.trim_position.y) == 0 as real
                &&& val(r.trim_position.z) == if f.1 % 2 == 0 {
                    low
                } else {
                    high
                }
            }),
            r.trim_turn == if f.0 % 2 == 0 {
                if f.1 % 2 == 0 {
                    QuarterTurn::Zero
                } else {
                    QuarterTurn::Left
                }
            } else {
                if f.1 % 2 == 0 {
                    QuarterTurn::Right
                } else {
                    QuarterTurn::Half
                }
            },
    {
        let w = self.follow_steps(half_width, base_scale, target, r);
        self.lemma_snap_size(val, half_width, base_scale, target, w);
        let size = self.snap_size(half_width, val(base_scale));
        let a = lemma_axis_floor(val, size, target.x, w.snap_scale, w.factor_x, w.position.x);
        let b = lemma_axis_floor(val, size, target.z, w.snap_scale, w.factor_z, w.position.z);
        lemma_multiple_below(size, a, w.factor_x as int);
        lemma_multiple_below(size, b, w.factor_z as int);
        lemma_trim_value(val, half_width, w.factor_x as int, r.trim_position.x);
        lemma_trim_value(val, half_width, w.factor_z as int, r.trim_position.z);
        (w.factor_x as int, w.factor_z as int)
    }

    /// Targets over which the grid counts the same snap sizes leave it and its trim the same,
    /// at any height, where the scalar's operations give one result each.
    pub proof fn law_same_counts_same_place<S: Scalar>(
        self,
        half_width: int,
        base_scale: S,
        a: Vec3<S>,
        b: Vec3<S>,
        v: SnapSteps<S>,
        w: SnapSteps<S>,
        r: GridSnap<S>,
        q: GridSnap<S>,
    )
        requires
            scalar::repeatable::<S>(),
            self.follows(half_width, base_scale, a, r),
            self.follows(half_width, base_scale, b, q),
            self.snap_steps(half_width, base_scale, a, v),
            self.snap_steps(half_width, base_scale, b, w),
            v.factor_x == w.factor_x,
            v.factor_z == w.factor_z,
        ensures
            r == q,
    {
        let m = self.follow_steps(half_width, base_scale, a, r);
        let n = self.follow_steps(half_width, base_scale, b, q);
        assert(m.snap_scale == v.snap_scale && n.snap_scale == w.snap_scale);
        assert(m.factor_x == v.factor_x && m.factor_z == v.factor_z);
        assert(n.factor_x == w.factor_x && n.factor_z == w.factor_z);
        assert(m.position == n.position);
        assert(r.trim_position == q.trim_position);
    }

    /// Where arithmetic is exact, moving the target by whole double snap sizes along the
    /// ground, and by any amount upward, moves the grid as far along the ground and
    /// leaves its trim as it is.
    pub proof fn law_grid_moves_with_target<S: Scalar>(
        self,
        val: spec_fn(S) -> real,
        half_width: int,
        base_scale: S,
        target: Vec3<S>,
        moved: Vec3<S>,
        i: int,
        j: int,
        r: GridSnap<S>,
        q: GridSnap<S>,
    )
        requires
            scalar::exact(val),
            self.level < 32,
            0 <= half_width <= i32::MAX,
            val(base_scale) > 0 as real,
            self.follows(half_width, base_scale, target, r),
            self.follows(half_width, base_scale, moved, q),
            ({
                let size = self.snap_size(half_width, val(base_scale));
                &&& val(moved.x) == val(target.x) + (2 * i) as real * size
                &&& val(moved.z) == val(target.z) + (2 * j) as real * size
                &&& countable(size, val(target.x)) && countable(size, val(moved.x))
                &&& countable(size, val(target.z)) && countable(size, val(moved.z))
            }),
        ensures
            ({
                let size = self.snap_size(half_width, val(base_scale));
                &&& val(q.position.x) == val(r.position.x) + (2 * i) as real * size
                &&& val(q.position.y) == val(r.position.y)
                &&& val(q.position.z) == val(r.position.z) + (2 * j) as real * size
            }),
            val(q.trim_position.x) == val(r.trim_position.x),
            val(q.trim_position.y) == val(r.trim_position.y),
            val(q.trim_position.z) == val(r.trim_position.z),
            q.trim_turn == r.trim_turn,
    {
        let v = self.follow_steps(half_width, base_scale, target, r);
        let w = self.follow_steps(half_width, base_scale, moved, q);
        self.lemma_snap_size(val, half_width, base_scale, target, v);
        self.lemma_snap_size(val, half_width, base_scale, moved, w);
        let size = self.snap_size(half_width, val(base_scale));
        let a = lemma_axis_floor(val, size, target.x, v.snap_scale, v.factor_x, v.position.x);
        let b = lemma_axis_floor(val, size, moved.x, w.snap_scale, w.factor_x, w.position.x);
        lemma_axis_moves(size, a, b, 2 * i, v.factor_x as int, w.factor_x as int);
        let a = lemma_axis_floor(val, size, target.z, v.snap_scale, v.factor_z, v.position.z);
        let b = lemma_axis_floor(val, size, moved.z, w.snap_scale, w.factor_z, w.position.z);
        lemma_axis_moves(size, a, b, 2 * j, v.factor_z as int, w.factor_z as int);
        lemma_trim_keeps(val, half_width, v.factor_x as int, i, r.trim_position.x, q.trim_position.x);
        lemma_trim_keeps(val, half_width, v.factor_z as int, j, r.trim_position.z, q.trim_position.z);
    }

    /// Where arithmetic is exact and gives one result each, targets over the same cell of
    /// the snap grid, cell `i` along x and `j` along z, leave the grid and its trim the
    /// same, at any height.
    pub proof fn law_grid_rests_within_a_cell<S: Scalar>(
        self,
        val: spec_fn(S) -> real,
        half_width: int,
        base_scale: S,
        a: Vec3<S>,
        b: Vec3<S>,
        i: int,
        j: int,
        r: GridSnap<S>,
        q: GridSnap<S>,
    )
        requires
            scalar::exact(val),
            scalar::repeatable::<S>(),
            self.level < 32,
            0 <= half_width <= i32::MAX,
            val(base_scale) > 0 as real,
            self.follows(half_width, base_scale, a, r),
            self.follows(half_width, base_scale, b, q),
            ({
                let size = self.snap_size(half_width, val(base_scale));
                &&& in_cell(size, i, val(a.x)) && in_cell(size, i, val(b.x))
                &&& in_cell(size, j, val(a.z)) && in_cell(size, j, val(b.z))
            }),
        ensures
            r == q,
    {
        let v = self.follow_steps(half_width, base_scale, a, r);
        let w = self.follow_steps(half_width, base_scale, b, q);
        self.lemma_snap_size(val, half_width, base_scale, a, v);
        self.lemma_snap_size(val, half_width, base_scale, b, w);
        let size = self.snap_size(half_width, val(base_scale));
        assert(v.snap_scale == w.snap_scale);
        lemma_axis_rests(val, size, i, a.x, v.snap_scale, v.factor_x, v.position.x);
        lemma_axis_rests(val, size, i, b.x, v.snap_scale, w.factor_x, w.position.x);
        lemma_axis_rests(val, size, j, a.z, v.snap_scale, v.factor_z, v.position.z);
        lemma_axis_rests(val, size, j, b.z, v.snap_scale, w.factor_z, w.position.z);
        self.law_same_counts_same_place(half_width, base_scale, a, b, v, w, r, q);
    }

    /// There are no gaps between levels that follow one target. Where arithmetic is exact,
    /// the grid stands on whole numbers of its snap size, `f.0` along x and `f.1` along z,
    /// and the next coarser grid on half as many of its own, rounded down. Along each axis
    /// the trim of the finer grid is anchored at one edge of the hole in the coarser grid,
    /// and the square that it completes reaches to the other edge, the way its turn faces.
    pub proof fn law_levels_meet<S: Scalar>(
        self,
        val: spec_fn(S) -> real,
        half_width: int,
        base_scale: S,
        target: Vec3<S>,
        r: GridSnap<S>,
        coarser: GridSnap<S>,
    ) -> (f: (int, int))
        requires
            scalar::exact(val),
            self.level + 1 < 32,
            0 < half_width <= i32::MAX,
            val(base_scale) > 0 as real,
            self.follows(half_width, base_scale, target, r),
            (ClipmapGrid { level: (self.level + 1) as u32 }).follows(
                half_width,
                base_scale,
                target,
                coarser,
            ),
            countable(self.snap_size(half_width, val(base_scale)), val(target.x)),
            countable(self.snap_size(half_width, val(base_scale)), val(target.z)),
        ensures
            ({
                let cell = val(base_scale) * pow2(self.level as nat) as real;
                &&& fills_hole(
                    half_width,
                    cell,
                    f.0,
                    val(r.position.x),
                    val(r.trim_position.x),
                    val(coarser.position.x),
                )
                &&& fills_hole(
                    half_width,
                    cell,
                    f.1,
                    val(r.position.z),
                    val(r.trim_position.z),
                    val(coarser.position.z),
                )
            }),
            r.trim_turn == QuarterTurn::of_factors(f.0, f.1),
            r.trim_turn.turned(2 * half_width, 2 * half_width) == (
                trim_reach(half_width, f.0),
                trim_reach(half_width, f.1),
            ),
    {
        let next = ClipmapGrid { level: (self.level + 1) as u32 };
        let v = self.follow_steps(half_width, base_scale, target, r);
        let w = next.follow_steps(half_width, base_scale, target, coarser);
        self.lemma_snap_size(val, half_width, base_scale, target, v);
        next.lemma_snap_size(val, half_width, base_scale, target, w);
        let b = val(base_scale);
        let p = pow2(self.level as nat) as real;
        let filler = filler_width_of(half_width) as real;
        let cell = b * p;
        let size = self.snap_size(half_width, b);
        let double = next.snap_size(half_width, b);
        vstd::arithmetic::power2::lemma_pow2_unfold((self.level + 1) as nat);
        let twice = pow2((self.level + 1) as nat) as real;
        assert(twice == 2 as real * p);
        assert(b * twice * filler == 2 as real * (b * p * filler)) by (nonlinear_arith)
            requires
                twice == 2 as real * p,
        ;
        assert(double == 2 as real * size);
        vstd::arithmetic::power2::lemma_pow2_pos(self.level as nat);
        assert(b * p > 0 as real) by (nonlinear_arith)
            requires
                b > 0 as real,
                p > 0 as real,
        ;
        lemma_axis_meets(
            val,
            half_width,
            cell,
            target.x,
            v.snap_scale,
            v.factor_x,
            v.position.x,
            r.trim_position.x,
            w.snap_scale,
            w.factor_x,
            w.position.x,
        );
        lemma_axis_meets(
            val,
            half_width,
            cell,
            target.z,
            v.snap_scale,
            v.factor_z,
            v.position.z,
            r.trim_position.z,
            w.snap_scale,
            w.factor_z,
            w.position.z,
        );
        law_trim_faces_its_square(half_width, v.factor_x as int, v.factor_z as int);
        (v.factor_x as int, v.factor_z as int)
    }

    /// The steps of a snap.
    proof fn follow_steps<S: Scalar>(
        self,
        half_width: int,
        base_scale: S,
        target: Vec3<S>,
        r: GridSnap<S>,
    ) -> (w: SnapSteps<S>)
        requires
            self.follows(half_width, base_scale, target, r),
        ensures
            self.snap_steps(half_width, base_scale, target, w),
            r.position == w.position,
            trim_offset_is(half_width, w.factor_x as int, r.trim_position.x),
            scalar::int_is(0, r.trim_position.y),
            trim_offset_is(half_width, w.factor_z as int, r.trim_position.z),
            r.trim_turn == QuarterTurn::of_factors(w.factor_x as int, w.factor_z as int),
    {
        choose|w: SnapSteps<S>|
            {
                &&& #[trigger] self.snap_steps(half_width, base_scale, target, w)
                &&& r.position == w.position
                &&& trim_offset_is(half_width, w.factor_x as int, r.trim_position.x)
                &&& scalar::int_is(0, r.trim_position.y)
                &&& trim_offset_is(half_width, w.factor_z as int, r.trim_position.z)
                &&& r.trim_turn == QuarterTurn::of_factors(w.factor_x as int, w.factor_z as int)
            }
    }
}

/// The snap sizes from the origin to `coord` can be counted in 32 bits.
pub open spec fn countable(size: real, coord: real) -> bool {
    i32::MIN as real * size <= coord && coord < (i32::MAX + 1) as real * size
}

/// `coord` is in the cell of the snap grid that starts `i` snap sizes from the origin, and
/// `i` can be counted in 32 bits.
pub open spec fn in_cell(size: real, i: int, coord: real) -> bool {
    &&& i32::MIN <= i <= i32::MAX
    &&& i as real * size <= coord
    &&& coord < (i + 1) as real * size
}

/// Where arithmetic is exact, the factor of a snap is the number of snap sizes to the
/// coordinate, rounded down, and the position is that many of them.
proof fn lemma_axis_floor<S: Scalar>(
    val: spec_fn(S) -> real,
    size: real,
    coord: S,
    snap_scale: S,
    factor: i32,
    position: S,
) -> (count: real)
    requires
        scalar::exact(val),
        val(snap_scale) == size,
        size > 0 as real,
        countable(size, val(coord)),
        axis_snap(coord, snap_scale, factor, position),
    ensures
        count * size == val(coord),
        scalar::is_floor(factor as int, count),
        val(position) == factor as real * size,
{
    let (ratio, floor, whole) = choose|ratio: S, floor: S, whole: S|
        #![trigger scalar::floor_is(ratio, floor), scalar::product_is(whole, snap_scale, position)]
        {
            &&& scalar::quotient_is(coord, snap_scale, ratio)
            &&& scalar::floor_is(ratio, floor)
            &&& scalar::whole32_is(floor, factor)
            &&& scalar::int_is(factor as int, whole)
            &&& scalar::product_is(whole, snap_scale, position)
        };
    let count = val(ratio);
    let lo = i32::MIN as real;
    let hi = (i32::MAX + 1) as real;
    let c = val(coord);
    assert(count * size == c);
    assert(lo <= count && count < hi) by (nonlinear_arith)
        requires
            count * size == c,
            lo * size <= c,
            c < hi * size,
            size > 0 as real,
    ;
    let k = choose|k: int| #[trigger]
        scalar::is_floor(k, val(ratio)) && scalar::is_whole(k, val(floor));
    assert(i32::MIN <= k <= i32::MAX);
    assert(factor == k);
    count
}

/// The whole part of a count of sizes is the largest whole multiple that is not above.
proof fn lemma_multiple_below(size: real, count: real, n: int)
    requires
        size > 0 as real,
        scalar::is_floor(n, count),
    ensures
        n as real * size <= count * size,
        count * size < n as real * size + size,
{
    let f = n as real;
    assert(f * size <= count * size && count * size < f * size + size) by (nonlinear_arith)
        requires
            size > 0 as real,
            f <= count,
            count < f + 1 as real,
    ;
}

/// Along one axis, a grid of cells of size `cell` stands at `position`, on `factor` snap
/// sizes, with its trim anchored `trim` cells further, and the next coarser grid stands at
/// `coarser`. The trim is anchored at one edge of the coarser grid's hole, and the square that
/// it completes reaches to the other edge.
pub open spec fn fills_hole(
    half_width: int,
    cell: real,
    factor: int,
    position: real,
    trim: real,
    coarser: real,
) -> bool {
    let filler = filler_width_of(half_width);
    let width = square_width_of(half_width);
    let low = coarser - (2 * width) as real * cell;
    let high = coarser + (2 * (width + filler)) as real * cell;
    let anchor = position + trim * cell;
    let end = anchor + trim_reach(half_width, factor) as real * cell;
    &&& position == (factor * filler) as real * cell
    &&& coarser == (factor / 2 * filler) as real * (2 as real * cell)
    &&& if factor % 2 == 0 {
        anchor == low && end == high
    } else {
        anchor == high && end == low
    }
}

/// Two levels that follow one target meet along one axis.
proof fn lemma_axis_meets<S: Scalar>(
    val: spec_fn(S) -> real,
    half_width: int,
    cell: real,
    coord: S,
    snap_scale: S,
    factor: i32,
    position: S,
    trim: S,
    coarser_scale: S,
    coarser_factor: i32,
    coarser: S,
)
    requires
        scalar::exact(val),
        0 < half_width <= i32::MAX,
        cell > 0 as real,
        val(snap_scale) == cell * filler_width_of(half_width) as real,
        val(coarser_scale) == 2 as real * val(snap_scale),
        countable(val(snap_scale), val(coord)),
        axis_snap(coord, snap_scale, factor, position),
        trim_offset_is(half_width, factor as int, trim),
        axis_snap(coord, coarser_scale, coarser_factor, coarser),
    ensures
        fills_hole(half_width, cell, factor as int, val(position), val(trim), val(coarser)),
{
    let filler = filler_width_of(half_width);
    let size = val(snap_scale);
    let double = val(coarser_scale);
    let c = val(coord);
    assert(size > 0 as real) by (nonlinear_arith)
        requires
            size == cell * filler as real,
            cell > 0 as real,
            filler as real > 0 as real,
    ;
    let lo = i32::MIN as real;
    let hi = (i32::MAX + 1) as real;
    assert(lo * double <= c && c < hi * double) by (nonlinear_arith)
        requires
            lo * size <= c,
            c < hi * size,
            double == 2 as real * size,
            size > 0 as real,
            lo <= 0 as real,
            hi >= 0 as real,
    ;
    let count = lemma_axis_floor(val, size, coord, snap_scale, factor, position);
    let half = lemma_axis_floor(val, double, coord, coarser_scale, coarser_factor, coarser);
    assert(count == 2 as real * half) by (nonlinear_arith)
        requires
            count * size == c,
            half * double == c,
            double == 2 as real * size,
            size > 0 as real,
    ;
    let f = factor as int;
    let g = coarser_factor as int;
    assert(g == f / 2) by {
        assert(g as real <= half && half < g as real + 1 as real);
        assert(f as real <= count && count < f as real + 1 as real);
        assert((2 * g) as real <= count && count < (2 * g + 2) as real);
        assert(2 * g < f + 1 && f < 2 * g + 2);
    }
    lemma_trim_value(val, half_width, f, trim);
    lemma_hole_edges(half_width, cell, f, size, val(position), val(trim), val(coarser));
}

/// Where arithmetic is exact, the trim is at its anchor.
proof fn lemma_trim_value<S: Scalar>(
    val: spec_fn(S) -> real,
    half_width: int,
    factor: int,
    trim: S,
)
    requires
        scalar::exact(val),
        0 <= half_width <= i32::MAX,
        trim_offset_is(half_width, factor, trim),
    ensures
        val(trim) == trim_anchor(half_width, factor) as real,
{
}

/// The numbers of a grid and the next coarser one fit together.
proof fn lemma_hole_edges(
    half_width: int,
    cell: real,
    factor: int,
    size: real,
    position: real,
    trim: real,
    coarser: real,
)
    requires
        0 < half_width,
        size == cell * filler_width_of(half_width) as real,
        position == factor as real * size,
        coarser == (factor / 2) as real * (2 as real * size),
        trim == trim_anchor(half_width, factor) as real,
    ensures
        fills_hole(half_width, cell, factor, position, trim, coarser),
{
    law_no_gap_between_levels(half_width, factor);
    let filler = filler_width_of(half_width);
    let width = square_width_of(half_width);
    let g = factor / 2;
    let reach = trim_reach(half_width, factor);
    let anchor = trim_anchor(half_width, factor);
    let (at, half_at) = (factor * filler, g * filler);
    lemma_real_product(factor, filler);
    lemma_real_product(g, filler);
    assert(position == at as real * cell) by (nonlinear_arith)
        requires
            size == cell * filler as real,
            position == factor as real * size,
            at as real == factor as real * filler as real,
    ;
    assert(coarser == half_at as real * (2 as real * cell)) by (nonlinear_arith)
        requires
            size == cell * filler as real,
            coarser == g as real * (2 as real * size),
            half_at as real == g as real * filler as real,
    ;
    let x = at as real;
    let y = half_at as real;
    let w = width as real;
    let fill = filler as real;
    let t = anchor as real;
    let reached = reach as real;
    assert((2 * width) as real == 2 as real * w);
    assert((2 * (width + filler)) as real == 2 as real * (w + fill));
    if factor % 2 == 0 {
        assert(x + t == 2 as real * (y - w));
        assert(x + t + reached == 2 as real * (y + w + fill));
        assert(x * cell + t * cell == y * (2 as real * cell) - 2 as real * w * cell && x * cell + t
            * cell + reached * cell == y * (2 as real * cell) + 2 as real * (w + fill) * cell)
            by (nonlinear_arith)
            requires
                x + t == 2 as real * (y - w),
                x + t + reached == 2 as real * (y + w + fill),
        ;
    } else {
        assert(x + t == 2 as real * (y + w + fill));
        assert(x + t + reached == 2 as real * (y - w));
        assert(x * cell + t * cell == y * (2 as real * cell) + 2 as real * (w + fill) * cell && x
            * cell + t * cell + reached * cell == y * (2 as real * cell) - 2 as real * w * cell)
            by (nonlinear_arith)
            requires
                x + t == 2 as real * (y + w + fill),
                x + t + reached == 2 as real * (y - w),
        ;
    }
}

/// A product of whole numbers is the product of their values.
proof fn lemma_real_product(a: int, b: int)
    ensures
        (a * b) as real == a as real * b as real,
{
    assert((a * b) as real == a as real * b as real) by (nonlinear_arith);
}

/// Counts that are `n` apart round down to numbers `n` apart.
proof fn lemma_axis_moves(size: real, a: real, b: real, n: int, i: int, j: int)
    requires
        size > 0 as real,
        b * size == a * size + n as real * size,
        scalar::is_floor(i, a),
        scalar::is_floor(j, b),
    ensures
        j == i + n,
        j as real * size == i as real * size + n as real * size,
{
    let m = n as real;
    let f = i as real;
    assert(b == a + m) by (nonlinear_arith)
        requires
            b * size == a * size + m * size,
            size > 0 as real,
    ;
    lemma_floor_moves(a, b, n, i, j);
    let g = j as real;
    assert(g * size == f * size + m * size) by (nonlinear_arith)
        requires
            g == f + m,
    ;
}

/// Numbers that are `n` apart round down to numbers `n` apart.
proof fn lemma_floor_moves(a: real, b: real, n: int, i: int, j: int)
    requires
        b == a + n as real,
        scalar::is_floor(i, a),
        scalar::is_floor(j, b),
    ensures
        j == i + n,
        j as real == i as real + n as real,
{
    assert((i + n) as real == i as real + n as real);
}

/// A coordinate within a cell of the snap grid snaps to the cell's start.
proof fn lemma_axis_rests<S: Scalar>(
    val: spec_fn(S) -> real,
    size: real,
    i: int,
    coord: S,
    snap_scale: S,
    factor: i32,
    position: S,
)
    requires
        scalar::exact(val),
        val(snap_scale) == size,
        size > 0 as real,
        in_cell(size, i, val(coord)),
        axis_snap(coord, snap_scale, factor, position),
    ensures
        factor == i,
{
    let c = val(coord);
    let lo = i32::MIN as real;
    let hi = (i32::MAX + 1) as real;
    let f = i as real;
    assert((i + 1) as real == f + 1 as real);
    assert(lo * size <= f * size && (f + 1 as real) * size <= hi * size) by (nonlinear_arith)
        requires
            lo <= f,
            f + 1 as real <= hi,
            size > 0 as real,
    ;
    let count = lemma_axis_floor(val, size, coord, snap_scale, factor, position);
    assert(f <= count && count < f + 1 as real) by (nonlinear_arith)
        requires
            count * size == c,
            f * size <= c,
            c < (f + 1 as real) * size,
            size > 0 as real,
    ;
}

/// An even number of snap sizes more leaves the trim where it is.
proof fn lemma_trim_keeps<S: Scalar>(
    val: spec_fn(S) -> real,
    half_width: int,
    factor: int,
    i: int,
    a: S,
    b: S,
)
    requires
        scalar::exact(val),
        0 <= half_width <= i32::MAX,
        trim_offset_is(half_width, factor, a),
        trim_offset_is(half_width, factor + 2 * i, b),
    ensures
        val(a) == val(b),
{
    assert((factor + 2 * i) % 2 == factor % 2);
}

} // verus!
