//! How the parts of a grid fit together.

use vstd::arithmetic::power2::pow2;
use vstd::prelude::*;

use crate::clipmap::Clipmap;
use crate::grid::{self, ClipmapGrid, GridPart, PlacedPart};
use crate::scalar::{self, Scalar, Vec3};
use crate::setup::{GridStart, PartBoxes};

verus! {

/// The squares and the strip between them make up the half width of a grid, twice one and
/// once the other, and the strip is one or two cells wide. So the strip is one cell wide where
/// the half width is odd, and two where it is even.
pub proof fn law_widths_make_up_the_grid(half_width: int)
    requires
        0 <= half_width,
    ensures
        2 * grid::square_width_of(half_width) + grid::filler_width_of(half_width) == half_width,
        1 <= grid::filler_width_of(half_width) <= 2,
{
}

/// Where arithmetic is exact, a part is translated by its square widths and its cells along
/// each axis, and not upward. Two square widths are the half width less the strip.
pub proof fn law_part_is_translated<S: Scalar>(
    val: spec_fn(S) -> real,
    part: PlacedPart,
    half_width: int,
    r: Vec3<S>,
)
    requires
        scalar::exact(val),
        0 <= half_width <= i32::MAX,
        part.translation_is(half_width, r),
    ensures
        val(r.x) == part.x(half_width) as real,
        val(r.y) == 0 as real,
        val(r.z) == part.z(half_width) as real,
        ({
            let strip = if half_width % 2 == 0 {
                2int
            } else {
                1int
            };
            &&& 2 * part.x(half_width) == part.squares_x * (half_width - strip) + 2 * part.cells_x
            &&& 2 * part.z(half_width) == part.squares_z * (half_width - strip) + 2 * part.cells_z
        }),
{
    let width = grid::square_width_of(half_width);
    lemma_offset_value(val, part.squares_x as int, width, part.cells_x as int, r.x);
    lemma_offset_value(val, part.squares_z as int, width, part.cells_z as int, r.z);
    let strip = half_width - 2 * width;
    let (m, n) = (part.squares_x as int, part.squares_z as int);
    assert(2 * (m * width) == m * (half_width - strip) && 2 * (n * width) == n * (half_width
        - strip)) by (nonlinear_arith)
        requires
            2 * width == half_width - strip,
    ;
}

/// Where arithmetic is exact, an offset is its number of cells.
proof fn lemma_offset_value<S: Scalar>(
    val: spec_fn(S) -> real,
    squares: int,
    width: int,
    cells: int,
    r: S,
)
    requires
        scalar::exact(val),
        i32::MIN <= squares <= i32::MAX,
        i32::MIN <= width <= i32::MAX,
        i32::MIN <= cells <= i32::MAX,
        PlacedPart::offset_is(squares, width, cells, r),
    ensures
        val(r) == (squares * width + cells) as real,
{
    let (n, w, moved, c) = choose|n: S, w: S, moved: S, c: S|
        #![trigger scalar::product_is(n, w, moved), scalar::sum_is(moved, c, r)]
        {
            &&& scalar::int_is(squares, n)
            &&& scalar::int_is(width, w)
            &&& scalar::product_is(n, w, moved)
            &&& scalar::int_is(cells, c)
            &&& scalar::sum_is(moved, c, r)
        };
    assert(val(moved) == squares as real * width as real);
    assert((squares * width) as real == squares as real * width as real) by (nonlinear_arith);
}

/// The parts of a level besides its squares. In the finest level they are the cross between
/// the squares and the trim; in the others the cross, the seam and the trim. The cross and
/// the trim stand where the grid starts, at the low end of the first square. The seam stands
/// at the low end of the hole, and is the only part at half size.
pub proof fn law_other_parts_stand(level: int, half_width: int, i: int)
    requires
        0 < half_width <= i32::MAX,
        0 <= i < grid::parts_of(level, half_width).len(),
    ensures
        ({
            let parts = grid::parts_of(level, half_width);
            let p = parts[i];
            let strip = if half_width % 2 == 0 {
                2int
            } else {
                1int
            };
            &&& level == 0 ==> {
                &&& parts.len() == 18
                &&& (p.part == GridPart::Square <==> i < 16)
                &&& (p.part == GridPart::Center <==> i == 16)
                &&& (p.part == GridPart::Trim <==> i == 17)
            }
            &&& level != 0 ==> {
                &&& parts.len() == 15
                &&& (p.part == GridPart::Square <==> i < 12)
                &&& (p.part == GridPart::Filler <==> i == 12)
                &&& (p.part == GridPart::Stitch <==> i == 13)
                &&& (p.part == GridPart::Trim <==> i == 14)
            }
            &&& p.part == GridPart::Center || p.part == GridPart::Filler || p.part
                == GridPart::Trim ==> {
                &&& p.x(half_width) == strip - half_width
                &&& p.z(half_width) == strip - half_width
            }
            &&& p.part == GridPart::Stitch ==> {
                &&& 2 * p.x(half_width) == strip - half_width
                &&& 2 * p.z(half_width) == strip - half_width
            }
            &&& p.halved <==> p.part == GridPart::Stitch
        }),
{
    let parts = grid::parts_of(level, half_width);
    let w = grid::square_width_of(half_width);
    grid::lemma_widths(half_width);
    assert((-2) * w == -(2 * w) && (-1) * w == -w) by (nonlinear_arith);
    let n = grid::square_cells(level).len();
    if i < n {
        let cell = grid::square_cells(level)[i];
        assert(parts[i] == grid::squares_of(level, half_width)[i]);
        assert(parts[i] == PlacedPart::square(half_width, cell % 4, cell / 4));
    } else if i < n + grid::middle_of(level).len() {
        assert(parts[i] == grid::middle_of(level)[i - n]);
    } else {
        assert(parts[i] == PlacedPart::at_corner(GridPart::Trim));
    }
}

/// Some square of a level covers the cell in column `x` and row `z` of the ground.
pub open spec fn square_covers(level: int, half_width: int, x: int, z: int) -> bool {
    exists|i: int|
        #![trigger grid::parts_of(level, half_width)[i]]
        {
            let p = grid::parts_of(level, half_width)[i];
            let width = (half_width - (2 - half_width % 2)) / 2;
            &&& 0 <= i < grid::parts_of(level, half_width).len()
            &&& p.part == GridPart::Square
            &&& p.x(half_width) <= x < p.x(half_width) + width
            &&& p.z(half_width) <= z < p.z(half_width) + width
        }
}

/// The cross of a level covers the cell in column `x` and row `z` of the ground. From the
/// corner where it stands, its two bars start two square widths in, and are as wide as the
/// strip between the squares.
pub open spec fn cross_covers(level: int, half_width: int, x: int, z: int) -> bool {
    exists|i: int|
        #![trigger grid::parts_of(level, half_width)[i]]
        {
            let p = grid::parts_of(level, half_width)[i];
            let strip = 2 - half_width % 2;
            &&& 0 <= i < grid::parts_of(level, half_width).len()
            &&& p.part == (if level == 0 {
                GridPart::Center
            } else {
                GridPart::Filler
            })
            &&& {
                ||| half_width - strip <= x - p.x(half_width) < half_width
                ||| half_width - strip <= z - p.z(half_width) < half_width
            }
        }
}

/// The hole of a level that is not the finest holds the cell in column `x` and row `z` of
/// the ground: it is no farther than one square and the strip from the middle.
pub open spec fn hole_holds(level: int, half_width: int, x: int, z: int) -> bool {
    let strip = 2 - half_width % 2;
    let width = (half_width - strip) / 2;
    level != 0 && -width <= x < width + strip && -width <= z < width + strip
}

/// The squares and the cross of a level cover the ground from one end of the grid to the
/// other, but for the hole, which finer levels fill.
pub proof fn law_parts_cover_the_grid(level: int, half_width: int, x: int, z: int)
    requires
        0 < half_width <= i32::MAX,
        2 - half_width % 2 - half_width <= x < half_width,
        2 - half_width % 2 - half_width <= z < half_width,
    ensures
        square_covers(level, half_width, x, z) || cross_covers(level, half_width, x, z)
            || hole_holds(level, half_width, x, z),
{
    grid::lemma_widths(half_width);
    let strip = 2 - half_width % 2;
    let width = grid::square_width_of(half_width);
    let parts = grid::parts_of(level, half_width);
    let n = grid::square_cells(level).len();
    law_other_parts_stand(level, half_width, n as int);
    let cross = parts[n as int];
    if 0 <= x < strip || 0 <= z < strip {
        assert(cross_covers(level, half_width, x, z));
    } else {
        let (a, b) = (column_of(half_width, x), column_of(half_width, z));
        let cell = 4 * b + a;
        assert(cell % 4 == a && cell / 4 == b);
        if !grid::in_hole(level, cell) {
            grid::law_squares_fill_all_but_the_hole(level, cell);
            let cells = grid::square_cells(level);
            let i = choose|i: int| 0 <= i < cells.len() && cells[i] == cell;
            law_other_parts_stand(level, half_width, i);
            grid::lemma_square_place(half_width, cell);
            assert(parts[i] == grid::squares_of(level, half_width)[i]);
            assert(parts[i] == PlacedPart::square(half_width, a, b));
            assert(square_covers(level, half_width, x, z));
        }
    }
}

/// The column of four that a coordinate off the strip is in.
spec fn column_of(half_width: int, x: int) -> int {
    let width = grid::square_width_of(half_width);
    if x < -width {
        0
    } else if x < 0 {
        1
    } else if x < width + grid::filler_width_of(half_width) {
        2
    } else {
        3
    }
}

/// The squares of a level leave the cross and the hole free, and stay between the ends of the
/// grid.
pub proof fn law_squares_keep_off_the_rest(level: int, half_width: int, x: int, z: int)
    requires
        0 < half_width <= i32::MAX,
        square_covers(level, half_width, x, z),
    ensures
        !cross_covers(level, half_width, x, z),
        !hole_holds(level, half_width, x, z),
        2 - half_width % 2 - half_width <= x < half_width,
        2 - half_width % 2 - half_width <= z < half_width,
{
    grid::lemma_widths(half_width);
    let parts = grid::parts_of(level, half_width);
    let strip = 2 - half_width % 2;
    let width = grid::square_width_of(half_width);
    let i = choose|i: int|
        #![trigger parts[i]]
        {
            let p = parts[i];
            &&& 0 <= i < parts.len()
            &&& p.part == GridPart::Square
            &&& p.x(half_width) <= x < p.x(half_width) + width
            &&& p.z(half_width) <= z < p.z(half_width) + width
        };
    law_other_parts_stand(level, half_width, i);
    grid::lemma_square_cell(level, i);
    let cell = grid::square_cells(level)[i];
    grid::lemma_square_place(half_width, cell);
    assert(parts[i] == grid::squares_of(level, half_width)[i]);
    assert(parts[i] == PlacedPart::square(half_width, cell % 4, cell / 4));
    if cross_covers(level, half_width, x, z) {
        let j = choose|j: int|
            #![trigger parts[j]]
            {
                let p = parts[j];
                &&& 0 <= j < parts.len()
                &&& p.part == (if level == 0 {
                    GridPart::Center
                } else {
                    GridPart::Filler
                })
                &&& {
                    ||| half_width - strip <= x - p.x(half_width) < half_width
                    ||| half_width - strip <= z - p.z(half_width) < half_width
                }
            };
        law_other_parts_stand(level, half_width, j);
        assert(false);
    }
}

/// Where arithmetic is exact, a new grid has a part for each that its level is made of, where
/// that stands: on the ground, at half size if it is the seam and at full size otherwise, with
/// the wireframe of the clipmap. Its box is on the ground that of the part's own mesh, and
/// reaches from the lowest height to the highest in units of two to the level. The grid has
/// the cell size of its level.
pub proof fn law_grid_is_laid_out<S: Scalar, H>(
    val: spec_fn(S) -> real,
    start: GridStart<S>,
    level_grid: ClipmapGrid,
    clipmap: Clipmap<S, H>,
    boxes: PartBoxes<S>,
    i: int,
)
    requires
        scalar::exact(val),
        start.lays_out(level_grid, clipmap, boxes),
        0 < clipmap.half_width <= i32::MAX,
        level_grid.level < 31,
        0 <= i < start.parts@.len(),
    ensures
        val(start.scale) == val(clipmap.base_scale) * pow2(level_grid.level as nat) as real,
        start.parts@.len() == (if level_grid.level == 0 {
            18nat
        } else {
            15nat
        }),
        ({
            let p = grid::parts_of(level_grid.level as int, clipmap.half_width as int)[i];
            let s = start.parts@[i];
            let mesh = match s.part {
                GridPart::Square => boxes.square,
                GridPart::Center => boxes.center,
                GridPart::Filler => boxes.filler,
                GridPart::Stitch => boxes.stitch,
                GridPart::Trim => boxes.trim,
            };
            let unit = pow2(level_grid.level as nat) as real;
            &&& s.part == p.part
            &&& val(s.translation.x) == p.x(clipmap.half_width as int) as real
            &&& val(s.translation.y) == 0 as real
            &&& val(s.translation.z) == p.z(clipmap.half_width as int) as real
            &&& 2 as real * val(s.scale) == if s.part == GridPart::Stitch {
                1 as real
            } else {
                2 as real
            }
            &&& s.wireframe == clipmap.wireframe
            &&& s.aabb.center.x == mesh.center.x && s.aabb.center.z == mesh.center.z
            &&& s.aabb.half_extents.x == mesh.half_extents.x
            &&& s.aabb.half_extents.z == mesh.half_extents.z
            &&& (val(s.aabb.center.y) - val(s.aabb.half_extents.y)) * unit == val(clipmap.min)
            &&& (val(s.aabb.center.y) + val(s.aabb.half_extents.y)) * unit == val(clipmap.max)
        }),
{
    let half_width = clipmap.half_width as int;
    let level = level_grid.level as int;
    let p = grid::parts_of(level, half_width)[i];
    let s = start.parts@[i];
    grid::law_part_counts(level, half_width);
    law_other_parts_stand(level, half_width, i);
    assert(s.spawns(p, level_grid, clipmap, boxes));
    law_part_is_translated(val, p, half_width, s.translation);
    level_grid.lemma_box_in_units(val, clipmap.min, clipmap.max, boxes.of(p.part), s.aabb);
    level_grid.lemma_scale_value(val, clipmap.base_scale, start.scale);
}

} // verus!
