//! What the bake cameras see: the ground from straight above, laid out in the image as the
//! main pass samples it.

use vstd::prelude::*;

use crate::fog::Msaa;
use crate::scalar::{self, Scalar, Vec3};

verus! {

/// Height of the bake cameras above the ground, looking straight down.
pub const BAKE_CAMERA_HEIGHT: i64 = 10000;

/// Farthest distance that the bake cameras see.
pub const BAKE_CAMERA_FAR: i64 = 20000;

/// The view that every bake camera of a clipmap shares with its sentinel: an orthographic
/// projection, where it looks from, and how it renders.
#[derive(Clone, Copy, Debug)]
pub struct BakeView<S> {
    pub position: Vec3<S>,
    /// The point in the middle of the image.
    pub look_at: Vec3<S>,
    /// The direction that is up in the image.
    pub up: Vec3<S>,
    pub near: S,
    pub far: S,
    /// World size of the image from left to right.
    pub width: S,
    /// World size of the image from top to bottom.
    pub height: S,
    /// Color where nothing has been rendered.
    pub clear_color: Vec3<S>,
    /// Whether colors are tonemapped.
    pub tonemapped: bool,
    pub msaa: Msaa,
}

/// `r` is the point with the given whole coordinates.
pub open spec fn point_is<S: Scalar>(x: int, y: int, z: int, r: Vec3<S>) -> bool {
    scalar::int_is(x, r.x) && scalar::int_is(y, r.y) && scalar::int_is(z, r.z)
}

/// The point with the given whole coordinates.
fn point<S: Scalar>(x: i64, y: i64, z: i64) -> (r: Vec3<S>)
    ensures
        point_is(x as int, y as int, z as int, r),
{
    Vec3 { x: S::of_int(x), y: S::of_int(y), z: S::of_int(z) }
}

impl<S: Scalar> BakeView<S> {
    /// The view of a ground that is `width` along x and `height` along z: from high above
    /// the origin straight down, with the negative z axis up, black where nothing is
    /// rendered, and without tonemapping or multisampling, so that values are stored as
    /// they are.
    pub open spec fn looks_down(self, width: S, height: S) -> bool {
        &&& point_is(0, BAKE_CAMERA_HEIGHT as int, 0, self.position)
        &&& point_is(0, 0, 0, self.look_at)
        &&& point_is(0, 0, -1, self.up)
        &&& scalar::int_is(0, self.near)
        &&& scalar::int_is(BAKE_CAMERA_FAR as int, self.far)
        &&& self.width == width
        &&& self.height == height
        &&& point_is(0, 0, 0, self.clear_color)
        &&& !self.tonemapped
        &&& self.msaa == Msaa::Off
    }

    /// The view of a ground that is `width` along x and `height` along z.
    pub fn over(width: S, height: S) -> (r: Self)
        ensures
            r.looks_down(width, height),
    {
        BakeView {
            position: point(0, BAKE_CAMERA_HEIGHT, 0),
            look_at: point(0, 0, 0),
            up: point(0, 0, -1),
            near: S::of_int(0),
            far: S::of_int(BAKE_CAMERA_FAR),
            width,
            height,
            clear_color: point(0, 0, 0),
            tonemapped: false,
            msaa: Msaa::Off,
        }
    }
}

/// A point or a direction, by its values.
pub ghost struct Arrow {
    pub x: real,
    pub y: real,
    pub z: real,
}

impl Arrow {
    /// A triple of scalars by its values.
    pub open spec fn of<S>(val: spec_fn(S) -> real, v: Vec3<S>) -> Self {
        Arrow { x: val(v.x), y: val(v.y), z: val(v.z) }
    }

    /// The way from `from` to this point.
    pub open spec fn from(self, from: Self) -> Self {
        Arrow { x: self.x - from.x, y: self.y - from.y, z: self.z - from.z }
    }

    /// The dot product.
    pub open spec fn dot(self, with: Self) -> real {
        self.x * with.x + self.y * with.y + self.z * with.z
    }

    /// The cross product.
    pub open spec fn cross(self, with: Self) -> Self {
        Arrow {
            x: self.y * with.z - self.z * with.y,
            y: self.z * with.x - self.x * with.z,
            z: self.x * with.y - self.y * with.x,
        }
    }

    /// How far this goes along `direction` is `r`.
    pub open spec fn reaches(self, direction: Self, r: real) -> bool {
        exists|length: real| #[trigger]
            direction.is_long(length) && r * length == self.dot(direction)
    }

    /// `length` is how long this is, and is not zero.
    pub open spec fn is_long(self, length: real) -> bool {
        length > 0 as real && length * length == self.dot(self)
    }
}

impl<S: Scalar> BakeView<S> {
    /// The direction that the camera looks in.
    pub open spec fn forward(self, val: spec_fn(S) -> real) -> Arrow {
        Arrow::of(val, self.look_at).from(Arrow::of(val, self.position))
    }

    /// The direction that is right in the image: across the way forward and the way up.
    pub open spec fn right(self, val: spec_fn(S) -> real) -> Arrow {
        self.forward(val).cross(Arrow::of(val, self.up))
    }

    /// The point `p` is seen at `(u, v)` in the image, from the left and from the top, each
    /// as a share of the image, at the distance `depth`, where the way up is upright to the
    /// way forward.
    pub open spec fn shows(
        self,
        val: spec_fn(S) -> real,
        p: Arrow,
        u: real,
        v: real,
        depth: real,
    ) -> bool {
        let way = p.from(Arrow::of(val, self.position));
        let up = Arrow::of(val, self.up);
        let half = 1 as real / 2 as real;
        &&& way.reaches(self.right(val), (u - half) * val(self.width))
        &&& way.reaches(up, (half - v) * val(self.height))
        &&& way.reaches(self.forward(val), depth)
    }

    /// Where arithmetic is exact, the image lies as the main pass samples it: a point of the
    /// world is seen at `x / width + 1/2` from the left and at `z / height + 1/2` from the
    /// top, and as far away as it is below the camera.
    pub proof fn law_image_lies_as_sampled(
        self,
        val: spec_fn(S) -> real,
        width: S,
        height: S,
        p: Arrow,
        u: real,
        v: real,
        depth: real,
    )
        requires
            scalar::exact(val),
            self.looks_down(width, height),
        ensures
            Arrow::of(val, self.up).dot(self.forward(val)) == 0 as real,
            self.shows(val, p, u, v, depth) <==> {
                &&& p.x == (u - 1 as real / 2 as real) * val(width)
                &&& p.z == (v - 1 as real / 2 as real) * val(height)
                &&& depth == BAKE_CAMERA_HEIGHT as real - p.y
            },
    {
        let high = BAKE_CAMERA_HEIGHT as real;
        let forward = self.forward(val);
        let up = Arrow::of(val, self.up);
        let right = self.right(val);
        let way = p.from(Arrow::of(val, self.position));
        assert(forward == (Arrow { x: 0 as real, y: -high, z: 0 as real }));
        assert(up == (Arrow { x: 0 as real, y: 0 as real, z: -(1 as real) }));
        lemma_axes(forward, up, right, high);
        lemma_along_axis(way, right, high, way.x, (u - 1 as real / 2 as real) * val(width));
        lemma_along_axis(way, up, 1 as real, -way.z, (1 as real / 2 as real - v) * val(height));
        lemma_along_axis(way, forward, high, -way.y, depth);
        let half = 1 as real / 2 as real;
        let h = val(height);
        assert((half - v) * h == -((v - half) * h)) by (nonlinear_arith);
    }
}

/// The directions of a view straight down.
proof fn lemma_axes(forward: Arrow, up: Arrow, right: Arrow, high: real)
    requires
        forward == (Arrow { x: 0 as real, y: -high, z: 0 as real }),
        up == (Arrow { x: 0 as real, y: 0 as real, z: -(1 as real) }),
        right == forward.cross(up),
    ensures
        right == (Arrow { x: high, y: 0 as real, z: 0 as real }),
        up.dot(forward) == 0 as real,
{
    let (fx, fy, fz) = (forward.x, forward.y, forward.z);
    let (ux, uy, uz) = (up.x, up.y, up.z);
    assert(fy * uz - fz * uy == high && fz * ux - fx * uz == 0 as real && fx * uy - fy * ux
        == 0 as real && ux * fx + uy * fy + uz * fz == 0 as real) by (nonlinear_arith)
        requires
            fx == 0 as real,
            fy == -high,
            fz == 0 as real,
            ux == 0 as real,
            uy == 0 as real,
            uz == -(1 as real),
    ;
}

/// How far a way goes along an axis is its coordinate on that axis.
proof fn lemma_along_axis(way: Arrow, direction: Arrow, length: real, along: real, r: real)
    requires
        length > 0 as real,
        ({
            ||| direction == (Arrow { x: length, y: 0 as real, z: 0 as real }) && along == way.x
            ||| direction == (Arrow { x: 0 as real, y: -length, z: 0 as real }) && along == -way.y
            ||| direction == (Arrow { x: 0 as real, y: 0 as real, z: -length }) && along == -way.z
        }),
    ensures
        way.reaches(direction, r) <==> r == along,
{
    let (x, y, z) = (way.x, way.y, way.z);
    let (a, b, c) = (direction.x, direction.y, direction.z);
    assert(x * a + y * b + z * c == along * length && a * a + b * b + c * c == length * length)
        by (nonlinear_arith)
        requires
            (a == length && b == 0 as real && c == 0 as real && along == x) || (a == 0 as real && b
                == -length && c == 0 as real && along == -y) || (a == 0 as real && b == 0 as real
                && c == -length && along == -z),
    ;
    assert(direction.is_long(length));
    if way.reaches(direction, r) {
        let l = choose|l: real| #[trigger] direction.is_long(l) && r * l == way.dot(direction);
        assert(l == length && r == along) by (nonlinear_arith)
            requires
                l > 0 as real,
                length > 0 as real,
                l * l == length * length,
                r * l == along * length,
        ;
    }
}

} // verus!
