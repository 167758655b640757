//! How the height of the terrain and the sun visibility depend on the point that is asked
//! for and on the terrain.

use vstd::prelude::*;

use crate::heightfield::{
    axis_steps, blend_steps, blended, edge_clamped, located, point_at, AxisSteps, BlendSteps,
    ContainsSteps, HeightImage, HeightSteps, Heightfield, MarchConstants, MarchState, SampleSteps,
    TextureFormat, MARCH_DARK_PERMILLE, MARCH_FIRST_STEP, MARCH_STEPS,
};
use crate::scalar::{self, Scalar, Vec2, Vec3};

verus! {

/// A blend of corners that are no lower is no lower.
proof fn lemma_blend_rises<S: Scalar>(
    val: spec_fn(S) -> real,
    num: spec_fn(S) -> bool,
    v: HeightSteps<S>,
    w: HeightSteps<S>,
)
    requires
        scalar::ordered(val, num),
        scalar::repeatable::<S>(),
        blended(v.h00, v.h10, v.h01, v.h11, v.fx, v.fy, v.unit),
        blended(w.h00, w.h10, w.h01, w.h11, w.fx, w.fy, w.unit),
        num(v.unit),
        num(w.unit),
        v.fx == w.fx,
        v.fy == w.fy,
        val(v.fx) >= 0 as real,
        val(v.fx) <= 1 as real,
        val(v.fy) >= 0 as real,
        val(v.fy) <= 1 as real,
        val(v.h00) <= val(w.h00),
        val(v.h10) <= val(w.h10),
        val(v.h01) <= val(w.h01),
        val(v.h11) <= val(w.h11),
    ensures
        val(v.unit) <= val(w.unit),
{
    let a = choose|b: BlendSteps<S>| #[trigger]
        blend_steps(v.h00, v.h10, v.h01, v.h11, v.fx, v.fy, b) && b.unit == v.unit;
    let b = choose|b: BlendSteps<S>| #[trigger]
        blend_steps(w.h00, w.h10, w.h01, w.h11, w.fx, w.fy, b) && b.unit == w.unit;
    assert(a.gx == b.gx && a.gy == b.gy);
    assert(val(a.gx) >= 0 as real && val(a.gy) >= 0 as real);
    assert(val(a.top_left) <= val(b.top_left));
    assert(val(a.top_right) <= val(b.top_right));
    assert(val(a.top) <= val(b.top));
    assert(val(a.bottom_left) <= val(b.bottom_left));
    assert(val(a.bottom_right) <= val(b.bottom_right));
    assert(val(a.bottom) <= val(b.bottom));
    assert(val(a.upper) <= val(b.upper));
    assert(val(a.lower) <= val(b.lower));
}

/// A blend that is a number is of numbers.
proof fn lemma_corners_are_numbers<S: Scalar>(
    val: spec_fn(S) -> real,
    num: spec_fn(S) -> bool,
    w: HeightSteps<S>,
)
    requires
        scalar::ordered(val, num),
        blended(w.h00, w.h10, w.h01, w.h11, w.fx, w.fy, w.unit),
        num(w.unit),
    ensures
        num(w.h00) && num(w.h10) && num(w.h01) && num(w.h11),
        num(w.fx) && num(w.fy),
{
    let b = choose|b: BlendSteps<S>| #[trigger]
        blend_steps(w.h00, w.h10, w.h01, w.h11, w.fx, w.fy, b) && b.unit == w.unit;
    assert(num(b.upper) && num(b.lower));
    assert(num(b.top) && num(b.bottom));
}

impl<'a, S: Scalar> Heightfield<'a, S> {
    /// The heightfields have the same sizes and height bounds, and no texel of `self` is
    /// higher than the one of `g`.
    pub open spec fn nowhere_above(self, g: Heightfield<'a, S>) -> bool {
        &&& self.width == g.width && self.height == g.height
        &&& self.texel_size == g.texel_size
        &&& self.min == g.min && self.max == g.max
        &&& forall|x: int, y: int|
            0 <= x < self.width && 0 <= y < self.height ==> #[trigger] self.raw_at(x, y)
                <= g.raw_at(x, y)
    }

    /// A texel's value fits in 16 bits.
    proof fn lemma_raw_range(self, x: int, y: int)
        ensures
            0 <= self.raw_at(x, y) <= u16::MAX,
    {
    }

    /// A texel of a terrain that is nowhere above another is no higher.
    proof fn lemma_texel_rises(
        self,
        g: Heightfield<'a, S>,
        val: spec_fn(S) -> real,
        num: spec_fn(S) -> bool,
        x: int,
        y: int,
        a: S,
        b: S,
    )
        requires
            scalar::ordered(val, num),
            scalar::repeatable::<S>(),
            self.wf(),
            self.nowhere_above(g),
            self.texel_is(x, y, a),
            g.texel_is(x, y, b),
            num(a),
            num(b),
        ensures
            val(a) <= val(b),
    {
        let cx = edge_clamped(x, self.width as int);
        let cy = edge_clamped(y, self.height as int);
        assert(self.raw_at(cx, cy) <= g.raw_at(cx, cy));
        assert(self.raw_at(x, y) == self.raw_at(cx, cy));
        assert(g.raw_at(x, y) == g.raw_at(cx, cy));
        self.lemma_raw_range(x, y);
        g.lemma_raw_range(x, y);
        let (m, full) = choose|raw: S, full: S|
            {
                &&& scalar::int_is(self.raw_at(x, y), raw)
                &&& scalar::int_is(65535, full)
                &&& #[trigger] scalar::quotient_is(raw, full, a)
            };
        let (n, also_full) = choose|raw: S, full: S|
            {
                &&& scalar::int_is(g.raw_at(x, y), raw)
                &&& scalar::int_is(65535, full)
                &&& #[trigger] scalar::quotient_is(raw, full, b)
            };
        assert(full == also_full);
        assert(val(m) <= val(n));
    }

    /// A terrain that is nowhere above another is no higher at any position.
    proof fn lemma_height_rises(
        self,
        g: Heightfield<'a, S>,
        val: spec_fn(S) -> real,
        num: spec_fn(S) -> bool,
        xz: Vec2<S>,
        a: S,
        b: S,
    )
        requires
            scalar::ordered(val, num),
            scalar::repeatable::<S>(),
            self.wf(),
            val(self.min) <= val(self.max),
            self.nowhere_above(g),
            self.height_is(xz, a),
            g.height_is(xz, b),
            num(a),
            num(b),
        ensures
            val(a) <= val(b),
    {
        let v = choose|w: HeightSteps<S>| #[trigger] self.height_steps(xz, w) && w.height == a;
        let w = choose|w: HeightSteps<S>| #[trigger] g.height_steps(xz, w) && w.height == b;
        crate::heightfield::lemma_one_location(
            self.width as int,
            self.texel_size,
            xz.x,
            v.x0,
            v.fx,
            w.x0,
            w.fx,
        );
        crate::heightfield::lemma_one_location(
            self.height as int,
            self.texel_size,
            xz.y,
            v.y0,
            v.fy,
            w.y0,
            w.fy,
        );
        assert(num(v.scaled) && num(w.scaled) && num(v.unit) && num(w.unit));
        lemma_corners_are_numbers(val, num, v);
        lemma_corners_are_numbers(val, num, w);
        self.lemma_texel_rises(g, val, num, v.x0 as int, v.y0 as int, v.h00, w.h00);
        self.lemma_texel_rises(g, val, num, v.x0 + 1, v.y0 as int, v.h10, w.h10);
        self.lemma_texel_rises(g, val, num, v.x0 as int, v.y0 + 1, v.h01, w.h01);
        self.lemma_texel_rises(g, val, num, v.x0 + 1, v.y0 + 1, v.h11, w.h11);
        lemma_blend_rises(val, num, v, w);
        assert(v.span == w.span);
        assert(val(v.span) >= 0 as real);
        assert(val(v.scaled) <= val(w.scaled));
    }

    /// A sample never brightens, and never leaves less than nothing.
    pub(crate) proof fn lemma_sample_range(
        self,
        val: spec_fn(S) -> real,
        num: spec_fn(S) -> bool,
        c: MarchConstants<S>,
        origin: Vec3<S>,
        sun_direction: Vec3<S>,
        s: MarchState<S>,
        vis: S,
    )
        requires
            scalar::ordered(val, num),
            c.wf(),
            self.dims_to(c, origin, sun_direction, s, vis),
            num(s.vis),
            val(s.vis) >= 0 as real,
        ensures
            num(vis),
            val(vis) >= 0 as real,
            val(vis) <= val(s.vis),
    {
        let p = choose|p: Vec3<S>| #[trigger]
            self.aims_at(c, origin, sun_direction, s, p) && scalar::below_is(self.max, p.y, false)
                && self.sampled(c, s, p, vis);
        let w = choose|w: SampleSteps<S>| #[trigger] self.sample_steps(c, s, p, w) && w.vis == vis;
        assert(val(c.zero) == 0 as real && val(c.one) == 1 as real);
    }

    /// A march never brightens, and never leaves less than nothing.
    pub(crate) proof fn lemma_march_range(
        self,
        val: spec_fn(S) -> real,
        num: spec_fn(S) -> bool,
        c: MarchConstants<S>,
        origin: Vec3<S>,
        sun_direction: Vec3<S>,
        left: nat,
        s: MarchState<S>,
        r: S,
    )
        requires
            scalar::ordered(val, num),
            c.wf(),
            self.march_gives(c, origin, sun_direction, left, s, r),
            num(s.vis),
            val(s.vis) >= 0 as real,
        ensures
            num(r),
            val(r) >= 0 as real,
            val(r) <= val(s.vis),
        decreases left,
    {
        if left > 0 && r != s.vis {
            if self.ends_dark(c, origin, sun_direction, s, r) {
                self.lemma_sample_range(val, num, c, origin, sun_direction, s, r);
            } else {
                let next = choose|next: MarchState<S>| #[trigger]
                    self.goes_on(c, origin, sun_direction, s, next) && self.march_gives(
                        c,
                        origin,
                        sun_direction,
                        (left - 1) as nat,
                        next,
                        r,
                    );
                self.lemma_sample_range(val, num, c, origin, sun_direction, s, next.vis);
                self.lemma_march_range(
                    val,
                    num,
                    c,
                    origin,
                    sun_direction,
                    (left - 1) as nat,
                    next,
                    r,
                );
            }
        }
    }

    /// One is full sun and zero is full shadow: the visibility is never outside the two,
    /// where the scalar's operations keep the order of the values.
    pub proof fn law_visibility_is_a_share(
        self,
        val: spec_fn(S) -> real,
        num: spec_fn(S) -> bool,
        origin: Vec3<S>,
        sun_direction: Vec3<S>,
        r: S,
    )
        requires
            scalar::ordered(val, num),
            self.sun_visibility_is(origin, sun_direction, r),
        ensures
            num(r),
            val(r) >= 0 as real,
            val(r) <= 1 as real,
    {
        let steps = MARCH_STEPS as nat;
        let c = choose|c: MarchConstants<S>| #[trigger]
            c.wf() && self.march_gives(c, origin, sun_direction, steps, c.start(), r);
        assert(val(c.one) == 1 as real);
        self.lemma_march_range(val, num, c, origin, sun_direction, steps, c.start(), r);
    }

    /// Above the highest terrain, with a sun that is not below the horizon, nothing is in the
    /// way: the visibility is one. Holds where the scalar's operations keep the order of the
    /// values, and the height of the first sample is a number.
    pub proof fn law_above_all_terrain_is_lit(
        self,
        val: spec_fn(S) -> real,
        num: spec_fn(S) -> bool,
        origin: Vec3<S>,
        sun_direction: Vec3<S>,
        r: S,
    )
        requires
            scalar::ordered(val, num),
            num(self.max),
            val(origin.y) > val(self.max),
            val(sun_direction.y) >= 0 as real,
            forall|first: S, p: Vec3<S>|
                scalar::int_is(MARCH_FIRST_STEP as int, first) && #[trigger] point_at(
                    origin,
                    sun_direction,
                    first,
                    p,
                ) ==> num(p.y),
            self.sun_visibility_is(origin, sun_direction, r),
        ensures
            scalar::int_is(1, r),
    {
        let steps = MARCH_STEPS as nat;
        let c = choose|c: MarchConstants<S>| #[trigger]
            c.wf() && self.march_gives(c, origin, sun_direction, steps, c.start(), r);
        let s = c.start();
        assert forall|p: Vec3<S>| #[trigger]
            self.aims_at(c, origin, sun_direction, s, p) implies !scalar::below_is(
            self.max,
            p.y,
            false,
        ) by {
            assert(num(p.y));
            let d = choose|d: Vec3<S>|
                {
                    &&& scalar::product_is(sun_direction.x, s.t, d.x)
                    &&& #[trigger] scalar::product_is(sun_direction.y, s.t, d.y)
                    &&& scalar::product_is(sun_direction.z, s.t, d.z)
                    &&& scalar::sum_is(origin.x, d.x, p.x)
                    &&& scalar::sum_is(origin.y, d.y, p.y)
                    &&& scalar::sum_is(origin.z, d.z, p.z)
                };
            assert(val(s.t) == 3 as real);
            assert(num(d.y) && val(d.y) >= 0 as real);
            assert(val(p.y) >= val(origin.y));
        }
        assert(r == s.vis);
    }

    /// Everything that decides the march from `s`, with `left` samples to go, is a number:
    /// how far each sample is, how high, and the slope from the terrain up to it.
    pub open spec fn measures(
        self,
        num: spec_fn(S) -> bool,
        c: MarchConstants<S>,
        origin: Vec3<S>,
        sun_direction: Vec3<S>,
        left: nat,
        s: MarchState<S>,
    ) -> bool
        decreases left,
    {
        left == 0 || self.ends_far(c, s) || {
            &&& forall|p: Vec3<S>| #[trigger]
                self.aims_at(c, origin, sun_direction, s, p) ==> num(p.y)
            &&& forall|p: Vec3<S>, w: SampleSteps<S>|
                #![trigger self.aims_at(c, origin, sun_direction, s, p), self.sample_steps(c, s, p, w)]
                self.aims_at(c, origin, sun_direction, s, p) && scalar::below_is(
                    self.max,
                    p.y,
                    false,
                ) && self.sample_steps(c, s, p, w) ==> num(w.slope)
            &&& forall|next: MarchState<S>| #[trigger]
                self.goes_on(c, origin, sun_direction, s, next) ==> num(next.t) && self.measures(
                    num,
                    c,
                    origin,
                    sun_direction,
                    (left - 1) as nat,
                    next,
                )
        }
    }

    /// The march from `origin` computes with numbers alone: the highest height is one, and so
    /// is everything that decides the march.
    pub open spec fn measurable(
        self,
        num: spec_fn(S) -> bool,
        origin: Vec3<S>,
        sun_direction: Vec3<S>,
    ) -> bool {
        &&& num(self.max)
        &&& forall|c: MarchConstants<S>| #[trigger]
            c.wf() ==> self.measures(
                num,
                c,
                origin,
                sun_direction,
                MARCH_STEPS as nat,
                c.start(),
            )
    }

    /// Where every scalar is a number, every march computes with numbers alone.
    pub proof fn law_all_is_measurable(self, origin: Vec3<S>, sun_direction: Vec3<S>)
        ensures
            self.measurable(scalar::everything::<S>(), origin, sun_direction),
    {
        assert forall|c: MarchConstants<S>| #[trigger] c.wf() implies self.measures(
            scalar::everything::<S>(),
            c,
            origin,
            sun_direction,
            MARCH_STEPS as nat,
            c.start(),
        ) by {
            self.lemma_all_is_measured(c, origin, sun_direction, MARCH_STEPS as nat, c.start());
        }
    }

    /// Where every scalar is a number, so is everything that decides a march.
    proof fn lemma_all_is_measured(
        self,
        c: MarchConstants<S>,
        origin: Vec3<S>,
        sun_direction: Vec3<S>,
        left: nat,
        s: MarchState<S>,
    )
        ensures
            self.measures(scalar::everything::<S>(), c, origin, sun_direction, left, s),
        decreases left,
    {
        if left > 0 {
            assert forall|next: MarchState<S>| #[trigger]
                self.goes_on(c, origin, sun_direction, s, next) implies self.measures(
                scalar::everything::<S>(),
                c,
                origin,
                sun_direction,
                (left - 1) as nat,
                next,
            ) by {
                self.lemma_all_is_measured(c, origin, sun_direction, (left - 1) as nat, next);
            }
        }
    }

    /// The march over this terrain from `a` stands at `s` and the one over `g` from `b`
    /// at `t`, equally far, and the first has no less in its way.
    spec fn trails(
        self,
        g: Heightfield<'a, S>,
        val: spec_fn(S) -> real,
        num: spec_fn(S) -> bool,
        a: Vec3<S>,
        b: Vec3<S>,
        s: MarchState<S>,
        t: MarchState<S>,
    ) -> bool {
        &&& g.nowhere_above(self)
        &&& num(self.max) && num(s.vis) && num(t.vis)
        &&& num(s.t) && num(s.step)
        &&& a.x == b.x && a.z == b.z && val(a.y) <= val(b.y)
        &&& s.t == t.t && s.step == t.step
        &&& val(s.t) > 0 as real && val(s.step) >= 0 as real
        &&& val(s.vis) >= 0 as real && val(s.vis) <= val(t.vis)
    }

    /// The next sample of a march that trails another is right below the other's.
    proof fn lemma_aims_below(
        self,
        g: Heightfield<'a, S>,
        val: spec_fn(S) -> real,
        num: spec_fn(S) -> bool,
        c: MarchConstants<S>,
        a: Vec3<S>,
        b: Vec3<S>,
        sun_direction: Vec3<S>,
        s: MarchState<S>,
        t: MarchState<S>,
        p: Vec3<S>,
        q: Vec3<S>,
    )
        requires
            scalar::ordered(val, num),
            scalar::repeatable::<S>(),
            self.trails(g, val, num, a, b, s, t),
            self.aims_at(c, a, sun_direction, s, p),
            g.aims_at(c, b, sun_direction, t, q),
            num(p.y),
            num(q.y),
        ensures
            p.x == q.x,
            p.z == q.z,
            val(p.y) <= val(q.y),
    {
    }

    /// A march that trails another samples no more light.
    proof fn lemma_sample_trails(
        self,
        g: Heightfield<'a, S>,
        val: spec_fn(S) -> real,
        num: spec_fn(S) -> bool,
        c: MarchConstants<S>,
        a: Vec3<S>,
        b: Vec3<S>,
        sun_direction: Vec3<S>,
        left: nat,
        s: MarchState<S>,
        t: MarchState<S>,
        vis_a: S,
        vis_b: S,
    )
        requires
            scalar::ordered(val, num),
            scalar::repeatable::<S>(),
            c.wf(),
            self.wf(),
            g.wf(),
            self == g || val(self.min) <= val(self.max),
            self.trails(g, val, num, a, b, s, t),
            left > 0,
            self.measures(num, c, a, sun_direction, left, s),
            g.measures(num, c, b, sun_direction, left, t),
            !self.ends_far(c, s),
            self.dims_to(c, a, sun_direction, s, vis_a),
            g.dims_to(c, b, sun_direction, t, vis_b),
        ensures
            val(vis_a) <= val(vis_b),
    {
        let p = choose|p: Vec3<S>| #[trigger]
            self.aims_at(c, a, sun_direction, s, p) && scalar::below_is(self.max, p.y, false)
                && self.sampled(c, s, p, vis_a);
        let q = choose|p: Vec3<S>| #[trigger]
            g.aims_at(c, b, sun_direction, t, p) && scalar::below_is(g.max, p.y, false)
                && g.sampled(c, t, p, vis_b);
        self.lemma_aims_below(g, val, num, c, a, b, sun_direction, s, t, p, q);
        let v = choose|w: SampleSteps<S>| #[trigger]
            self.sample_steps(c, s, p, w) && w.vis == vis_a;
        let w = choose|w: SampleSteps<S>| #[trigger] g.sample_steps(c, t, q, w) && w.vis == vis_b;
        assert(val(c.zero) == 0 as real && val(c.one) == 1 as real);
        assert(val(c.softness) >= 0 as real);
        assert(num(v.slope) && num(w.slope));
        assert(num(v.softened) && num(w.softened));
        assert(num(v.clearance) && num(w.clearance));
        assert(num(v.ground) && num(w.ground));
        if self == g {
            self.law_one_height(Vec2 { x: p.x, y: p.z }, v.ground, w.ground);
        } else {
            g.lemma_height_rises(self, val, num, Vec2 { x: p.x, y: p.z }, w.ground, v.ground);
        }
        assert(val(v.clearance) <= val(w.clearance));
        assert(val(v.softened) <= val(w.softened));
        assert(val(v.slope) <= val(w.slope));
        assert(val(v.held) <= val(w.held));
    }

    /// A march that trails another ends no brighter, or in the dark.
    proof fn lemma_march_trails(
        self,
        g: Heightfield<'a, S>,
        val: spec_fn(S) -> real,
        num: spec_fn(S) -> bool,
        c: MarchConstants<S>,
        a: Vec3<S>,
        b: Vec3<S>,
        sun_direction: Vec3<S>,
        left: nat,
        s: MarchState<S>,
        t: MarchState<S>,
        ra: S,
        rb: S,
    )
        requires
            scalar::ordered(val, num),
            scalar::repeatable::<S>(),
            c.wf(),
            self.wf(),
            g.wf(),
            self == g || val(self.min) <= val(self.max),
            self.trails(g, val, num, a, b, s, t),
            self.measures(num, c, a, sun_direction, left, s),
            g.measures(num, c, b, sun_direction, left, t),
            self.march_gives(c, a, sun_direction, left, s, ra),
            g.march_gives(c, b, sun_direction, left, t, rb),
        ensures
            val(ra) <= val(rb) || val(ra) <= val(c.dark),
        decreases left,
    {
        self.lemma_march_range(val, num, c, a, sun_direction, left, s, ra);
        if left > 0 && rb != t.vis && !self.ends_dark(c, a, sun_direction, s, ra) {
            if ra == s.vis && (self.ends_far(c, s) || self.ends_above(c, a, sun_direction, s)) {
                lemma_trailing_end(self, g, val, num, c, a, b, sun_direction, left, s, t, rb);
            } else {
                let m = choose|next: MarchState<S>| #[trigger]
                    self.goes_on(c, a, sun_direction, s, next) && self.march_gives(
                        c,
                        a,
                        sun_direction,
                        (left - 1) as nat,
                        next,
                        ra,
                    );
                self.lemma_sample_range(val, num, c, a, sun_direction, s, m.vis);
                if g.ends_dark(c, b, sun_direction, t, rb) {
                    self.lemma_sample_trails(g, val, num, c, a, b, sun_direction, left, s, t, m.vis, rb);
                    assert(false);
                } else {
                    let n = choose|next: MarchState<S>| #[trigger]
                        g.goes_on(c, b, sun_direction, t, next) && g.march_gives(
                            c,
                            b,
                            sun_direction,
                            (left - 1) as nat,
                            next,
                            rb,
                        );
                    self.lemma_sample_trails(g, val, num, c, a, b, sun_direction, left, s, t, m.vis, n.vis);
                    assert(val(c.growth) > 0 as real);
                    assert(m.step == n.step && m.t == n.t);
                    assert(val(m.step) >= 0 as real);
                    assert(val(m.t) >= val(s.t));
                    self.lemma_march_trails(
                        g,
                        val,
                        num,
                        c,
                        a,
                        b,
                        sun_direction,
                        (left - 1) as nat,
                        m,
                        n,
                        ra,
                        rb,
                    );
                }
            }
        }
    }

    /// Raising the point never darkens it: higher up at the same place on the ground, the
    /// visibility is no less, or the lower point was dark already, at or below the
    /// visibility at which the march gives up. Holds where the scalar's operations keep the
    /// order of the values and give one result each, and both marches compute with numbers
    /// alone.
    pub proof fn law_higher_is_no_darker(
        self,
        val: spec_fn(S) -> real,
        num: spec_fn(S) -> bool,
        a: Vec3<S>,
        b: Vec3<S>,
        sun_direction: Vec3<S>,
        dark: S,
        ra: S,
        rb: S,
    )
        requires
            scalar::ordered(val, num),
            scalar::repeatable::<S>(),
            self.wf(),
            a.x == b.x,
            a.z == b.z,
            val(a.y) <= val(b.y),
            scalar::ratio_is(MARCH_DARK_PERMILLE as int, 1000, dark),
            self.measurable(num, a, sun_direction),
            self.measurable(num, b, sun_direction),
            self.sun_visibility_is(a, sun_direction, ra),
            self.sun_visibility_is(b, sun_direction, rb),
        ensures
            val(rb) >= val(ra) || val(ra) <= val(dark),
    {
        self.lemma_visibility_trails(self, val, num, a, b, sun_direction, dark, ra, rb);
    }

    /// Raising the terrain never adds light: over a terrain that is nowhere below, the
    /// visibility is no more, or dark, at or below the visibility at which the march gives
    /// up. Holds where the scalar's operations keep the order of the values and give one
    /// result each, and both marches compute with numbers alone.
    pub proof fn law_higher_terrain_adds_no_light(
        self,
        raised: Heightfield<'a, S>,
        val: spec_fn(S) -> real,
        num: spec_fn(S) -> bool,
        origin: Vec3<S>,
        sun_direction: Vec3<S>,
        dark: S,
        r: S,
        r_raised: S,
    )
        requires
            scalar::ordered(val, num),
            scalar::repeatable::<S>(),
            self.wf(),
            raised.wf(),
            val(self.min) <= val(self.max),
            self.nowhere_above(raised),
            scalar::ratio_is(MARCH_DARK_PERMILLE as int, 1000, dark),
            self.measurable(num, origin, sun_direction),
            raised.measurable(num, origin, sun_direction),
            self.sun_visibility_is(origin, sun_direction, r),
            raised.sun_visibility_is(origin, sun_direction, r_raised),
        ensures
            val(r_raised) <= val(r) || val(r_raised) <= val(dark),
    {
        raised.lemma_visibility_trails(self, val, num, origin, origin, sun_direction, dark, r_raised, r);
    }

    /// A lower point over a terrain nowhere below sees no more of the sun, or none.
    proof fn lemma_visibility_trails(
        self,
        g: Heightfield<'a, S>,
        val: spec_fn(S) -> real,
        num: spec_fn(S) -> bool,
        a: Vec3<S>,
        b: Vec3<S>,
        sun_direction: Vec3<S>,
        dark: S,
        ra: S,
        rb: S,
    )
        requires
            scalar::ordered(val, num),
            scalar::repeatable::<S>(),
            self.wf(),
            g.wf(),
            self == g || val(self.min) <= val(self.max),
            g.nowhere_above(self),
            a.x == b.x,
            a.z == b.z,
            val(a.y) <= val(b.y),
            scalar::ratio_is(MARCH_DARK_PERMILLE as int, 1000, dark),
            self.measurable(num, a, sun_direction),
            g.measurable(num, b, sun_direction),
            self.sun_visibility_is(a, sun_direction, ra),
            g.sun_visibility_is(b, sun_direction, rb),
        ensures
            val(ra) <= val(rb) || val(ra) <= val(dark),
    {
        let steps = MARCH_STEPS as nat;
        let c = choose|c: MarchConstants<S>| #[trigger]
            c.wf() && self.march_gives(c, a, sun_direction, steps, c.start(), ra);
        let d = choose|c: MarchConstants<S>| #[trigger]
            c.wf() && g.march_gives(c, b, sun_direction, steps, c.start(), rb);
        assert(c == d);
        assert(val(c.one) == 1 as real);
        assert(val(c.first_step) == 3 as real);
        let s = c.start();
        self.lemma_march_trails(g, val, num, c, a, b, sun_direction, steps, s, s, ra, rb);
    }
}

/// Where a march has gone far enough or is above all terrain, one that it trails has too.
proof fn lemma_trailing_end<'a, S: Scalar>(
    f: Heightfield<'a, S>,
    g: Heightfield<'a, S>,
    val: spec_fn(S) -> real,
    num: spec_fn(S) -> bool,
    c: MarchConstants<S>,
    a: Vec3<S>,
    b: Vec3<S>,
    sun_direction: Vec3<S>,
    left: nat,
    s: MarchState<S>,
    t: MarchState<S>,
    rb: S,
)
    requires
        scalar::ordered(val, num),
        scalar::repeatable::<S>(),
        f.trails(g, val, num, a, b, s, t),
        f.ends_far(c, s) || f.ends_above(c, a, sun_direction, s),
        left > 0,
        f.measures(num, c, a, sun_direction, left, s),
        g.measures(num, c, b, sun_direction, left, t),
        g.march_gives(c, b, sun_direction, left, t, rb),
    ensures
        rb == t.vis,
{
    if !f.ends_far(c, s) {
        let p = choose|p: Vec3<S>| #[trigger]
            f.aims_at(c, a, sun_direction, s, p) && scalar::below_is(f.max, p.y, true);
        assert forall|q: Vec3<S>| #[trigger] g.aims_at(c, b, sun_direction, t, q) implies val(
            q.y,
        ) > val(g.max) by {
            f.lemma_aims_below(g, val, num, c, a, b, sun_direction, s, t, p, q);
        }
    }
}

/// The value between two neighbours of a row, `f` of the way from the one at `i`.
pub open spec fn between(row: spec_fn(int) -> real, i: int, f: real) -> real {
    row(i) * (1 as real - f) + row(i + 1) * f
}

/// Beyond its `n` values, the row goes on with the one at its edge.
pub open spec fn goes_on_at_edges(row: spec_fn(int) -> real, n: int) -> bool {
    forall|i: int| #[trigger] row(i) == row(edge_clamped(i, n))
}

/// Where arithmetic is exact, a coordinate falls as many texels beyond the first one as it
/// is texel sizes beyond the low edge of the terrain.
pub(crate) proof fn lemma_location<S: Scalar>(
    val: spec_fn(S) -> real,
    cells: int,
    texel_size: S,
    coord: S,
    cell: i64,
    frac: S,
) -> (r: (int, real))
    requires
        scalar::exact(val),
        0 < cells <= u32::MAX,
        val(texel_size) > 0 as real,
        located(cells, texel_size, coord, cell, frac),
    ensures
        2 as real * r.1 * val(texel_size) == 2 as real * val(coord) + cells as real * val(
            texel_size,
        ),
        scalar::is_floor(r.0, r.1),
        val(frac) == r.1 - r.0 as real,
        cell == scalar::saturated(r.0, i64::MIN as int, i64::MAX as int),
{
    let w = choose|w: AxisSteps<S>| #[trigger]
        axis_steps(cells, texel_size, coord, w) && w.cell == cell && w.frac == frac;
    let n = cells as real;
    let size = val(texel_size);
    let c = val(coord);
    let scaled = val(w.scaled);
    let half = val(w.half);
    let uv = val(w.uv);
    let pos = val(w.pos);
    assert(val(w.cells) == n);
    assert(val(w.extent) == n * size);
    assert(n * size > 0 as real) by (nonlinear_arith)
        requires
            n > 0 as real,
            size > 0 as real,
    ;
    assert(scaled * (n * size) == c);
    assert(half * 2 as real == 1 as real);
    assert(pos == uv * n);
    assert(2 as real * pos * size == 2 as real * c + n * size) by (nonlinear_arith)
        requires
            scaled * (n * size) == c,
            half * 2 as real == 1 as real,
            uv == scaled + half,
            pos == uv * n,
    ;
    let k = choose|k: int| #[trigger]
        scalar::is_floor(k, val(w.pos)) && scalar::is_whole(k, val(w.base));
    assert(scalar::is_floor(k, pos) && scalar::is_whole(k, val(w.base)));
    (k, pos)
}

/// A row has the same value at a coordinate beyond the terrain and at the edge next to it.
proof fn lemma_row_goes_on<S: Scalar>(
    val: spec_fn(S) -> real,
    row: spec_fn(int) -> real,
    cells: int,
    texel_size: S,
    half: real,
    coord: S,
    i: i64,
    f: S,
    clamped: S,
    j: i64,
    g: S,
)
    requires
        scalar::exact(val),
        0 < cells <= u32::MAX,
        val(texel_size) > 0 as real,
        2 as real * half == cells as real * val(texel_size),
        goes_on_at_edges(row, cells),
        val(clamped) == scalar::held(val(coord), -half, half),
        located(cells, texel_size, coord, i, f),
        located(cells, texel_size, clamped, j, g),
    ensures
        between(row, i as int, val(f)) == between(row, j as int, val(g)),
{
    let (k, pos) = lemma_location(val, cells, texel_size, coord, i, f);
    let (m, at) = lemma_location(val, cells, texel_size, clamped, j, g);
    let n = cells as real;
    let size = val(texel_size);
    let c = val(coord);
    let d = val(clamped);
    assert(half > 0 as real) by (nonlinear_arith)
        requires
            2 as real * half == n * size,
            n > 0 as real,
            size > 0 as real,
    ;
    if c > half {
        assert(at == n && pos > n) by (nonlinear_arith)
            requires
                2 as real * at * size == 2 as real * half + n * size,
                2 as real * pos * size == 2 as real * c + n * size,
                2 as real * half == n * size,
                c > half,
                size > 0 as real,
        ;
        assert(k >= cells && m == cells);
        lemma_edge_value(row, cells, i as int, val(f));
        lemma_edge_value(row, cells, j as int, val(g));
    } else if c < -half {
        assert(at == 0 as real && pos < 0 as real) by (nonlinear_arith)
            requires
                2 as real * at * size == 2 as real * -half + n * size,
                2 as real * pos * size == 2 as real * c + n * size,
                2 as real * half == n * size,
                c < -half,
                size > 0 as real,
        ;
        assert(k < 0 && m == 0 && val(g) == 0 as real);
        lemma_edge_value(row, cells, i as int, val(f));
        let t = row(0);
        let u = row(1);
        assert(t * (1 as real - 0 as real) + u * 0 as real == t) by (nonlinear_arith);
    } else {
        assert(at == pos) by (nonlinear_arith)
            requires
                2 as real * at * size == 2 as real * c + n * size,
                2 as real * pos * size == 2 as real * c + n * size,
                size > 0 as real,
        ;
        assert(k == m);
    }
}

/// Between two positions beyond the same end of a row lies the value at its edge.
proof fn lemma_edge_value(row: spec_fn(int) -> real, cells: int, i: int, f: real)
    requires
        0 < cells,
        goes_on_at_edges(row, cells),
        i < 0 || i >= cells - 1,
    ensures
        i < 0 ==> between(row, i, f) == row(0),
        i >= cells - 1 ==> between(row, i, f) == row(cells - 1),
{
    assert(row(i) == row(edge_clamped(i, cells)));
    assert(row(i + 1) == row(edge_clamped(i + 1, cells)));
    let t = row(i);
    assert(t * (1 as real - f) + t * f == t) by (nonlinear_arith);
}

/// A value between two that are both between zero and one is so too.
proof fn lemma_between_bounds(row: spec_fn(int) -> real, i: int, f: real)
    requires
        forall|j: int| 0 as real <= #[trigger] row(j) && row(j) <= 1 as real,
        f >= 0 as real,
        f <= 1 as real,
    ensures
        between(row, i, f) >= 0 as real,
        between(row, i, f) <= 1 as real,
{
    let a = row(i);
    let b = row(i + 1);
    assert(a * (1 as real - f) + b * f >= 0 as real && a * (1 as real - f) + b * f <= 1 as real)
        by (nonlinear_arith)
        requires
            0 as real <= a,
            a <= 1 as real,
            0 as real <= b,
            b <= 1 as real,
            0 as real <= f,
            f <= 1 as real,
    ;
}

impl<'a, S: Scalar> Heightfield<'a, S> {
    /// The height of a texel, with the largest texel value as one.
    pub open spec fn level_at(self, x: int, y: int) -> real {
        self.raw_at(x, y) as real / 65535 as real
    }

    /// The height along the row `y` of texels.
    pub open spec fn row(self, y: int) -> spec_fn(int) -> real {
        |x: int| self.level_at(x, y)
    }

    /// The height along the column that is `f` of the way from the one at `x` to the next.
    pub open spec fn column(self, x: int, f: real) -> spec_fn(int) -> real {
        |y: int| between(self.row(y), x, f)
    }

    /// Where arithmetic is exact, a texel is its level.
    proof fn lemma_texel_value(self, val: spec_fn(S) -> real, x: int, y: int, r: S)
        requires
            scalar::exact(val),
            self.texel_is(x, y, r),
        ensures
            val(r) == self.level_at(x, y),
    {
        self.lemma_raw_range(x, y);
        let (raw, full) = choose|raw: S, full: S|
            {
                &&& scalar::int_is(self.raw_at(x, y), raw)
                &&& scalar::int_is(65535, full)
                &&& #[trigger] scalar::quotient_is(raw, full, r)
            };
        assert(val(full) == 65535 as real);
        assert(val(r) * 65535 as real == self.raw_at(x, y) as real);
    }

    /// Where arithmetic is exact, the height is the texels blended along x, then along z,
    /// and stretched from the lowest height to the highest.
    pub(crate) proof fn lemma_height_value(self, val: spec_fn(S) -> real, xz: Vec2<S>, w: HeightSteps<S>)
        requires
            scalar::exact(val),
            self.height_steps(xz, w),
        ensures
            val(w.height) == between(self.column(w.x0 as int, val(w.fx)), w.y0 as int, val(w.fy))
                * (val(self.max) - val(self.min)) + val(self.min),
    {
        self.lemma_texel_value(val, w.x0 as int, w.y0 as int, w.h00);
        self.lemma_texel_value(val, w.x0 + 1, w.y0 as int, w.h10);
        self.lemma_texel_value(val, w.x0 as int, w.y0 + 1, w.h01);
        self.lemma_texel_value(val, w.x0 + 1, w.y0 + 1, w.h11);
        let b = choose|b: BlendSteps<S>| #[trigger]
            blend_steps(w.h00, w.h10, w.h01, w.h11, w.fx, w.fy, b) && b.unit == w.unit;
        assert(val(b.gx) == 1 as real - val(w.fx));
        assert(val(b.gy) == 1 as real - val(w.fy));
        assert(val(b.top) == between(self.row(w.y0 as int), w.x0 as int, val(w.fx)));
        assert(val(b.bottom) == between(self.row(w.y0 + 1), w.x0 as int, val(w.fx)));
        assert(val(w.unit) == between(
            self.column(w.x0 as int, val(w.fx)),
            w.y0 as int,
            val(w.fy),
        ));
    }

    /// Where arithmetic is exact, the height is bilinear between the texels around a position.
    /// The position is `x + fx` texels from the low edge along x and `y + fy` along z, with
    /// whole `x` and `y` and fractions `fx` and `fy`. The texels `x` and `x + 1` are blended
    /// by `fx` in the rows `y` and `y + 1`, these by `fy`, and the blend is stretched from
    /// the lowest height to the highest. Texels beyond the edge are those at the edge.
    pub proof fn law_height_is_bilinear(
        self,
        val: spec_fn(S) -> real,
        xz: Vec2<S>,
        x: int,
        fx: real,
        y: int,
        fy: real,
        r: S,
    )
        requires
            scalar::exact(val),
            self.wf(),
            val(self.texel_size) > 0 as real,
            stands_at(self.width as int, val(self.texel_size), val(xz.x), x, fx),
            stands_at(self.height as int, val(self.texel_size), val(xz.y), y, fy),
            self.height_is(xz, r),
        ensures
            ({
                let low = self.level_at(x, y) * (1 as real - fx) + self.level_at(x + 1, y) * fx;
                let high = self.level_at(x, y + 1) * (1 as real - fx) + self.level_at(x + 1, y + 1)
                    * fx;
                let blend = low * (1 as real - fy) + high * fy;
                val(r) == blend * (val(self.max) - val(self.min)) + val(self.min)
            }),
    {
        let w = choose|w: HeightSteps<S>| #[trigger] self.height_steps(xz, w) && w.height == r;
        self.lemma_height_value(val, xz, w);
        lemma_stands(val, self.width as int, self.texel_size, xz.x, x, fx, w.x0, w.fx);
        lemma_stands(val, self.height as int, self.texel_size, xz.y, y, fy, w.y0, w.fy);
        self.lemma_level_saturates(w.x0 as int, x, w.y0 as int, y);
    }

    /// A texel index that is held in 64 bits reads the same texel.
    pub(crate) proof fn lemma_level_saturates(self, i: int, x: int, j: int, y: int)
        requires
            self.wf(),
            i == scalar::saturated(x, i64::MIN as int, i64::MAX as int),
            j == scalar::saturated(y, i64::MIN as int, i64::MAX as int),
        ensures
            self.level_at(i, j) == self.level_at(x, y),
            self.level_at(i + 1, j) == self.level_at(x + 1, y),
            self.level_at(i, j + 1) == self.level_at(x, y + 1),
            self.level_at(i + 1, j + 1) == self.level_at(x + 1, y + 1),
    {
    }

    /// Where arithmetic is exact, the terrain stays between its lowest and its highest
    /// height everywhere.
    pub proof fn law_height_stays_in_bounds(self, val: spec_fn(S) -> real, xz: Vec2<S>, r: S)
        requires
            scalar::exact(val),
            self.wf(),
            val(self.texel_size) > 0 as real,
            val(self.min) <= val(self.max),
            self.height_is(xz, r),
        ensures
            val(self.min) <= val(r),
            val(r) <= val(self.max),
    {
        let w = choose|w: HeightSteps<S>| #[trigger] self.height_steps(xz, w) && w.height == r;
        self.lemma_height_value(val, xz, w);
        let (i, x) = lemma_location(val, self.width as int, self.texel_size, xz.x, w.x0, w.fx);
        let (j, y) = lemma_location(val, self.height as int, self.texel_size, xz.y, w.y0, w.fy);
        let column = self.column(w.x0 as int, val(w.fx));
        assert forall|y: int| 0 as real <= #[trigger] column(y) && column(y) <= 1 as real by {
            let row = self.row(y);
            assert forall|x: int| 0 as real <= #[trigger] row(x) && row(x) <= 1 as real by {
                self.lemma_raw_range(x, y);
            }
            lemma_between_bounds(row, w.x0 as int, val(w.fx));
        }
        lemma_between_bounds(column, w.y0 as int, val(w.fy));
        let u = between(column, w.y0 as int, val(w.fy));
        let lo = val(self.min);
        let hi = val(self.max);
        assert(lo <= u * (hi - lo) + lo && u * (hi - lo) + lo <= hi) by (nonlinear_arith)
            requires
                0 as real <= u,
                u <= 1 as real,
                lo <= hi,
        ;
    }

    /// Where arithmetic is exact, the terrain goes through its texels: at the place of the
    /// texel in column `x` and row `y`, counted from the low corner of the terrain, the height
    /// is that texel's share of the way from the lowest height to the highest.
    pub proof fn law_height_at_a_texel(
        self,
        val: spec_fn(S) -> real,
        xz: Vec2<S>,
        x: int,
        y: int,
        r: S,
    )
        requires
            scalar::exact(val),
            self.wf(),
            val(self.texel_size) > 0 as real,
            0 <= x < self.width,
            0 <= y < self.height,
            2 as real * val(xz.x) == (2 * x - self.width) as real * val(self.texel_size),
            2 as real * val(xz.y) == (2 * y - self.height) as real * val(self.texel_size),
            self.height_is(xz, r),
        ensures
            val(r) == self.level_at(x, y) * (val(self.max) - val(self.min)) + val(self.min),
    {
        let size = val(self.texel_size);
        lemma_stands_on(self.width as int, size, val(xz.x), x);
        lemma_stands_on(self.height as int, size, val(xz.y), y);
        self.law_height_is_bilinear(val, xz, x, 0 as real, y, 0 as real, r);
        let (a, b) = (self.level_at(x, y), self.level_at(x + 1, y));
        let (c, d) = (self.level_at(x, y + 1), self.level_at(x + 1, y + 1));
        let (one, zero) = (1 as real, 0 as real);
        assert((a * (one - zero) + b * zero) * (one - zero) + (c * (one - zero) + d * zero) * zero
            == a) by (nonlinear_arith)
            requires
                one == 1 as real,
                zero == 0 as real,
        ;
    }

    /// Where arithmetic is exact, a position lies over the heightmap exactly if it is no
    /// farther from the origin than half a side, along x and along z, at any height.
    pub proof fn law_contains_the_extent(self, val: spec_fn(S) -> real, p: Vec3<S>, r: bool)
        requires
            scalar::exact(val),
            self.sized(),
            self.contains_is(p, r),
        ensures
            ({
                let side_x = self.width as real * val(self.texel_size);
                let side_z = self.height as real * val(self.texel_size);
                r == (-side_x <= 2 as real * val(p.x) && 2 as real * val(p.x) <= side_x && -side_z
                    <= 2 as real * val(p.z) && 2 as real * val(p.z) <= side_z)
            }),
    {
        let w = choose|w: ContainsSteps<S>| #[trigger]
            self.contains_steps(p, w) && r == (w.above_low_x && w.below_high_x && w.above_low_z
                && w.below_high_z);
        lemma_half_side_value(val, self.width as int, self.texel_size, w.half.x);
        lemma_half_side_value(val, self.height as int, self.texel_size, w.half.y);
    }

    /// Where arithmetic is exact, the height at the edge goes on beyond the terrain: the
    /// height at any position is the one at the nearest position of the terrain, which is
    /// the position held between the half extents on both axes.
    pub proof fn law_edge_height_goes_on(
        self,
        val: spec_fn(S) -> real,
        half: Vec2<S>,
        xz: Vec2<S>,
        nearest: Vec2<S>,
        a: S,
        b: S,
    )
        requires
            scalar::exact(val),
            self.wf(),
            val(self.texel_size) > 0 as real,
            self.half_extent_is(half),
            val(nearest.x) == scalar::held(val(xz.x), -val(half.x), val(half.x)),
            val(nearest.y) == scalar::held(val(xz.y), -val(half.y), val(half.y)),
            self.height_is(xz, a),
            self.height_is(nearest, b),
        ensures
            val(a) == val(b),
    {
        let v = choose|w: HeightSteps<S>| #[trigger] self.height_steps(xz, w) && w.height == a;
        let w = choose|w: HeightSteps<S>| #[trigger]
            self.height_steps(nearest, w) && w.height == b;
        self.lemma_height_value(val, xz, v);
        self.lemma_height_value(val, nearest, w);
        lemma_half_side_value(val, self.width as int, self.texel_size, half.x);
        lemma_half_side_value(val, self.height as int, self.texel_size, half.y);
        let before = self.column(v.x0 as int, val(v.fx));
        let after = self.column(w.x0 as int, val(w.fx));
        assert forall|y: int| #[trigger] before(y) == after(y) by {
            let row = self.row(y);
            assert(goes_on_at_edges(row, self.width as int));
            lemma_row_goes_on(
                val,
                row,
                self.width as int,
                self.texel_size,
                val(half.x),
                xz.x,
                v.x0,
                v.fx,
                nearest.x,
                w.x0,
                w.fx,
            );
        }
        assert forall|y: int| #[trigger] after(y) == after(
            edge_clamped(y, self.height as int),
        ) by {
            assert(self.row(y) =~= self.row(edge_clamped(y, self.height as int)));
        }
        lemma_row_goes_on(
            val,
            after,
            self.height as int,
            self.texel_size,
            val(half.y),
            xz.y,
            v.y0,
            v.fy,
            nearest.y,
            w.y0,
            w.fy,
        );
        assert(between(before, v.y0 as int, val(v.fy)) == between(after, v.y0 as int, val(v.fy)));
    }
}

/// Where arithmetic is exact, half a side is half of its texels.
pub(crate) proof fn lemma_half_side_value<S: Scalar>(
    val: spec_fn(S) -> real,
    cells: int,
    texel_size: S,
    r: S,
)
    requires
        scalar::exact(val),
        0 <= cells <= u32::MAX,
        Heightfield::half_side_is(cells, texel_size, r),
    ensures
        2 as real * val(r) == cells as real * val(texel_size),
{
    let (n, side, half) = choose|n: S, side: S, half: S|
        #![trigger scalar::int_is(cells, n), scalar::product_is(side, half, r)]
        {
            &&& scalar::int_is(cells, n)
            &&& scalar::product_is(n, texel_size, side)
            &&& scalar::ratio_is(1, 2, half)
            &&& scalar::product_is(side, half, r)
        };
    let h = val(half);
    let whole = val(side);
    assert(h * 2 as real == 1 as real);
    assert(2 as real * (whole * h) == whole) by (nonlinear_arith)
        requires
            h * 2 as real == 1 as real,
    ;
}

/// `coord` is `x` texels and the fraction `f` of one from the low edge of a terrain of
/// `cells` texels that is centered on the origin.
pub open spec fn stands_at(cells: int, texel_size: real, coord: real, x: int, f: real) -> bool {
    &&& f >= 0 as real
    &&& f < 1 as real
    &&& 2 as real * coord == 2 as real * (x as real + f) * texel_size - cells as real * texel_size
}

/// A coordinate falls on the texel that it stands at.
proof fn lemma_stands<S: Scalar>(
    val: spec_fn(S) -> real,
    cells: int,
    texel_size: S,
    coord: S,
    x: int,
    f: real,
    cell: i64,
    frac: S,
)
    requires
        scalar::exact(val),
        0 < cells <= u32::MAX,
        val(texel_size) > 0 as real,
        stands_at(cells, val(texel_size), val(coord), x, f),
        located(cells, texel_size, coord, cell, frac),
    ensures
        cell == scalar::saturated(x, i64::MIN as int, i64::MAX as int),
        val(frac) == f,
{
    let (k, pos) = lemma_location(val, cells, texel_size, coord, cell, frac);
    let size = val(texel_size);
    let c = val(coord);
    let n = cells as real;
    let at = x as real + f;
    assert(pos == at) by (nonlinear_arith)
        requires
            2 as real * pos * size == 2 as real * c + n * size,
            2 as real * c == 2 as real * at * size - n * size,
            size > 0 as real,
    ;
    assert(k == x);
}

/// The place of a texel stands on that texel.
proof fn lemma_stands_on(cells: int, size: real, coord: real, x: int)
    requires
        2 as real * coord == (2 * x - cells) as real * size,
    ensures
        stands_at(cells, size, coord, x, 0 as real),
{
    let n = cells as real;
    let at = x as real;
    assert((2 * x - cells) as real == 2 as real * at - n);
    assert((2 as real * at - n) * size == 2 as real * (at + 0 as real) * size - n * size)
        by (nonlinear_arith);
}

impl<'a, S: Scalar> Heightfield<'a, S> {
    /// A heightfield is over the bytes and the sizes of its image, with the texel size and
    /// the height bounds that it was given. Only an image of one 16-bit channel that is
    /// resident can be seen as one.
    pub proof fn law_view_is_of_its_image(image: HeightImage<'a>, texel_size: S, min: S, max: S)
        ensures
            image.is_heightmap() <==> image.format == TextureFormat::R16Unorm && image.data is Some,
            ({
                let field = Self::over_image(image, texel_size, min, max);
                &&& image.data is Some ==> Some(field.texels) == image.data
                &&& field.width == image.width
                &&& field.height == image.height
                &&& field.texel_size == texel_size
                &&& field.min == min
                &&& field.max == max
            }),
    {
    }

    /// The texel in column `x` and row `y` is the two bytes at its place, row by row, the low
    /// byte first.
    pub proof fn law_texel_is_two_bytes(self, x: int, y: int)
        requires
            self.wf(),
            0 <= x < self.width,
            0 <= y < self.height,
        ensures
            ({
                let place = y * self.width + x;
                self.raw_at(x, y) == self.texels@[2 * place] + 256 * self.texels@[2 * place + 1]
            }),
    {
        assert(edge_clamped(x, self.width as int) == x);
        assert(edge_clamped(y, self.height as int) == y);
    }

    /// Beyond each edge of the image, the texels at that edge go on.
    pub proof fn law_texels_go_on_at_edges(self, x: int, y: int)
        requires
            self.wf(),
        ensures
            x < 0 ==> self.raw_at(x, y) == self.raw_at(0, y),
            x >= self.width ==> self.raw_at(x, y) == self.raw_at(self.width - 1, y),
            y < 0 ==> self.raw_at(x, y) == self.raw_at(x, 0),
            y >= self.height ==> self.raw_at(x, y) == self.raw_at(x, self.height - 1),
    {
    }

    /// Where arithmetic is exact, the height of a texel is its share of the largest 16-bit
    /// value.
    pub proof fn law_texel_is_a_share(self, val: spec_fn(S) -> real, x: int, y: int, r: S)
        requires
            scalar::exact(val),
            self.texel_is(x, y, r),
        ensures
            val(r) * 65535 as real == self.raw_at(x, y) as real,
            0 as real <= val(r) && val(r) <= 1 as real,
    {
        self.lemma_texel_value(val, x, y, r);
        self.lemma_raw_range(x, y);
    }

    /// Where arithmetic is exact, half the extent is half the texels of each side, times
    /// their size.
    pub proof fn law_half_extent_is_half_the_texels(self, val: spec_fn(S) -> real, half: Vec2<S>)
        requires
            scalar::exact(val),
            self.sized(),
            self.half_extent_is(half),
        ensures
            2 as real * val(half.x) == self.width as real * val(self.texel_size),
            2 as real * val(half.y) == self.height as real * val(self.texel_size),
    {
        lemma_half_side_value(val, self.width as int, self.texel_size, half.x);
        lemma_half_side_value(val, self.height as int, self.texel_size, half.y);
    }
}

} // verus!
