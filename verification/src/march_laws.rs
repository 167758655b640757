//! What the march towards the sun finds: where it samples, and what each sample says of the
//! light.

use vstd::prelude::*;

use crate::heightfield::{
    point_at, HeightSteps, Heightfield, MarchConstants, MarchState, SampleSteps,
    MARCH_STEPS,
};
use crate::heightfield_laws::{lemma_location, stands_at};
use crate::scalar::{self, Scalar, Vec2, Vec3};

verus! {

/// Length of the step to sample `k`: three for the first, and twelve hundredths more from
/// each to the next.
pub open spec fn step_length(k: nat) -> real
    decreases k,
{
    if k == 0 {
        3 as real
    } else {
        step_length((k - 1) as nat) * (112 as real / 100 as real)
    }
}

/// Distance of sample `k`.
pub open spec fn distance(k: nat) -> real
    decreases k,
{
    if k == 0 {
        step_length(0)
    } else {
        distance((k - 1) as nat) + step_length(k)
    }
}

/// The coordinate at sample `k` of a ray, along one axis.
pub open spec fn on_ray(origin: real, direction: real, k: nat) -> real {
    origin + direction * distance(k)
}

/// How much light passes `clearance` above the ground at the distance `t`: ten times the
/// clearance by the distance, but no less than none and no more than all.
pub open spec fn light_past(clearance: real, t: real) -> real {
    scalar::held(10 as real * clearance / t, 0 as real, 1 as real)
}

/// How much light passes sample `k` of a ray that starts at the height `y` and rises by
/// `rise`, over ground at `h`.
pub open spec fn passing(y: real, rise: real, k: nat, h: real) -> real {
    light_past(on_ray(y, rise, k) - h, distance(k))
}

impl<'a, S: Scalar> Heightfield<'a, S> {
    /// The position `(x, z)` is the fractions `fx` and `fz` beyond the texel in column `i`
    /// and row `j`.
    pub open spec fn falls_on(
        self,
        val: spec_fn(S) -> real,
        x: real,
        z: real,
        i: int,
        fx: real,
        j: int,
        fz: real,
    ) -> bool {
        &&& stands_at(self.width as int, val(self.texel_size), x, i, fx)
        &&& stands_at(self.height as int, val(self.texel_size), z, j, fz)
    }

    /// The ground at `(x, z)` is at the height `h`: bilinear between the four texels around
    /// the position, from the lowest height for the texel value 0 to the highest for the
    /// largest.
    pub open spec fn ground_is(self, val: spec_fn(S) -> real, x: real, z: real, h: real) -> bool {
        exists|i: int, fx: real, j: int, fz: real| #[trigger]
            self.falls_on(val, x, z, i, fx, j, fz) && {
                let full = 65535 as real;
                let near = self.raw_at(i, j) as real / full * (1 as real - fx) + self.raw_at(
                    i + 1,
                    j,
                ) as real / full * fx;
                let far = self.raw_at(i, j + 1) as real / full * (1 as real - fx) + self.raw_at(
                    i + 1,
                    j + 1,
                ) as real / full * fx;
                let blend = near * (1 as real - fz) + far * fz;
                h == blend * (val(self.max) - val(self.min)) + val(self.min)
            }
    }

    /// Where arithmetic is exact, the height at a position is that of the ground there.
    proof fn lemma_height_is_ground(self, val: spec_fn(S) -> real, xz: Vec2<S>, r: S)
        requires
            scalar::exact(val),
            self.wf(),
            val(self.texel_size) > 0 as real,
            self.height_is(xz, r),
        ensures
            self.ground_is(val, val(xz.x), val(xz.y), val(r)),
            forall|h: real| #[trigger]
                self.ground_is(val, val(xz.x), val(xz.y), h) ==> h == val(r),
    {
        let w = choose|w: HeightSteps<S>| #[trigger] self.height_steps(xz, w) && w.height == r;
        let (i, x) = lemma_location(val, self.width as int, self.texel_size, xz.x, w.x0, w.fx);
        let (j, z) = lemma_location(val, self.height as int, self.texel_size, xz.y, w.y0, w.fy);
        let (fx, fz) = (x - i as real, z - j as real);
        lemma_stands_from(self.width as int, val(self.texel_size), val(xz.x), i, fx, x);
        lemma_stands_from(self.height as int, val(self.texel_size), val(xz.y), j, fz, z);
        self.law_height_is_bilinear(val, xz, i, fx, j, fz, r);
        assert(self.falls_on(val, val(xz.x), val(xz.y), i, fx, j, fz));
        assert forall|h: real| #[trigger]
            self.ground_is(val, val(xz.x), val(xz.y), h) implies h == val(r) by {
            let (m, gx, n, gz) = choose|m: int, gx: real, n: int, gz: real| #[trigger]
                self.falls_on(val, val(xz.x), val(xz.y), m, gx, n, gz) && {
                    let full = 65535 as real;
                    let near = self.raw_at(m, n) as real / full * (1 as real - gx) + self.raw_at(
                        m + 1,
                        n,
                    ) as real / full * gx;
                    let far = self.raw_at(m, n + 1) as real / full * (1 as real - gx)
                        + self.raw_at(m + 1, n + 1) as real / full * gx;
                    let blend = near * (1 as real - gz) + far * gz;
                    h == blend * (val(self.max) - val(self.min)) + val(self.min)
                };
            self.law_height_is_bilinear(val, xz, m, gx, n, gz, r);
        }
    }
}

/// A position in texels gives the texel that a coordinate stands at.
proof fn lemma_stands_from(cells: int, size: real, coord: real, i: int, f: real, pos: real)
    requires
        2 as real * pos * size == 2 as real * coord + cells as real * size,
        scalar::is_floor(i, pos),
        f == pos - i as real,
    ensures
        stands_at(cells, size, coord, i, f),
{
    assert(i as real + f == pos);
}

/// Where arithmetic is exact, every sample of the march lies on the ray from its origin
/// towards the sun: along each axis it is as far from the origin as the direction says,
/// times the distance, whatever the signs.
pub proof fn law_samples_lie_on_the_ray<S: Scalar>(
    val: spec_fn(S) -> real,
    origin: Vec3<S>,
    direction: Vec3<S>,
    t: S,
    p: Vec3<S>,
)
    requires
        scalar::exact(val),
        point_at(origin, direction, t, p),
    ensures
        val(p.x) == val(origin.x) + val(direction.x) * val(t),
        val(p.y) == val(origin.y) + val(direction.y) * val(t),
        val(p.z) == val(origin.z) + val(direction.z) * val(t),
{
}

/// Steps are never negative, and distances are positive.
proof fn lemma_distances(k: nat)
    ensures
        step_length(k) > 0 as real,
        distance(k) > 0 as real,
    decreases k,
{
    if k > 0 {
        lemma_distances((k - 1) as nat);
        let s = step_length((k - 1) as nat);
        assert(s * (112 as real / 100 as real) > 0 as real) by (nonlinear_arith)
            requires
                s > 0 as real,
        ;
    }
}

impl<'a, S: Scalar> Heightfield<'a, S> {
    /// The march stands before sample `k`.
    spec fn at_sample(self, val: spec_fn(S) -> real, k: nat, s: MarchState<S>) -> bool {
        val(s.t) == distance(k) && val(s.step) == step_length(k)
    }

    /// Where arithmetic is exact, a sample leaves the lesser of the light so far and the light
    /// past the ground there.
    proof fn lemma_sample_value(
        self,
        val: spec_fn(S) -> real,
        c: MarchConstants<S>,
        origin: Vec3<S>,
        sun: Vec3<S>,
        k: nat,
        s: MarchState<S>,
        vis: S,
    ) -> (h: real)
        requires
            scalar::exact(val),
            self.wf(),
            val(self.texel_size) > 0 as real,
            c.wf(),
            self.at_sample(val, k, s),
            self.dims_to(c, origin, sun, s, vis),
        ensures
            distance(k) <= 6000 as real,
            on_ray(val(origin.y), val(sun.y), k) <= val(self.max),
            self.ground_is(
                val,
                on_ray(val(origin.x), val(sun.x), k),
                on_ray(val(origin.z), val(sun.z), k),
                h,
            ),
            forall|g: real| #[trigger]
                self.ground_is(
                    val,
                    on_ray(val(origin.x), val(sun.x), k),
                    on_ray(val(origin.z), val(sun.z), k),
                    g,
                ) ==> g == h,
            ({
                let light = light_past(on_ray(val(origin.y), val(sun.y), k) - h, distance(k));
                val(vis) == if val(s.vis) <= light {
                    val(s.vis)
                } else {
                    light
                }
            }),
    {
        let p = choose|p: Vec3<S>| #[trigger]
            self.aims_at(c, origin, sun, s, p) && scalar::below_is(self.max, p.y, false)
                && self.sampled(c, s, p, vis);
        law_samples_lie_on_the_ray(val, origin, sun, s.t, p);
        let w = choose|w: SampleSteps<S>| #[trigger] self.sample_steps(c, s, p, w) && w.vis == vis;
        self.lemma_height_is_ground(val, Vec2 { x: p.x, y: p.z }, w.ground);
        lemma_distances(k);
        assert(val(c.zero) == 0 as real && val(c.one) == 1 as real);
        let t = distance(k);
        let clearance = val(w.clearance);
        let slope = val(w.slope);
        assert(val(w.softened) == 10 as real * clearance);
        assert(slope * t == 10 as real * clearance);
        assert(slope == 10 as real * clearance / t) by (nonlinear_arith)
            requires
                slope * t == 10 as real * clearance,
                t > 0 as real,
        ;
        val(w.ground)
    }

    /// Where arithmetic is exact, a march that goes on stands before the next sample.
    proof fn lemma_next_sample(
        self,
        val: spec_fn(S) -> real,
        c: MarchConstants<S>,
        origin: Vec3<S>,
        sun: Vec3<S>,
        k: nat,
        s: MarchState<S>,
        next: MarchState<S>,
    )
        requires
            scalar::exact(val),
            c.wf(),
            self.at_sample(val, k, s),
            self.goes_on(c, origin, sun, s, next),
        ensures
            self.at_sample(val, k + 1, next),
    {
        let g = val(c.growth);
        assert(g * 100 as real == 112 as real);
        assert(g == 112 as real / 100 as real);
    }

    /// Sample `k` is taken unless the march has grown dark before: it and all before it are
    /// near enough and not above the highest height. The ground at sample `j` is at `h(j)`.
    pub open spec fn within_reach(
        self,
        val: spec_fn(S) -> real,
        origin: Vec3<S>,
        sun: Vec3<S>,
        k: nat,
        h: spec_fn(nat) -> real,
    ) -> bool {
        forall|j: nat| j <= k ==> #[trigger] self.samples_over(val, origin, sun, j, h(j))
    }

    /// Sample `k` is near enough and not above the highest height, over ground at `h`.
    pub open spec fn samples_over(
        self,
        val: spec_fn(S) -> real,
        origin: Vec3<S>,
        sun: Vec3<S>,
        k: nat,
        h: real,
    ) -> bool {
        &&& distance(k) <= 6000 as real
        &&& on_ray(val(origin.y), val(sun.y), k) <= val(self.max)
        &&& self.ground_is(
            val,
            on_ray(val(origin.x), val(sun.x), k),
            on_ray(val(origin.z), val(sun.z), k),
            h,
        )
    }

    /// A march that is still light at every sample before sample `k` lets through no more than
    /// sample `k` does.
    proof fn lemma_sample_dims(
        self,
        val: spec_fn(S) -> real,
        c: MarchConstants<S>,
        origin: Vec3<S>,
        sun: Vec3<S>,
        i: nat,
        k: nat,
        h: spec_fn(nat) -> real,
        s: MarchState<S>,
        r: S,
    )
        requires
            scalar::exact(val),
            self.wf(),
            val(self.texel_size) > 0 as real,
            c.wf(),
            i <= k < 96,
            self.at_sample(val, i, s),
            val(s.vis) * 1000 as real > 1 as real,
            self.march_gives(c, origin, sun, (96 - i) as nat, s, r),
            self.within_reach(val, origin, sun, k, h),
            forall|j: nat|
                j < k ==> #[trigger] passing(val(origin.y), val(sun.y), j, h(j)) * 1000 as real
                    > 1 as real,
        ensures
            val(r) <= passing(val(origin.y), val(sun.y), k, h(k)),
        decreases k - i,
    {
        let left = (96 - i) as nat;
        assert(self.samples_over(val, origin, sun, i, h(i)));
        assert(i < k ==> passing(val(origin.y), val(sun.y), i, h(i)) * 1000 as real > 1 as real);
        assert(val(c.max_dist) == 6000 as real);
        assert(val(c.dark) * 1000 as real == 1 as real);
        assert(!self.ends_far(c, s));
        assert(!self.ends_above(c, origin, sun, s)) by {
            assert forall|p: Vec3<S>| #[trigger]
                self.aims_at(c, origin, sun, s, p) implies !scalar::below_is(
                self.max,
                p.y,
                true,
            ) by {
                law_samples_lie_on_the_ray(val, origin, sun, s.t, p);
            }
        }
        scalar::law_exact_is_ordered(val);
        if self.ends_dark(c, origin, sun, s, r) {
            let g = self.lemma_sample_value(val, c, origin, sun, i, s, r);
            assert(g == h(i));
        } else {
            let next = choose|next: MarchState<S>| #[trigger]
                self.goes_on(c, origin, sun, s, next) && self.march_gives(
                    c,
                    origin,
                    sun,
                    (left - 1) as nat,
                    next,
                    r,
                );
            let g = self.lemma_sample_value(val, c, origin, sun, i, s, next.vis);
            assert(g == h(i));
            self.lemma_next_sample(val, c, origin, sun, i, s, next);
            if i == k {
                self.lemma_march_range(
                    val,
                    scalar::everything::<S>(),
                    c,
                    origin,
                    sun,
                    (left - 1) as nat,
                    next,
                    r,
                );
            } else {
                self.lemma_sample_dims(val, c, origin, sun, i + 1, k, h, next, r);
            }
        }
    }

    /// Where arithmetic is exact, no more light reaches a point than passes the ground at any
    /// sample that the march takes: the samples, up to ninety-six, on the ray towards the
    /// sun, as long as they are no farther than six thousand, not above the highest height,
    /// and more than one thousandth of the light has passed every sample before.
    pub proof fn law_every_sample_dims(
        self,
        val: spec_fn(S) -> real,
        origin: Vec3<S>,
        sun: Vec3<S>,
        k: nat,
        h: spec_fn(nat) -> real,
        r: S,
    )
        requires
            scalar::exact(val),
            self.wf(),
            val(self.texel_size) > 0 as real,
            k < 96,
            self.within_reach(val, origin, sun, k, h),
            forall|j: nat|
                j < k ==> #[trigger] passing(val(origin.y), val(sun.y), j, h(j)) * 1000 as real
                    > 1 as real,
            self.sun_visibility_is(origin, sun, r),
        ensures
            val(r) <= passing(val(origin.y), val(sun.y), k, h(k)),
    {
        let c = choose|c: MarchConstants<S>| #[trigger]
            c.wf() && self.march_gives(c, origin, sun, MARCH_STEPS as nat, c.start(), r);
        assert(val(c.one) == 1 as real);
        self.lemma_sample_dims(val, c, origin, sun, 0, k, h, c.start(), r);
    }

    /// Where arithmetic is exact, a sample within reach that is at or below the ground leaves
    /// the point in the dark: with no light at all if more than one thousandth of it has
    /// passed every sample before, and otherwise with no more than one thousandth.
    pub proof fn law_ground_in_the_way_casts_shadow(
        self,
        val: spec_fn(S) -> real,
        origin: Vec3<S>,
        sun: Vec3<S>,
        k: nat,
        h: spec_fn(nat) -> real,
        r: S,
    )
        requires
            scalar::exact(val),
            self.wf(),
            val(self.texel_size) > 0 as real,
            k < 96,
            self.within_reach(val, origin, sun, k, h),
            on_ray(val(origin.y), val(sun.y), k) <= h(k),
            self.sun_visibility_is(origin, sun, r),
        ensures
            val(r) * 1000 as real <= 1 as real,
            (forall|j: nat|
                j < k ==> #[trigger] passing(val(origin.y), val(sun.y), j, h(j)) * 1000 as real
                    > 1 as real) ==> val(r) == 0 as real,
    {
        let y = on_ray(val(origin.y), val(sun.y), k);
        lemma_no_light_below(y - h(k), k);
        scalar::law_exact_is_ordered(val);
        self.law_visibility_is_a_share(val, scalar::everything::<S>(), origin, sun, r);
        self.lemma_dims_or_dark(val, origin, sun, k, h, r);
        if forall|j: nat|
            j < k ==> #[trigger] passing(val(origin.y), val(sun.y), j, h(j)) * 1000 as real
                > 1 as real {
            self.law_every_sample_dims(val, origin, sun, k, h, r);
        }
    }

    /// A sample within reach dims, or the march has grown dark before it.
    proof fn lemma_dims_or_dark(
        self,
        val: spec_fn(S) -> real,
        origin: Vec3<S>,
        sun: Vec3<S>,
        k: nat,
        h: spec_fn(nat) -> real,
        r: S,
    )
        requires
            scalar::exact(val),
            self.wf(),
            val(self.texel_size) > 0 as real,
            k < 96,
            self.within_reach(val, origin, sun, k, h),
            self.sun_visibility_is(origin, sun, r),
        ensures
            val(r) <= passing(val(origin.y), val(sun.y), k, h(k))
                || val(r) * 1000 as real <= 1 as real,
        decreases k,
    {
        if forall|j: nat|
            j < k ==> #[trigger] passing(val(origin.y), val(sun.y), j, h(j)) * 1000 as real
                > 1 as real {
            self.law_every_sample_dims(val, origin, sun, k, h, r);
        } else {
            let j = choose|j: nat|
                j < k && !(#[trigger] passing(val(origin.y), val(sun.y), j, h(j)) * 1000 as real
                    > 1 as real);
            assert(self.within_reach(val, origin, sun, j, h));
            self.lemma_dims_or_dark(val, origin, sun, j, h, r);
        }
    }

    /// Sample `k` is within reach, more than one thousandth of the light has passed every
    /// sample before, and `light` passes sample `k`.
    pub open spec fn passes(
        self,
        val: spec_fn(S) -> real,
        origin: Vec3<S>,
        sun: Vec3<S>,
        k: nat,
        h: spec_fn(nat) -> real,
        light: real,
    ) -> bool {
        &&& self.within_reach(val, origin, sun, k, h)
        &&& forall|j: nat|
            j < k ==> #[trigger] passing(val(origin.y), val(sun.y), j, h(j)) * 1000 as real
                > 1 as real
        &&& light == passing(val(origin.y), val(sun.y), k, h(k))
    }

    /// The march has taken all samples before sample `i`, over ground at `h`, and is light.
    spec fn has_passed(
        self,
        val: spec_fn(S) -> real,
        origin: Vec3<S>,
        sun: Vec3<S>,
        i: nat,
        h: spec_fn(nat) -> real,
    ) -> bool {
        forall|j: nat|
            #![trigger h(j)]
            j < i ==> self.samples_over(val, origin, sun, j, h(j)) && passing(
                val(origin.y),
                val(sun.y),
                j,
                h(j),
            ) * 1000 as real > 1 as real
    }

    /// A march that has passed sample `i` over ground at `g` has passed one more.
    proof fn lemma_passes_on(
        self,
        val: spec_fn(S) -> real,
        origin: Vec3<S>,
        sun: Vec3<S>,
        i: nat,
        h: spec_fn(nat) -> real,
        g: real,
    ) -> (on: spec_fn(nat) -> real)
        requires
            self.has_passed(val, origin, sun, i, h),
            self.samples_over(val, origin, sun, i, g),
        ensures
            self.passes(val, origin, sun, i, on, passing(val(origin.y), val(sun.y), i, g)),
            passing(val(origin.y), val(sun.y), i, g) * 1000 as real > 1 as real ==> self.has_passed(
                val,
                origin,
                sun,
                i + 1,
                on,
            ),
    {
        let on = |j: nat|
            if j == i {
                g
            } else {
                h(j)
            };
        assert forall|j: nat| j < i implies on(j) == h(j) && self.samples_over(
            val,
            origin,
            sun,
            j,
            #[trigger] on(j),
        ) && passing(val(origin.y), val(sun.y), j, on(j)) * 1000 as real > 1 as real by {
            assert(on(j) == h(j));
        }
        assert(on(i) == g);
        assert(self.within_reach(val, origin, sun, i, on)) by {
            assert forall|j: nat| j <= i implies #[trigger] self.samples_over(
                val,
                origin,
                sun,
                j,
                on(j),
            ) by {
                if j < i {
                    assert(on(j) == h(j));
                }
            }
        }
        on
    }

    /// A march from sample `i` leaves the light that it had, or what passes a sample.
    proof fn lemma_light_comes_from(
        self,
        val: spec_fn(S) -> real,
        c: MarchConstants<S>,
        origin: Vec3<S>,
        sun: Vec3<S>,
        i: nat,
        h: spec_fn(nat) -> real,
        s: MarchState<S>,
        r: S,
    )
        requires
            scalar::exact(val),
            self.wf(),
            val(self.texel_size) > 0 as real,
            c.wf(),
            i <= 96,
            self.at_sample(val, i, s),
            self.has_passed(val, origin, sun, i, h),
            self.march_gives(c, origin, sun, (96 - i) as nat, s, r),
        ensures
            val(r) == val(s.vis) || exists|k: nat, f: spec_fn(nat) -> real|
                k < 96 && #[trigger] self.passes(val, origin, sun, k, f, val(r)),
        decreases 96 - i,
    {
        let left = (96 - i) as nat;
        if left > 0 && r != s.vis {
            if self.ends_dark(c, origin, sun, s, r) {
                let g = self.lemma_sample_value(val, c, origin, sun, i, s, r);
                let on = self.lemma_passes_on(val, origin, sun, i, h, g);
                if val(r) != val(s.vis) {
                    assert(self.passes(val, origin, sun, i, on, val(r)));
                }
            } else {
                let next = choose|next: MarchState<S>| #[trigger]
                    self.goes_on(c, origin, sun, s, next) && self.march_gives(
                        c,
                        origin,
                        sun,
                        (left - 1) as nat,
                        next,
                        r,
                    );
                let g = self.lemma_sample_value(val, c, origin, sun, i, s, next.vis);
                self.lemma_next_sample(val, c, origin, sun, i, s, next);
                let on = self.lemma_passes_on(val, origin, sun, i, h, g);
                assert(val(c.dark) * 1000 as real == 1 as real);
                assert(val(next.vis) > val(c.dark));
                self.lemma_light_comes_from(val, c, origin, sun, i + 1, on, next, r);
                if val(r) == val(next.vis) && val(r) != val(s.vis) {
                    assert(self.passes(val, origin, sun, i, on, val(r)));
                }
            }
        }
    }

    /// Where arithmetic is exact, a point that is not in full sun gets exactly the light that
    /// passes the ground at one of the samples on the ray towards the sun: one of up to
    /// ninety-six, with all before it no farther than six thousand, not above the highest
    /// height, and passed by more than one thousandth of the light.
    pub proof fn law_light_comes_from_a_sample(
        self,
        val: spec_fn(S) -> real,
        origin: Vec3<S>,
        sun: Vec3<S>,
        r: S,
    )
        requires
            scalar::exact(val),
            self.wf(),
            val(self.texel_size) > 0 as real,
            self.sun_visibility_is(origin, sun, r),
        ensures
            val(r) == 1 as real || exists|k: nat, h: spec_fn(nat) -> real|
                k < 96 && #[trigger] self.passes(val, origin, sun, k, h, val(r)),
    {
        let c = choose|c: MarchConstants<S>| #[trigger]
            c.wf() && self.march_gives(c, origin, sun, MARCH_STEPS as nat, c.start(), r);
        assert(val(c.one) == 1 as real);
        let h = |j: nat| 0 as real;
        self.lemma_light_comes_from(val, c, origin, sun, 0, h, c.start(), r);
    }
}

/// No light passes below the ground.
proof fn lemma_no_light_below(clearance: real, k: nat)
    requires
        clearance <= 0 as real,
    ensures
        light_past(clearance, distance(k)) == 0 as real,
{
    lemma_distances(k);
    let t = distance(k);
    assert(10 as real * clearance / t <= 0 as real) by (nonlinear_arith)
        requires
            clearance <= 0 as real,
            t > 0 as real,
    ;
}

} // verus!
