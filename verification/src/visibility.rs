//! Terrain sun-visibility at an arbitrary world point.

use vstd::prelude::*;

use crate::heightfield::{HeightImage, Heightfield, TextureFormat};
use crate::scalar::{self, Scalar, Vec3};

verus! {

/// What a visibility query needs of one clipmap.
#[derive(Clone, Copy, Debug)]
pub struct ShadedClipmap<'a, S> {
    /// Whether the clipmap's bake has been set up, which fixes the sun.
    pub initialized: bool,
    /// The heightmap, where it has been loaded.
    pub heightmap: Option<HeightImage<'a>>,
    pub texel_size: S,
    pub min: S,
    pub max: S,
    /// The sun direction the shadow was baked against.
    pub sun_direction: Vec3<S>,
}

impl<'a, S: Scalar> ShadedClipmap<'a, S> {
    /// The heightmap is a valid image, if it has to be read to answer a query at
    /// `world_pos`.
    pub open spec fn fit_for(self, world_pos: Vec3<S>) -> bool {
        self.readable() && self.field().contains_is(world_pos, true) ==> self.heightmap->0.wf()
    }

    /// The bake is set up and the heightmap can be read on the CPU.
    pub open spec fn readable(self) -> bool {
        self.initialized && self.heightmap is Some && self.heightmap->0.is_heightmap()
    }

    /// The terrain of a readable clipmap.
    pub open spec fn field(self) -> Heightfield<'a, S> {
        Heightfield::over_image(self.heightmap->0, self.texel_size, self.min, self.max)
    }

    /// The clipmap can say nothing of `world_pos`: it cannot be read, or the point is
    /// outside it.
    pub open spec fn passes_over(self, world_pos: Vec3<S>) -> bool {
        self.readable() ==> self.field().contains_is(world_pos, false)
    }

    /// The clipmap covers `world_pos`, and the sun visibility there is `vis`.
    pub open spec fn answers(self, world_pos: Vec3<S>, vis: S) -> bool {
        &&& self.readable()
        &&& self.field().contains_is(world_pos, true)
        &&& self.field().sun_visibility_is(world_pos, self.sun_direction, vis)
    }

    /// Sun visibility at `world_pos`, if this clipmap covers it.
    fn query(&self, world_pos: Vec3<S>) -> (r: Option<S>)
        requires
            self.fit_for(world_pos),
        ensures
            match r {
                Some(vis) => self.answers(world_pos, vis),
                None => self.passes_over(world_pos),
            },
    {
        if !self.initialized {
            return None;
        }
        match self.heightmap {
            None => None,
            Some(image) => match Heightfield::new(image, self.texel_size, self.min, self.max) {
                None => None,
                Some(field) => if field.contains(world_pos) {
                    Some(field.sun_visibility(world_pos, self.sun_direction))
                } else {
                    None
                },
            },
        }
    }
}

/// Terrain sun-visibility at an arbitrary world point.
///
/// The baked shadow is valid only on the terrain's surface. This query marches the
/// heightmap from a point in space towards the fixed sun instead, and is right at
/// any altitude.
#[derive(Clone, Debug)]
pub struct SunVisibility<'a, S> {
    pub clipmaps: Vec<ShadedClipmap<'a, S>>,
}

impl<'a, S: Scalar> SunVisibility<'a, S> {
    /// The first heightmap that covers `world_pos` is a valid image. No other is read to
    /// answer a query there.
    pub open spec fn fit_for(self, world_pos: Vec3<S>) -> bool {
        forall|i: int|
            0 <= i < self.clipmaps@.len() && self.first_pass_over(i, world_pos) ==> (
            #[trigger] self.clipmaps@[i]).fit_for(world_pos)
    }

    /// The first `n` clipmaps can say nothing of `world_pos`.
    pub open spec fn first_pass_over(self, n: int, world_pos: Vec3<S>) -> bool {
        forall|i: int| 0 <= i < n ==> (#[trigger] self.clipmaps@[i]).passes_over(world_pos)
    }

    /// `r` is the answer to a query at `world_pos`: that of the first clipmap that can say
    /// anything of it.
    pub open spec fn sample_is(self, world_pos: Vec3<S>, r: Option<S>) -> bool {
        match r {
            Some(vis) => exists|i: int|
                {
                    &&& 0 <= i < self.clipmaps@.len()
                    &&& self.first_pass_over(i, world_pos)
                    &&& (#[trigger] self.clipmaps@[i]).answers(world_pos, vis)
                },
            None => self.first_pass_over(self.clipmaps@.len() as int, world_pos),
        }
    }

    /// Sun visibility at `world_pos`, by the first clipmap that covers it: one is full
    /// sun, zero is full shadow. `None` if the point is outside every clipmap that is
    /// set up and whose heightmap can be read.
    pub fn sample(&self, world_pos: Vec3<S>) -> (r: Option<S>)
        requires
            self.fit_for(world_pos),
        ensures
            self.sample_is(world_pos, r),
    {
        let mut i: usize = 0;
        while i < self.clipmaps.len()
            invariant
                self.fit_for(world_pos),
                i <= self.clipmaps@.len(),
                self.first_pass_over(i as int, world_pos),
            decreases self.clipmaps@.len() - i,
        {
            if let Some(vis) = self.clipmaps[i].query(world_pos) {
                assert(self.clipmaps@[i as int].answers(world_pos, vis));
                return Some(vis);
            }
            i = i + 1;
        }
        None
    }

    /// A point has one answer, where the scalar's operations give one result each.
    pub proof fn law_one_answer(self, world_pos: Vec3<S>, i: int, a: S, j: int, b: S)
        requires
            self.fit_for(world_pos),
            scalar::repeatable::<S>(),
            0 <= i < self.clipmaps@.len(),
            self.first_pass_over(i, world_pos),
            self.clipmaps@[i].answers(world_pos, a),
            0 <= j < self.clipmaps@.len(),
            self.first_pass_over(j, world_pos),
            self.clipmaps@[j].answers(world_pos, b),
        ensures
            i == j,
            a == b,
    {
        if i < j {
            self.clipmaps@[i].lemma_one_cover(world_pos);
        } else if j < i {
            self.clipmaps@[j].lemma_one_cover(world_pos);
        } else {
            let clipmap = self.clipmaps@[i];
            clipmap.field().law_one_visibility(world_pos, clipmap.sun_direction, a, b);
        }
    }

    /// A point that a clipmap covers, and that every clipmap before it passes over, is
    /// answered by that clipmap: by the visibility over its heightmap towards the sun its
    /// shadow was baked against, between zero, full shadow, and one, full sun. Holds where
    /// the scalar's operations keep the order of the values and give one result each.
    pub proof fn law_first_cover_answers(
        self,
        val: spec_fn(S) -> real,
        num: spec_fn(S) -> bool,
        world_pos: Vec3<S>,
        i: int,
        r: Option<S>,
    )
        requires
            scalar::ordered(val, num),
            scalar::repeatable::<S>(),
            0 <= i < self.clipmaps@.len(),
            self.first_pass_over(i, world_pos),
            self.clipmaps@[i].readable(),
            self.clipmaps@[i].field().contains_is(world_pos, true),
            self.sample_is(world_pos, r),
        ensures
            r is Some,
            self.clipmaps@[i].field().sun_visibility_is(
                world_pos,
                self.clipmaps@[i].sun_direction,
                r->0,
            ),
            val(r->0) >= 0 as real,
            val(r->0) <= 1 as real,
    {
        let clipmap = self.clipmaps@[i];
        if r is None {
            assert(clipmap.passes_over(world_pos));
            clipmap.lemma_one_cover(world_pos);
        } else {
            let j = choose|j: int|
                {
                    &&& 0 <= j < self.clipmaps@.len()
                    &&& self.first_pass_over(j, world_pos)
                    &&& (#[trigger] self.clipmaps@[j]).answers(world_pos, r->0)
                };
            if j < i {
                self.clipmaps@[j].lemma_one_cover(world_pos);
            } else if i < j {
                clipmap.lemma_one_cover(world_pos);
            }
            clipmap.field().law_visibility_is_a_share(
                val,
                num,
                world_pos,
                clipmap.sun_direction,
                r->0,
            );
        }
    }

    /// Where arithmetic is exact and gives one result each, a point is answered by the first
    /// clipmap over it whose bake is set up and whose heightmap is a resident image of one
    /// 16-bit channel: by the sun visibility of just that point over that heightmap, with the
    /// clipmap's texel size and height bounds, towards the sun of its bake. Clipmap `i` is the
    /// first. Without one there is no answer.
    pub proof fn law_first_over_the_point_answers(
        self,
        val: spec_fn(S) -> real,
        world_pos: Vec3<S>,
        i: int,
        r: Option<S>,
    )
        requires
            scalar::exact(val),
            scalar::repeatable::<S>(),
            0 <= i <= self.clipmaps@.len(),
            forall|j: int|
                0 <= j < i ==> !(#[trigger] self.clipmaps@[j]).is_over(val, world_pos),
            i < self.clipmaps@.len() ==> self.clipmaps@[i].is_over(val, world_pos),
            self.sample_is(world_pos, r),
        ensures
            i == self.clipmaps@.len() ==> r is None,
            i < self.clipmaps@.len() ==> {
                let c = self.clipmaps@[i];
                let image = c.heightmap->0;
                let field = Heightfield {
                    texels: image.data->0,
                    width: image.width as usize,
                    height: image.height as usize,
                    texel_size: c.texel_size,
                    min: c.min,
                    max: c.max,
                };
                &&& r is Some
                &&& field.sun_visibility_is(world_pos, c.sun_direction, r->0)
            },
    {
        if r is Some {
            let j = choose|j: int|
                {
                    &&& 0 <= j < self.clipmaps@.len()
                    &&& self.first_pass_over(j, world_pos)
                    &&& (#[trigger] self.clipmaps@[j]).answers(world_pos, r->0)
                };
            self.clipmaps@[j].lemma_over(val, world_pos);
            if i < j {
                assert(self.clipmaps@[i].passes_over(world_pos));
                self.clipmaps@[i].lemma_over(val, world_pos);
            }
        } else if i < self.clipmaps@.len() {
            assert(self.clipmaps@[i].passes_over(world_pos));
            self.clipmaps@[i].lemma_over(val, world_pos);
        }
    }

    /// A point that every clipmap passes over has no answer, where the scalar's operations
    /// give one result each.
    pub proof fn law_uncovered_has_no_answer(self, world_pos: Vec3<S>, r: Option<S>)
        requires
            scalar::repeatable::<S>(),
            self.first_pass_over(self.clipmaps@.len() as int, world_pos),
            self.sample_is(world_pos, r),
        ensures
            r is None,
    {
        if r is Some {
            let j = choose|j: int|
                {
                    &&& 0 <= j < self.clipmaps@.len()
                    &&& self.first_pass_over(j, world_pos)
                    &&& (#[trigger] self.clipmaps@[j]).answers(world_pos, r->0)
                };
            self.clipmaps@[j].lemma_one_cover(world_pos);
        }
    }
}

impl<'a, S: Scalar> ShadedClipmap<'a, S> {
    /// The clipmap's bake is set up, its heightmap is a resident image of one 16-bit channel,
    /// and the point lies no farther than half its texels from the origin along x and z.
    pub open spec fn is_over(self, val: spec_fn(S) -> real, p: Vec3<S>) -> bool {
        &&& self.initialized
        &&& self.heightmap is Some
        &&& (self.heightmap->0).format == TextureFormat::R16Unorm
        &&& (self.heightmap->0).data is Some
        &&& {
            let side_x = (self.heightmap->0).width as real * val(self.texel_size);
            let side_z = (self.heightmap->0).height as real * val(self.texel_size);
            &&& -side_x <= 2 as real * val(p.x) && 2 as real * val(p.x) <= side_x
            &&& -side_z <= 2 as real * val(p.z) && 2 as real * val(p.z) <= side_z
        }
    }

    /// Where arithmetic is exact, a clipmap covers the points that it is over.
    proof fn lemma_over(self, val: spec_fn(S) -> real, p: Vec3<S>)
        requires
            scalar::exact(val),
        ensures
            self.readable() && self.field().contains_is(p, true) ==> self.is_over(val, p),
            self.passes_over(p) ==> !self.is_over(val, p),
    {
        if self.readable() {
            let field = self.field();
            if field.contains_is(p, true) {
                field.law_contains_the_extent(val, p, true);
            }
            if field.contains_is(p, false) {
                field.law_contains_the_extent(val, p, false);
            }
        }
    }

    /// A clipmap that passes a point over does not cover it.
    proof fn lemma_one_cover(self, world_pos: Vec3<S>)
        requires
            scalar::repeatable::<S>(),
            self.readable(),
            self.passes_over(world_pos),
        ensures
            !self.field().contains_is(world_pos, true),
    {
    }
}

} // verus!
