//! Height fog: how it looks, and which of its two paths renders it.

use vstd::prelude::*;

use crate::quality::{FogTier, TerrainQuality};
use crate::scalar::{self, Scalar};

verus! {

/// Authored height fog. `L` stands for what it looks like besides its density.
#[derive(Clone, Copy, Debug)]
pub struct HeightFog<S, L> {
    /// Fog is off at density zero.
    pub density: S,
    pub look: L,
}

/// Height-fog parameters as a shader takes them.
#[derive(Clone, Copy, Debug)]
pub struct HeightFogParams<S, L> {
    pub density: S,
    pub look: L,
}

/// Authored fog of the terrain: an art knob, apart from the performance profile.
#[derive(Clone, Copy, Debug)]
pub struct TerrainFog<S, L>(pub HeightFog<S, L>);

/// The active tier's inline fog, for materials that fog themselves.
#[derive(Clone, Copy, Debug)]
pub struct InlineFog<S, L>(pub HeightFogParams<S, L>);

impl<S: Scalar, L: Copy> HeightFogParams<S, L> {
    /// The parameters of a fog.
    pub open spec fn of(fog: HeightFog<S, L>) -> Self {
        HeightFogParams { density: fog.density, look: fog.look }
    }

    /// The same look at another density.
    pub open spec fn at(self, density: S) -> Self {
        HeightFogParams { density, look: self.look }
    }

    /// The parameters of a fog at its own density are the fog's, and at another density they
    /// keep its look.
    pub proof fn law_density_leaves_the_look(fog: HeightFog<S, L>, density: S)
        ensures
            Self::of(fog).density == fog.density,
            Self::of(fog).look == fog.look,
            Self::of(fog).at(density).density == density,
            Self::of(fog).at(density).look == fog.look,
            Self::of(fog).at(density).at(fog.density) == Self::of(fog),
    {
    }

    /// The parameters of a fog.
    pub fn from_fog(fog: &HeightFog<S, L>) -> (r: Self)
        ensures
            r == Self::of(*fog),
            r.density == fog.density,
            r.look == fog.look,
    {
        HeightFogParams { density: fog.density, look: fog.look }
    }

    /// The same look at another density.
    pub fn with_density(self, density: S) -> (r: Self)
        ensures
            r == self.at(density),
            r.density == density,
            r.look == self.look,
    {
        HeightFogParams { density, look: self.look }
    }
}

/// `r` is the density where the fog's path is `on`, and zero where it is not.
pub open spec fn gated<S: Scalar>(density: S, on: bool, r: S) -> bool {
    if on {
        r == density
    } else {
        scalar::int_is(0, r)
    }
}

/// The density where the fog's path is `on`, and zero where it is not.
fn gate<S: Scalar>(density: S, on: bool) -> (r: S)
    ensures
        gated(density, on, r),
{
    if on {
        density
    } else {
        S::of_int(0)
    }
}

/// `r` is the fog that materials put in themselves: none outside the low tier, where
/// the fullscreen pass fogs them.
pub open spec fn inline_is<S: Scalar, L>(
    fog: TerrainFog<S, L>,
    tier: FogTier,
    r: HeightFogParams<S, L>,
) -> bool {
    &&& gated(fog.0.density, tier == FogTier::Low, r.density)
    &&& r.look == fog.0.look
}

/// The fog that materials put in themselves.
pub fn inline_fog_params<S: Scalar, L: Copy>(fog: &TerrainFog<S, L>, tier: FogTier) -> (r:
    HeightFogParams<S, L>)
    ensures
        inline_is(*fog, tier, r),
{
    let density = gate(fog.0.density, tier == FogTier::Low);
    HeightFogParams::from_fog(&fog.0).with_density(density)
}

/// Multisampling of a camera.
#[derive(Clone, Copy, Debug, PartialEq, Eq, Structural)]
pub enum Msaa {
    Off,
    Sample4,
}

/// What a change of fog or tier brings: the fog of every terrain and mesh material, and
/// the fullscreen fog and multisampling of the camera of every clipmap.
#[derive(Clone, Copy, Debug)]
pub struct FogUpdate<S, L> {
    pub inline: HeightFogParams<S, L>,
    pub camera_fog: HeightFog<S, L>,
    pub msaa: Msaa,
}

/// `r` realizes the fog in both paths for the tier.
pub open spec fn realizes<S: Scalar, L>(
    fog: TerrainFog<S, L>,
    tier: FogTier,
    r: FogUpdate<S, L>,
) -> bool {
    &&& inline_is(fog, tier, r.inline)
    &&& gated(fog.0.density, tier == FogTier::High, r.camera_fog.density)
    &&& r.camera_fog.look == fog.0.look
    &&& r.msaa == match tier {
        FogTier::High => Msaa::Off,
        FogTier::Low => Msaa::Sample4,
    }
}

/// `r` is what a change of fog or tier brings, and the inline fog was `before` and is
/// `after`.
pub open spec fn applies<S: Scalar, L>(
    quality: TerrainQuality,
    quality_changed: bool,
    fog: TerrainFog<S, L>,
    fog_changed: bool,
    before: InlineFog<S, L>,
    after: InlineFog<S, L>,
    r: Option<FogUpdate<S, L>>,
) -> bool {
    match r {
        Some(update) => {
            &&& quality_changed || fog_changed
            &&& realizes(fog, quality.fog, update)
            &&& after.0 == update.inline
        },
        None => {
            &&& !quality_changed && !fog_changed
            &&& after == before
        },
    }
}

/// Realizes the fog in both paths for the active tier, whenever either changes, and
/// publishes the inline one.
pub fn apply_terrain_quality<S: Scalar, L: Copy>(
    quality: &TerrainQuality,
    quality_changed: bool,
    fog: &TerrainFog<S, L>,
    fog_changed: bool,
    inline_fog: &mut InlineFog<S, L>,
) -> (r: Option<FogUpdate<S, L>>)
    ensures
        applies(
            *quality,
            quality_changed,
            *fog,
            fog_changed,
            *old(inline_fog),
            *final(inline_fog),
            r,
        ),
        r is Some <==> quality_changed || fog_changed,
{
    if !quality_changed && !fog_changed {
        return None;
    }
    let low: bool = quality.fog == FogTier::Low;
    let inline = inline_fog_params(fog, quality.fog);
    inline_fog.0 = inline;
    let update = FogUpdate {
        inline,
        camera_fog: HeightFog { density: gate(fog.0.density, !low), look: fog.0.look },
        msaa: if low {
            Msaa::Sample4
        } else {
            Msaa::Off
        },
    };
    assert(realizes(*fog, quality.fog, update));
    Some(update)
}

/// Something that happened to a mesh material.
#[derive(Clone, Copy, Debug)]
pub enum MaterialEvent<I> {
    Added { id: I },
    Other,
}

/// `r` is the material that an event brings into the world, and the fog it gets at once.
pub open spec fn welcomes<S: Scalar, L, I>(
    event: MaterialEvent<I>,
    quality: TerrainQuality,
    fog: TerrainFog<S, L>,
    r: Option<(I, HeightFogParams<S, L>)>,
) -> bool {
    match event {
        MaterialEvent::Added { id } => match r {
            Some((to, params)) => to == id && inline_is(fog, quality.fog, params),
            None => false,
        },
        MaterialEvent::Other => r is None,
    }
}

/// The material that an event brings into the world, and the fog it gets at once.
/// Nothing else is touched.
pub fn fog_new_mesh_material<S: Scalar, L: Copy, I: Copy>(
    event: &MaterialEvent<I>,
    quality: &TerrainQuality,
    fog: &TerrainFog<S, L>,
) -> (r: Option<(I, HeightFogParams<S, L>)>)
    ensures
        welcomes(*event, *quality, *fog, r),
{
    match event {
        MaterialEvent::Added { id } => {
            let params = inline_fog_params(fog, quality.fog);
            assert(inline_is(*fog, quality.fog, params));
            Some((*id, params))
        },
        MaterialEvent::Other => None,
    }
}

/// Exactly one of the two paths carries the authored fog in each tier, and the other is
/// off; multisampling is on exactly where the fullscreen path is off.
pub proof fn law_one_fog_path<S: Scalar, L>(
    fog: TerrainFog<S, L>,
    tier: FogTier,
    update: FogUpdate<S, L>,
)
    requires
        realizes(fog, tier, update),
    ensures
        update.msaa == Msaa::Off ==> update.camera_fog.density == fog.0.density && scalar::int_is(
            0,
            update.inline.density,
        ),
        update.msaa == Msaa::Sample4 ==> update.inline.density == fog.0.density && scalar::int_is(
            0,
            update.camera_fog.density,
        ),
        update.inline.look == update.camera_fog.look,
{
}

/// A material that joins at runtime gets the fog that the others have: the two agree in
/// look, and in density where the scalar's operations give one result each.
pub proof fn law_newcomers_match<S: Scalar, L>(
    fog: TerrainFog<S, L>,
    tier: FogTier,
    update: FogUpdate<S, L>,
    newcomer: HeightFogParams<S, L>,
)
    requires
        scalar::repeatable::<S>(),
        realizes(fog, tier, update),
        inline_is(fog, tier, newcomer),
    ensures
        newcomer == update.inline,
{
}

/// In the low tier the materials carry the authored density, the fullscreen fog is off, and
/// multisampling is on. In the high tier the fullscreen fog carries it, the materials carry
/// none, and multisampling is off. Both always have the authored look.
pub proof fn law_fog_by_tier<S: Scalar, L>(
    fog: TerrainFog<S, L>,
    tier: FogTier,
    update: FogUpdate<S, L>,
)
    requires
        realizes(fog, tier, update),
    ensures
        tier == FogTier::Low ==> {
            &&& update.inline.density == fog.0.density
            &&& scalar::int_is(0, update.camera_fog.density)
            &&& update.msaa == Msaa::Sample4
        },
        tier == FogTier::High ==> {
            &&& scalar::int_is(0, update.inline.density)
            &&& update.camera_fog.density == fog.0.density
            &&& update.msaa == Msaa::Off
        },
        update.inline.look == fog.0.look,
        update.camera_fog.look == fog.0.look,
{
}

/// What materials put in themselves, by tier: the authored fog in the low tier, and none in
/// the high one.
pub proof fn law_inline_fog_by_tier<S: Scalar, L>(
    fog: TerrainFog<S, L>,
    tier: FogTier,
    params: HeightFogParams<S, L>,
)
    requires
        inline_is(fog, tier, params),
    ensures
        tier == FogTier::Low ==> params.density == fog.0.density,
        tier == FogTier::High ==> scalar::int_is(0, params.density),
        params.look == fog.0.look,
{
}

/// Whenever the fog or the tier has changed, and only then, both fog paths are set, and the
/// inline fog that is published is the one that the materials get: the authored one in the
/// low tier, none in the high one. Otherwise it stays as it was.
pub proof fn law_fog_follows_every_change<S: Scalar, L>(
    quality: TerrainQuality,
    quality_changed: bool,
    fog: TerrainFog<S, L>,
    fog_changed: bool,
    before: InlineFog<S, L>,
    after: InlineFog<S, L>,
    r: Option<FogUpdate<S, L>>,
)
    requires
        applies(quality, quality_changed, fog, fog_changed, before, after, r),
    ensures
        r is Some <==> quality_changed || fog_changed,
        !quality_changed && !fog_changed ==> after == before,
        quality_changed || fog_changed ==> {
            &&& after.0.look == fog.0.look
            &&& after.0 == (r->0).inline
            &&& (r->0).camera_fog.look == fog.0.look
            &&& quality.fog == FogTier::Low ==> {
                &&& after.0.density == fog.0.density
                &&& scalar::int_is(0, (r->0).camera_fog.density)
                &&& (r->0).msaa == Msaa::Sample4
            }
            &&& quality.fog == FogTier::High ==> {
                &&& scalar::int_is(0, after.0.density)
                &&& (r->0).camera_fog.density == fog.0.density
                &&& (r->0).msaa == Msaa::Off
            }
        },
{
    if quality_changed || fog_changed {
        assert(r is Some);
        law_fog_by_tier(fog, quality.fog, r->0);
    }
}

/// A material that is added gets the fog of the active tier at once, and no other event
/// touches a material.
pub proof fn law_newcomers_are_fogged<S: Scalar, L, I>(
    event: MaterialEvent<I>,
    quality: TerrainQuality,
    fog: TerrainFog<S, L>,
    r: Option<(I, HeightFogParams<S, L>)>,
)
    requires
        welcomes(event, quality, fog, r),
    ensures
        event is Other ==> r is None,
        event matches MaterialEvent::Added { id } ==> {
            &&& r matches Some((to, params))
            &&& to == id
            &&& params.look == fog.0.look
            &&& quality.fog == FogTier::Low ==> params.density == fog.0.density
            &&& quality.fog == FogTier::High ==> scalar::int_is(0, params.density)
        },
{
}

} // verus!
