//! Controls for inspecting the baked ambient channels: a debug view to cycle through,
//! and strengths to toggle.

use vstd::prelude::*;

use crate::scalar::{self, Scalar};

verus! {

/// The number of debug views: lit, macro AO, bent normal, cavity.
pub const DEBUG_VIEWS: u32 = 4;

/// What the controls can change of a terrain material.
#[derive(Clone, Copy, Debug, PartialEq)]
pub struct Inspection<S> {
    /// Strength of the macro AO: zero off, one full.
    pub ao_strength: S,
    /// Strength of the bent normals: zero off, one full.
    pub bent_strength: S,
    /// Channel shown instead of the lit terrain, if not zero.
    pub debug_view: u32,
}

/// The view that follows a view.
pub open spec fn next_view(view: u32) -> u32 {
    ((view + 1) % (DEBUG_VIEWS as int)) as u32
}

/// The view that follows those of the given materials: one further than the first's, or
/// the lit one where there are none.
pub open spec fn view_after<S>(materials: Seq<Inspection<S>>) -> u32 {
    if materials.len() == 0 {
        0
    } else {
        next_view(materials[0].debug_view)
    }
}

/// `after` is what cycling the debug view makes of the materials.
pub open spec fn view_cycled<S>(before: Seq<Inspection<S>>, after: Seq<Inspection<S>>) -> bool {
    after == before.map_values(
        |m: Inspection<S>| Inspection { debug_view: view_after(before), ..m },
    )
}

/// Where the key is pressed, puts the debug view of every material one further than the
/// first one's, and returns the new view.
pub fn debug_cycle_view<S: Scalar>(pressed: bool, materials: &mut Vec<Inspection<S>>) -> (r: Option<
    u32,
>)
    requires
        pressed && old(materials)@.len() > 0 ==> old(materials)@[0].debug_view < u32::MAX,
    ensures
        pressed ==> {
            &&& r == Some(view_after(old(materials)@))
            &&& view_cycled(old(materials)@, final(materials)@)
        },
        !pressed ==> r is None && final(materials)@ == old(materials)@,
{
    if !pressed {
        return None;
    }
    let ghost before = materials@;
    let next: u32 = if materials.len() == 0 {
        0
    } else {
        (materials[0].debug_view + 1) % DEBUG_VIEWS
    };
    let mut i: usize = 0;
    while i < materials.len()
        invariant
            materials@.len() == before.len(),
            i <= materials@.len(),
            forall|j: int|
                0 <= j < i ==> #[trigger] materials@[j] == (Inspection {
                    debug_view: next,
                    ..before[j]
                }),
            forall|j: int| i <= j < before.len() ==> #[trigger] materials@[j] == before[j],
        decreases materials@.len() - i,
    {
        let m: Inspection<S> = materials[i];
        materials[i] = Inspection { debug_view: next, ..m };
        i = i + 1;
    }
    assert(materials@ =~= before.map_values(
        |m: Inspection<S>| Inspection { debug_view: view_after(before), ..m },
    ));
    Some(next)
}

/// Tonemapping is bypassed in the view.
pub open spec fn bypassed(view: u32) -> bool {
    view != 0
}

/// Tonemapping is on in the lit view, and bypassed in every other.
pub proof fn law_only_the_lit_view_is_tonemapped(view: u32)
    ensures
        bypassed(view) <==> view > 0,
{
}

/// Whether tonemapping is bypassed, so that a channel's values are seen as they are.
pub fn bypasses_tonemapping(view: u32) -> (r: bool)
    ensures
        r == bypassed(view),
{
    view != 0
}

/// What a debug view is called.
pub open spec fn name_of(view: u32) -> Seq<char> {
    match view {
        1 => "macro AO"@,
        2 => "bent normal"@,
        3 => "cavity"@,
        _ => "off (lit terrain)"@,
    }
}

/// What a debug view is called.
pub fn debug_view_name(view: u32) -> (r: &'static str)
    ensures
        r@ == name_of(view),
{
    match view {
        1 => "macro AO",
        2 => "bent normal",
        3 => "cavity",
        _ => "off (lit terrain)",
    }
}

/// Every fourth step through the debug views is back where it started, and none is
/// passed over on the way.
pub proof fn law_views_cycle(view: u32)
    requires
        view < DEBUG_VIEWS,
    ensures
        ({
            let a = next_view(view);
            let b = next_view(a);
            let c = next_view(b);
            &&& next_view(c) == view
            &&& a != view && b != view && c != view
            &&& a != b && a != c && b != c
        }),
{
}

/// A strength counts as on, for the given answer to whether it is above one half.
pub open spec fn is_on<S: Scalar>(strength: S, on: bool) -> bool {
    exists|half: S| #[trigger]
        scalar::ratio_is(1, 2, half) && scalar::below_is(half, strength, on)
}

/// `next` is the strength that follows the one of the first material: off where that is
/// on, and full otherwise, or where there is no material.
pub open spec fn strength_after<S: Scalar>(first: Option<S>, next: S) -> bool {
    match first {
        Some(strength) => exists|on: bool| #[trigger]
            is_on(strength, on) && scalar::int_is(
                if on {
                    0
                } else {
                    1
                },
                next,
            ),
        None => scalar::int_is(1, next),
    }
}

/// Whether a strength is above one half.
fn above_half<S: Scalar>(strength: S) -> (r: bool)
    ensures
        is_on(strength, r),
{
    let half = S::ratio(1, 2);
    assert(scalar::ratio_is(1, 2, half));
    half.below(strength)
}

/// The strength that follows the one of the first material.
fn next_strength<S: Scalar>(first: Option<S>) -> (next: S)
    ensures
        strength_after(first, next),
{
    match first {
        Some(strength) => {
            let on: bool = above_half(strength);
            assert(is_on(strength, on));
            if on {
                S::of_int(0)
            } else {
                S::of_int(1)
            }
        },
        None => S::of_int(1),
    }
}

/// The macro AO of the first material.
pub open spec fn first_ao<S>(materials: Seq<Inspection<S>>) -> Option<S> {
    if materials.len() == 0 {
        None
    } else {
        Some(materials[0].ao_strength)
    }
}

/// The bent normals of the first material.
pub open spec fn first_bent<S>(materials: Seq<Inspection<S>>) -> Option<S> {
    if materials.len() == 0 {
        None
    } else {
        Some(materials[0].bent_strength)
    }
}

/// The materials, with the macro AO of each at the given strength.
pub open spec fn with_ao<S>(materials: Seq<Inspection<S>>, strength: S) -> Seq<Inspection<S>> {
    materials.map_values(|m: Inspection<S>| Inspection { ao_strength: strength, ..m })
}

/// The materials, with the bent normals of each at the given strength.
pub open spec fn with_bent<S>(materials: Seq<Inspection<S>>, strength: S) -> Seq<Inspection<S>> {
    materials.map_values(|m: Inspection<S>| Inspection { bent_strength: strength, ..m })
}

/// `after` is what toggling the macro AO makes of the materials, and `on` whether it is on
/// then.
pub open spec fn ao_toggled<S: Scalar>(
    before: Seq<Inspection<S>>,
    after: Seq<Inspection<S>>,
    on: bool,
) -> bool {
    exists|next: S|
        {
            &&& #[trigger] strength_after(first_ao(before), next)
            &&& after == with_ao(before, next)
            &&& is_on(next, on)
        }
}

/// `after` is what toggling the bent normals makes of the materials, and `on` whether they
/// are on then.
pub open spec fn bent_toggled<S: Scalar>(
    before: Seq<Inspection<S>>,
    after: Seq<Inspection<S>>,
    on: bool,
) -> bool {
    exists|next: S|
        {
            &&& #[trigger] strength_after(first_bent(before), next)
            &&& after == with_bent(before, next)
            &&& is_on(next, on)
        }
}

/// Where the key is pressed, switches the macro AO of every material between off and full,
/// and returns whether it is on now.
pub fn toggle_ao<S: Scalar>(pressed: bool, materials: &mut Vec<Inspection<S>>) -> (r: Option<bool>)
    ensures
        pressed ==> r is Some && ao_toggled(old(materials)@, final(materials)@, r->0),
        !pressed ==> r is None && final(materials)@ == old(materials)@,
{
    if !pressed {
        return None;
    }
    let ghost before = materials@;
    let first = if materials.len() == 0 {
        None
    } else {
        Some(materials[0].ao_strength)
    };
    let next = next_strength(first);
    let mut i: usize = 0;
    while i < materials.len()
        invariant
            materials@.len() == before.len(),
            i <= materials@.len(),
            forall|j: int|
                0 <= j < i ==> #[trigger] materials@[j] == (Inspection {
                    ao_strength: next,
                    ..before[j]
                }),
            forall|j: int| i <= j < before.len() ==> #[trigger] materials@[j] == before[j],
        decreases materials@.len() - i,
    {
        let m: Inspection<S> = materials[i];
        materials[i] = Inspection { ao_strength: next, ..m };
        i = i + 1;
    }
    let on: bool = above_half(next);
    assert(strength_after(first_ao(before), next));
    assert(materials@ =~= with_ao(before, next));
    Some(on)
}

/// Where the key is pressed, switches the bent normals of every material between off and
/// full, and returns whether they are on now.
pub fn toggle_bent<S: Scalar>(pressed: bool, materials: &mut Vec<Inspection<S>>) -> (r: Option<
    bool,
>)
    ensures
        pressed ==> r is Some && bent_toggled(old(materials)@, final(materials)@, r->0),
        !pressed ==> r is None && final(materials)@ == old(materials)@,
{
    if !pressed {
        return None;
    }
    let ghost before = materials@;
    let first = if materials.len() == 0 {
        None
    } else {
        Some(materials[0].bent_strength)
    };
    let next = next_strength(first);
    let mut i: usize = 0;
    while i < materials.len()
        invariant
            materials@.len() == before.len(),
            i <= materials@.len(),
            forall|j: int|
                0 <= j < i ==> #[trigger] materials@[j] == (Inspection {
                    bent_strength: next,
                    ..before[j]
                }),
            forall|j: int| i <= j < before.len() ==> #[trigger] materials@[j] == before[j],
        decreases materials@.len() - i,
    {
        let m: Inspection<S> = materials[i];
        materials[i] = Inspection { bent_strength: next, ..m };
        i = i + 1;
    }
    let on: bool = above_half(next);
    assert(strength_after(first_bent(before), next));
    assert(materials@ =~= with_bent(before, next));
    Some(on)
}

/// A full strength, or one that is off.
pub open spec fn is_strength<S: Scalar>(full: bool, strength: S) -> bool {
    scalar::int_is(
        if full {
            1
        } else {
            0
        },
        strength,
    )
}

/// A full strength is switched off and an off one to full, and either is seen as what it
/// is.
proof fn lemma_switches<S: Scalar>(full: bool, strength: S, next: S, on: bool)
    requires
        scalar::half_lies_between::<S>(),
        is_strength(full, strength),
        strength_after(Some(strength), next),
        is_on(next, on),
    ensures
        is_strength(!full, next),
        on == !full,
{
}

/// Where every material has the macro AO full, or every one has it off, toggling switches
/// each to the other of the two, and says so. Nothing else of any material changes. Holds where the scalar tells one half from zero and from one.
pub proof fn law_toggle_ao_switches<S: Scalar>(
    before: Seq<Inspection<S>>,
    after: Seq<Inspection<S>>,
    on: bool,
    full: bool,
    i: int,
)
    requires
        scalar::half_lies_between::<S>(),
        forall|j: int|
            0 <= j < before.len() ==> is_strength(full, (#[trigger] before[j]).ao_strength),
        ao_toggled(before, after, on),
        0 <= i < before.len(),
    ensures
        after.len() == before.len(),
        is_strength(!full, after[i].ao_strength),
        on == !full,
        after[i].bent_strength == before[i].bent_strength,
        after[i].debug_view == before[i].debug_view,
{
    let next = choose|next: S|
        {
            &&& #[trigger] strength_after(first_ao(before), next)
            &&& after == with_ao(before, next)
            &&& is_on(next, on)
        };
    lemma_switches(full, before[0].ao_strength, next, on);
}

/// Where every material has the bent normals full, or every one has them off, toggling
/// switches each to the other of the two, and says so. Nothing else of any material changes.
/// Holds where the scalar tells one half from zero and from one.
pub proof fn law_toggle_bent_switches<S: Scalar>(
    before: Seq<Inspection<S>>,
    after: Seq<Inspection<S>>,
    on: bool,
    full: bool,
    i: int,
)
    requires
        scalar::half_lies_between::<S>(),
        forall|j: int|
            0 <= j < before.len() ==> is_strength(full, (#[trigger] before[j]).bent_strength),
        bent_toggled(before, after, on),
        0 <= i < before.len(),
    ensures
        after.len() == before.len(),
        is_strength(!full, after[i].bent_strength),
        on == !full,
        after[i].ao_strength == before[i].ao_strength,
        after[i].debug_view == before[i].debug_view,
{
    let next = choose|next: S|
        {
            &&& #[trigger] strength_after(first_bent(before), next)
            &&& after == with_bent(before, next)
            &&& is_on(next, on)
        };
    lemma_switches(full, before[0].bent_strength, next, on);
}

/// Toggling the macro AO twice brings back materials that all had full strength, or all
/// had none, where the scalar tells one half from zero and from one and its operations
/// give one result each.
pub proof fn law_toggle_ao_twice<S: Scalar>(
    before: Seq<Inspection<S>>,
    once: Seq<Inspection<S>>,
    on: bool,
    twice: Seq<Inspection<S>>,
    on_again: bool,
    full: bool,
)
    requires
        scalar::half_lies_between::<S>(),
        scalar::repeatable::<S>(),
        forall|j: int|
            0 <= j < before.len() ==> is_strength(full, (#[trigger] before[j]).ao_strength),
        ao_toggled(before, once, on),
        ao_toggled(once, twice, on_again),
    ensures
        twice == before,
{
    assert(twice.len() == before.len());
    assert forall|i: int| 0 <= i < before.len() implies #[trigger] twice[i] == before[i] by {
        assert forall|j: int| 0 <= j < once.len() implies is_strength(
            !full,
            (#[trigger] once[j]).ao_strength,
        ) by {
            law_toggle_ao_switches(before, once, on, full, j);
        }
        law_toggle_ao_switches(before, once, on, full, i);
        law_toggle_ao_switches(once, twice, on_again, !full, i);
    }
    assert(twice =~= before);
}

/// Toggling the bent normals twice brings back materials that all had full strength, or all
/// had none, where the scalar tells one half from zero and from one and its operations
/// give one result each.
pub proof fn law_toggle_bent_twice<S: Scalar>(
    before: Seq<Inspection<S>>,
    once: Seq<Inspection<S>>,
    on: bool,
    twice: Seq<Inspection<S>>,
    on_again: bool,
    full: bool,
)
    requires
        scalar::half_lies_between::<S>(),
        scalar::repeatable::<S>(),
        forall|j: int|
            0 <= j < before.len() ==> is_strength(full, (#[trigger] before[j]).bent_strength),
        bent_toggled(before, once, on),
        bent_toggled(once, twice, on_again),
    ensures
        twice == before,
{
    assert(twice.len() == before.len());
    assert forall|i: int| 0 <= i < before.len() implies #[trigger] twice[i] == before[i] by {
        assert forall|j: int| 0 <= j < once.len() implies is_strength(
            !full,
            (#[trigger] once[j]).bent_strength,
        ) by {
            law_toggle_bent_switches(before, once, on, full, j);
        }
        law_toggle_bent_switches(before, once, on, full, i);
        law_toggle_bent_switches(once, twice, on_again, !full, i);
    }
    assert(twice =~= before);
}

/// Cycling puts every material on the view after the first material's, of views zero to
/// three in turn, and changes nothing else of any material.
pub proof fn law_cycling_moves_all_on<S>(
    before: Seq<Inspection<S>>,
    after: Seq<Inspection<S>>,
    i: int,
)
    requires
        view_cycled(before, after),
        0 <= i < before.len(),
        before[0].debug_view < u32::MAX,
    ensures
        after.len() == before.len(),
        before[0].debug_view % 4 == 3 ==> after[i].debug_view == 0,
        before[0].debug_view % 4 != 3 ==> after[i].debug_view == before[0].debug_view % 4 + 1,
        view_after(before) == after[i].debug_view,
        after[i].ao_strength == before[i].ao_strength,
        after[i].bent_strength == before[i].bent_strength,
{
}

/// Without a material the view is the lit one.
pub proof fn law_no_material_no_view<S>(before: Seq<Inspection<S>>)
    requires
        before.len() == 0,
    ensures
        view_after(before) == 0,
{
}

/// Every view but the three channels is called the lit one.
pub proof fn law_other_views_are_lit(view: u32)
    ensures
        name_of(view) == name_of(0) <==> view == 0 || view > 3,
        name_of(0) == "off (lit terrain)"@,
        name_of(1) == "macro AO"@,
        name_of(2) == "bent normal"@,
        name_of(3) == "cavity"@,
{
    reveal_strlit("off (lit terrain)");
    reveal_strlit("macro AO");
    reveal_strlit("bent normal");
    reveal_strlit("cavity");
    assert("off (lit terrain)"@.len() == 17);
    assert("macro AO"@.len() == 8 && "bent normal"@.len() == 11 && "cavity"@.len() == 6);
}

/// Toggling the macro AO sets every material by the first: off where the first is above
/// one half, and full where it is not. It says which, and that it is on where there is no
/// material. Nothing else of any material changes. Holds where the scalar's operations keep
/// the order of the values.
pub proof fn law_toggle_ao_follows_the_first<S: Scalar>(
    val: spec_fn(S) -> real,
    num: spec_fn(S) -> bool,
    before: Seq<Inspection<S>>,
    after: Seq<Inspection<S>>,
    on: bool,
    half: S,
)
    requires
        scalar::ordered(val, num),
        scalar::half_lies_between::<S>(),
        scalar::repeatable::<S>(),
        scalar::ratio_is(1, 2, half),
        before.len() > 0 ==> num(before[0].ao_strength),
        ao_toggled(before, after, on),
    ensures
        after.len() == before.len(),
        before.len() == 0 ==> on,
        before.len() > 0 ==> on == (val(before[0].ao_strength) <= val(half)),
        forall|i: int|
            #![trigger after[i]]
            0 <= i < before.len() ==> {
                &&& val(before[0].ao_strength) > val(half) ==> scalar::int_is(0, after[i].ao_strength)
                &&& val(before[0].ao_strength) <= val(half) ==> scalar::int_is(1, after[i].ao_strength)
                &&& after[i].bent_strength == before[i].bent_strength
                &&& after[i].debug_view == before[i].debug_view
            },
{
    let next = choose|next: S|
        {
            &&& #[trigger] strength_after(first_ao(before), next)
            &&& after == with_ao(before, next)
            &&& is_on(next, on)
        };
    if before.len() > 0 {
        assert forall|answer: bool| #[trigger] is_on(before[0].ao_strength, answer) implies answer == (val(
            before[0].ao_strength,
        ) > val(half)) by {
            let h = choose|h: S| #[trigger]
                scalar::ratio_is(1, 2, h) && scalar::below_is(h, before[0].ao_strength, answer);
            assert(h == half);
        }
    }
}

/// Toggling the bent normals sets every material by the first: off where the first is above
/// one half, and full where it is not. It says which, and that they are on where there is no
/// material. Nothing else of any material changes. Holds where the scalar's operations keep
/// the order of the values.
pub proof fn law_toggle_bent_follows_the_first<S: Scalar>(
    val: spec_fn(S) -> real,
    num: spec_fn(S) -> bool,
    before: Seq<Inspection<S>>,
    after: Seq<Inspection<S>>,
    on: bool,
    half: S,
)
    requires
        scalar::ordered(val, num),
        scalar::half_lies_between::<S>(),
        scalar::repeatable::<S>(),
        scalar::ratio_is(1, 2, half),
        before.len() > 0 ==> num(before[0].bent_strength),
        bent_toggled(before, after, on),
    ensures
        after.len() == before.len(),
        before.len() == 0 ==> on,
        before.len() > 0 ==> on == (val(before[0].bent_strength) <= val(half)),
        forall|i: int|
            #![trigger after[i]]
            0 <= i < before.len() ==> {
                &&& val(before[0].bent_strength) > val(half) ==> scalar::int_is(0, after[i].bent_strength)
                &&& val(before[0].bent_strength) <= val(half) ==> scalar::int_is(1, after[i].bent_strength)
                &&& after[i].ao_strength == before[i].ao_strength
                &&& after[i].debug_view == before[i].debug_view
            },
{
    let next = choose|next: S|
        {
            &&& #[trigger] strength_after(first_bent(before), next)
            &&& after == with_bent(before, next)
            &&& is_on(next, on)
        };
    if before.len() > 0 {
        assert forall|answer: bool| #[trigger] is_on(before[0].bent_strength, answer) implies answer == (val(
            before[0].bent_strength,
        ) > val(half)) by {
            let h = choose|h: S| #[trigger]
                scalar::ratio_is(1, 2, h) && scalar::below_is(h, before[0].bent_strength, answer);
            assert(h == half);
        }
    }
}

} // verus!
