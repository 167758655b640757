//! The one-time bake of the terrain's material: its targets, the cameras that render
//! them, and the sentinels that tell when rendering can start.

use std::collections::HashMap;

use vstd::prelude::*;

use crate::heightfield::TextureFormat;

verus! {

/// Render layer of the albedo bake.
pub const RVT_ALBEDO_LAYER: usize = 1;

/// Render layer of the normal bake.
pub const RVT_NORMAL_LAYER: usize = 2;

/// Render layer of the macro-AO, bent-normal and cavity bake.
pub const RVT_AO_LAYER: usize = 3;

/// A sentinel's render layer is this far from its target's, which is far enough to
/// keep the sentinels off every target's layer.
pub const RVT_SENTINEL_LAYER_OFFSET: usize = 3;

/// A sentinel's camera renders this much earlier than its target's.
pub const RVT_SENTINEL_ORDER_OFFSET: isize = 10;

/// Frames a bake camera renders once it is ready; more than one only for safety.
pub const RVT_BAKE_FRAMES: u32 = 2;

/// Side of a sentinel's target, in texels.
pub const SENTINEL_SIZE: u32 = 4;

/// Which of a clipmap's baked textures a target is.
#[derive(Clone, Copy, Debug, PartialEq, Eq, Structural)]
pub enum RvtTexture {
    Albedo,
    Normal,
    Ao,
}

/// One texture to bake: what the bake shader puts out, where it goes, and the render
/// layer and order that keep it apart.
#[derive(Clone, Copy, Debug, PartialEq, Eq, Structural)]
pub struct BakeTarget {
    /// Output mode of the bake shader.
    pub mode: u32,
    pub texture: RvtTexture,
    pub format: TextureFormat,
    pub layer: usize,
    /// Order of the camera; the main view renders at order 0.
    pub order: isize,
}

/// A sentinel: a tiny render of a target's material, read back until it shows that the bake
/// can be rendered. It has the target's format, so that both need the same pipeline.
#[derive(Clone, Copy, Debug, PartialEq, Eq, Structural)]
pub struct Sentinel {
    /// Side of its image, in texels.
    pub size: u32,
    pub format: TextureFormat,
    pub layer: usize,
    /// Order of its camera.
    pub order: isize,
}

impl BakeTarget {
    /// Albedo, with the sun visibility in alpha.
    pub open spec fn albedo() -> Self {
        BakeTarget {
            mode: 0,
            texture: RvtTexture::Albedo,
            format: TextureFormat::Rgba8UnormSrgb,
            layer: 1,
            order: (-3) as isize,
        }
    }

    /// Normal, roughness and dominant material.
    pub open spec fn normal() -> Self {
        BakeTarget {
            mode: 1,
            texture: RvtTexture::Normal,
            format: TextureFormat::Rgba8Unorm,
            layer: 2,
            order: (-2) as isize,
        }
    }

    /// Macro AO, bent normal and cavity.
    pub open spec fn ao() -> Self {
        BakeTarget {
            mode: 2,
            texture: RvtTexture::Ao,
            format: TextureFormat::Rgba8Unorm,
            layer: 3,
            order: (-1) as isize,
        }
    }

    /// The targets baked for a clipmap.
    pub open spec fn list(ambient_gather: bool) -> Seq<Self> {
        if ambient_gather {
            seq![Self::albedo(), Self::normal(), Self::ao()]
        } else {
            seq![Self::albedo(), Self::normal()]
        }
    }

    /// The target's sentinel.
    pub open spec fn sentinel_of(self) -> Sentinel {
        Sentinel {
            size: SENTINEL_SIZE,
            format: self.format,
            layer: (self.layer + RVT_SENTINEL_LAYER_OFFSET) as usize,
            order: (self.order - RVT_SENTINEL_ORDER_OFFSET) as isize,
        }
    }

    /// The target's sentinel.
    pub fn sentinel(&self) -> (r: Sentinel)
        requires
            self.layer + RVT_SENTINEL_LAYER_OFFSET <= usize::MAX,
            isize::MIN <= self.order - RVT_SENTINEL_ORDER_OFFSET,
        ensures
            r == self.sentinel_of(),
            r.layer == self.layer + RVT_SENTINEL_LAYER_OFFSET,
            r.order == self.order - RVT_SENTINEL_ORDER_OFFSET,
    {
        Sentinel {
            size: SENTINEL_SIZE,
            format: self.format,
            layer: self.layer + RVT_SENTINEL_LAYER_OFFSET,
            order: self.order - RVT_SENTINEL_ORDER_OFFSET,
        }
    }

    /// Every bake and every sentinel has a render layer of its own, apart from the main
    /// view's.
    pub proof fn law_layers_never_collide(ambient_gather: bool, i: int, j: int)
        requires
            0 <= i < Self::list(ambient_gather).len(),
            0 <= j < Self::list(ambient_gather).len(),
        ensures
            Self::list(ambient_gather)[i].layer != 0,
            i != j ==> Self::list(ambient_gather)[i].layer != Self::list(ambient_gather)[j].layer,
            Self::list(ambient_gather)[i].layer != Self::list(
                ambient_gather,
            )[j].sentinel_of().layer,
            i != j ==> Self::list(ambient_gather)[i].sentinel_of().layer != Self::list(
                ambient_gather,
            )[j].sentinel_of().layer,
    {
    }

    /// No two cameras tie in order, every sentinel renders before every bake, and every
    /// bake before the main view.
    pub proof fn law_orders_never_tie(ambient_gather: bool, i: int, j: int)
        requires
            0 <= i < Self::list(ambient_gather).len(),
            0 <= j < Self::list(ambient_gather).len(),
        ensures
            Self::list(ambient_gather)[i].order < 0,
            i != j ==> Self::list(ambient_gather)[i].order != Self::list(ambient_gather)[j].order,
            i != j ==> Self::list(ambient_gather)[i].sentinel_of().order != Self::list(
                ambient_gather,
            )[j].sentinel_of().order,
            Self::list(ambient_gather)[i].sentinel_of().order < Self::list(
                ambient_gather,
            )[j].order,
    {
    }
}

/// The targets to bake for a clipmap: albedo and normal always, the ambient channel
/// only where it is gathered.
pub fn bake_targets(ambient_gather: bool) -> (r: Vec<BakeTarget>)
    ensures
        r@ == BakeTarget::list(ambient_gather),
{
    let mut targets: Vec<BakeTarget> = Vec::new();
    targets.push(
        BakeTarget {
            mode: 0,
            texture: RvtTexture::Albedo,
            format: TextureFormat::Rgba8UnormSrgb,
            layer: RVT_ALBEDO_LAYER,
            order: -3,
        },
    );
    targets.push(
        BakeTarget {
            mode: 1,
            texture: RvtTexture::Normal,
            format: TextureFormat::Rgba8Unorm,
            layer: RVT_NORMAL_LAYER,
            order: -2,
        },
    );
    if ambient_gather {
        targets.push(
            BakeTarget {
                mode: 2,
                texture: RvtTexture::Ao,
                format: TextureFormat::Rgba8Unorm,
                layer: RVT_AO_LAYER,
                order: -1,
            },
        );
    }
    targets
}

/// A sentinel readback shows a rendered pixel: one with a color other than black.
pub open spec fn shows_color(data: Seq<u8>) -> bool {
    exists|i: int| 0 <= i < data.len() && i % 4 != 3 && #[trigger] data[i] != 0
}

/// The readback holds whole pixels as far as they have to be looked at: the last one
/// may lack its alpha, and may lack more only where a color was found before.
pub open spec fn whole_pixels(data: Seq<u8>) -> bool {
    data.len() % 4 == 0 || data.len() % 4 == 3 || shows_color(data)
}

/// Whether the readback holds whole pixels as far as they have to be looked at.
pub fn has_whole_pixels(data: &[u8]) -> (r: bool)
    ensures
        r == whole_pixels(data@),
{
    let rest: usize = data.len() % 4;
    rest == 0 || rest == 3 || has_color(data)
}

/// Whether a readback shows a color other than black.
fn has_color(data: &[u8]) -> (r: bool)
    ensures
        r == shows_color(data@),
{
    let mut i: usize = 0;
    while i < data.len()
        invariant
            i <= data@.len(),
            forall|j: int| 0 <= j < i && j % 4 != 3 ==> #[trigger] data@[j] == 0,
        decreases data@.len() - i,
    {
        if i % 4 != 3 && data[i] != 0 {
            assert(data@[i as int] != 0);
            return true;
        }
        i = i + 1;
    }
    false
}

/// Whether the sentinel has been rendered: its readback is no longer all clear color.
pub fn readback_is_baked(data: &[u8]) -> (r: bool)
    requires
        whole_pixels(data@),
    ensures
        r == shows_color(data@),
{
    has_color(data)
}

/// A bake camera. It stays inactive until its sentinel shows that the bake can be
/// rendered, then renders a few frames and deactivates.
#[derive(Clone, Copy, Debug, PartialEq, Eq, Structural)]
pub struct RvtBakeCamera {
    /// Whether the camera renders.
    pub is_active: bool,
    /// Whether the sentinel has shown a rendered pixel.
    pub ready: bool,
    /// Frames left to render.
    pub frames: u32,
    /// The clipmap entity this camera bakes for.
    pub clipmap: u64,
}

impl RvtBakeCamera {
    /// A camera that waits for its sentinel.
    pub open spec fn waiting(clipmap: u64) -> Self {
        RvtBakeCamera { is_active: false, ready: false, frames: RVT_BAKE_FRAMES, clipmap }
    }

    /// A camera that waits for its sentinel.
    pub fn new(clipmap: u64) -> (r: Self)
        ensures
            r == Self::waiting(clipmap),
    {
        RvtBakeCamera { is_active: false, ready: false, frames: RVT_BAKE_FRAMES, clipmap }
    }

    /// The camera after a readback that did or did not show color.
    pub open spec fn told(self, baked: bool) -> Self {
        RvtBakeCamera { ready: self.ready || baked, ..self }
    }

    /// A readback tears the sentinel down when it is the first to show color.
    pub open spec fn tears_down(self, baked: bool) -> bool {
        baked && !self.ready
    }

    /// A readback leaves the camera as `after`, and its sentinel is to be torn down if `r`.
    pub open spec fn reads(self, data: Seq<u8>, after: Self, r: bool) -> bool {
        &&& after == self.told(shows_color(data))
        &&& r == self.tears_down(shows_color(data))
    }

    /// Takes a sentinel readback. Returns whether the sentinel is to be torn down.
    pub fn on_readback(&mut self, data: &[u8]) -> (r: bool)
        requires
            whole_pixels(data@),
        ensures
            old(self).reads(data@, *final(self), r),
    {
        if !readback_is_baked(data) {
            return false;
        }
        if self.ready {
            return false;
        }
        self.ready = true;
        true
    }

    /// A sentinel is torn down at most once, however many readbacks still arrive.
    pub proof fn law_torn_down_once(self, first: bool, second: bool)
        ensures
            self.tears_down(first) ==> !self.told(first).tears_down(second),
            self.ready ==> !self.tears_down(first),
            self.ready ==> self.told(first).ready,
    {
    }

    /// The camera after one frame.
    pub open spec fn driven(self) -> Self {
        if !self.ready {
            self
        } else if self.frames > 0 {
            RvtBakeCamera { is_active: true, frames: (self.frames - 1) as u32, ..self }
        } else {
            RvtBakeCamera { is_active: false, ..self }
        }
    }

    /// The camera's bake is finished in this frame.
    pub open spec fn finishes(self) -> bool {
        self.ready && self.frames == 0 && self.is_active
    }

    /// The camera's bake was finished in an earlier frame.
    pub open spec fn done(self) -> bool {
        self.ready && self.frames == 0 && !self.is_active
    }

    /// Drives the camera for one frame. Returns whether its bake is finished by that.
    fn drive(&mut self) -> (r: bool)
        ensures
            *final(self) == old(self).driven(),
            r == old(self).finishes(),
    {
        if !self.ready {
            return false;
        }
        if self.frames > 0 {
            self.is_active = true;
            self.frames = self.frames - 1;
            false
        } else if self.is_active {
            self.is_active = false;
            true
        } else {
            false
        }
    }

    /// The camera after `n` frames.
    pub open spec fn after(self, n: nat) -> Self
        decreases n,
    {
        if n == 0 {
            self
        } else {
            self.after((n - 1) as nat).driven()
        }
    }

    /// A camera renders exactly the frames it was given, finishes in the frame after
    /// them, and neither renders nor finishes again.
    pub proof fn law_renders_its_frames_once(self, n: nat)
        requires
            self.ready,
            !self.is_active,
            0 < self.frames,
        ensures
            self.after(n).is_active <==> 0 < n <= self.frames,
            self.after(n).finishes() <==> n == self.frames,
            self.after(n).done() <==> n > self.frames,
    {
        self.lemma_frames_left(n);
    }

    /// The frames left after `n` frames.
    proof fn lemma_frames_left(self, n: nat)
        requires
            self.ready,
            !self.is_active,
            0 < self.frames,
        ensures
            self.after(n) == (RvtBakeCamera {
                frames: if n <= self.frames {
                    (self.frames - n) as u32
                } else {
                    0
                },
                is_active: 0 < n <= self.frames,
                ..self
            }),
        decreases n,
    {
        if n > 0 {
            self.lemma_frames_left((n - 1) as nat);
        }
    }

    /// A camera whose sentinel has shown nothing neither renders nor finishes.
    pub proof fn law_waits_for_its_sentinel(self, n: nat)
        requires
            !self.ready,
        ensures
            self.after(n) == self,
            !self.after(n).finishes(),
        decreases n,
    {
        if n > 0 {
            self.law_waits_for_its_sentinel((n - 1) as nat);
        }
    }
}

/// The bakes left to finish after one more is finished for `clipmap`. A clipmap that
/// is gone has none to count.
pub open spec fn tallied(pending: Map<u64, u32>, clipmap: u64) -> Map<u64, u32> {
    if pending.contains_key(clipmap) {
        pending.insert(
            clipmap,
            if pending[clipmap] > 0 {
                (pending[clipmap] - 1) as u32
            } else {
                0
            },
        )
    } else {
        pending
    }
}

/// The bakes left to finish after the first `n` cameras were driven.
pub open spec fn pending_after(
    cameras: Seq<RvtBakeCamera>,
    pending: Map<u64, u32>,
    n: nat,
) -> Map<u64, u32>
    decreases n,
{
    if n == 0 {
        pending
    } else {
        let before = pending_after(cameras, pending, (n - 1) as nat);
        if cameras[n - 1].finishes() {
            tallied(before, cameras[n - 1].clipmap)
        } else {
            before
        }
    }
}

/// The camera at `i` finishes the last bake of its clipmap.
pub open spec fn completes(
    cameras: Seq<RvtBakeCamera>,
    pending: Map<u64, u32>,
    i: int,
) -> bool {
    &&& cameras[i].finishes()
    &&& pending.contains_key(cameras[i].clipmap)
    &&& pending_after(cameras, pending, (i + 1) as nat)[cameras[i].clipmap] == 0
}

/// The clipmaps that the first `n` cameras make ready, in order.
pub open spec fn ready_after(
    cameras: Seq<RvtBakeCamera>,
    pending: Map<u64, u32>,
    n: nat,
) -> Seq<u64>
    decreases n,
{
    if n == 0 {
        seq![]
    } else {
        let before = ready_after(cameras, pending, (n - 1) as nat);
        if completes(cameras, pending, n - 1) {
            before.push(cameras[n - 1].clipmap)
        } else {
            before
        }
    }
}

/// Counting never adds or removes a clipmap.
proof fn lemma_pending_keys(cameras: Seq<RvtBakeCamera>, pending: Map<u64, u32>, n: nat)
    ensures
        pending_after(cameras, pending, n).dom() == pending.dom(),
    decreases n,
{
    if n > 0 {
        lemma_pending_keys(cameras, pending, (n - 1) as nat);
        let before = pending_after(cameras, pending, (n - 1) as nat);
        let clipmap = cameras[n - 1].clipmap;
        if before.contains_key(clipmap) {
            assert(before.dom().insert(clipmap) =~= before.dom());
        }
    }
}

/// One frame turns the cameras and the bakes left into `driven` and `left`, and makes the
/// clipmaps in `ready` ready.
pub open spec fn frame_passes(
    cameras: Seq<RvtBakeCamera>,
    pending: Map<u64, u32>,
    driven: Seq<RvtBakeCamera>,
    left: Map<u64, u32>,
    ready: Seq<u64>,
) -> bool {
    &&& driven == all_driven(cameras)
    &&& left == pending_after(cameras, pending, cameras.len())
    &&& ready == ready_after(cameras, pending, cameras.len())
}

/// Drives every bake camera for one frame. `pending` holds, for each clipmap, the bakes
/// that are left to finish; it is counted down as they do. Returns the clipmaps whose
/// last bake was finished, which are now ready.
pub fn drive_rvt_bake(
    cameras: &mut Vec<RvtBakeCamera>,
    pending: &mut HashMap<u64, u32>,
) -> (ready: Vec<u64>)
    ensures
        frame_passes(
            old(cameras)@,
            old(pending)@,
            final(cameras)@,
            final(pending)@,
            ready@,
        ),
{
    broadcast use vstd::std_specs::hash::group_hash_axioms;

    let ghost cameras0 = cameras@;
    let ghost pending0 = pending@;
    let mut ready: Vec<u64> = Vec::new();
    let mut i: usize = 0;
    while i < cameras.len()
        invariant
            i <= cameras@.len(),
            cameras@.len() == cameras0.len(),
            forall|j: int| 0 <= j < i ==> #[trigger] cameras@[j] == cameras0[j].driven(),
            forall|j: int| i <= j < cameras@.len() ==> #[trigger] cameras@[j] == cameras0[j],
            pending@ == pending_after(cameras0, pending0, i as nat),
            ready@ == ready_after(cameras0, pending0, i as nat),
        decreases cameras@.len() - i,
    {
        proof {
            lemma_pending_keys(cameras0, pending0, i as nat);
        }
        let mut camera: RvtBakeCamera = cameras[i];
        let clipmap: u64 = camera.clipmap;
        let finished: bool = camera.drive();
        cameras[i] = camera;
        if finished {
            let left: Option<u32> = match pending.get(&clipmap) {
                Some(n) => Some(*n),
                None => None,
            };
            if let Some(n) = left {
                let now: u32 = if n > 0 {
                    n - 1
                } else {
                    0
                };
                pending.insert(clipmap, now);
                if now == 0 {
                    ready.push(clipmap);
                }
            }
        }
        i = i + 1;
    }
    assert(cameras@ =~= all_driven(cameras0));
    ready
}

/// How many of the first `n` cameras bake for `clipmap` and are not done.
pub open spec fn unfinished(cameras: Seq<RvtBakeCamera>, clipmap: u64, n: nat) -> nat
    decreases n,
{
    if n == 0 {
        0
    } else {
        unfinished(cameras, clipmap, (n - 1) as nat) + if cameras[n - 1].clipmap == clipmap
            && !cameras[n - 1].done() {
            1nat
        } else {
            0nat
        }
    }
}

/// How many of the first `n` cameras finish the bake of `clipmap` in this frame.
pub open spec fn finishing(cameras: Seq<RvtBakeCamera>, clipmap: u64, n: nat) -> nat
    decreases n,
{
    if n == 0 {
        0
    } else {
        finishing(cameras, clipmap, (n - 1) as nat) + if cameras[n - 1].clipmap == clipmap
            && cameras[n - 1].finishes() {
            1nat
        } else {
            0nat
        }
    }
}

/// For every clipmap, the bakes left to finish are those of its cameras that are not
/// done.
pub open spec fn counted(cameras: Seq<RvtBakeCamera>, pending: Map<u64, u32>) -> bool {
    forall|clipmap: u64| #[trigger]
        pending.contains_key(clipmap) ==> pending[clipmap] == unfinished(
            cameras,
            clipmap,
            cameras.len(),
        )
}

/// The cameras after one frame.
pub open spec fn all_driven(cameras: Seq<RvtBakeCamera>) -> Seq<RvtBakeCamera> {
    cameras.map_values(|c: RvtBakeCamera| c.driven())
}

/// A camera that finishes is not done before and done after; others stay as they were.
proof fn lemma_unfinished_driven(cameras: Seq<RvtBakeCamera>, clipmap: u64, n: nat)
    requires
        n <= cameras.len(),
    ensures
        unfinished(all_driven(cameras), clipmap, n) + finishing(cameras, clipmap, n) == unfinished(
            cameras,
            clipmap,
            n,
        ),
    decreases n,
{
    if n > 0 {
        lemma_unfinished_driven(cameras, clipmap, (n - 1) as nat);
        assert(all_driven(cameras)[n - 1] == cameras[n - 1].driven());
    }
}

/// More cameras finish no fewer bakes.
proof fn lemma_finishing_grows(cameras: Seq<RvtBakeCamera>, clipmap: u64, m: nat, n: nat)
    requires
        m <= n,
    ensures
        finishing(cameras, clipmap, m) <= finishing(cameras, clipmap, n),
    decreases n,
{
    if m < n {
        lemma_finishing_grows(cameras, clipmap, m, (n - 1) as nat);
    }
}

/// The count goes down by the bakes finished.
proof fn lemma_pending_counts_down(
    cameras: Seq<RvtBakeCamera>,
    pending: Map<u64, u32>,
    clipmap: u64,
    n: nat,
)
    requires
        n <= cameras.len(),
        pending.contains_key(clipmap),
        finishing(cameras, clipmap, cameras.len()) <= pending[clipmap],
    ensures
        pending_after(cameras, pending, n)[clipmap] == pending[clipmap] - finishing(
            cameras,
            clipmap,
            n,
        ),
    decreases n,
{
    lemma_finishing_grows(cameras, clipmap, n, cameras.len());
    if n > 0 {
        lemma_pending_keys(cameras, pending, (n - 1) as nat);
        lemma_pending_counts_down(cameras, pending, clipmap, (n - 1) as nat);
        assert(pending_after(cameras, pending, (n - 1) as nat).contains_key(clipmap));
    }
}

/// A clipmap is among the ready ones once all its bakes are finished, and only once.
proof fn lemma_ready_when_counted_down(
    cameras: Seq<RvtBakeCamera>,
    pending: Map<u64, u32>,
    n: nat,
)
    requires
        n <= cameras.len(),
        forall|clipmap: u64| #[trigger]
            pending.contains_key(clipmap) ==> finishing(cameras, clipmap, cameras.len())
                <= pending[clipmap],
    ensures
        ready_after(cameras, pending, n).no_duplicates(),
        forall|clipmap: u64| #[trigger]
            ready_after(cameras, pending, n).contains(clipmap) <==> {
                &&& pending.contains_key(clipmap)
                &&& 0 < finishing(cameras, clipmap, n)
                &&& finishing(cameras, clipmap, n) == pending[clipmap]
            },
    decreases n,
{
    if n > 0 {
        let m = (n - 1) as nat;
        lemma_ready_when_counted_down(cameras, pending, m);
        let before = ready_after(cameras, pending, m);
        let now = ready_after(cameras, pending, n);
        let last = cameras[n - 1].clipmap;
        if pending.contains_key(last) {
            lemma_pending_counts_down(cameras, pending, last, n);
            lemma_finishing_grows(cameras, last, n, cameras.len());
        }
        if completes(cameras, pending, n - 1) {
            assert(!before.contains(last));
            assert(now == before.push(last));
            assert forall|clipmap: u64| now.contains(clipmap) <==> before.contains(clipmap)
                || clipmap == last by {
                if before.contains(clipmap) {
                    let k = choose|k: int| 0 <= k < before.len() && before[k] == clipmap;
                    assert(now[k] == clipmap);
                }
                assert(now[before.len() as int] == last);
            }
        } else {
            assert(now == before);
        }
        assert forall|clipmap: u64| #[trigger] now.contains(clipmap) <==> {
            &&& pending.contains_key(clipmap)
            &&& 0 < finishing(cameras, clipmap, n)
            &&& finishing(cameras, clipmap, n) == pending[clipmap]
        } by {
            assert(before.contains(clipmap) <==> {
                &&& pending.contains_key(clipmap)
                &&& 0 < finishing(cameras, clipmap, m)
                &&& finishing(cameras, clipmap, m) == pending[clipmap]
            });
        }
    }
}

/// A frame keeps the counts right, and makes a clipmap ready exactly when the last of
/// its bakes is finished, once.
pub proof fn law_ready_when_last_finishes(cameras: Seq<RvtBakeCamera>, pending: Map<u64, u32>)
    requires
        counted(cameras, pending),
    ensures
        counted(all_driven(cameras), pending_after(cameras, pending, cameras.len())),
        ready_after(cameras, pending, cameras.len()).no_duplicates(),
        forall|clipmap: u64| #[trigger]
            ready_after(cameras, pending, cameras.len()).contains(clipmap) <==> {
                &&& pending.contains_key(clipmap)
                &&& 0 < unfinished(cameras, clipmap, cameras.len())
                &&& unfinished(all_driven(cameras), clipmap, cameras.len()) == 0
            },
{
    let n = cameras.len();
    assert forall|clipmap: u64| #[trigger] pending.contains_key(clipmap) implies finishing(
        cameras,
        clipmap,
        n,
    ) <= pending[clipmap] by {
        lemma_unfinished_driven(cameras, clipmap, n);
    }
    lemma_ready_when_counted_down(cameras, pending, n);
    assert forall|clipmap: u64| #[trigger]
        ready_after(cameras, pending, n).contains(clipmap) <==> {
            &&& pending.contains_key(clipmap)
            &&& 0 < unfinished(cameras, clipmap, n)
            &&& unfinished(all_driven(cameras), clipmap, n) == 0
        } by {
        lemma_unfinished_driven(cameras, clipmap, n);
    }
    assert forall|clipmap: u64| #[trigger]
        pending_after(cameras, pending, n).contains_key(clipmap) implies pending_after(
        cameras,
        pending,
        n,
    )[clipmap] == unfinished(all_driven(cameras), clipmap, n) by {
        lemma_pending_keys(cameras, pending, n);
        assert(pending.contains_key(clipmap));
        lemma_pending_counts_down(cameras, pending, clipmap, n);
        lemma_unfinished_driven(cameras, clipmap, n);
    }
}

/// A clipmap whose bakes are all finished is not made ready again, and stays finished.
pub proof fn law_ready_at_most_once(
    cameras: Seq<RvtBakeCamera>,
    pending: Map<u64, u32>,
    clipmap: u64,
)
    requires
        counted(cameras, pending),
        unfinished(cameras, clipmap, cameras.len()) == 0,
    ensures
        !ready_after(cameras, pending, cameras.len()).contains(clipmap),
        unfinished(all_driven(cameras), clipmap, cameras.len()) == 0,
{
    law_ready_when_last_finishes(cameras, pending);
    lemma_unfinished_driven(cameras, clipmap, cameras.len());
}

/// A readback leaves the counts right: it makes no bake finished, as long as a camera
/// that waits has frames to render. Every camera starts like that, and no frame changes
/// it.
pub proof fn law_readback_keeps_counts(camera: RvtBakeCamera, baked: bool)
    requires
        camera.ready || 0 < camera.frames,
    ensures
        camera.told(baked).done() == camera.done(),
        camera.told(baked).ready || 0 < camera.told(baked).frames,
        camera.driven().ready || 0 < camera.driven().frames,
        RvtBakeCamera::waiting(camera.clipmap).ready || 0 < RvtBakeCamera::waiting(
            camera.clipmap,
        ).frames,
{
}

/// Cameras that bake for other clipmaps leave nothing to finish for this one.
pub(crate) proof fn lemma_unfinished_none(cameras: Seq<RvtBakeCamera>, clipmap: u64, n: nat)
    requires
        n <= cameras.len(),
        forall|i: int| 0 <= i < cameras.len() ==> (#[trigger] cameras[i]).clipmap != clipmap,
    ensures
        unfinished(cameras, clipmap, n) == 0,
    decreases n,
{
    if n > 0 {
        lemma_unfinished_none(cameras, clipmap, (n - 1) as nat);
    }
}

/// Bakes to finish depend on the cameras looked at only.
proof fn lemma_unfinished_prefix(
    cameras: Seq<RvtBakeCamera>,
    added: Seq<RvtBakeCamera>,
    clipmap: u64,
    n: nat,
)
    requires
        n <= cameras.len(),
    ensures
        unfinished(cameras + added, clipmap, n) == unfinished(cameras, clipmap, n),
    decreases n,
{
    if n > 0 {
        lemma_unfinished_prefix(cameras, added, clipmap, (n - 1) as nat);
    }
}

/// Cameras that wait for their sentinels add themselves to what their clipmap has left to
/// finish, and nothing to any other.
pub(crate) proof fn lemma_unfinished_appended(
    cameras: Seq<RvtBakeCamera>,
    added: Seq<RvtBakeCamera>,
    id: u64,
    clipmap: u64,
    n: nat,
)
    requires
        n <= added.len(),
        forall|i: int|
            0 <= i < added.len() ==> #[trigger] added[i] == RvtBakeCamera::waiting(id),
    ensures
        unfinished(cameras + added, clipmap, cameras.len() + n) == unfinished(
            cameras,
            clipmap,
            cameras.len(),
        ) + if clipmap == id {
            n
        } else {
            0
        },
    decreases n,
{
    if n == 0 {
        lemma_unfinished_prefix(cameras, added, clipmap, cameras.len());
    } else {
        lemma_unfinished_appended(cameras, added, id, clipmap, (n - 1) as nat);
        assert((cameras + added)[cameras.len() + n - 1] == added[n - 1]);
    }
}

/// A readback in which every pixel is black shows nothing, whatever its alphas and however
/// many pixels it has: the camera stays as it is, and its sentinel stands.
pub proof fn law_black_shows_nothing(
    camera: RvtBakeCamera,
    data: Seq<u8>,
    after: RvtBakeCamera,
    r: bool,
)
    requires
        camera.reads(data, after, r),
        forall|k: int, c: int|
            #![trigger data[4 * k + c]]
            0 <= c < 3 && 0 <= 4 * k + c < data.len() ==> data[4 * k + c] == 0,
    ensures
        after == camera,
        !r,
{
    assert forall|i: int| 0 <= i < data.len() && i % 4 != 3 implies #[trigger] data[i] == 0 by {
        let (k, c) = (i / 4, i % 4);
        assert(i == 4 * k + c);
        assert(data[4 * k + c] == 0);
    }
}

/// A single red, green or blue byte that is not zero, of any pixel, makes a waiting camera
/// ready, and asks for its sentinel to be torn down unless that was asked for before.
/// Nothing else of the camera changes.
pub proof fn law_any_color_shows(
    camera: RvtBakeCamera,
    data: Seq<u8>,
    k: int,
    c: int,
    after: RvtBakeCamera,
    r: bool,
)
    requires
        camera.reads(data, after, r),
        0 <= k,
        0 <= c < 3,
        4 * k + c < data.len(),
        data[4 * k + c] != 0,
    ensures
        after.ready,
        after.is_active == camera.is_active,
        after.frames == camera.frames,
        after.clipmap == camera.clipmap,
        r == !camera.ready,
{
    let i = 4 * k + c;
    assert(i % 4 == c);
    assert(data[i] != 0);
}

/// A readback of whole pixels can always be looked at. One that is cut off within the red,
/// green and blue of its last pixel can be if and only if a byte of color is found in it.
pub proof fn law_readback_can_be_looked_at(data: Seq<u8>)
    ensures
        data.len() % 4 == 0 || data.len() % 4 == 3 ==> whole_pixels(data),
        data.len() % 4 == 1 || data.len() % 4 == 2 ==> (whole_pixels(data) <==> exists|k: int, c: int|
            #![trigger data[4 * k + c]]
            0 <= k && 0 <= c < 3 && 4 * k + c < data.len() && data[4 * k + c] != 0),
{
    if shows_color(data) {
        let i = choose|i: int| 0 <= i < data.len() && i % 4 != 3 && #[trigger] data[i] != 0;
        let (k, c) = (i / 4, i % 4);
        assert(i == 4 * k + c);
        assert(data[4 * k + c] != 0);
    }
    assert forall|k: int, c: int|
        #![trigger data[4 * k + c]]
        0 <= k && 0 <= c < 3 && 4 * k + c < data.len() && data[4 * k + c]
            != 0 implies shows_color(data) by {
        let i = 4 * k + c;
        assert(i % 4 == c);
        assert(data[i] != 0);
    }
}

/// A new camera waits: it does not render, its sentinel has shown nothing, and it has two
/// frames to render for its clipmap.
pub proof fn law_new_cameras_wait(clipmap: u64)
    ensures
        RvtBakeCamera::waiting(clipmap) == (RvtBakeCamera {
            is_active: false,
            ready: false,
            frames: 2,
            clipmap,
        }),
{
}

/// One frame of a camera. One that is not ready stays as it is. One that is ready and has
/// frames left renders, and has one less. One without frames left stops. Nothing but
/// rendering and the frames left ever changes.
pub proof fn law_one_frame(camera: RvtBakeCamera)
    ensures
        !camera.ready ==> camera.driven() == camera,
        camera.ready && camera.frames > 0 ==> {
            &&& camera.driven().is_active
            &&& camera.driven().frames == camera.frames - 1
        },
        camera.ready && camera.frames == 0 ==> {
            &&& !camera.driven().is_active
            &&& camera.driven().frames == 0
        },
        camera.driven().ready == camera.ready,
        camera.driven().clipmap == camera.clipmap,
{
}

/// The targets without the ambient channel are those with it but the last, which alone
/// is the ambient one. Each target has the output mode of its place.
pub proof fn law_ambient_target_comes_last(ambient_gather: bool, i: int)
    requires
        0 <= i < BakeTarget::list(ambient_gather).len(),
    ensures
        BakeTarget::list(true).len() == 3,
        BakeTarget::list(false) == BakeTarget::list(true).drop_last(),
        ({
            let target = BakeTarget::list(ambient_gather)[i];
            &&& target.mode == i
            &&& (target.texture == RvtTexture::Albedo <==> i == 0)
            &&& (target.texture == RvtTexture::Normal <==> i == 1)
            &&& (target.texture == RvtTexture::Ao <==> i == 2)
            &&& (target.format == TextureFormat::Rgba8UnormSrgb <==> i == 0)
            &&& (target.format == TextureFormat::Rgba8Unorm <==> i != 0)
            &&& target.layer == i + 1
            &&& target.order == i - 3
        }),
{
    assert(BakeTarget::list(false) =~= BakeTarget::list(true).drop_last());
}

/// The sentinel of any target has four by four texels of the target's format, on the layer
/// three further and at the order ten earlier.
pub proof fn law_sentinel_of_a_target(target: BakeTarget)
    requires
        target.layer + 3 <= usize::MAX,
        isize::MIN <= target.order - 10,
    ensures
        target.sentinel_of().size == 4,
        target.sentinel_of().format == target.format,
        target.sentinel_of().layer == target.layer + 3,
        target.sentinel_of().order == target.order - 10,
{
}

/// The cameras that bake for `clipmap` and stop rendering in this frame: they are ready,
/// render, and have no frames left.
spec fn stopping(cameras: Seq<RvtBakeCamera>, clipmap: u64) -> Seq<RvtBakeCamera> {
    cameras.filter(
        |c: RvtBakeCamera| c.clipmap == clipmap && c.ready && c.is_active && c.frames == 0,
    )
}

/// The cameras that stop are those that finish.
proof fn lemma_stopping_counts(cameras: Seq<RvtBakeCamera>, clipmap: u64, n: nat)
    requires
        n <= cameras.len(),
    ensures
        stopping(cameras.take(n as int), clipmap).len() == finishing(cameras, clipmap, n),
    decreases n,
{
    reveal(Seq::filter);
    if n > 0 {
        lemma_stopping_counts(cameras, clipmap, (n - 1) as nat);
        let some = cameras.take(n as int);
        assert(some.drop_last() =~= cameras.take(n - 1));
        assert(some.last() == cameras[n - 1]);
    }
}

/// Every finished bake is counted, down to zero.
proof fn lemma_counts_to_zero(
    cameras: Seq<RvtBakeCamera>,
    pending: Map<u64, u32>,
    clipmap: u64,
    n: nat,
)
    requires
        n <= cameras.len(),
        pending.contains_key(clipmap),
    ensures
        pending_after(cameras, pending, n)[clipmap] == if pending[clipmap] > finishing(
            cameras,
            clipmap,
            n,
        ) {
            pending[clipmap] - finishing(cameras, clipmap, n)
        } else {
            0
        },
    decreases n,
{
    if n > 0 {
        lemma_pending_keys(cameras, pending, (n - 1) as nat);
        lemma_counts_to_zero(cameras, pending, clipmap, (n - 1) as nat);
        assert(pending_after(cameras, pending, (n - 1) as nat).contains_key(clipmap));
    }
}

/// A clipmap is among the ready ones once as many bakes are finished as were left.
proof fn lemma_ready_once_counted(
    cameras: Seq<RvtBakeCamera>,
    pending: Map<u64, u32>,
    clipmap: u64,
    n: nat,
)
    requires
        n <= cameras.len(),
    ensures
        ready_after(cameras, pending, n).contains(clipmap) <==> {
            &&& pending.contains_key(clipmap)
            &&& 0 < finishing(cameras, clipmap, n)
            &&& pending[clipmap] <= finishing(cameras, clipmap, n)
        },
    decreases n,
{
    if n > 0 {
        let m = (n - 1) as nat;
        lemma_ready_once_counted(cameras, pending, clipmap, m);
        let before = ready_after(cameras, pending, m);
        let now = ready_after(cameras, pending, n);
        let last = cameras[n - 1].clipmap;
        if pending.contains_key(clipmap) {
            lemma_counts_to_zero(cameras, pending, clipmap, n);
        }
        if completes(cameras, pending, n - 1) {
            assert(now == before.push(last));
            if before.contains(clipmap) {
                let k = choose|k: int| 0 <= k < before.len() && before[k] == clipmap;
                assert(now[k] == clipmap);
            }
            assert(now[before.len() as int] == last);
        }
    }
}

/// A frame, whatever the counts were. For every clipmap the bakes left go down by one for
/// each of its cameras that stops rendering, but not below zero. It is made ready if and only
/// if at least one stops and none is left. Clipmaps that are gone stay gone.
pub proof fn law_a_frame_counts_what_stops(
    cameras: Seq<RvtBakeCamera>,
    pending: Map<u64, u32>,
    driven: Seq<RvtBakeCamera>,
    left: Map<u64, u32>,
    ready: Seq<u64>,
    clipmap: u64,
)
    requires
        frame_passes(cameras, pending, driven, left, ready),
    ensures
        ({
            let stopped = cameras.filter(
                |c: RvtBakeCamera| c.clipmap == clipmap && c.ready && c.is_active && c.frames == 0,
            ).len();
            &&& left.contains_key(clipmap) <==> pending.contains_key(clipmap)
            &&& pending.contains_key(clipmap) && pending[clipmap] >= stopped ==> left[clipmap]
                == pending[clipmap] - stopped
            &&& pending.contains_key(clipmap) && pending[clipmap] < stopped ==> left[clipmap] == 0
            &&& ready.contains(clipmap) <==> pending.contains_key(clipmap) && 0 < stopped
                && pending[clipmap] <= stopped
        }),
{
    let n = cameras.len();
    lemma_stopping_counts(cameras, clipmap, n);
    assert(cameras.take(n as int) =~= cameras);
    assert(stopping(cameras, clipmap) == cameras.filter(
        |c: RvtBakeCamera| c.clipmap == clipmap && c.ready && c.is_active && c.frames == 0,
    ));
    lemma_pending_keys(cameras, pending, n);
    assert(pending_after(cameras, pending, n).dom().contains(clipmap) <==> pending.dom().contains(
        clipmap,
    ));
    if pending.contains_key(clipmap) {
        lemma_counts_to_zero(cameras, pending, clipmap, n);
    }
    lemma_ready_once_counted(cameras, pending, clipmap, n);
}

/// A frame drives every camera, and each by itself: one that is not ready stays as it is, one
/// that is ready and has frames left renders and has one less, and one without frames left
/// stops.
pub proof fn law_a_frame_drives_every_camera(
    cameras: Seq<RvtBakeCamera>,
    pending: Map<u64, u32>,
    driven: Seq<RvtBakeCamera>,
    left: Map<u64, u32>,
    ready: Seq<u64>,
    i: int,
)
    requires
        frame_passes(cameras, pending, driven, left, ready),
        0 <= i < cameras.len(),
    ensures
        driven.len() == cameras.len(),
        !cameras[i].ready ==> driven[i] == cameras[i],
        cameras[i].ready && cameras[i].frames > 0 ==> driven[i].is_active && driven[i].frames
            == cameras[i].frames - 1,
        cameras[i].ready && cameras[i].frames == 0 ==> !driven[i].is_active && driven[i].frames
            == 0,
        driven[i].ready == cameras[i].ready,
        driven[i].clipmap == cameras[i].clipmap,
{
    law_one_frame(cameras[i]);
}

} // verus!
