use vstd::prelude::*;
use crate::components::{Components, DynamicBody, GlobalTransform, Transform};
use crate::physics::{BodyReport, PhysicsView};
use crate::scene::{slot_outcome, slot_synced, Scene};

verus! {

/// What sync did with one entity.
#[derive(Clone, Copy, Debug, PartialEq, Eq, Structural)]
pub enum SyncOutcome {
    /// The entity lacks a global transform or a dynamic body: sync does not concern it.
    NotSimulated,
    /// The body was never registered: it has no handle.
    Unregistered,
    /// The handle resolves to no body of the physics world.
    Orphaned,
    /// The body sleeps or is static: nothing was written.
    Skipped,
    /// Pose and kinetics were copied from the physics world.
    Synced,
}

/// The outcome of syncing `c` against `w`.
pub open spec fn sync_outcome<P: Copy, S, K: Copy>(
    c: Components<P, S, K>,
    w: PhysicsView<P, K>,
) -> SyncOutcome {
    if c.global.is_none() || c.body.is_none() {
        SyncOutcome::NotSimulated
    } else {
        match c.body.unwrap().handle {
            None => SyncOutcome::Unregistered,
            Some(h) => match w.lookup(h) {
                None => SyncOutcome::Orphaned,
                Some(r) => if !r.active || r.is_static {
                    SyncOutcome::Skipped
                } else {
                    SyncOutcome::Synced
                },
            },
        }
    }
}

/// The scale that the world placement composes with: the local one, or unit scale.
pub open spec fn scale_of<P, S>(local: Option<Transform<P, S>>) -> Option<S> {
    match local {
        Some(t) => Some(t.scale),
        None => None,
    }
}

/// `c` after its pose and kinetics were taken from `r`; every scale is kept.
pub open spec fn written<P, S, K>(c: Components<P, S, K>, r: BodyReport<P, K>) -> Components<P, S, K> {
    Components {
        global: Some(GlobalTransform { pose: r.pose, scale: scale_of(c.local) }),
        local: match c.local {
            Some(t) => Some(Transform { pose: r.pose, scale: t.scale }),
            None => None,
        },
        body: Some(DynamicBody { handle: c.body.unwrap().handle, kinetics: r.kinetics }),
        ..c
    }
}

/// `c` after one sync against `w`.
pub open spec fn synced<P: Copy, S, K: Copy>(
    c: Components<P, S, K>,
    w: PhysicsView<P, K>,
) -> Components<P, S, K> {
    if sync_outcome(c, w) == SyncOutcome::Synced {
        written(c, w.lookup(c.body.unwrap().handle.unwrap()).unwrap())
    } else {
        c
    }
}

/// Pulls the authoritative state of one entity's body from the physics world.
pub fn sync_components<P: Copy, S: Copy, K: Copy>(
    c: &mut Components<P, S, K>,
    w: &PhysicsView<P, K>,
) -> (r: SyncOutcome)
    ensures
        r == sync_outcome(*old(c), *w),
        *final(c) == synced(*old(c), *w),
{
    if c.global.is_none() || c.body.is_none() {
        return SyncOutcome::NotSimulated;
    }
    let body = c.body.unwrap();
    let h = match body.handle {
        None => return SyncOutcome::Unregistered,
        Some(h) => h,
    };
    let report = match w.rigid_body(h) {
        None => return SyncOutcome::Orphaned,
        Some(report) => report,
    };
    if !report.active || report.is_static {
        return SyncOutcome::Skipped;
    }
    let scale = match c.local {
        Some(t) => Some(t.scale),
        None => None,
    };
    c.global = Some(GlobalTransform { pose: report.pose, scale });
    c.local = match c.local {
        Some(t) => Some(Transform { pose: report.pose, scale: t.scale }),
        None => None,
    };
    c.body = Some(DynamicBody { handle: body.handle, kinetics: report.kinetics });
    SyncOutcome::Synced
}

/// Syncing again with no physics step in between changes nothing.
pub proof fn lemma_sync_idempotent<P: Copy, S, K: Copy>(c: Components<P, S, K>, w: PhysicsView<P, K>)
    ensures
        synced(synced(c, w), w) == synced(c, w),
{
}

/// A body that sleeps or is static is left exactly as it was, whatever else
/// the physics world reports of it.
pub proof fn lemma_sync_skips_resting<P: Copy, S, K: Copy>(
    c: Components<P, S, K>,
    w: PhysicsView<P, K>,
)
    requires
        c.body.is_some(),
        c.body.unwrap().handle.is_some(),
        w.lookup(c.body.unwrap().handle.unwrap()).is_some(),
        !w.lookup(c.body.unwrap().handle.unwrap()).unwrap().active
            || w.lookup(c.body.unwrap().handle.unwrap()).unwrap().is_static,
    ensures
        synced(c, w) == c,
{
}

/// Sync never changes the local scale, nor whether a local transform is present.
pub proof fn lemma_sync_keeps_scale<P: Copy, S, K: Copy>(c: Components<P, S, K>, w: PhysicsView<P, K>)
    ensures
        scale_of(synced(c, w).local) == scale_of(c.local),
{
}

/// Copies the authoritative state of every simulated entity from the
/// physics world into its components, once per frame after the physics step.
#[derive(Clone, Copy, Debug, Default, PartialEq, Eq, Structural)]
pub struct SyncBodiesFromPhysicsSystem;

impl SyncBodiesFromPhysicsSystem {
    pub fn new() -> (r: Self)
        ensures
            r == SyncBodiesFromPhysicsSystem,
    {
        SyncBodiesFromPhysicsSystem
    }

    /// Runs one frame of sync over `scene`; the outcome of slot `i` stands at index `i`.
    pub fn run<P: Copy, S: Copy, K: Copy>(&mut self, scene: &mut Scene<P, S, K>, w: &PhysicsView<P, K>) -> (r: Vec<SyncOutcome>)
        requires
            old(scene).wf(),
        ensures
            final(scene).wf(),
            final(scene)@.len() == old(scene)@.len(),
            r@.len() == old(scene)@.len(),
            forall|j: int| 0 <= j < old(scene)@.len() ==> #[trigger] final(scene)@[j] == slot_synced(old(scene)@[j], *w),
            forall|j: int| 0 <= j < old(scene)@.len() ==> #[trigger] r@[j] == slot_outcome(old(scene)@[j], *w),
    {
        scene.sync_from_physics(w)
    }
}

/// Over a whole scene, a second sync with no physics step in between leaves
/// every entity as the first one did.
pub proof fn lemma_scene_sync_idempotent<P: Copy, S, K: Copy>(
    s: Seq<Option<Components<P, S, K>>>,
    w: PhysicsView<P, K>,
)
    ensures
        forall|j: int| 0 <= j < s.len() ==> #[trigger] slot_synced(slot_synced(s[j], w), w) == slot_synced(s[j], w),
{
    assert forall|j: int| 0 <= j < s.len() implies #[trigger] slot_synced(slot_synced(s[j], w), w) == slot_synced(s[j], w) by {
        if let Some(c) = s[j] {
            lemma_sync_idempotent(c, w);
        }
    }
}

} // verus!
