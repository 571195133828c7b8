use vstd::prelude::*;
use crate::handle::{BodyHandle, ColliderHandle};

verus! {

/// Physical state of a gameplay object.
///
/// `K` holds what the physics engine computes for the body (linear velocity,
/// linear mass, angular inertia and center of mass, in the engine's own
/// numeric representation). The library only ever copies it.
#[derive(Clone, Copy, Debug)]
pub struct DynamicBody<K> {
    /// `None` until the body is registered in the physics world.
    pub handle: Option<BodyHandle>,
    pub kinetics: K,
}

/// Shape used for contact detection; its handle resolves contacts back to the entity.
#[derive(Clone, Copy, Debug, PartialEq, Eq, Structural)]
pub struct Collider {
    pub handle: Option<ColliderHandle>,
}

/// Local pose (`P`, position and rotation) and the gameplay-owned scale (`S`).
#[derive(Clone, Copy, Debug)]
pub struct Transform<P, S> {
    pub pose: P,
    pub scale: S,
}

/// World-space placement: a pose composed with a scale, `None` standing for
/// the unit scale. The engine-side matrix is built from these two parts.
#[derive(Clone, Copy, Debug)]
pub struct GlobalTransform<P, S> {
    pub pose: P,
    pub scale: Option<S>,
}

/// Rate-limited factory: spawns `remaining` more entities, one every
/// `SPAWN_INTERVAL` frames once `countdown` has run out.
#[derive(Clone, Copy, Debug, PartialEq, Eq, Structural)]
pub struct Spawner {
    pub remaining: u32,
    pub countdown: u32,
}

/// Frames left before the owning entity is destroyed.
#[derive(Clone, Copy, Debug, PartialEq, Eq, Structural)]
pub struct TimeToLive(pub u32);

/// The components that one entity may carry.
#[derive(Clone, Copy, Debug)]
pub struct Components<P, S, K> {
    pub global: Option<GlobalTransform<P, S>>,
    pub local: Option<Transform<P, S>>,
    pub body: Option<DynamicBody<K>>,
    pub collider: Option<Collider>,
    pub ttl: Option<TimeToLive>,
    pub spawner: Option<Spawner>,
}

/// The body handle that a set of components holds, if any.
pub open spec fn body_handle_of<P, S, K>(c: Components<P, S, K>) -> Option<BodyHandle> {
    match c.body {
        Some(b) => b.handle,
        None => None,
    }
}

/// The collider handle that a set of components holds, if any.
pub open spec fn collider_handle_of<P, S, K>(c: Components<P, S, K>) -> Option<ColliderHandle> {
    match c.collider {
        Some(col) => col.handle,
        None => None,
    }
}

} // verus!
