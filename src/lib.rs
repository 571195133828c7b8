//! Keeps gameplay entities and the bodies of a rigid-body physics world in
//! step: a scene of entities whose physics handles each have one owner,
//! the per-frame sync that copies authoritative physics state into the
//! entities' components, the lookup from a collider handle back to its
//! entity, the spawner and time-to-live systems, and an event channel with
//! one cursor per subscriber.
//!
//! Pose, scale and kinetic state are type parameters: the library copies
//! them and never computes with them, so the engine's own numeric types can
//! be used unchanged.

use vstd::prelude::*;

pub mod components;
pub mod events;
pub mod handle;
pub mod lifecycle;
pub mod lookup;
pub mod physics;
pub mod scene;
pub mod sync;

pub use lookup::entity_from_handle;
pub use sync::SyncBodiesFromPhysicsSystem;

verus! {

} // verus!
