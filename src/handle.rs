use vstd::prelude::*;

verus! {

/// Opaque handle of a rigid body registered in the physics world.
#[derive(Clone, Copy, Debug, PartialEq, Eq, Structural, Hash)]
pub struct BodyHandle(pub usize);

/// Opaque handle of a collider registered in the physics world.
#[derive(Clone, Copy, Debug, PartialEq, Eq, Structural, Hash)]
pub struct ColliderHandle(pub usize);

/// Identity of a gameplay entity: the index of its slot in the scene.
/// Slots are never reused, so an entity that was destroyed stays dead and a
/// stale identifier is detected instead of naming a newer entity.
#[derive(Clone, Copy, Debug, PartialEq, Eq, Structural, Hash)]
pub struct Entity {
    pub index: usize,
}

} // verus!
