use vstd::prelude::*;
use crate::handle::BodyHandle;

verus! {

/// What the physics world reports for one rigid body.
#[derive(Clone, Copy, Debug)]
pub struct BodyReport<P, K> {
    /// `false` while the body sleeps.
    pub active: bool,
    pub is_static: bool,
    pub pose: P,
    pub kinetics: K,
}

/// The rigid bodies of the physics world as they stand after a step, keyed by handle.
pub struct PhysicsView<P, K> {
    bodies: Vec<Option<BodyReport<P, K>>>,
}

impl<P: Copy, K: Copy> PhysicsView<P, K> {
    /// The body behind each handle index; indices past the end hold none.
    pub closed spec fn table(&self) -> Seq<Option<BodyReport<P, K>>> {
        self.bodies@
    }

    /// What querying `h` returns.
    pub open spec fn lookup(&self, h: BodyHandle) -> Option<BodyReport<P, K>> {
        if h.0 < self.table().len() {
            self.table()[h.0 as int]
        } else {
            None
        }
    }

    pub fn new() -> (r: Self)
        ensures
            forall|h: BodyHandle| r.lookup(h).is_none(),
    {
        PhysicsView { bodies: Vec::new() }
    }

    /// Records the state of the body behind `h`, replacing any earlier one.
    pub fn insert(&mut self, h: BodyHandle, report: BodyReport<P, K>)
        ensures
            final(self).lookup(h) == Some(report),
            forall|g: BodyHandle| g != h ==> final(self).lookup(g) == old(self).lookup(g),
    {
        while self.bodies.len() <= h.0
            invariant
                forall|g: BodyHandle| self.lookup(g) == old(self).lookup(g),
            decreases h.0 + 1 - self.bodies.len(),
        {
            self.bodies.push(None);
        }
        self.bodies.set(h.0, Some(report));
    }

    /// Forgets the body behind `h`.
    pub fn remove(&mut self, h: BodyHandle)
        ensures
            final(self).lookup(h).is_none(),
            forall|g: BodyHandle| g != h ==> final(self).lookup(g) == old(self).lookup(g),
    {
        if h.0 < self.bodies.len() {
            self.bodies.set(h.0, None);
        }
    }

    /// Queries the body behind `h`: `None` when the handle is stale or unknown.
    pub fn rigid_body(&self, h: BodyHandle) -> (r: Option<BodyReport<P, K>>)
        ensures
            r == self.lookup(h),
    {
        if h.0 < self.bodies.len() {
            self.bodies[h.0]
        } else {
            None
        }
    }
}

} // verus!
