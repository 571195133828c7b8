use vstd::prelude::*;
use crate::components::{body_handle_of, collider_handle_of, Components, DynamicBody, Collider, TimeToLive};
use crate::handle::{BodyHandle, ColliderHandle, Entity};
use crate::lifecycle::{spawner_step, ttl_step};
use crate::physics::PhysicsView;
use crate::sync::{sync_components, sync_outcome, synced, SyncOutcome};

verus! {

/// Why a change to the scene was refused.
#[derive(Clone, Copy, Debug, PartialEq, Eq, Structural)]
pub enum SceneError {
    /// The entity was destroyed, or never existed.
    NoSuchEntity,
    /// The entity carries no dynamic body.
    NoBody,
    /// The entity carries no collider.
    NoCollider,
    /// Another entity already holds this rigid body handle.
    BodyHandleInUse,
    /// Another entity already holds this collider handle.
    ColliderHandleInUse,
}

/// Handles that an entity held when it was destroyed; the physics world must
/// drop the objects behind them.
#[derive(Clone, Copy, Debug, PartialEq, Eq, Structural)]
pub struct Released {
    pub entity: Entity,
    pub body: Option<BodyHandle>,
    pub collider: Option<ColliderHandle>,
}

/// Body handle held by a slot; a dead slot holds none.
pub open spec fn slot_body<P, S, K>(o: Option<Components<P, S, K>>) -> Option<BodyHandle> {
    match o {
        Some(c) => body_handle_of(c),
        None => None,
    }
}

/// Collider handle held by a slot; a dead slot holds none.
pub open spec fn slot_collider<P, S, K>(o: Option<Components<P, S, K>>) -> Option<ColliderHandle> {
    match o {
        Some(c) => collider_handle_of(c),
        None => None,
    }
}

/// No physics handle is held by two entities.
pub open spec fn handles_unique<P, S, K>(s: Seq<Option<Components<P, S, K>>>) -> bool {
    &&& forall|i: int, j: int|
        #![trigger slot_body(s[i]), slot_body(s[j])]
        0 <= i < s.len() && 0 <= j < s.len() && i != j && slot_body(s[i]).is_some()
            ==> slot_body(s[i]) != slot_body(s[j])
    &&& forall|i: int, j: int|
        #![trigger slot_collider(s[i]), slot_collider(s[j])]
        0 <= i < s.len() && 0 <= j < s.len() && i != j && slot_collider(s[i]).is_some()
            ==> slot_collider(s[i]) != slot_collider(s[j])
}

/// Some slot holds body handle `h`.
pub open spec fn body_in_use<P, S, K>(s: Seq<Option<Components<P, S, K>>>, h: BodyHandle) -> bool {
    exists|i: int| 0 <= i < s.len() && slot_body(#[trigger] s[i]) == Some(h)
}

/// Some slot holds collider handle `h`.
pub open spec fn collider_in_use<P, S, K>(s: Seq<Option<Components<P, S, K>>>, h: ColliderHandle) -> bool {
    exists|i: int| 0 <= i < s.len() && slot_collider(#[trigger] s[i]) == Some(h)
}

/// The first of the first `n` slots that holds collider handle `h`.
pub open spec fn first_holder<P, S, K>(
    s: Seq<Option<Components<P, S, K>>>,
    h: ColliderHandle,
    n: nat,
) -> Option<Entity>
    decreases n,
{
    if n == 0 {
        None
    } else {
        match first_holder(s, h, (n - 1) as nat) {
            Some(e) => Some(e),
            None => if slot_collider(s[n - 1]) == Some(h) {
                Some(Entity { index: (n - 1) as usize })
            } else {
                None
            },
        }
    }
}

/// The entity that owns collider handle `h`, if any does.
pub open spec fn owner_of<P, S, K>(s: Seq<Option<Components<P, S, K>>>, h: ColliderHandle) -> Option<Entity> {
    first_holder(s, h, s.len())
}

/// A slot after one sync against `w`.
pub open spec fn slot_synced<P: Copy, S, K: Copy>(
    o: Option<Components<P, S, K>>,
    w: PhysicsView<P, K>,
) -> Option<Components<P, S, K>> {
    match o {
        Some(c) => Some(synced(c, w)),
        None => None,
    }
}

/// What sync does with a slot.
pub open spec fn slot_outcome<P: Copy, S, K: Copy>(o: Option<Components<P, S, K>>, w: PhysicsView<P, K>) -> SyncOutcome {
    match o {
        Some(c) => sync_outcome(c, w),
        None => SyncOutcome::NotSimulated,
    }
}

/// Whether the reaper destroys the entity in slot `o` this frame.
pub open spec fn slot_expires<P, S, K>(o: Option<Components<P, S, K>>) -> bool {
    match o {
        Some(c) => match c.ttl {
            Some(t) => ttl_step(t).1,
            None => false,
        },
        None => false,
    }
}

/// A slot after one frame of the reaper.
pub open spec fn slot_reaped<P, S, K>(o: Option<Components<P, S, K>>) -> Option<Components<P, S, K>> {
    match o {
        Some(c) => match c.ttl {
            Some(t) => if ttl_step(t).1 {
                None
            } else {
                Some(Components { ttl: Some(ttl_step(t).0), ..c })
            },
            None => o,
        },
        None => None,
    }
}

/// The handles released by the reaper among the first `n` slots, in slot order.
pub open spec fn reaped_upto<P, S, K>(s: Seq<Option<Components<P, S, K>>>, n: nat) -> Seq<Released>
    decreases n,
{
    if n == 0 {
        Seq::empty()
    } else {
        let before = reaped_upto(s, (n - 1) as nat);
        if slot_expires(s[n - 1]) {
            before.push(
                Released {
                    entity: Entity { index: (n - 1) as usize },
                    body: slot_body(s[n - 1]),
                    collider: slot_collider(s[n - 1]),
                },
            )
        } else {
            before
        }
    }
}

/// A slot after `k` frames of the reaper.
pub open spec fn slot_after_reaps<P, S, K>(o: Option<Components<P, S, K>>, k: nat) -> Option<Components<P, S, K>>
    decreases k,
{
    if k == 0 {
        o
    } else {
        slot_after_reaps(slot_reaped(o), (k - 1) as nat)
    }
}

proof fn lemma_reaps_count<P, S, K>(c: Components<P, S, K>, n: u32, k: nat)
    requires
        c.ttl == Some(TimeToLive(n)),
        k < n,
    ensures
        slot_after_reaps(Some(c), k) == Some(Components { ttl: Some(TimeToLive((n - k) as u32)), ..c }),
    decreases k,
{
    if k > 0 {
        let c1 = Components { ttl: Some(TimeToLive((n - 1) as u32)), ..c };
        assert(slot_reaped(Some(c)) == Some(c1));
        lemma_reaps_count(c1, (n - 1) as u32, (k - 1) as nat);
    }
}

/// An entity created with `TimeToLive(n)`, `n` at least one, outlives the
/// first `n - 1` frames of the reaper and is destroyed on frame `n`, the
/// frame whose reap hands back its handles.
pub proof fn lemma_reaper_destroys_on_frame<P, S, K>(c: Components<P, S, K>, n: u32)
    requires
        c.ttl == Some(TimeToLive(n)),
        1 <= n,
    ensures
        forall|k: nat| k < n ==> (#[trigger] slot_after_reaps(Some(c), k)).is_some(),
        forall|k: nat| k + 1 < n ==> !slot_expires(#[trigger] slot_after_reaps(Some(c), k)),
        slot_expires(slot_after_reaps(Some(c), (n - 1) as nat)),
        slot_after_reaps(Some(c), n as nat).is_none(),
{
    assert forall|k: nat| k < n implies (#[trigger] slot_after_reaps(Some(c), k)).is_some() by {
        lemma_reaps_count(c, n, k);
    }
    assert forall|k: nat| k + 1 < n implies !slot_expires(#[trigger] slot_after_reaps(Some(c), k)) by {
        lemma_reaps_count(c, n, k);
    }
    lemma_reaps_count(c, n, (n - 1) as nat);
    let last = slot_after_reaps(Some(c), (n - 1) as nat);
    assert(slot_reaped(last).is_none());
    assert(slot_after_reaps(slot_reaped(last), 0).is_none());
    lemma_reaps_split(Some(c), (n - 1) as nat);
}

proof fn lemma_reaps_split<P, S, K>(o: Option<Components<P, S, K>>, k: nat)
    ensures
        slot_after_reaps(o, k + 1) == slot_reaped(slot_after_reaps(o, k)),
    decreases k,
{
    if k > 0 {
        lemma_reaps_split(slot_reaped(o), (k - 1) as nat);
    } else {
        assert(slot_after_reaps(slot_reaped(o), 0) == slot_reaped(o));
    }
}

/// Whether the spawner of slot `o` spawns this frame.
pub open spec fn slot_fires<P, S, K>(o: Option<Components<P, S, K>>) -> bool {
    match o {
        Some(c) => match c.spawner {
            Some(sp) => spawner_step(sp).1,
            None => false,
        },
        None => false,
    }
}

/// A slot after one frame of its spawner.
pub open spec fn slot_spawned<P, S, K>(o: Option<Components<P, S, K>>) -> Option<Components<P, S, K>> {
    match o {
        Some(c) => match c.spawner {
            Some(sp) => Some(Components { spawner: Some(spawner_step(sp).0), ..c }),
            None => o,
        },
        None => None,
    }
}

/// The spawners among the first `n` slots that spawn this frame, in slot order.
pub open spec fn fired_upto<P, S, K>(s: Seq<Option<Components<P, S, K>>>, n: nat) -> Seq<Entity>
    decreases n,
{
    if n == 0 {
        Seq::empty()
    } else {
        let before = fired_upto(s, (n - 1) as nat);
        if slot_fires(s[n - 1]) {
            before.push(Entity { index: (n - 1) as usize })
        } else {
            before
        }
    }
}

/// Dropping handles, or keeping them, never makes two entities share one.
proof fn lemma_fewer_handles<P, S, K>(a: Seq<Option<Components<P, S, K>>>, b: Seq<Option<Components<P, S, K>>>)
    requires
        handles_unique(a),
        a.len() == b.len(),
        forall|j: int| 0 <= j < b.len() ==> (#[trigger] slot_body(b[j])).is_none() || slot_body(b[j]) == slot_body(a[j]),
        forall|j: int| 0 <= j < b.len() ==> (#[trigger] slot_collider(b[j])).is_none() || slot_collider(b[j]) == slot_collider(a[j]),
    ensures
        handles_unique(b),
{
    assert forall|i: int, j: int|
        #![trigger slot_body(b[i]), slot_body(b[j])]
        0 <= i < b.len() && 0 <= j < b.len() && i != j && slot_body(b[i]).is_some()
            implies slot_body(b[i]) != slot_body(b[j]) by {
        assert(slot_body(a[i]) != slot_body(a[j]));
    }
    assert forall|i: int, j: int|
        #![trigger slot_collider(b[i]), slot_collider(b[j])]
        0 <= i < b.len() && 0 <= j < b.len() && i != j && slot_collider(b[i]).is_some()
            implies slot_collider(b[i]) != slot_collider(b[j]) by {
        assert(slot_collider(a[i]) != slot_collider(a[j]));
    }
}

/// The entities of a scene and their components.
pub struct Scene<P, S, K> {
    slots: Vec<Option<Components<P, S, K>>>,
}

impl<P: Copy, S: Copy, K: Copy> View for Scene<P, S, K> {
    type V = Seq<Option<Components<P, S, K>>>;

    /// Slot `i` holds the components of entity `i`, or `None` once it was destroyed.
    closed spec fn view(&self) -> Self::V {
        self.slots@
    }
}

impl<P: Copy, S: Copy, K: Copy> Scene<P, S, K> {
    pub open spec fn wf(&self) -> bool {
        handles_unique(self@)
    }

    pub open spec fn alive(&self, e: Entity) -> bool {
        e.index < self@.len() && self@[e.index as int].is_some()
    }

    pub fn new() -> (r: Self)
        ensures
            r.wf(),
            r@ == Seq::<Option<Components<P, S, K>>>::empty(),
    {
        Scene { slots: Vec::new() }
    }

    /// Number of entities ever created.
    pub fn len(&self) -> (r: usize)
        ensures
            r == self@.len(),
    {
        self.slots.len()
    }

    pub fn is_alive(&self, e: Entity) -> (r: bool)
        ensures
            r == self.alive(e),
    {
        e.index < self.slots.len() && self.slots[e.index].is_some()
    }

    /// The components of `e`, or `None` when it is not alive.
    pub fn get(&self, e: Entity) -> (r: Option<Components<P, S, K>>)
        ensures
            r == (if self.alive(e) { self@[e.index as int] } else { None }),
    {
        if e.index < self.slots.len() {
            self.slots[e.index]
        } else {
            None
        }
    }

    /// Whether some entity holds body handle `h`.
    pub fn body_handle_in_use(&self, h: BodyHandle) -> (r: bool)
        ensures
            r == body_in_use(self@, h),
    {
        let mut i: usize = 0;
        while i < self.slots.len()
            invariant
                i <= self@.len(),
                forall|j: int| 0 <= j < i ==> slot_body(#[trigger] self@[j]) != Some(h),
            decreases self@.len() - i,
        {
            let o = self.slots[i];
            if let Some(c) = o {
                if let Some(b) = c.body {
                    if let Some(g) = b.handle {
                        if g == h {
                            return true;
                        }
                    }
                }
            }
            i = i + 1;
        }
        false
    }

    /// Whether some entity holds collider handle `h`.
    pub fn collider_handle_in_use(&self, h: ColliderHandle) -> (r: bool)
        ensures
            r == collider_in_use(self@, h),
    {
        let mut i: usize = 0;
        while i < self.slots.len()
            invariant
                i <= self@.len(),
                forall|j: int| 0 <= j < i ==> slot_collider(#[trigger] self@[j]) != Some(h),
            decreases self@.len() - i,
        {
            let o = self.slots[i];
            if let Some(c) = o {
                if let Some(col) = c.collider {
                    if let Some(g) = col.handle {
                        if g == h {
                            return true;
                        }
                    }
                }
            }
            i = i + 1;
        }
        false
    }

    /// Adds an entity with components `c`. Refused when a physics handle
    /// that `c` holds is already held by another entity.
    pub fn create(&mut self, c: Components<P, S, K>) -> (r: Result<Entity, SceneError>)
        requires
            old(self).wf(),
            old(self)@.len() < usize::MAX,
        ensures
            final(self).wf(),
            match r {
                Ok(e) => e.index == old(self)@.len() && final(self)@ == old(self)@.push(Some(c)),
                Err(err) => *final(self) == *old(self) && if body_handle_of(c).is_some() && body_in_use(
                    old(self)@,
                    body_handle_of(c).unwrap(),
                ) {
                    err == SceneError::BodyHandleInUse
                } else {
                    err == SceneError::ColliderHandleInUse
                },
            },
            r.is_err() <==> (body_handle_of(c).is_some() && body_in_use(old(self)@, body_handle_of(c).unwrap()))
                || (collider_handle_of(c).is_some() && collider_in_use(old(self)@, collider_handle_of(c).unwrap())),
    {
        if let Some(b) = c.body {
            if let Some(h) = b.handle {
                if self.body_handle_in_use(h) {
                    return Err(SceneError::BodyHandleInUse);
                }
            }
        }
        if let Some(col) = c.collider {
            if let Some(h) = col.handle {
                if self.collider_handle_in_use(h) {
                    return Err(SceneError::ColliderHandleInUse);
                }
            }
        }
        let e = Entity { index: self.slots.len() };
        self.slots.push(Some(c));
        proof {
            let s = self@;
            assert(s[e.index as int] == Some(c));
            assert forall|i: int| 0 <= i < old(self)@.len() implies s[i] == old(self)@[i] by {}
        }
        Ok(e)
    }

    /// Destroys `e` and hands back the physics handles it held, for the
    /// physics world to release. `None` when `e` was not alive.
    pub fn destroy(&mut self, e: Entity) -> (r: Option<Released>)
        requires
            old(self).wf(),
        ensures
            final(self).wf(),
            old(self).alive(e) ==> r == Some(
                Released {
                    entity: e,
                    body: slot_body(old(self)@[e.index as int]),
                    collider: slot_collider(old(self)@[e.index as int]),
                },
            ) && final(self)@ == old(self)@.update(e.index as int, None),
            !old(self).alive(e) ==> r.is_none() && *final(self) == *old(self),
    {
        if e.index >= self.slots.len() {
            return None;
        }
        match self.slots[e.index] {
            None => None,
            Some(c) => {
                let body = match c.body {
                    Some(b) => b.handle,
                    None => None,
                };
                let collider = match c.collider {
                    Some(col) => col.handle,
                    None => None,
                };
                self.slots.set(e.index, None);
                Some(Released { entity: e, body, collider })
            },
        }
    }

    fn body_held_elsewhere(&self, skip: usize, h: BodyHandle) -> (r: bool)
        ensures
            r == exists|j: int| 0 <= j < self@.len() && j != skip && slot_body(#[trigger] self@[j]) == Some(h),
    {
        let mut i: usize = 0;
        while i < self.slots.len()
            invariant
                i <= self@.len(),
                forall|j: int| 0 <= j < i && j != skip ==> slot_body(#[trigger] self@[j]) != Some(h),
            decreases self@.len() - i,
        {
            if i != skip {
                if let Some(o) = self.slots[i] {
                    if let Some(ob) = o.body {
                        if ob.handle == Some(h) {
                            return true;
                        }
                    }
                }
            }
            i = i + 1;
        }
        false
    }

    fn collider_held_elsewhere(&self, skip: usize, h: ColliderHandle) -> (r: bool)
        ensures
            r == exists|j: int| 0 <= j < self@.len() && j != skip && slot_collider(#[trigger] self@[j]) == Some(h),
    {
        let mut i: usize = 0;
        while i < self.slots.len()
            invariant
                i <= self@.len(),
                forall|j: int| 0 <= j < i && j != skip ==> slot_collider(#[trigger] self@[j]) != Some(h),
            decreases self@.len() - i,
        {
            if i != skip {
                if let Some(o) = self.slots[i] {
                    if let Some(oc) = o.collider {
                        if oc.handle == Some(h) {
                            return true;
                        }
                    }
                }
            }
            i = i + 1;
        }
        false
    }

    /// Records that the dynamic body of `e` was registered in the physics
    /// world under `h`.
    pub fn register_body(&mut self, e: Entity, h: BodyHandle) -> (r: Result<(), SceneError>)
        requires
            old(self).wf(),
        ensures
            final(self).wf(),
            !old(self).alive(e) ==> r == Err::<(), SceneError>(SceneError::NoSuchEntity),
            old(self).alive(e) && old(self)@[e.index as int].unwrap().body.is_none() ==> r == Err::<(), SceneError>(
                SceneError::NoBody,
            ),
            old(self).alive(e) && old(self)@[e.index as int].unwrap().body.is_some() ==> r == (if exists|j: int|
                0 <= j < old(self)@.len() && j != e.index && slot_body(#[trigger] old(self)@[j]) == Some(h) {
                Err::<(), SceneError>(SceneError::BodyHandleInUse)
            } else {
                Ok::<(), SceneError>(())
            }),
            r.is_err() ==> *final(self) == *old(self),
            r.is_ok() ==> final(self)@ == old(self)@.update(
                e.index as int,
                Some(
                    Components {
                        body: Some(
                            DynamicBody { handle: Some(h), ..old(self)@[e.index as int].unwrap().body.unwrap() },
                        ),
                        ..old(self)@[e.index as int].unwrap()
                    },
                ),
            ),
    {
        if e.index >= self.slots.len() {
            return Err(SceneError::NoSuchEntity);
        }
        let c = match self.slots[e.index] {
            None => return Err(SceneError::NoSuchEntity),
            Some(c) => c,
        };
        let b = match c.body {
            None => return Err(SceneError::NoBody),
            Some(b) => b,
        };
        if self.body_held_elsewhere(e.index, h) {
            return Err(SceneError::BodyHandleInUse);
        }
        let nc = Components { body: Some(DynamicBody { handle: Some(h), ..b }), ..c };
        self.slots.set(e.index, Some(nc));
        proof {
            let s0 = old(self)@;
            let s1 = self@;
            let k = e.index as int;
            assert forall|i: int, j: int|
                #![trigger slot_body(s1[i]), slot_body(s1[j])]
                0 <= i < s1.len() && 0 <= j < s1.len() && i != j && slot_body(s1[i]).is_some()
                    implies slot_body(s1[i]) != slot_body(s1[j]) by {
                if i != k && j != k {
                    assert(slot_body(s0[i]) != slot_body(s0[j]));
                }
            }
            assert forall|i: int, j: int|
                #![trigger slot_collider(s1[i]), slot_collider(s1[j])]
                0 <= i < s1.len() && 0 <= j < s1.len() && i != j && slot_collider(s1[i]).is_some()
                    implies slot_collider(s1[i]) != slot_collider(s1[j]) by {
                assert(slot_collider(s1[i]) == slot_collider(s0[i]));
                assert(slot_collider(s1[j]) == slot_collider(s0[j]));
            }
        }
        Ok(())
    }

    /// Records that the collider of `e` was registered in the physics world
    /// under `h`.
    pub fn register_collider(&mut self, e: Entity, h: ColliderHandle) -> (r: Result<(), SceneError>)
        requires
            old(self).wf(),
        ensures
            final(self).wf(),
            !old(self).alive(e) ==> r == Err::<(), SceneError>(SceneError::NoSuchEntity),
            old(self).alive(e) && old(self)@[e.index as int].unwrap().collider.is_none() ==> r == Err::<(), SceneError>(
                SceneError::NoCollider,
            ),
            old(self).alive(e) && old(self)@[e.index as int].unwrap().collider.is_some() ==> r == (if exists|j: int|
                0 <= j < old(self)@.len() && j != e.index && slot_collider(#[trigger] old(self)@[j]) == Some(h) {
                Err::<(), SceneError>(SceneError::ColliderHandleInUse)
            } else {
                Ok::<(), SceneError>(())
            }),
            r.is_err() ==> *final(self) == *old(self),
            r.is_ok() ==> final(self)@ == old(self)@.update(
                e.index as int,
                Some(Components { collider: Some(Collider { handle: Some(h) }), ..old(self)@[e.index as int].unwrap() }),
            ),
    {
        if e.index >= self.slots.len() {
            return Err(SceneError::NoSuchEntity);
        }
        let c = match self.slots[e.index] {
            None => return Err(SceneError::NoSuchEntity),
            Some(c) => c,
        };
        if c.collider.is_none() {
            return Err(SceneError::NoCollider);
        }
        if self.collider_held_elsewhere(e.index, h) {
            return Err(SceneError::ColliderHandleInUse);
        }
        let nc = Components { collider: Some(Collider { handle: Some(h) }), ..c };
        self.slots.set(e.index, Some(nc));
        proof {
            let s0 = old(self)@;
            let s1 = self@;
            let k = e.index as int;
            assert forall|i: int, j: int|
                #![trigger slot_collider(s1[i]), slot_collider(s1[j])]
                0 <= i < s1.len() && 0 <= j < s1.len() && i != j && slot_collider(s1[i]).is_some()
                    implies slot_collider(s1[i]) != slot_collider(s1[j]) by {
                if i != k && j != k {
                    assert(slot_collider(s0[i]) != slot_collider(s0[j]));
                }
            }
            assert forall|i: int, j: int|
                #![trigger slot_body(s1[i]), slot_body(s1[j])]
                0 <= i < s1.len() && 0 <= j < s1.len() && i != j && slot_body(s1[i]).is_some()
                    implies slot_body(s1[i]) != slot_body(s1[j]) by {
                assert(slot_body(s1[i]) == slot_body(s0[i]));
                assert(slot_body(s1[j]) == slot_body(s0[j]));
            }
        }
        Ok(())
    }

    /// Pulls each entity's authoritative state from the physics world, and
    /// says per slot what was done.
    pub fn sync_from_physics(&mut self, w: &PhysicsView<P, K>) -> (r: Vec<SyncOutcome>)
        requires
            old(self).wf(),
        ensures
            final(self).wf(),
            final(self)@.len() == old(self)@.len(),
            r@.len() == old(self)@.len(),
            forall|j: int| 0 <= j < old(self)@.len() ==> #[trigger] final(self)@[j] == slot_synced(old(self)@[j], *w),
            forall|j: int| 0 <= j < old(self)@.len() ==> #[trigger] r@[j] == slot_outcome(old(self)@[j], *w),
    {
        let n = self.slots.len();
        let mut out: Vec<SyncOutcome> = Vec::new();
        let mut i: usize = 0;
        while i < n
            invariant
                n == self@.len(),
                n == old(self)@.len(),
                i <= n,
                out@.len() == i,
                forall|j: int| 0 <= j < i ==> #[trigger] self@[j] == slot_synced(old(self)@[j], *w),
                forall|j: int| 0 <= j < i ==> #[trigger] out@[j] == slot_outcome(old(self)@[j], *w),
                forall|j: int| i <= j < n ==> #[trigger] self@[j] == old(self)@[j],
            decreases n - i,
        {
            match self.slots[i] {
                Some(c) => {
                    let mut c = c;
                    let o = sync_components(&mut c, w);
                    self.slots.set(i, Some(c));
                    out.push(o);
                },
                None => {
                    out.push(SyncOutcome::NotSimulated);
                },
            }
            i = i + 1;
        }
        proof {
            lemma_fewer_handles(old(self)@, self@);
        }
        out
    }

    /// Counts down every time-to-live, destroys the entities whose counter
    /// reached zero, and hands back the handles they held, in slot order.
    pub fn reap(&mut self) -> (r: Vec<Released>)
        requires
            old(self).wf(),
        ensures
            final(self).wf(),
            final(self)@.len() == old(self)@.len(),
            forall|j: int| 0 <= j < old(self)@.len() ==> #[trigger] final(self)@[j] == slot_reaped(old(self)@[j]),
            r@ == reaped_upto(old(self)@, old(self)@.len()),
    {
        let n = self.slots.len();
        let mut out: Vec<Released> = Vec::new();
        let mut i: usize = 0;
        while i < n
            invariant
                n == self@.len(),
                n == old(self)@.len(),
                i <= n,
                out@ == reaped_upto(old(self)@, i as nat),
                forall|j: int| 0 <= j < i ==> #[trigger] self@[j] == slot_reaped(old(self)@[j]),
                forall|j: int| i <= j < n ==> #[trigger] self@[j] == old(self)@[j],
            decreases n - i,
        {
            if let Some(c) = self.slots[i] {
                if let Some(t) = c.ttl {
                    let mut t = t;
                    if t.tick() {
                        let body = match c.body {
                            Some(b) => b.handle,
                            None => None,
                        };
                        let collider = match c.collider {
                            Some(col) => col.handle,
                            None => None,
                        };
                        self.slots.set(i, None);
                        out.push(Released { entity: Entity { index: i }, body, collider });
                    } else {
                        self.slots.set(i, Some(Components { ttl: Some(t), ..c }));
                    }
                }
            }
            i = i + 1;
        }
        proof {
            lemma_fewer_handles(old(self)@, self@);
        }
        out
    }

    /// Advances every spawner by one frame and returns the spawners that are
    /// to spawn an entity now, in slot order.
    pub fn run_spawners(&mut self) -> (r: Vec<Entity>)
        requires
            old(self).wf(),
        ensures
            final(self).wf(),
            final(self)@.len() == old(self)@.len(),
            forall|j: int| 0 <= j < old(self)@.len() ==> #[trigger] final(self)@[j] == slot_spawned(old(self)@[j]),
            r@ == fired_upto(old(self)@, old(self)@.len()),
    {
        let n = self.slots.len();
        let mut out: Vec<Entity> = Vec::new();
        let mut i: usize = 0;
        while i < n
            invariant
                n == self@.len(),
                n == old(self)@.len(),
                i <= n,
                out@ == fired_upto(old(self)@, i as nat),
                forall|j: int| 0 <= j < i ==> #[trigger] self@[j] == slot_spawned(old(self)@[j]),
                forall|j: int| i <= j < n ==> #[trigger] self@[j] == old(self)@[j],
            decreases n - i,
        {
            if let Some(c) = self.slots[i] {
                if let Some(sp) = c.spawner {
                    let mut sp = sp;
                    let fire = sp.tick();
                    self.slots.set(i, Some(Components { spawner: Some(sp), ..c }));
                    if fire {
                        out.push(Entity { index: i });
                    }
                }
            }
            i = i + 1;
        }
        proof {
            lemma_fewer_handles(old(self)@, self@);
        }
        out
    }
}

/// No two distinct entities of a well-formed scene hold the same rigid body
/// handle or the same collider handle.
pub proof fn lemma_handle_has_one_owner<P: Copy, S: Copy, K: Copy>(scene: Scene<P, S, K>, a: Entity, b: Entity)
    requires
        scene.wf(),
        a != b,
        a.index < scene@.len(),
        b.index < scene@.len(),
    ensures
        slot_body(scene@[a.index as int]).is_some() ==> slot_body(scene@[a.index as int]) != slot_body(
            scene@[b.index as int],
        ),
        slot_collider(scene@[a.index as int]).is_some() ==> slot_collider(scene@[a.index as int])
            != slot_collider(scene@[b.index as int]),
{
    assert(a.index != b.index);
}

} // verus!
