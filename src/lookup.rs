use vstd::prelude::*;
use crate::components::Components;
use crate::handle::{ColliderHandle, Entity};
use crate::scene::{first_holder, handles_unique, owner_of, slot_collider, Scene};

verus! {

proof fn lemma_first_holder_found<P, S, K>(s: Seq<Option<Components<P, S, K>>>, h: ColliderHandle, n: nat)
    requires
        n <= s.len(),
        s.len() <= usize::MAX,
    ensures
        first_holder(s, h, n) is None <==> forall|j: int| 0 <= j < n ==> slot_collider(#[trigger] s[j]) != Some(h),
        first_holder(s, h, n) matches Some(e) ==> e.index < n && slot_collider(s[e.index as int]) == Some(h)
            && forall|j: int| 0 <= j < e.index ==> slot_collider(#[trigger] s[j]) != Some(h),
    decreases n,
{
    if n > 0 {
        lemma_first_holder_found(s, h, (n - 1) as nat);
    }
}

/// Resolves a collider handle to the entity that owns it: the first entity
/// whose collider holds `handle`, or `None` when no live entity does (a stale
/// event, to be discarded).
pub fn entity_from_handle<P: Copy, S: Copy, K: Copy>(
    scene: &Scene<P, S, K>,
    handle: ColliderHandle,
) -> (r: Option<Entity>)
    ensures
        r == owner_of(scene@, handle),
{
    let n = scene.len();
    let mut i: usize = 0;
    while i < n
        invariant
            n == scene@.len(),
            i <= n,
            first_holder(scene@, handle, i as nat) is None,
        decreases n - i,
    {
        let e = Entity { index: i };
        let holds = match scene.get(e) {
            Some(c) => match c.collider {
                Some(col) => col.handle == Some(handle),
                None => false,
            },
            None => false,
        };
        if holds {
            proof {
                lemma_first_holder_found(scene@, handle, n as nat);
                lemma_first_holder_found(scene@, handle, i as nat);
                lemma_first_holder_found(scene@, handle, (i + 1) as nat);
            }
            return Some(e);
        }
        i = i + 1;
    }
    None
}

/// Every live entity whose collider holds `h` is what looking up `h` returns,
/// and once that entity is destroyed looking up `h` finds nothing.
pub proof fn lemma_lookup_consistent<P, S, K>(s: Seq<Option<Components<P, S, K>>>, e: Entity, h: ColliderHandle)
    requires
        handles_unique(s),
        s.len() <= usize::MAX,
        e.index < s.len(),
        slot_collider(s[e.index as int]) == Some(h),
    ensures
        owner_of(s, h) == Some(e),
        owner_of(s.update(e.index as int, None), h) is None,
{
    lemma_first_holder_found(s, h, s.len());
    let t = s.update(e.index as int, None);
    lemma_first_holder_found(t, h, t.len());
    if let Some(f) = owner_of(s, h) {
        if f != e {
            assert(slot_collider(s[e.index as int]).is_some());
            assert(slot_collider(s[f.index as int]) != slot_collider(s[e.index as int]));
        }
    }
    assert forall|j: int| 0 <= j < t.len() implies slot_collider(#[trigger] t[j]) != Some(h) by {
        if j != e.index {
            assert(slot_collider(s[e.index as int]).is_some());
            assert(slot_collider(s[j]) != slot_collider(s[e.index as int]));
        }
    }
}

} // verus!
