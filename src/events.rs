use vstd::prelude::*;
use crate::handle::{ColliderHandle, Entity};
use crate::lookup::entity_from_handle;
use crate::scene::{owner_of, Scene};
use crate::components::Components;

verus! {

/// A contact reported by the physics world between two colliders.
#[derive(Clone, Copy, Debug, PartialEq, Eq, Structural)]
pub struct ContactEvent {
    pub first: ColliderHandle,
    pub second: ColliderHandle,
}

/// A contact between two gameplay entities.
#[derive(Clone, Copy, Debug, PartialEq, Eq, Structural)]
pub struct EntityContactEvent {
    pub first: Entity,
    pub second: Entity,
}

/// The gameplay event for contact `c`, or `None` when either collider has no
/// owner any more.
pub open spec fn translated<P, S, K>(s: Seq<Option<Components<P, S, K>>>, c: ContactEvent) -> Option<EntityContactEvent> {
    match (owner_of(s, c.first), owner_of(s, c.second)) {
        (Some(a), Some(b)) => Some(EntityContactEvent { first: a, second: b }),
        _ => None,
    }
}

/// The gameplay events for the first `n` contacts, stale ones dropped, order kept.
pub open spec fn translated_upto<P, S, K>(
    s: Seq<Option<Components<P, S, K>>>,
    cs: Seq<ContactEvent>,
    n: nat,
) -> Seq<EntityContactEvent>
    decreases n,
{
    if n == 0 {
        Seq::empty()
    } else {
        let before = translated_upto(s, cs, (n - 1) as nat);
        match translated(s, cs[n - 1]) {
            Some(ev) => before.push(ev),
            None => before,
        }
    }
}

/// Translates one physics contact into a contact between entities.
pub fn translate_contact<P: Copy, S: Copy, K: Copy>(scene: &Scene<P, S, K>, c: ContactEvent) -> (r: Option<EntityContactEvent>)
    ensures
        r == translated(scene@, c),
{
    match (entity_from_handle(scene, c.first), entity_from_handle(scene, c.second)) {
        (Some(a), Some(b)) => Some(EntityContactEvent { first: a, second: b }),
        _ => None,
    }
}

/// Translates the contacts of a physics step, dropping stale ones.
pub fn translate_contacts<P: Copy, S: Copy, K: Copy>(
    scene: &Scene<P, S, K>,
    contacts: &Vec<ContactEvent>,
) -> (r: Vec<EntityContactEvent>)
    ensures
        r@ == translated_upto(scene@, contacts@, contacts@.len()),
{
    let mut out: Vec<EntityContactEvent> = Vec::new();
    let mut i: usize = 0;
    while i < contacts.len()
        invariant
            i <= contacts@.len(),
            out@ == translated_upto(scene@, contacts@, i as nat),
        decreases contacts@.len() - i,
    {
        if let Some(ev) = translate_contact(scene, contacts[i]) {
            out.push(ev);
        }
        i = i + 1;
    }
    out
}

/// Identifies one subscriber of an event channel.
#[derive(Clone, Copy, Debug, PartialEq, Eq, Structural)]
pub struct ReaderId(pub usize);

/// Append-only log of events with one read cursor per subscriber.
pub struct EventChannel<E> {
    events: Vec<E>,
    cursors: Vec<usize>,
}

impl<E: Copy> EventChannel<E> {
    /// Every event published so far, oldest first.
    pub closed spec fn log(&self) -> Seq<E> {
        self.events@
    }

    /// For each subscriber, how many events it has read.
    pub closed spec fn cursors(&self) -> Seq<usize> {
        self.cursors@
    }

    pub open spec fn wf(&self) -> bool {
        forall|i: int| 0 <= i < self.cursors().len() ==> #[trigger] self.cursors()[i] <= self.log().len()
    }

    pub fn new() -> (r: Self)
        ensures
            r.wf(),
            r.log() == Seq::<E>::empty(),
            r.cursors() == Seq::<usize>::empty(),
    {
        EventChannel { events: Vec::new(), cursors: Vec::new() }
    }

    /// Adds a subscriber; it sees only the events published from now on.
    pub fn register_reader(&mut self) -> (r: ReaderId)
        requires
            old(self).wf(),
            old(self).log().len() <= usize::MAX,
        ensures
            final(self).wf(),
            r.0 == old(self).cursors().len(),
            final(self).log() == old(self).log(),
            final(self).cursors() == old(self).cursors().push(old(self).log().len() as usize),
    {
        let r = ReaderId(self.cursors.len());
        self.cursors.push(self.events.len());
        proof {
            assert forall|i: int| 0 <= i < self.cursors().len() implies #[trigger] self.cursors()[i] <= self.log().len() by {
                if i < old(self).cursors().len() {
                    assert(old(self).cursors()[i] <= old(self).log().len());
                }
            }
        }
        r
    }

    /// Publishes `e` to every subscriber.
    pub fn single_write(&mut self, e: E)
        requires
            old(self).wf(),
        ensures
            final(self).wf(),
            final(self).log() == old(self).log().push(e),
            final(self).cursors() == old(self).cursors(),
    {
        self.events.push(e);
        proof {
            assert forall|i: int| 0 <= i < self.cursors().len() implies #[trigger] self.cursors()[i] <= self.log().len() by {
                assert(old(self).cursors()[i] <= old(self).log().len());
            }
        }
    }

    /// The events that `reader` has not read yet, oldest first; they count as
    /// read afterwards. `None` when `reader` was never registered here.
    pub fn read(&mut self, reader: ReaderId) -> (r: Option<Vec<E>>)
        requires
            old(self).wf(),
        ensures
            final(self).wf(),
            final(self).log() == old(self).log(),
            reader.0 >= old(self).cursors().len() ==> r.is_none() && final(self).cursors() == old(self).cursors(),
            reader.0 < old(self).cursors().len() ==> r.is_some() && r.unwrap()@ == old(self).log().subrange(
                old(self).cursors()[reader.0 as int] as int,
                old(self).log().len() as int,
            ) && final(self).cursors() == old(self).cursors().update(
                reader.0 as int,
                old(self).log().len() as usize,
            ),
    {
        if reader.0 >= self.cursors.len() {
            return None;
        }
        let start = self.cursors[reader.0];
        let mut out: Vec<E> = Vec::new();
        let mut i: usize = start;
        while i < self.events.len()
            invariant
                self.wf(),
                *self == *old(self),
                start <= i <= self.log().len(),
                out@ == self.log().subrange(start as int, i as int),
            decreases self.log().len() - i,
        {
            out.push(self.events[i]);
            i = i + 1;
        }
        let end = self.events.len();
        self.cursors.set(reader.0, end);
        Some(out)
    }
}

} // verus!
