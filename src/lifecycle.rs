use vstd::prelude::*;
use crate::components::{Collider, Components, DynamicBody, GlobalTransform, Spawner, TimeToLive, Transform};

verus! {

/// Frames between two spawns of the same spawner.
pub const SPAWN_INTERVAL: u32 = 10;

/// Frames that an entity made by a spawner lives.
pub const SPAWNED_LIFETIME: u32 = 200;

/// The components of an entity that a spawner makes, placed at `local` with
/// starting kinetics `kinetics`. Its body and collider are not registered in
/// the physics world yet, so they hold no handle.
pub fn spawned_entity<P: Copy, S: Copy, K: Copy>(local: Transform<P, S>, kinetics: K) -> (r: Components<P, S, K>)
    ensures
        r.global == Some(GlobalTransform { pose: local.pose, scale: Some(local.scale) }),
        r.local == Some(local),
        r.body == Some(DynamicBody { handle: None, kinetics }),
        r.collider == Some(Collider { handle: None }),
        r.ttl == Some(TimeToLive(SPAWNED_LIFETIME)),
        r.spawner.is_none(),
{
    Components {
        global: Some(GlobalTransform { pose: local.pose, scale: Some(local.scale) }),
        local: Some(local),
        body: Some(DynamicBody { handle: None, kinetics }),
        collider: Some(Collider { handle: None }),
        ttl: Some(TimeToLive(SPAWNED_LIFETIME)),
        spawner: None,
    }
}

/// One frame of a spawner: the next state, and whether it spawns an entity.
pub open spec fn spawner_step(s: Spawner) -> (Spawner, bool) {
    if s.remaining == 0 {
        (s, false)
    } else {
        let c = if s.countdown > 0 { (s.countdown - 1) as u32 } else { 0u32 };
        if c == 0 {
            (Spawner { remaining: (s.remaining - 1) as u32, countdown: SPAWN_INTERVAL }, true)
        } else {
            (Spawner { remaining: s.remaining, countdown: c }, false)
        }
    }
}

/// The spawner after `n` frames.
pub open spec fn spawner_after(s: Spawner, n: nat) -> Spawner
    decreases n,
{
    if n == 0 {
        s
    } else {
        spawner_after(spawner_step(s).0, (n - 1) as nat)
    }
}

/// How many entities the spawner creates over `n` frames.
pub open spec fn spawns_over(s: Spawner, n: nat) -> nat
    decreases n,
{
    if n == 0 {
        0
    } else {
        (if spawner_step(s).1 { 1nat } else { 0nat }) + spawns_over(spawner_step(s).0, (n - 1) as nat)
    }
}

/// The frame (counting from one) on which the next spawn comes.
pub open spec fn first_spawn_frame(s: Spawner) -> nat {
    if s.countdown == 0 { 1 } else { s.countdown as nat }
}

/// The frame (counting from one) of the last spawn, for a spawner with spawns left.
pub open spec fn last_spawn_frame(s: Spawner) -> nat {
    (first_spawn_frame(s) + (s.remaining - 1) * SPAWN_INTERVAL) as nat
}

impl Spawner {
    /// Advances the spawner by one frame; returns whether an entity is to be spawned.
    pub fn tick(&mut self) -> (spawn: bool)
        ensures
            (*final(self), spawn) == spawner_step(*old(self)),
    {
        if self.remaining > 0 {
            if self.countdown > 0 {
                self.countdown = self.countdown - 1;
            }
            if self.countdown == 0 {
                self.countdown = SPAWN_INTERVAL;
                self.remaining = self.remaining - 1;
                return true;
            }
        }
        false
    }
}

proof fn lemma_spawner_split(s: Spawner, a: nat, b: nat)
    ensures
        spawns_over(s, a + b) == spawns_over(s, a) + spawns_over(spawner_after(s, a), b),
        spawner_after(s, a + b) == spawner_after(spawner_after(s, a), b),
    decreases a,
{
    if a > 0 {
        lemma_spawner_split(spawner_step(s).0, (a - 1) as nat, b);
        assert((a + b - 1) as nat == (a - 1) as nat + b);
    }
}

proof fn lemma_spawner_inert(s: Spawner, n: nat)
    requires
        s.remaining == 0,
    ensures
        spawns_over(s, n) == 0,
        spawner_after(s, n) == s,
    decreases n,
{
    if n > 0 {
        lemma_spawner_inert(s, (n - 1) as nat);
    }
}

proof fn lemma_spawner_countdown(s: Spawner)
    requires
        s.remaining > 0,
    ensures
        spawns_over(s, first_spawn_frame(s)) == 1,
        spawner_after(s, first_spawn_frame(s))
            == (Spawner { remaining: (s.remaining - 1) as u32, countdown: SPAWN_INTERVAL }),
    decreases s.countdown,
{
    let t = spawner_step(s).0;
    if s.countdown > 1 {
        lemma_spawner_countdown(t);
        assert(first_spawn_frame(t) == (first_spawn_frame(s) - 1) as nat);
    } else {
        assert(spawns_over(t, 0) == 0);
        assert(spawner_after(t, 0) == t);
    }
}

proof fn lemma_spawner_all(s: Spawner)
    requires
        s.remaining > 0,
    ensures
        spawns_over(s, last_spawn_frame(s)) == s.remaining,
        spawner_after(s, last_spawn_frame(s)).remaining == 0,
    decreases s.remaining,
{
    let f = first_spawn_frame(s);
    lemma_spawner_countdown(s);
    let t = spawner_after(s, f);
    let rest = ((s.remaining - 1) * SPAWN_INTERVAL) as nat;
    lemma_spawner_split(s, f, rest);
    if s.remaining > 1 {
        lemma_spawner_all(t);
        assert(last_spawn_frame(t) == rest);
    }
}

proof fn lemma_spawner_at_most(s: Spawner, n: nat)
    ensures
        spawns_over(s, n) + spawner_after(s, n).remaining == s.remaining,
    decreases n,
{
    if n > 0 {
        lemma_spawner_at_most(spawner_step(s).0, (n - 1) as nat);
    }
}

/// A spawner holding `R` remaining spawns creates exactly `R` entities by the
/// frame of its last spawn, `SPAWN_INTERVAL` frames apart after the first
/// countdown, never more than `R` over any number of frames, and none at all
/// once nothing remains.
pub proof fn lemma_spawner_bound(s: Spawner, n: nat)
    ensures
        spawns_over(s, n) <= s.remaining,
        s.remaining == 0 ==> spawns_over(s, n) == 0,
        s.remaining > 0 && n >= last_spawn_frame(s) ==> spawns_over(s, n) == s.remaining && spawner_after(s, n).remaining == 0,
{
    lemma_spawner_at_most(s, n);
    if s.remaining == 0 {
        lemma_spawner_inert(s, n);
    } else {
        let m = last_spawn_frame(s);
        if n >= m {
            lemma_spawner_all(s);
            lemma_spawner_split(s, m, (n - m) as nat);
            lemma_spawner_inert(spawner_after(s, m), (n - m) as nat);
        }
    }
}

/// One frame of a countdown to deletion: the next counter, and whether the
/// owning entity is destroyed this frame.
pub open spec fn ttl_step(t: TimeToLive) -> (TimeToLive, bool) {
    let v = if t.0 > 0 { (t.0 - 1) as u32 } else { 0u32 };
    (TimeToLive(v), v == 0)
}

/// The counter after `n` frames.
pub open spec fn ttl_after(t: TimeToLive, n: nat) -> TimeToLive
    decreases n,
{
    if n == 0 {
        t
    } else {
        ttl_after(ttl_step(t).0, (n - 1) as nat)
    }
}

impl TimeToLive {
    /// Advances the counter by one frame; returns whether the owner is to be destroyed.
    pub fn tick(&mut self) -> (expired: bool)
        ensures
            (*final(self), expired) == ttl_step(*old(self)),
    {
        if self.0 > 0 {
            self.0 = self.0 - 1;
        }
        self.0 == 0
    }
}

proof fn lemma_ttl_after(n: u32, k: nat)
    requires
        k <= n,
    ensures
        ttl_after(TimeToLive(n), k) == TimeToLive((n - k) as u32),
    decreases k,
{
    if k > 0 {
        lemma_ttl_after((n - 1) as u32, (k - 1) as nat);
    }
}

/// An entity created with `TimeToLive(n)`, `n` at least one, is destroyed on
/// frame `n` (counting from one) and on no frame before.
pub proof fn lemma_ttl_expires_on_frame(n: u32, frame: nat)
    requires
        1 <= n,
        1 <= frame <= n,
    ensures
        ttl_step(ttl_after(TimeToLive(n), (frame - 1) as nat)).1 == (frame == n),
{
    lemma_ttl_after(n, (frame - 1) as nat);
}

} // verus!
