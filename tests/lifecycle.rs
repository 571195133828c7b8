use nphysics_ecs_dumb::components::{Collider, Components, DynamicBody, Spawner, TimeToLive, Transform};
use nphysics_ecs_dumb::events::{translate_contacts, ContactEvent, EntityContactEvent, EventChannel, ReaderId};
use nphysics_ecs_dumb::handle::{BodyHandle, ColliderHandle, Entity};
use nphysics_ecs_dumb::lifecycle::{spawned_entity, SPAWNED_LIFETIME, SPAWN_INTERVAL};
use nphysics_ecs_dumb::lookup::entity_from_handle;
use nphysics_ecs_dumb::scene::{Released, Scene, SceneError};

type Parts = Components<u8, u8, u8>;

fn bare() -> Parts {
    Components { global: None, local: None, body: None, collider: None, ttl: None, spawner: None }
}

fn with_collider(h: usize) -> Parts {
    Components { collider: Some(Collider { handle: Some(ColliderHandle(h)) }), ..bare() }
}

fn with_body(h: Option<usize>) -> Parts {
    Components { body: Some(DynamicBody { handle: h.map(BodyHandle), kinetics: 0 }), ..bare() }
}

#[test]
fn spawner_two_balls_then_inert() {
    let mut scene: Scene<u8, u8, u8> = Scene::new();
    let sp = scene.create(Components { spawner: Some(Spawner { remaining: 2, countdown: 1 }), ..bare() }).unwrap();
    let fired = scene.run_spawners();
    assert_eq!(fired, vec![sp]);
    for e in fired {
        assert_ne!(e, Entity { index: 99 });
        scene.create(spawned_entity(Transform { pose: 1, scale: 1 }, 0)).unwrap();
    }
    assert_eq!(scene.len(), 2);
    assert_eq!(scene.get(sp).unwrap().spawner.unwrap().remaining, 1);
    for frame in 0..10 {
        let fired = scene.run_spawners();
        if frame < 9 {
            assert!(fired.is_empty());
        } else {
            assert_eq!(fired, vec![sp]);
            scene.create(spawned_entity(Transform { pose: 2, scale: 1 }, 0)).unwrap();
        }
    }
    assert_eq!(scene.len(), 3);
    assert_eq!(scene.get(sp).unwrap().spawner.unwrap().remaining, 0);
    for _ in 0..100 {
        assert!(scene.run_spawners().is_empty());
    }
}

#[test]
fn spawner_spawns_exactly_remaining() {
    let mut s = Spawner { remaining: 3, countdown: 5 };
    let mut frames = Vec::new();
    for frame in 1..=200u32 {
        if s.tick() {
            frames.push(frame);
        }
    }
    assert_eq!(frames, vec![5, 5 + SPAWN_INTERVAL, 5 + 2 * SPAWN_INTERVAL]);
    assert_eq!(s.remaining, 0);
}

#[test]
fn spawner_with_zero_countdown_fires_on_first_frame() {
    let mut s = Spawner { remaining: 1, countdown: 0 };
    assert!(s.tick());
    assert_eq!(s, Spawner { remaining: 0, countdown: 10 });
    assert!(!s.tick());
    assert_eq!(s, Spawner { remaining: 0, countdown: 10 });
}

#[test]
fn ttl_expires_on_frame_n() {
    let mut t = TimeToLive(3);
    assert!(!t.tick());
    assert!(!t.tick());
    assert!(t.tick());
    assert_eq!(t, TimeToLive(0));
    let mut z = TimeToLive(0);
    assert!(z.tick());
}

#[test]
fn ttl_one_frame_destroys_entity() {
    let mut scene: Scene<u8, u8, u8> = Scene::new();
    let keep = scene.create(with_collider(1)).unwrap();
    let e = scene
        .create(Components { ttl: Some(TimeToLive(1)), ..Components { body: Some(DynamicBody { handle: Some(BodyHandle(5)), kinetics: 0 }), ..with_collider(7) } })
        .unwrap();
    assert_eq!(entity_from_handle(&scene, ColliderHandle(7)), Some(e));
    let released = scene.reap();
    assert_eq!(released, vec![Released { entity: e, body: Some(BodyHandle(5)), collider: Some(ColliderHandle(7)) }]);
    assert!(!scene.is_alive(e));
    assert!(scene.is_alive(keep));
    assert_eq!(entity_from_handle(&scene, ColliderHandle(7)), None);
    assert!(!scene.body_handle_in_use(BodyHandle(5)));
}

#[test]
fn reaper_counts_down_without_destroying_early() {
    let mut scene: Scene<u8, u8, u8> = Scene::new();
    let e = scene.create(Components { ttl: Some(TimeToLive(3)), ..bare() }).unwrap();
    assert!(scene.reap().is_empty());
    assert_eq!(scene.get(e).unwrap().ttl, Some(TimeToLive(2)));
    assert!(scene.reap().is_empty());
    assert_eq!(scene.reap().len(), 1);
    assert!(!scene.is_alive(e));
}

#[test]
fn duplicate_handles_are_refused() {
    let mut scene: Scene<u8, u8, u8> = Scene::new();
    let a = scene.create(with_body(Some(1))).unwrap();
    assert_eq!(scene.create(with_body(Some(1))).unwrap_err(), SceneError::BodyHandleInUse);
    scene.create(with_collider(4)).unwrap();
    assert_eq!(scene.create(with_collider(4)).unwrap_err(), SceneError::ColliderHandleInUse);
    assert_eq!(scene.len(), 2);
    let b = scene.create(with_body(None)).unwrap();
    assert_eq!(scene.register_body(b, BodyHandle(1)), Err(SceneError::BodyHandleInUse));
    assert_eq!(scene.register_body(b, BodyHandle(2)), Ok(()));
    assert_eq!(scene.get(b).unwrap().body.unwrap().handle, Some(BodyHandle(2)));
    assert_eq!(scene.register_body(a, BodyHandle(1)), Ok(()));
    assert_eq!(scene.register_collider(b, ColliderHandle(9)), Err(SceneError::NoCollider));
    assert_eq!(scene.register_body(Entity { index: 40 }, BodyHandle(8)), Err(SceneError::NoSuchEntity));
    let c = scene.create(with_collider(5)).unwrap();
    assert_eq!(scene.register_body(c, BodyHandle(8)), Err(SceneError::NoBody));
    assert_eq!(scene.register_collider(c, ColliderHandle(4)), Err(SceneError::ColliderHandleInUse));
    assert_eq!(scene.register_collider(c, ColliderHandle(6)), Ok(()));
    assert_eq!(entity_from_handle(&scene, ColliderHandle(6)), Some(c));
    assert_eq!(entity_from_handle(&scene, ColliderHandle(5)), None);
}

#[test]
fn handle_free_again_after_destroy() {
    let mut scene: Scene<u8, u8, u8> = Scene::new();
    let a = scene.create(with_body(Some(1))).unwrap();
    assert_eq!(scene.destroy(a), Some(Released { entity: a, body: Some(BodyHandle(1)), collider: None }));
    assert_eq!(scene.destroy(a), None);
    assert!(scene.get(a).is_none());
    assert!(scene.create(with_body(Some(1))).is_ok());
}

#[test]
fn lookup_finds_owner_until_destroyed() {
    let mut scene: Scene<u8, u8, u8> = Scene::new();
    let a = scene.create(with_collider(10)).unwrap();
    let b = scene.create(bare()).unwrap();
    let c = scene.create(with_collider(20)).unwrap();
    assert_eq!(entity_from_handle(&scene, ColliderHandle(10)), Some(a));
    assert_eq!(entity_from_handle(&scene, ColliderHandle(20)), Some(c));
    assert_eq!(entity_from_handle(&scene, ColliderHandle(30)), None);
    scene.destroy(a);
    assert_eq!(entity_from_handle(&scene, ColliderHandle(10)), None);
    assert!(scene.is_alive(b));
}

#[test]
fn contacts_translate_and_stale_ones_drop() {
    let mut scene: Scene<u8, u8, u8> = Scene::new();
    let a = scene.create(with_collider(1)).unwrap();
    let b = scene.create(with_collider(2)).unwrap();
    let contacts = vec![
        ContactEvent { first: ColliderHandle(1), second: ColliderHandle(2) },
        ContactEvent { first: ColliderHandle(2), second: ColliderHandle(3) },
        ContactEvent { first: ColliderHandle(2), second: ColliderHandle(1) },
    ];
    let out = translate_contacts(&scene, &contacts);
    assert_eq!(
        out,
        vec![EntityContactEvent { first: a, second: b }, EntityContactEvent { first: b, second: a }]
    );
}

#[test]
fn channel_readers_have_own_cursors() {
    let mut ch: EventChannel<u32> = EventChannel::new();
    let early = ch.register_reader();
    ch.single_write(1);
    ch.single_write(2);
    let late = ch.register_reader();
    ch.single_write(3);
    assert_eq!(ch.read(early), Some(vec![1, 2, 3]));
    assert_eq!(ch.read(early), Some(vec![]));
    assert_eq!(ch.read(late), Some(vec![3]));
    ch.single_write(4);
    assert_eq!(ch.read(late), Some(vec![4]));
    assert_eq!(ch.read(ReaderId(7)), None);
}

#[test]
fn spawned_entity_is_unregistered_with_lifetime() {
    let c = spawned_entity(Transform { pose: 3u8, scale: 4u8 }, 9u8);
    assert_eq!(c.body.unwrap().handle, None);
    assert_eq!(c.body.unwrap().kinetics, 9);
    assert_eq!(c.collider, Some(Collider { handle: None }));
    assert_eq!(c.ttl, Some(TimeToLive(SPAWNED_LIFETIME)));
    assert_eq!(SPAWNED_LIFETIME, 200);
    assert_eq!(c.global.unwrap().pose, 3);
    assert_eq!(c.global.unwrap().scale, Some(4));
    assert!(c.spawner.is_none());
}
