use nphysics_ecs_dumb::components::{Components, DynamicBody, GlobalTransform, Transform};
use nphysics_ecs_dumb::handle::{BodyHandle, Entity};
use nphysics_ecs_dumb::physics::{BodyReport, PhysicsView};
use nphysics_ecs_dumb::scene::Scene;
use nphysics_ecs_dumb::sync::{sync_components, SyncBodiesFromPhysicsSystem, SyncOutcome};

type Pose = (f32, f32, f32);
type Scale = (f32, f32, f32);
type Kin = (f32, f32);

fn body_entity(handle: Option<usize>, scale: Option<Scale>) -> Components<Pose, Scale, Kin> {
    Components {
        global: Some(GlobalTransform { pose: (0.0, 0.0, 0.0), scale: None }),
        local: scale.map(|s| Transform { pose: (0.0, 0.0, 0.0), scale: s }),
        body: Some(DynamicBody { handle: handle.map(BodyHandle), kinetics: (0.0, 1.0) }),
        collider: None,
        ttl: None,
        spawner: None,
    }
}

fn report(active: bool, is_static: bool) -> BodyReport<Pose, Kin> {
    BodyReport { active, is_static, pose: (1.0, 2.0, 3.0), kinetics: (4.0, 10.0) }
}

fn world_with(h: usize, r: BodyReport<Pose, Kin>) -> PhysicsView<Pose, Kin> {
    let mut w = PhysicsView::new();
    w.insert(BodyHandle(h), r);
    w
}

#[test]
fn sync_copies_pose_and_kinetics_and_keeps_scale() {
    let w = world_with(3, report(true, false));
    let mut c = body_entity(Some(3), Some((2.0, 2.0, 5.0)));
    assert_eq!(sync_components(&mut c, &w), SyncOutcome::Synced);
    let g = c.global.unwrap();
    assert_eq!(g.pose, (1.0, 2.0, 3.0));
    assert_eq!(g.scale, Some((2.0, 2.0, 5.0)));
    let l = c.local.unwrap();
    assert_eq!(l.pose, (1.0, 2.0, 3.0));
    assert_eq!(l.scale, (2.0, 2.0, 5.0));
    let b = c.body.unwrap();
    assert_eq!(b.kinetics, (4.0, 10.0));
    assert_eq!(b.handle, Some(BodyHandle(3)));
}

#[test]
fn sync_without_local_transform_uses_unit_scale() {
    let w = world_with(0, report(true, false));
    let mut c = body_entity(Some(0), None);
    assert_eq!(sync_components(&mut c, &w), SyncOutcome::Synced);
    assert_eq!(c.global.unwrap().scale, None);
    assert!(c.local.is_none());
}

#[test]
fn sync_skips_sleeping_body() {
    let w = world_with(1, report(false, false));
    let mut c = body_entity(Some(1), Some((2.0, 2.0, 2.0)));
    assert_eq!(sync_components(&mut c, &w), SyncOutcome::Skipped);
    assert_eq!(c.global.unwrap().pose, (0.0, 0.0, 0.0));
    assert_eq!(c.local.unwrap().pose, (0.0, 0.0, 0.0));
    assert_eq!(c.body.unwrap().kinetics, (0.0, 1.0));
}

#[test]
fn sync_skips_static_body() {
    let w = world_with(1, report(true, true));
    let mut c = body_entity(Some(1), None);
    assert_eq!(sync_components(&mut c, &w), SyncOutcome::Skipped);
    assert_eq!(c.global.unwrap().pose, (0.0, 0.0, 0.0));
    assert_eq!(c.body.unwrap().kinetics, (0.0, 1.0));
}

#[test]
fn sync_reports_unregistered_and_orphaned() {
    let w = world_with(1, report(true, false));
    let mut c = body_entity(None, None);
    assert_eq!(sync_components(&mut c, &w), SyncOutcome::Unregistered);
    let mut c = body_entity(Some(2), None);
    assert_eq!(sync_components(&mut c, &w), SyncOutcome::Orphaned);
    assert_eq!(c.body.unwrap().kinetics, (0.0, 1.0));
    let mut c = body_entity(Some(1), None);
    c.global = None;
    assert_eq!(sync_components(&mut c, &w), SyncOutcome::NotSimulated);
    assert_eq!(c.body.unwrap().kinetics, (0.0, 1.0));
}

#[test]
fn sync_twice_changes_nothing_more() {
    let w = world_with(3, report(true, false));
    let mut c = body_entity(Some(3), Some((2.0, 1.0, 1.0)));
    sync_components(&mut c, &w);
    let first = c;
    assert_eq!(sync_components(&mut c, &w), SyncOutcome::Synced);
    assert_eq!(c.global.unwrap().pose, first.global.unwrap().pose);
    assert_eq!(c.global.unwrap().scale, first.global.unwrap().scale);
    assert_eq!(c.local.unwrap().pose, first.local.unwrap().pose);
    assert_eq!(c.local.unwrap().scale, first.local.unwrap().scale);
    assert_eq!(c.body.unwrap().kinetics, first.body.unwrap().kinetics);
}

#[test]
fn physics_view_lookup_insert_remove() {
    let mut w: PhysicsView<Pose, Kin> = PhysicsView::new();
    assert!(w.rigid_body(BodyHandle(0)).is_none());
    w.insert(BodyHandle(4), report(true, false));
    assert!(w.rigid_body(BodyHandle(4)).is_some());
    assert!(w.rigid_body(BodyHandle(3)).is_none());
    w.remove(BodyHandle(4));
    assert!(w.rigid_body(BodyHandle(4)).is_none());
}

#[test]
fn system_runs_over_whole_scene() {
    let w = world_with(0, report(true, false));
    let mut scene: Scene<Pose, Scale, Kin> = Scene::new();
    let a = scene.create(body_entity(Some(0), None)).unwrap();
    let b = scene.create(body_entity(None, None)).unwrap();
    let c = scene.create(body_entity(Some(9), None)).unwrap();
    let mut sys = SyncBodiesFromPhysicsSystem::new();
    let out = sys.run(&mut scene, &w);
    assert_eq!(out, vec![SyncOutcome::Synced, SyncOutcome::Unregistered, SyncOutcome::Orphaned]);
    assert_eq!(scene.get(a).unwrap().global.unwrap().pose, (1.0, 2.0, 3.0));
    assert_eq!(scene.get(b).unwrap().global.unwrap().pose, (0.0, 0.0, 0.0));
    assert_eq!(scene.get(c).unwrap().body.unwrap().kinetics, (0.0, 1.0));
    assert_eq!(a, Entity { index: 0 });
}
