//! End-to-end tests of the synchronization bridge on concrete worlds.

use worldsync::bimap::EntityBimap;
use worldsync::camera::reconcile_active_camera;
use worldsync::camera::ActiveCamera;
use worldsync::registry::Syncer;
use worldsync::store::Store;
use worldsync::sync::reconcile_copy;
use worldsync::sync::sync_component_store;
use worldsync::world::ComponentKind;
use worldsync::world::ResourceKind;
use worldsync::world::WorldState;
use worldsync::Direction;
use worldsync::SyncError;

fn prepared() -> (Syncer, WorldState, WorldState) {
    let mut syncer = Syncer::new();
    let mut world_a = WorldState::new();
    let mut world_b = WorldState::new();
    syncer.prepare(&mut world_a, &mut world_b);
    (syncer, world_a, world_b)
}

#[test]
fn bimap_lookups_both_ways() {
    let mut bimap = EntityBimap::new();
    assert!(bimap.insert(1, 10));
    assert!(bimap.insert(2, 20));
    assert_eq!(bimap.len(), 2);
    assert_eq!(bimap.get_by_left(1), Some(10));
    assert_eq!(bimap.get_by_left(2), Some(20));
    assert_eq!(bimap.get_by_right(10), Some(1));
    assert_eq!(bimap.get_by_right(20), Some(2));
    assert_eq!(bimap.get_by_left(3), None);
    assert_eq!(bimap.get_by_right(30), None);
}

#[test]
fn bimap_refuses_a_second_pairing() {
    let mut bimap = EntityBimap::new();
    assert!(bimap.insert(1, 10));
    assert!(!bimap.insert(1, 11));
    assert!(!bimap.insert(2, 10));
    assert_eq!(bimap.get_by_left(1), Some(10));
    assert_eq!(bimap.get_by_right(10), Some(1));
    assert_eq!(bimap.get_by_right(11), None);
}

#[test]
fn bimap_removal_clears_both_directions() {
    let mut bimap = EntityBimap::new();
    assert!(bimap.insert(1, 10));
    assert!(bimap.insert(2, 20));
    assert_eq!(bimap.remove_by_left(1), Some(10));
    assert_eq!(bimap.get_by_left(1), None);
    assert_eq!(bimap.get_by_right(10), None);
    assert_eq!(bimap.remove_by_right(20), Some(2));
    assert_eq!(bimap.get_by_left(2), None);
    assert_eq!(bimap.remove_by_left(7), None);
    assert_eq!(bimap.len(), 0);
}

#[test]
fn store_insert_overwrites_in_place() {
    let mut store = Store::new();
    store.insert(4, 100);
    store.insert(5, 200);
    store.insert(4, 300);
    assert_eq!(store.get(4), Some(300));
    assert_eq!(store.get(5), Some(200));
    assert_eq!(store.get(6), None);
    assert_eq!(store.len(), 2);
}

#[test]
fn copy_rule_updates_in_place_and_signals_nothing() {
    let mut a = Some(7u64);
    let mut b = Some(3u64);
    let pair = reconcile_copy(Direction::AToB, &mut a, &mut b);
    assert_eq!(pair, (None, None));
    assert_eq!(a, Some(7));
    assert_eq!(b, Some(7));
}

#[test]
fn copy_rule_signals_insert_when_target_absent() {
    let mut a = Some(7u64);
    let mut b = None;
    let pair = reconcile_copy(Direction::AToB, &mut a, &mut b);
    assert_eq!(pair, (None, Some(7)));
    assert_eq!(b, None);

    let mut a2 = None;
    let mut b2 = Some(9u64);
    let pair2 = reconcile_copy(Direction::BToA, &mut a2, &mut b2);
    assert_eq!(pair2, (Some(9), None));
    assert_eq!(a2, None);
    assert_eq!(b2, Some(9));
}

#[test]
fn copy_rule_without_source_changes_nothing() {
    let mut a = None;
    let mut b = Some(3u64);
    let pair = reconcile_copy(Direction::AToB, &mut a, &mut b);
    assert_eq!(pair, (None, None));
    assert_eq!(b, Some(3));
}

#[test]
fn camera_rule_translates_reference() {
    let mut bimap = EntityBimap::new();
    assert!(bimap.insert(1, 10));
    let mut a = Some(ActiveCamera { entity: Some(1) });
    let mut b = Some(ActiveCamera { entity: None });
    let r = reconcile_active_camera(Direction::AToB, &bimap, &mut a, &mut b);
    assert_eq!(r, Ok((None, None)));
    assert_eq!(b, Some(ActiveCamera { entity: Some(10) }));
    assert_eq!(a, Some(ActiveCamera { entity: Some(1) }));
}

#[test]
fn camera_rule_reports_dangling_reference() {
    let bimap = EntityBimap::new();
    let mut a = Some(ActiveCamera { entity: Some(1) });
    let mut b = None;
    let r = reconcile_active_camera(Direction::AToB, &bimap, &mut a, &mut b);
    assert_eq!(r, Err(SyncError::DanglingReference));
    assert_eq!(a, Some(ActiveCamera { entity: Some(1) }));
    assert_eq!(b, None);
}

#[test]
fn component_store_sync_translates_keys() {
    let mut bimap = EntityBimap::new();
    assert!(bimap.insert(1, 10));
    assert!(bimap.insert(2, 20));
    let mut src = Store::new();
    src.insert(1, 111);
    src.insert(2, 222);
    src.insert(3, 333); // entity 3 has no counterpart and is skipped
    let mut dst = Store::new();
    dst.insert(10, 5);
    sync_component_store(Direction::AToB, &bimap, &src, &mut dst);
    assert_eq!(dst.get(10), Some(111));
    assert_eq!(dst.get(20), Some(222));
    assert_eq!(dst.len(), 2);
}

#[test]
fn prepare_registers_rules_and_default_camera() {
    let (syncer, world_a, world_b) = prepared();
    assert_eq!(syncer.registry.len(), 25);
    assert_eq!(world_b.camera, Some(ActiveCamera { entity: None }));
    assert_eq!(world_a.camera, None);
}

#[test]
fn scenario_camera_insert_then_in_place_update_back() {
    // Bimap {a1 <-> b1}; A-side ActiveCamera refers to a1; B side absent.
    let (syncer, mut world_a, mut world_b) = prepared();
    let mut bimap = EntityBimap::new();
    assert!(bimap.insert(1, 10));
    world_a.camera = Some(ActiveCamera { entity: Some(1) });
    world_b.camera = None;

    // A -> B inserts a B-side camera referring to b1.
    let r = syncer.sync_pass(Direction::AToB, &bimap, &mut world_a, &mut world_b);
    assert_eq!(r, Ok(()));
    assert_eq!(world_b.camera, Some(ActiveCamera { entity: Some(10) }));
    assert_eq!(world_a.camera, Some(ActiveCamera { entity: Some(1) }));

    // Mutate the B side to refer to no entity; B -> A updates A in place.
    world_b.camera = Some(ActiveCamera { entity: None });
    let r2 = syncer.sync_pass(Direction::BToA, &bimap, &mut world_a, &mut world_b);
    assert_eq!(r2, Ok(()));
    assert_eq!(world_a.camera, Some(ActiveCamera { entity: None }));
    assert_eq!(world_b.camera, Some(ActiveCamera { entity: None }));
}

#[test]
fn pass_is_idempotent_on_concrete_worlds() {
    let (syncer, mut world_a, mut world_b) = prepared();
    let mut bimap = EntityBimap::new();
    assert!(bimap.insert(1, 10));
    world_a.camera = Some(ActiveCamera { entity: Some(1) });
    let sprite = ComponentKind::SpriteRender;
    world_a.set_component(sprite, 1, 777);
    world_a.set_resource(ResourceKind::QueueId, 42);

    assert_eq!(
        syncer.sync_pass(Direction::AToB, &bimap, &mut world_a, &mut world_b),
        Ok(())
    );
    let camera_once = world_b.camera;
    let sprite_once = world_b.component(sprite, 10);
    let queue_once = world_b.resource(ResourceKind::QueueId);
    let lens_once = (
        world_b.components[sprite.index()].len(),
        world_b.resources.len(),
    );

    assert_eq!(
        syncer.sync_pass(Direction::AToB, &bimap, &mut world_a, &mut world_b),
        Ok(())
    );
    assert_eq!(world_b.camera, camera_once);
    assert_eq!(world_b.component(sprite, 10), sprite_once);
    assert_eq!(world_b.resource(ResourceKind::QueueId), queue_once);
    assert_eq!(
        (world_b.components[sprite.index()].len(), world_b.resources.len()),
        lens_once
    );
    assert_eq!(sprite_once, Some(777));
    assert_eq!(queue_once, Some(42));
}

#[test]
fn round_trip_restores_component_value() {
    let (syncer, mut world_a, mut world_b) = prepared();
    let mut bimap = EntityBimap::new();
    assert!(bimap.insert(1, 10));
    let tint = ComponentKind::Tint;
    world_a.set_component(tint, 1, 12345);

    assert_eq!(
        syncer.sync_pass(Direction::AToB, &bimap, &mut world_a, &mut world_b),
        Ok(())
    );
    assert_eq!(world_b.component(tint, 10), Some(12345));
    assert_eq!(
        syncer.sync_pass(Direction::BToA, &bimap, &mut world_a, &mut world_b),
        Ok(())
    );
    assert_eq!(world_a.component(tint, 1), Some(12345));
}

#[test]
fn asymmetric_existence_creates_without_loss() {
    let (syncer, mut world_a, mut world_b) = prepared();
    let mut bimap = EntityBimap::new();
    assert!(bimap.insert(1, 10));
    assert!(bimap.insert(2, 20));
    let mesh = ComponentKind::MeshHandle;
    world_a.set_component(mesh, 1, 55);
    world_b.set_component(mesh, 20, 66); // unrelated B-side entry survives

    assert_eq!(
        syncer.sync_pass(Direction::AToB, &bimap, &mut world_a, &mut world_b),
        Ok(())
    );
    assert_eq!(world_b.component(mesh, 10), Some(55));
    assert_eq!(world_b.component(mesh, 20), Some(66));
    // A is untouched by an A -> B pass.
    assert_eq!(world_a.component(mesh, 1), Some(55));
    assert_eq!(world_a.components[mesh.index()].len(), 1);
}

#[test]
fn resources_stay_singletons_across_passes() {
    let (syncer, mut world_a, mut world_b) = prepared();
    let bimap = EntityBimap::new();
    let tag = ResourceKind::Loader.tag();
    world_a.set_resource(ResourceKind::Loader, 1);

    for _ in 0..3 {
        assert_eq!(
            syncer.sync_pass(Direction::AToB, &bimap, &mut world_a, &mut world_b),
            Ok(())
        );
    }
    world_a.set_resource(ResourceKind::Loader, 2);
    assert_eq!(
        syncer.sync_pass(Direction::AToB, &bimap, &mut world_a, &mut world_b),
        Ok(())
    );

    // At most one entry per resource tag, in either world.
    for world in [&world_a, &world_b] {
        let mut seen = 0;
        for i in 0..world.resources.len() {
            if world.resources.entries[i].0 == tag {
                seen += 1;
            }
        }
        assert_eq!(seen, 1);
    }
    assert_eq!(world_b.resource(ResourceKind::Loader), Some(2));
}

#[test]
fn pass_stops_and_reports_dangling_camera() {
    let (syncer, mut world_a, mut world_b) = prepared();
    let bimap = EntityBimap::new();
    world_a.camera = Some(ActiveCamera { entity: Some(1) });
    let sprite = ComponentKind::SpriteRender;
    world_a.set_component(sprite, 1, 9);

    let r = syncer.sync_pass(Direction::AToB, &bimap, &mut world_a, &mut world_b);
    assert_eq!(r, Err(SyncError::DanglingReference));
    // The camera rule runs first, so nothing was mirrored.
    assert_eq!(world_b.components[sprite.index()].len(), 0);
    assert_eq!(world_b.camera, Some(ActiveCamera { entity: None }));
}

#[test]
fn empty_registry_pass_changes_nothing() {
    let syncer = Syncer::new();
    let bimap = EntityBimap::new();
    let mut world_a = WorldState::new();
    let mut world_b = WorldState::new();
    world_a.camera = Some(ActiveCamera { entity: None });
    let r = syncer.sync_pass(Direction::AToB, &bimap, &mut world_a, &mut world_b);
    assert_eq!(r, Ok(()));
    assert_eq!(world_b.camera, None);
    assert_eq!(world_a.camera, Some(ActiveCamera { entity: None }));
}
