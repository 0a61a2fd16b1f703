use bevy::ecs::world::World;
use script_bridge::ScriptWorld;

#[test]
fn spawn_returns_live_entity() {
    let mut world = ScriptWorld::new(World::new());
    let entity = world.spawn();
    assert!(world.is_alive(entity));
}

#[test]
fn despawn_reports_whether_entity_existed() {
    let mut world = ScriptWorld::new(World::new());
    let entity = world.spawn();
    assert!(world.despawn(entity));
    assert!(!world.is_alive(entity));
    assert!(!world.despawn(entity));
}

#[test]
fn sequential_spawns_differ_with_despawn_between() {
    let mut world = ScriptWorld::new(World::new());
    let first = world.spawn();
    assert!(world.despawn(first));
    let second = world.spawn();
    assert_ne!(first, second);
    assert!(!world.is_alive(first));
    assert!(world.is_alive(second));
}

#[test]
fn spawn_brings_reserved_ids_to_life() {
    let mut world = ScriptWorld::new(World::new());
    let kept = world.spawn();
    let reserved = world.world().entities().reserve_entity();
    let reserved = script_bridge::EntityId::from_bits(reserved.to_bits());
    assert!(!world.is_alive(reserved));
    let fresh = world.spawn();
    assert_ne!(fresh, reserved);
    assert!(world.is_alive(reserved));
    assert!(world.is_alive(fresh));
    assert!(world.is_alive(kept));
    assert_eq!(world.world().entities().len(), 3);
    assert_eq!(world.get_children(reserved), Ok(vec![]));
    assert_eq!(world.get_parent(reserved), Ok(None));
}

#[test]
fn despawn_brings_reserved_ids_to_life() {
    let mut world = ScriptWorld::new(World::new());
    let doomed = world.spawn();
    let reserved = world.world().entities().reserve_entity();
    let reserved = script_bridge::EntityId::from_bits(reserved.to_bits());
    assert!(!world.is_alive(reserved));
    assert!(world.despawn(doomed));
    assert!(world.is_alive(reserved));
    assert!(!world.is_alive(doomed));
    assert_eq!(world.world().entities().len(), 1);
}

#[test]
fn despawn_of_a_dead_entity_leaves_reserved_ids_reserved() {
    let mut world = ScriptWorld::new(World::new());
    let doomed = world.spawn();
    assert!(world.despawn(doomed));
    let reserved = world.world().entities().reserve_entity();
    let reserved = script_bridge::EntityId::from_bits(reserved.to_bits());
    assert!(!world.despawn(doomed));
    assert!(!world.is_alive(reserved));
}

#[test]
fn despawn_recursive_brings_reserved_ids_to_life() {
    let mut world = ScriptWorld::new(World::new());
    let root = world.spawn();
    let leaf = world.spawn();
    assert_eq!(world.attach_child(root, leaf), Ok(()));
    let reserved = world.world().entities().reserve_entity();
    let reserved = script_bridge::EntityId::from_bits(reserved.to_bits());
    assert_eq!(world.despawn_recursive(root), Ok(()));
    assert!(world.is_alive(reserved));
    assert!(!world.is_alive(root));
    assert!(!world.is_alive(leaf));
    assert_eq!(world.get_children(reserved), Ok(vec![]));
}

#[test]
fn despawn_children_recursive_without_children_leaves_reserved_ids_reserved() {
    let mut world = ScriptWorld::new(World::new());
    let root = world.spawn();
    let reserved = world.world().entities().reserve_entity();
    let reserved = script_bridge::EntityId::from_bits(reserved.to_bits());
    assert_eq!(world.despawn_children_recursive(root), Ok(()));
    assert!(!world.is_alive(reserved));
    let child = world.spawn();
    assert_eq!(world.attach_child(root, child), Ok(()));
    let later = world.world().entities().reserve_entity();
    let later = script_bridge::EntityId::from_bits(later.to_bits());
    assert_eq!(world.despawn_children_recursive(root), Ok(()));
    assert!(world.is_alive(later));
    assert!(world.is_alive(reserved));
    assert!(!world.is_alive(child));
}

#[test]
fn spawned_handles_never_repeat() {
    let mut world = ScriptWorld::new(World::new());
    let mut seen = std::collections::HashSet::new();
    let mut alive = Vec::new();
    for round in 0..300u32 {
        let entity = world.spawn();
        assert!(seen.insert(entity), "handle came back a second time");
        alive.push(entity);
        if round % 3 != 0 {
            let victim = alive.remove((round as usize * 7) % alive.len());
            assert!(world.despawn(victim));
        }
    }
}
