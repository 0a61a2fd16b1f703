use bevy::ecs::world::World;
use script_bridge::{BridgeError, EntityId, ScriptWorld};

fn family(world: &mut ScriptWorld, count: usize) -> Vec<EntityId> {
    let mut members = Vec::new();
    for _ in 0..count {
        members.push(world.spawn());
    }
    members
}

#[test]
fn attach_child_links_both_sides() {
    let mut world = ScriptWorld::new(World::new());
    let ids = family(&mut world, 2);
    assert_eq!(world.get_children(ids[0]), Ok(vec![]));
    assert_eq!(world.get_parent(ids[1]), Ok(None));
    assert_eq!(world.attach_child(ids[0], ids[1]), Ok(()));
    assert_eq!(world.get_children(ids[0]), Ok(vec![ids[1]]));
    assert_eq!(world.get_parent(ids[1]), Ok(Some(ids[0])));
    assert_eq!(world.get_parent(ids[0]), Ok(None));
    assert_eq!(world.get_children(ids[1]), Ok(vec![]));
}

#[test]
fn attach_children_appends_in_order() {
    let mut world = ScriptWorld::new(World::new());
    let ids = family(&mut world, 5);
    assert_eq!(world.attach_child(ids[0], ids[1]), Ok(()));
    assert_eq!(world.attach_children(ids[0], &vec![ids[2], ids[3]]), Ok(()));
    assert_eq!(world.attach_child(ids[0], ids[4]), Ok(()));
    assert_eq!(world.get_children(ids[0]), Ok(vec![ids[1], ids[2], ids[3], ids[4]]));
    for child in &ids[1..] {
        assert_eq!(world.get_parent(*child), Ok(Some(ids[0])));
    }
}

#[test]
fn attach_again_moves_child_to_the_end() {
    let mut world = ScriptWorld::new(World::new());
    let ids = family(&mut world, 4);
    assert_eq!(world.attach_children(ids[0], &vec![ids[1], ids[2], ids[3]]), Ok(()));
    assert_eq!(world.attach_child(ids[0], ids[1]), Ok(()));
    assert_eq!(world.get_children(ids[0]), Ok(vec![ids[2], ids[3], ids[1]]));
    assert_eq!(world.get_parent(ids[1]), Ok(Some(ids[0])));
}

#[test]
fn attach_to_new_parent_leaves_the_old_list() {
    let mut world = ScriptWorld::new(World::new());
    let ids = family(&mut world, 4);
    assert_eq!(world.attach_children(ids[0], &vec![ids[2], ids[3]]), Ok(()));
    assert_eq!(world.attach_child(ids[1], ids[2]), Ok(()));
    assert_eq!(world.get_children(ids[0]), Ok(vec![ids[3]]));
    assert_eq!(world.get_children(ids[1]), Ok(vec![ids[2]]));
    assert_eq!(world.get_parent(ids[2]), Ok(Some(ids[1])));
    assert_eq!(world.get_parent(ids[3]), Ok(Some(ids[0])));
    assert_eq!(world.attach_child(ids[1], ids[3]), Ok(()));
    assert_eq!(world.get_children(ids[0]), Ok(vec![]));
    assert_eq!(world.get_children(ids[1]), Ok(vec![ids[2], ids[3]]));
}

#[test]
fn attach_of_nothing_changes_nothing() {
    let mut world = ScriptWorld::new(World::new());
    let ids = family(&mut world, 2);
    assert_eq!(world.attach_child(ids[0], ids[1]), Ok(()));
    assert_eq!(world.attach_children(ids[0], &vec![]), Ok(()));
    assert_eq!(world.get_children(ids[0]), Ok(vec![ids[1]]));
    assert_eq!(world.attach_children(ids[1], &vec![]), Ok(()));
    assert_eq!(world.get_children(ids[1]), Ok(vec![]));
}

#[test]
fn insert_child_at_puts_child_at_index() {
    let mut world = ScriptWorld::new(World::new());
    let ids = family(&mut world, 5);
    assert_eq!(world.attach_children(ids[0], &vec![ids[1], ids[2]]), Ok(()));
    assert_eq!(world.insert_child_at(ids[0], 1, ids[3]), Ok(()));
    assert_eq!(world.get_children(ids[0]), Ok(vec![ids[1], ids[3], ids[2]]));
    assert_eq!(world.insert_child_at(ids[0], 0, ids[4]), Ok(()));
    assert_eq!(world.get_children(ids[0]), Ok(vec![ids[4], ids[1], ids[3], ids[2]]));
    assert_eq!(world.get_parent(ids[3]), Ok(Some(ids[0])));
    assert_eq!(world.get_parent(ids[4]), Ok(Some(ids[0])));
}

#[test]
fn insert_child_at_index_beyond_end_appends() {
    let mut world = ScriptWorld::new(World::new());
    let ids = family(&mut world, 5);
    assert_eq!(world.attach_children(ids[0], &vec![ids[1], ids[2]]), Ok(()));
    assert_eq!(world.insert_child_at(ids[0], 17, ids[3]), Ok(()));
    assert_eq!(world.get_children(ids[0]), Ok(vec![ids[1], ids[2], ids[3]]));
    assert_eq!(world.insert_child_at(ids[0], usize::MAX, ids[4]), Ok(()));
    assert_eq!(world.get_children(ids[0]), Ok(vec![ids[1], ids[2], ids[3], ids[4]]));
}

#[test]
fn insert_child_at_into_empty_list() {
    let mut world = ScriptWorld::new(World::new());
    let ids = family(&mut world, 2);
    assert_eq!(world.insert_child_at(ids[0], 5, ids[1]), Ok(()));
    assert_eq!(world.get_children(ids[0]), Ok(vec![ids[1]]));
    assert_eq!(world.get_parent(ids[1]), Ok(Some(ids[0])));
}

#[test]
fn insert_children_at_counts_in_what_remains() {
    let mut world = ScriptWorld::new(World::new());
    let ids = family(&mut world, 5);
    assert_eq!(world.attach_children(ids[0], &vec![ids[1], ids[2], ids[3]]), Ok(()));
    // The first child is listed already. It leaves the list before the
    // index is applied, so index 3 lies beyond the two that remain.
    assert_eq!(world.insert_children_at(ids[0], 3, &vec![ids[1], ids[4]]), Ok(()));
    assert_eq!(world.get_children(ids[0]), Ok(vec![ids[2], ids[3], ids[1], ids[4]]));
    assert_eq!(world.insert_children_at(ids[0], 1, &vec![ids[4], ids[3]]), Ok(()));
    assert_eq!(world.get_children(ids[0]), Ok(vec![ids[2], ids[4], ids[3], ids[1]]));
}

#[test]
fn insert_children_at_takes_children_from_other_parents() {
    let mut world = ScriptWorld::new(World::new());
    let ids = family(&mut world, 5);
    assert_eq!(world.attach_children(ids[0], &vec![ids[2], ids[3]]), Ok(()));
    assert_eq!(world.attach_child(ids[1], ids[4]), Ok(()));
    assert_eq!(world.insert_children_at(ids[1], 0, &vec![ids[3], ids[2]]), Ok(()));
    assert_eq!(world.get_children(ids[1]), Ok(vec![ids[3], ids[2], ids[4]]));
    assert_eq!(world.get_children(ids[0]), Ok(vec![]));
    assert_eq!(world.get_parent(ids[2]), Ok(Some(ids[1])));
    assert_eq!(world.get_parent(ids[3]), Ok(Some(ids[1])));
}

#[test]
fn detach_child_unlinks_both_sides() {
    let mut world = ScriptWorld::new(World::new());
    let ids = family(&mut world, 4);
    assert_eq!(world.attach_children(ids[0], &vec![ids[1], ids[2], ids[3]]), Ok(()));
    assert_eq!(world.detach_child(ids[0], ids[2]), Ok(()));
    assert_eq!(world.get_children(ids[0]), Ok(vec![ids[1], ids[3]]));
    assert_eq!(world.get_parent(ids[2]), Ok(None));
    assert_eq!(world.get_parent(ids[1]), Ok(Some(ids[0])));
    assert!(world.is_alive(ids[2]));
}

#[test]
fn detach_children_removes_those_listed() {
    let mut world = ScriptWorld::new(World::new());
    let ids = family(&mut world, 5);
    assert_eq!(world.attach_children(ids[0], &vec![ids[1], ids[2], ids[3]]), Ok(()));
    assert_eq!(world.detach_children(ids[0], &vec![ids[3], ids[1], ids[4]]), Ok(()));
    assert_eq!(world.get_children(ids[0]), Ok(vec![ids[2]]));
    assert_eq!(world.get_parent(ids[1]), Ok(None));
    assert_eq!(world.get_parent(ids[3]), Ok(None));
    assert_eq!(world.get_parent(ids[4]), Ok(None));
    assert_eq!(world.detach_children(ids[0], &vec![ids[2]]), Ok(()));
    assert_eq!(world.get_children(ids[0]), Ok(vec![]));
}

#[test]
fn detach_of_a_stranger_is_a_no_op() {
    let mut world = ScriptWorld::new(World::new());
    let ids = family(&mut world, 4);
    assert_eq!(world.attach_child(ids[0], ids[1]), Ok(()));
    assert_eq!(world.attach_child(ids[2], ids[3]), Ok(()));
    assert_eq!(world.detach_child(ids[0], ids[3]), Ok(()));
    assert_eq!(world.get_children(ids[0]), Ok(vec![ids[1]]));
    assert_eq!(world.get_children(ids[2]), Ok(vec![ids[3]]));
    assert_eq!(world.get_parent(ids[3]), Ok(Some(ids[2])));
    assert_eq!(world.detach_child(ids[1], ids[0]), Ok(()));
    assert_eq!(world.get_parent(ids[1]), Ok(Some(ids[0])));
}

#[test]
fn hierarchy_operations_refuse_dead_entities() {
    let mut world = ScriptWorld::new(World::new());
    let ids = family(&mut world, 3);
    assert_eq!(world.attach_child(ids[0], ids[1]), Ok(()));
    assert!(world.despawn(ids[2]));
    assert_eq!(world.get_children(ids[2]), Err(BridgeError::InvalidEntity));
    assert_eq!(world.get_parent(ids[2]), Err(BridgeError::InvalidEntity));
    assert_eq!(world.attach_child(ids[2], ids[1]), Err(BridgeError::InvalidEntity));
    assert_eq!(world.attach_child(ids[0], ids[2]), Err(BridgeError::InvalidEntity));
    assert_eq!(world.attach_children(ids[0], &vec![ids[1], ids[2]]), Err(BridgeError::InvalidEntity));
    assert_eq!(world.insert_child_at(ids[0], 0, ids[2]), Err(BridgeError::InvalidEntity));
    assert_eq!(world.insert_child_at(ids[2], 0, ids[1]), Err(BridgeError::InvalidEntity));
    assert_eq!(world.detach_child(ids[2], ids[1]), Err(BridgeError::InvalidEntity));
    assert_eq!(world.detach_child(ids[0], ids[2]), Err(BridgeError::InvalidEntity));
    assert_eq!(world.despawn_recursive(ids[2]), Err(BridgeError::InvalidEntity));
    assert_eq!(world.despawn_children_recursive(ids[2]), Err(BridgeError::InvalidEntity));
    assert_eq!(world.get_children(ids[0]), Ok(vec![ids[1]]));
    assert_eq!(world.get_parent(ids[1]), Ok(Some(ids[0])));
}

#[test]
fn entity_cannot_become_its_own_child() {
    let mut world = ScriptWorld::new(World::new());
    let ids = family(&mut world, 2);
    assert_eq!(world.attach_child(ids[0], ids[0]), Err(BridgeError::InvalidEntity));
    assert_eq!(world.attach_children(ids[0], &vec![ids[1], ids[0]]), Err(BridgeError::InvalidEntity));
    assert_eq!(world.insert_child_at(ids[0], 0, ids[0]), Err(BridgeError::InvalidEntity));
    assert_eq!(world.get_children(ids[0]), Ok(vec![]));
    assert_eq!(world.get_parent(ids[0]), Ok(None));
    assert_eq!(world.get_parent(ids[1]), Ok(None));
}

#[test]
fn despawn_recursive_removes_the_whole_subtree() {
    let mut world = ScriptWorld::new(World::new());
    let ids = family(&mut world, 5);
    let (parent, c1, c2, c3, bystander) = (ids[0], ids[1], ids[2], ids[3], ids[4]);
    assert_eq!(world.attach_children(parent, &vec![c1, c2]), Ok(()));
    assert_eq!(world.attach_child(c1, c3), Ok(()));
    assert_eq!(world.despawn_recursive(parent), Ok(()));
    for gone in [parent, c1, c2, c3] {
        assert!(!world.is_alive(gone));
        assert_eq!(world.get_children(gone), Err(BridgeError::InvalidEntity));
        assert_eq!(world.get_parent(gone), Err(BridgeError::InvalidEntity));
        assert!(!world.despawn(gone));
    }
    assert!(world.is_alive(bystander));
    assert_eq!(world.get_children(bystander), Ok(vec![]));
    assert_eq!(world.world().entities().len(), 1);
}

#[test]
fn despawn_recursive_clears_the_link_of_the_parent_above() {
    let mut world = ScriptWorld::new(World::new());
    let ids = family(&mut world, 5);
    assert_eq!(world.attach_children(ids[0], &vec![ids[1], ids[2]]), Ok(()));
    assert_eq!(world.attach_children(ids[1], &vec![ids[3], ids[4]]), Ok(()));
    assert_eq!(world.despawn_recursive(ids[1]), Ok(()));
    assert!(world.is_alive(ids[0]));
    assert!(world.is_alive(ids[2]));
    assert!(!world.is_alive(ids[1]));
    assert!(!world.is_alive(ids[3]));
    assert!(!world.is_alive(ids[4]));
    assert_eq!(world.get_children(ids[0]), Ok(vec![ids[2]]));
    assert_eq!(world.get_parent(ids[2]), Ok(Some(ids[0])));
}

#[test]
fn despawn_recursive_of_a_leaf_removes_only_the_leaf() {
    let mut world = ScriptWorld::new(World::new());
    let ids = family(&mut world, 3);
    assert_eq!(world.attach_children(ids[0], &vec![ids[1], ids[2]]), Ok(()));
    assert_eq!(world.despawn_recursive(ids[2]), Ok(()));
    assert_eq!(world.get_children(ids[0]), Ok(vec![ids[1]]));
    assert!(world.is_alive(ids[0]));
    assert!(world.is_alive(ids[1]));
    assert!(!world.is_alive(ids[2]));
}

#[test]
fn despawn_recursive_ends_on_a_cycle() {
    let mut world = ScriptWorld::new(World::new());
    let ids = family(&mut world, 4);
    assert_eq!(world.attach_child(ids[0], ids[1]), Ok(()));
    assert_eq!(world.attach_child(ids[1], ids[2]), Ok(()));
    // Close the loop: the root becomes a child of its grandchild.
    assert_eq!(world.attach_child(ids[2], ids[0]), Ok(()));
    assert_eq!(world.get_children(ids[2]), Ok(vec![ids[0]]));
    assert_eq!(world.despawn_recursive(ids[1]), Ok(()));
    assert!(!world.is_alive(ids[0]));
    assert!(!world.is_alive(ids[1]));
    assert!(!world.is_alive(ids[2]));
    assert!(world.is_alive(ids[3]));
}

#[test]
fn despawn_recursive_skips_links_to_dead_entities() {
    let mut world = ScriptWorld::new(World::new());
    let ids = family(&mut world, 4);
    assert_eq!(world.attach_children(ids[0], &vec![ids[1], ids[2]]), Ok(()));
    assert_eq!(world.attach_child(ids[1], ids[3]), Ok(()));
    // A plain despawn leaves the parent's list pointing at the dead child.
    assert!(world.despawn(ids[1]));
    assert_eq!(world.get_children(ids[0]), Ok(vec![ids[1], ids[2]]));
    assert_eq!(world.despawn_recursive(ids[0]), Ok(()));
    assert!(!world.is_alive(ids[0]));
    assert!(!world.is_alive(ids[2]));
    // The grandchild was reachable only through the dead child.
    assert!(world.is_alive(ids[3]));
}

#[test]
fn despawn_children_recursive_keeps_the_root() {
    let mut world = ScriptWorld::new(World::new());
    let ids = family(&mut world, 6);
    assert_eq!(world.attach_child(ids[5], ids[0]), Ok(()));
    assert_eq!(world.attach_children(ids[0], &vec![ids[1], ids[2]]), Ok(()));
    assert_eq!(world.attach_children(ids[1], &vec![ids[3], ids[4]]), Ok(()));
    assert_eq!(world.despawn_children_recursive(ids[0]), Ok(()));
    assert!(world.is_alive(ids[0]));
    assert!(world.is_alive(ids[5]));
    for gone in &ids[1..5] {
        assert!(!world.is_alive(*gone));
    }
    assert_eq!(world.get_children(ids[0]), Ok(vec![]));
    assert_eq!(world.get_parent(ids[0]), Ok(Some(ids[5])));
    assert_eq!(world.get_children(ids[5]), Ok(vec![ids[0]]));
}

#[test]
fn despawn_children_recursive_keeps_the_root_on_a_cycle() {
    let mut world = ScriptWorld::new(World::new());
    let ids = family(&mut world, 3);
    assert_eq!(world.attach_child(ids[0], ids[1]), Ok(()));
    assert_eq!(world.attach_child(ids[1], ids[0]), Ok(()));
    assert_eq!(world.despawn_children_recursive(ids[0]), Ok(()));
    assert!(world.is_alive(ids[0]));
    assert!(!world.is_alive(ids[1]));
    assert!(world.is_alive(ids[2]));
    assert_eq!(world.get_children(ids[0]), Ok(vec![]));
}

#[test]
fn despawn_children_recursive_without_children_changes_nothing() {
    let mut world = ScriptWorld::new(World::new());
    let ids = family(&mut world, 2);
    assert_eq!(world.attach_child(ids[0], ids[1]), Ok(()));
    assert_eq!(world.despawn_children_recursive(ids[1]), Ok(()));
    assert!(world.is_alive(ids[0]));
    assert!(world.is_alive(ids[1]));
    assert_eq!(world.get_children(ids[0]), Ok(vec![ids[1]]));
    assert_eq!(world.get_parent(ids[1]), Ok(Some(ids[0])));
}

#[test]
fn refused_hierarchy_operation_changes_nothing() {
    let mut world = ScriptWorld::new(World::new());
    let ids = family(&mut world, 4);
    assert_eq!(world.attach_children(ids[0], &vec![ids[1], ids[2]]), Ok(()));
    assert!(world.despawn(ids[3]));
    assert_eq!(world.attach_children(ids[1], &vec![ids[2], ids[3]]), Err(BridgeError::InvalidEntity));
    assert_eq!(world.detach_children(ids[0], &vec![ids[1], ids[3]]), Err(BridgeError::InvalidEntity));
    assert_eq!(world.get_children(ids[0]), Ok(vec![ids[1], ids[2]]));
    assert_eq!(world.get_children(ids[1]), Ok(vec![]));
    assert_eq!(world.get_parent(ids[2]), Ok(Some(ids[0])));
}
