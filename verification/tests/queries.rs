use bevy::ecs::reflect::AppTypeRegistry;
use bevy::ecs::world::World;
use bevy::prelude::Name;
use bevy::reflect::Reflect;
use bevy::time::Time;
use bevy::transform::components::{GlobalTransform, Transform};
use script_bridge::{BridgeError, EntityId, QueryBuilder, QueryCursor, ScriptWorld, TypeHandle};

fn registered_world() -> World {
    let mut world = World::new();
    let registry = AppTypeRegistry::default();
    {
        let mut types = registry.write();
        types.register::<Transform>();
        types.register::<GlobalTransform>();
        types.register::<Name>();
        types.register::<Time>();
    }
    world.insert_resource(registry);
    world
}

fn handle(world: &ScriptWorld, name: &str) -> TypeHandle {
    world.resolve(name).expect("registered type")
}

/// e1: A+B, e2: A, e3: B, e4: A+B+C, with A = Transform, B = GlobalTransform
/// and C = Name.
fn four_entities() -> (ScriptWorld, [EntityId; 4]) {
    let mut world = ScriptWorld::new(registered_world());
    let a = handle(&world, "Transform");
    let b = handle(&world, "GlobalTransform");
    let c = handle(&world, "Name");
    let e1 = world.spawn();
    let e2 = world.spawn();
    let e3 = world.spawn();
    let e4 = world.spawn();
    for (entity, types) in [(e1, vec![&a, &b]), (e2, vec![&a]), (e3, vec![&b]), (e4, vec![&a, &b, &c])] {
        for ty in types {
            assert_eq!(world.insert_default_component(entity, ty), Ok(()));
        }
    }
    (world, [e1, e2, e3, e4])
}

fn sorted(mut ids: Vec<EntityId>) -> Vec<u64> {
    ids.sort_by_key(|id| id.to_bits());
    ids.iter().map(|id| id.to_bits()).collect()
}

#[test]
fn query_returns_entities_with_all_required_components() {
    let (world, [e1, _e2, _e3, e4]) = four_entities();
    let mut builder = QueryBuilder::new();
    builder.with(&vec![handle(&world, "Transform"), handle(&world, "GlobalTransform")]);
    let rows = builder.build(world.world()).expect("filter is sound");
    assert_eq!(rows.len(), 2);
    let found: Vec<EntityId> = rows.iter().map(|row| row.entity()).collect();
    assert_eq!(sorted(found), sorted(vec![e1, e4]));
    let transform: &dyn Reflect = &Transform::default();
    let global: &dyn Reflect = &GlobalTransform::default();
    for row in &rows {
        assert_eq!(row.len(), 2);
        let first = row.value(0).expect("first value");
        let second = row.value(1).expect("second value");
        assert_eq!(first.type_path(), "bevy_transform::components::transform::Transform");
        assert_eq!(first.text(), format!("{:?}", transform));
        assert_eq!(
            second.type_path(),
            "bevy_transform::components::global_transform::GlobalTransform"
        );
        assert_eq!(second.text(), format!("{:?}", global));
        assert!(row.value(2).is_none());
    }
}

#[test]
fn query_values_follow_the_declared_order() {
    let (world, _) = four_entities();
    let mut builder = QueryBuilder::new();
    builder.with(&vec![handle(&world, "GlobalTransform")]);
    builder.with(&vec![handle(&world, "Transform")]);
    let rows = world.query(&builder).expect("filter is sound");
    assert_eq!(rows.len(), 2);
    for row in &rows {
        assert_eq!(
            row.value(0).expect("first value").type_path(),
            "bevy_transform::components::global_transform::GlobalTransform"
        );
        assert_eq!(
            row.value(1).expect("second value").type_path(),
            "bevy_transform::components::transform::Transform"
        );
    }
}

#[test]
fn query_excludes_entities_with_excluded_components() {
    let (world, [_e1, e2, e3, _e4]) = four_entities();
    let mut only_a = QueryBuilder::new();
    only_a.with(&vec![handle(&world, "Transform")]);
    only_a.without(&vec![handle(&world, "GlobalTransform")]);
    let rows = world.query(&only_a).expect("filter is sound");
    assert_eq!(rows.iter().map(|row| row.entity()).collect::<Vec<_>>(), vec![e2]);

    let mut no_a = QueryBuilder::new();
    no_a.without(&vec![handle(&world, "Transform")]);
    let rows = world.query(&no_a).expect("filter is sound");
    assert_eq!(rows.iter().map(|row| row.entity()).collect::<Vec<_>>(), vec![e3]);
    assert_eq!(rows[0].len(), 0);
}

#[test]
fn query_without_filter_returns_every_entity() {
    let (world, ids) = four_entities();
    let rows = world.query(&QueryBuilder::new()).expect("filter is sound");
    let found: Vec<EntityId> = rows.iter().map(|row| row.entity()).collect();
    assert_eq!(sorted(found), sorted(ids.to_vec()));
    assert!(rows.iter().all(|row| row.len() == 0));
}

#[test]
fn query_on_empty_world_returns_nothing() {
    let world = ScriptWorld::new(registered_world());
    let mut builder = QueryBuilder::new();
    builder.with(&vec![handle(&world, "Transform")]);
    assert_eq!(world.query(&builder).expect("filter is sound").len(), 0);
}

#[test]
fn query_with_type_required_and_excluded_is_ambiguous() {
    let (mut world, ids) = four_entities();
    let mut builder = QueryBuilder::new();
    builder.with(&vec![handle(&world, "Transform"), handle(&world, "Name")]);
    builder.without(&vec![handle(&world, "GlobalTransform"), handle(&world, "Transform")]);
    assert_eq!(world.query(&builder).err(), Some(BridgeError::AmbiguousFilter));
    assert_eq!(builder.iter(world.world()).err(), Some(BridgeError::AmbiguousFilter));
    for entity in ids {
        assert!(world.is_alive(entity));
    }
    let transform = handle(&world, "Transform");
    assert_eq!(world.has_component(ids[0], &transform), Ok(true));
    assert_eq!(world.has_component(ids[2], &transform), Ok(false));
    assert!(world.despawn(ids[0]));
}

#[test]
fn ambiguity_is_found_by_type_not_by_name() {
    let (world, _) = four_entities();
    let mut builder = QueryBuilder::new();
    builder.with(&vec![handle(&world, "Transform")]);
    builder.without(&vec![handle(&world, "bevy_transform::components::transform::Transform")]);
    assert_eq!(world.query(&builder).err(), Some(BridgeError::AmbiguousFilter));
}

#[test]
fn ambiguity_is_reported_before_an_unknown_component() {
    let (world, _) = four_entities();
    let time = handle(&world, "Time<()>");
    let mut builder = QueryBuilder::new();
    builder.with(&vec![time.clone(), handle(&world, "Transform")]);
    builder.without(&vec![handle(&world, "Transform")]);
    assert_eq!(world.query(&builder).err(), Some(BridgeError::AmbiguousFilter));
}

#[test]
fn query_refuses_a_type_that_is_no_component() {
    let (world, _) = four_entities();
    let time = handle(&world, "Time<()>");
    let mut required = QueryBuilder::new();
    required.with(&vec![handle(&world, "Transform"), time.clone()]);
    assert_eq!(world.query(&required).err(), Some(BridgeError::NotAComponent));
    let mut excluded = QueryBuilder::new();
    excluded.without(&vec![time]);
    assert_eq!(world.query(&excluded).err(), Some(BridgeError::NotAComponent));
}

#[test]
fn naming_a_type_twice_requires_it_once() {
    let (world, _) = four_entities();
    let mut builder = QueryBuilder::new();
    builder.with(&vec![handle(&world, "Transform"), handle(&world, "Transform")]);
    builder.with(&vec![handle(&world, "GlobalTransform"), handle(&world, "Transform")]);
    let rows = world.query(&builder).expect("filter is sound");
    assert_eq!(rows.len(), 2);
    for row in &rows {
        assert_eq!(row.len(), 2);
        assert_eq!(
            row.value(0).expect("first value").type_path(),
            "bevy_transform::components::transform::Transform"
        );
    }
}

#[test]
fn cursor_steps_through_rows_and_then_reports_the_end() {
    let (world, [e1, _e2, _e3, e4]) = four_entities();
    let mut builder = QueryBuilder::new();
    builder.with(&vec![handle(&world, "Transform"), handle(&world, "GlobalTransform")]);
    let mut cursor = builder.iter(world.world()).expect("filter is sound");
    assert_eq!(cursor.len(), 2);
    let first = cursor.step().expect("first row");
    let second = cursor.step().expect("second row");
    assert_eq!(sorted(vec![first.entity(), second.entity()]), sorted(vec![e1, e4]));
    assert_eq!(first.len(), 2);
    for _ in 0..100 {
        assert!(cursor.step().is_none());
    }
    assert_eq!(cursor.len(), 2);
}

#[test]
fn cursor_over_no_rows_is_exhausted_at_once() {
    let mut cursor = QueryCursor::new(Vec::new());
    assert_eq!(cursor.len(), 0);
    assert!(cursor.step().is_none());
    assert!(cursor.step().is_none());
    cursor.restart();
    assert!(cursor.step().is_none());
}

#[test]
fn cursor_can_be_restarted() {
    let (world, _) = four_entities();
    let mut builder = QueryBuilder::new();
    builder.with(&vec![handle(&world, "Transform")]);
    let mut cursor = builder.iter(world.world()).expect("filter is sound");
    let mut first_pass = Vec::new();
    while let Some(row) = cursor.step() {
        first_pass.push(row.entity());
    }
    assert_eq!(first_pass.len(), 3);
    assert!(cursor.step().is_none());
    cursor.restart();
    let mut second_pass = Vec::new();
    while let Some(row) = cursor.step() {
        second_pass.push(row.entity());
    }
    assert_eq!(first_pass, second_pass);
}

#[test]
fn cursor_order_matches_build_order() {
    let (world, _) = four_entities();
    let mut builder = QueryBuilder::new();
    builder.with(&vec![handle(&world, "GlobalTransform")]);
    let rows = world.query(&builder).expect("filter is sound");
    let mut cursor = QueryCursor::new(rows.iter().map(|row| row.clone()).collect());
    for row in &rows {
        let stepped = cursor.step().expect("row");
        assert_eq!(stepped.entity(), row.entity());
        assert_eq!(stepped.len(), row.len());
    }
    assert!(cursor.step().is_none());
}

#[test]
fn query_result_is_a_snapshot() {
    let (mut world, [e1, _e2, _e3, e4]) = four_entities();
    let transform = handle(&world, "Transform");
    let mut builder = QueryBuilder::new();
    builder.with(&vec![transform.clone(), handle(&world, "GlobalTransform")]);
    let mut cursor = builder.iter(world.world()).expect("filter is sound");
    assert!(world.despawn(e1));
    assert_eq!(world.remove_component(e4, &transform), Ok(()));
    let rendering: &dyn Reflect = &Transform::default();
    let mut seen = Vec::new();
    while let Some(row) = cursor.step() {
        assert_eq!(row.value(0).expect("first value").text(), format!("{:?}", rendering));
        seen.push(row.entity());
    }
    assert_eq!(sorted(seen), sorted(vec![e1, e4]));
    assert_eq!(world.query(&builder).expect("filter is sound").len(), 0);
}

#[test]
fn query_carries_the_values_of_each_entity() {
    let mut raw = registered_world();
    let left = raw.spawn((Transform::from_xyz(1.0, 0.0, 0.0), Name::new("left"))).id();
    let right = raw.spawn((Transform::from_xyz(2.0, 0.0, 0.0), Name::new("right"))).id();
    let world = ScriptWorld::new(raw);
    let mut builder = QueryBuilder::new();
    builder.with(&vec![handle(&world, "Name"), handle(&world, "Transform")]);
    let rows = world.query(&builder).expect("filter is sound");
    assert_eq!(rows.len(), 2);
    for row in &rows {
        let (name, place): (&dyn Reflect, &dyn Reflect) = if row.entity().to_bits() == left.to_bits() {
            (&Name::new("left"), &Transform::from_xyz(1.0, 0.0, 0.0))
        } else {
            assert_eq!(row.entity().to_bits(), right.to_bits());
            (&Name::new("right"), &Transform::from_xyz(2.0, 0.0, 0.0))
        };
        assert_eq!(row.value(0).expect("name").text(), format!("{:?}", name));
        assert_eq!(row.value(1).expect("transform").text(), format!("{:?}", place));
    }
}
