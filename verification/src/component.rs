//! Components of one entity, reached by type handle.
//!
//! Every operation first makes sure that the handle names a type that the
//! world's registry knows as a component, then that the entity is alive.
//! Only then does it touch storage.

use crate::ecs::{
    is_component_type, is_default_type, links_without_component, raw_get_component,
    raw_has_component, raw_insert_default, raw_is_alive, raw_lookup_path, raw_rebuilds_default,
    raw_remove_component, same_links, same_types, world_components, world_entities,
    world_rebuildable, world_reserved, world_resources,
};
use crate::types::{BridgeError, DynamicValue, EntityId, TypeHandle, ValueFacts};
use bevy::ecs::world::World;
use vstd::prelude::*;

verus! {

/// Why a component operation on `entity` and the type at `path` is refused,
/// if it is.
pub open spec fn component_refusal(world: World, entity: EntityId, path: Seq<char>) -> Option<
    BridgeError,
> {
    if !is_component_type(world, path) {
        Some(BridgeError::NotAComponent)
    } else if !world_entities(world).contains(entity) {
        Some(BridgeError::InvalidEntity)
    } else {
        None
    }
}

/// What `has` returns.
pub open spec fn has_outcome(world: World, entity: EntityId, path: Seq<char>) -> Result<
    bool,
    BridgeError,
> {
    match component_refusal(world, entity, path) {
        Some(error) => Err(error),
        None => Ok(world_components(world).contains_key((entity, path))),
    }
}

/// What `get` returns.
pub open spec fn get_outcome(world: World, entity: EntityId, path: Seq<char>) -> Result<
    Option<ValueFacts>,
    BridgeError,
> {
    match component_refusal(world, entity, path) {
        Some(error) => Err(error),
        None => if world_components(world).contains_key((entity, path)) {
            Ok(Some(ValueFacts { type_path: path, text: world_components(world)[(entity, path)] }))
        } else {
            Ok(None)
        },
    }
}

/// The model of what `get` handed out.
pub open spec fn value_facts(outcome: Result<Option<DynamicValue>, BridgeError>) -> Result<
    Option<ValueFacts>,
    BridgeError,
> {
    match outcome {
        Ok(Some(value)) => Ok(Some(value@)),
        Ok(None) => Ok(None),
        Err(error) => Err(error),
    }
}

/// Both worlds hold the same entities, components, resources, links and
/// registrations.
pub open spec fn same_state(before: World, after: World) -> bool {
    &&& world_entities(after) == world_entities(before)
    &&& world_reserved(after) == world_reserved(before)
    &&& world_components(after) == world_components(before)
    &&& world_resources(after) == world_resources(before)
    &&& same_links(before, after)
    &&& same_types(before, after)
}

/// `after` is `before` with a fresh component of the type at `path` on
/// `entity`, in place of any that it held, and nothing else changed.
pub open spec fn default_inserted(
    before: World,
    after: World,
    entity: EntityId,
    path: Seq<char>,
) -> bool {
    &&& world_components(after).contains_key((entity, path))
    &&& world_components(after).remove((entity, path)) == world_components(before).remove(
        (entity, path),
    )
    &&& world_entities(after) == world_entities(before)
    &&& world_reserved(after) == world_reserved(before)
    &&& world_resources(after) == world_resources(before)
    &&& same_links(before, after)
    &&& same_types(before, after)
}

/// The registry can make a component of the type at `path` out of
/// nothing: it has a default constructor for the type, and its conversion
/// from reflected values accepts what the constructor makes.
pub open spec fn default_constructible(world: World, path: Seq<char>) -> bool {
    is_default_type(world, path) && world_rebuildable(world).contains(path)
}

/// What `insert_default` does to the world and returns.
pub open spec fn insert_default_outcome(
    before: World,
    after: World,
    entity: EntityId,
    path: Seq<char>,
    outcome: Result<(), BridgeError>,
) -> bool {
    match component_refusal(before, entity, path) {
        Some(error) => outcome == Err::<(), BridgeError>(error) && after == before,
        None => if !default_constructible(before, path) {
            outcome == Err::<(), BridgeError>(BridgeError::NotDefaultConstructible) && after
                == before
        } else {
            outcome == Ok::<(), BridgeError>(()) && default_inserted(before, after, entity, path)
        },
    }
}

/// What `remove` does to the world and returns.
pub open spec fn remove_outcome(
    before: World,
    after: World,
    entity: EntityId,
    path: Seq<char>,
    outcome: Result<(), BridgeError>,
) -> bool {
    match component_refusal(before, entity, path) {
        Some(error) => outcome == Err::<(), BridgeError>(error) && after == before,
        None => {
            &&& outcome == Ok::<(), BridgeError>(())
            &&& world_components(after) == world_components(before).remove((entity, path))
            &&& world_entities(after) == world_entities(before)
            &&& world_reserved(after) == world_reserved(before)
            &&& world_resources(after) == world_resources(before)
            &&& same_types(before, after)
            &&& links_without_component(before, after, entity, path)
            &&& !world_components(before).contains_key((entity, path)) ==> same_links(
                before,
                after,
            )
        },
    }
}

/// Checks the type, then the entity.
fn refusal(world: &World, entity: EntityId, path: &str) -> (refused: Option<BridgeError>)
    ensures
        refused == component_refusal(*world, entity, path@),
{
    match raw_lookup_path(world, path) {
        Some(found) => {
            if !found.is_component() {
                return Some(BridgeError::NotAComponent);
            }
        },
        None => {
            return Some(BridgeError::NotAComponent);
        },
    }
    if !raw_is_alive(world, entity) {
        return Some(BridgeError::InvalidEntity);
    }
    None
}

/// Whether the entity holds a component of the type.
///
/// Fails with `NotAComponent` where the registry does not know the type as
/// a component, else with `InvalidEntity` where the entity is dead. A
/// missing component is no error.
pub fn has(world: &World, entity: EntityId, ty: &TypeHandle) -> (outcome: Result<bool, BridgeError>)
    ensures
        outcome == has_outcome(*world, entity, ty@.full_path),
{
    match refusal(world, entity, ty.full_path()) {
        Some(error) => Err(error),
        None => Ok(raw_has_component(world, entity, ty.full_path())),
    }
}

/// A snapshot of the entity's component of the type, `None` where it holds
/// none.
///
/// Fails with `NotAComponent` where the registry does not know the type as
/// a component, else with `InvalidEntity` where the entity is dead.
pub fn get(world: &World, entity: EntityId, ty: &TypeHandle) -> (outcome: Result<
    Option<DynamicValue>,
    BridgeError,
>)
    ensures
        value_facts(outcome) == get_outcome(*world, entity, ty@.full_path),
{
    match refusal(world, entity, ty.full_path()) {
        Some(error) => Err(error),
        None => Ok(raw_get_component(world, entity, ty.full_path())),
    }
}

/// Gives the entity a default-constructed component of the type, in place
/// of any that it holds.
///
/// Fails with `NotAComponent` where the registry does not know the type as
/// a component, else with `InvalidEntity` where the entity is dead, else
/// with `NotDefaultConstructible` where the registry has no default
/// constructor for the type or its conversion from reflected values does
/// not accept what the constructor makes. On every other input the
/// component is inserted. A failure changes nothing.
pub fn insert_default(world: &mut World, entity: EntityId, ty: &TypeHandle) -> (outcome: Result<
    (),
    BridgeError,
>)
    ensures
        insert_default_outcome(*old(world), *final(world), entity, ty@.full_path, outcome),
{
    match refusal(world, entity, ty.full_path()) {
        Some(error) => {
            return Err(error);
        },
        None => {},
    }
    match raw_lookup_path(world, ty.full_path()) {
        Some(found) => {
            if !found.has_default() {
                return Err(BridgeError::NotDefaultConstructible);
            }
        },
        None => {
            return Err(BridgeError::NotDefaultConstructible);
        },
    }
    if !raw_rebuilds_default(world, ty.full_path()) {
        return Err(BridgeError::NotDefaultConstructible);
    }
    raw_insert_default(world, entity, ty.full_path());
    Ok(())
}

/// Takes the component of the type from the entity. Where the entity holds
/// none, nothing happens and the call succeeds.
///
/// The child list and the parent link are components too. Taking one of
/// them takes the entity's own entry out of the hierarchy and leaves the
/// other side of each link as it is; [`crate::hierarchy`] has the
/// operations that change both sides.
///
/// Fails with `NotAComponent` where the registry does not know the type as
/// a component, else with `InvalidEntity` where the entity is dead.
pub fn remove(world: &mut World, entity: EntityId, ty: &TypeHandle) -> (outcome: Result<
    (),
    BridgeError,
>)
    ensures
        remove_outcome(*old(world), *final(world), entity, ty@.full_path, outcome),
{
    match refusal(world, entity, ty.full_path()) {
        Some(error) => {
            return Err(error);
        },
        None => {},
    }
    raw_remove_component(world, entity, ty.full_path());
    Ok(())
}

/// After a successful `insert_default` the entity has the component, and
/// `get` hands out a value of that type.
pub proof fn law_inserted_component_is_present(
    before: World,
    after: World,
    entity: EntityId,
    path: Seq<char>,
)
    requires
        insert_default_outcome(before, after, entity, path, Ok(())),
    ensures
        has_outcome(after, entity, path) == Ok::<bool, BridgeError>(true),
        get_outcome(after, entity, path) matches Ok(Some(value)) && value.type_path == path,
{
}

/// After a successful `remove` the entity does not have the component, and
/// `get` hands out nothing.
pub proof fn law_removed_component_is_absent(
    before: World,
    after: World,
    entity: EntityId,
    path: Seq<char>,
)
    requires
        remove_outcome(before, after, entity, path, Ok(())),
    ensures
        has_outcome(after, entity, path) == Ok::<bool, BridgeError>(false),
        get_outcome(after, entity, path) == Ok::<Option<ValueFacts>, BridgeError>(None),
{
}

/// `remove` on a live entity that lacks the component succeeds and leaves
/// the world as it was.
pub proof fn law_remove_absent_changes_nothing(
    before: World,
    after: World,
    entity: EntityId,
    path: Seq<char>,
    outcome: Result<(), BridgeError>,
)
    requires
        remove_outcome(before, after, entity, path, outcome),
        component_refusal(before, entity, path) is None,
        !world_components(before).contains_key((entity, path)),
    ensures
        outcome == Ok::<(), BridgeError>(()),
        same_state(before, after),
{
    assert(world_components(before).remove((entity, path)) =~= world_components(before));
}

/// `remove` is idempotent: a second call in a row returns what the first
/// returned and leaves the world as the first left it.
pub proof fn law_remove_twice_is_remove_once(
    before: World,
    once: World,
    twice: World,
    entity: EntityId,
    path: Seq<char>,
    first: Result<(), BridgeError>,
    second: Result<(), BridgeError>,
)
    requires
        remove_outcome(before, once, entity, path, first),
        remove_outcome(once, twice, entity, path, second),
    ensures
        second == first,
        same_state(once, twice),
{
    if component_refusal(before, entity, path) is None {
        assert(world_components(once).remove((entity, path)) =~= world_components(once));
    }
}

} // verus!
