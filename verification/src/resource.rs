//! Resources: the instances that the world itself holds, one per type.

use crate::ecs::{
    is_resource_type, raw_get_resource, raw_lookup_path, raw_remove_resource, same_links,
    same_types, world_components, world_entities, world_reserved, world_resources,
};
use crate::types::{BridgeError, DynamicValue, TypeHandle, ValueFacts};
use bevy::ecs::world::World;
use vstd::prelude::*;

verus! {

/// What `has_resource` returns.
pub open spec fn has_resource_outcome(world: World, path: Seq<char>) -> Result<bool, BridgeError> {
    if !is_resource_type(world, path) {
        Err(BridgeError::NotAResource)
    } else {
        Ok(world_resources(world).contains_key(path))
    }
}

/// What `get_resource` returns.
pub open spec fn get_resource_outcome(world: World, path: Seq<char>) -> Result<
    Option<ValueFacts>,
    BridgeError,
> {
    if !is_resource_type(world, path) {
        Err(BridgeError::NotAResource)
    } else if world_resources(world).contains_key(path) {
        Ok(Some(ValueFacts { type_path: path, text: world_resources(world)[path] }))
    } else {
        Ok(None)
    }
}

/// What `remove_resource` does to the world and returns.
pub open spec fn remove_resource_outcome(
    before: World,
    after: World,
    path: Seq<char>,
    outcome: Result<(), BridgeError>,
) -> bool {
    if !is_resource_type(before, path) {
        outcome == Err::<(), BridgeError>(BridgeError::NotAResource) && after == before
    } else {
        &&& outcome == Ok::<(), BridgeError>(())
        &&& world_resources(after) == world_resources(before).remove(path)
        &&& world_entities(after) == world_entities(before)
        &&& world_reserved(after) == world_reserved(before)
        &&& world_components(after) == world_components(before)
        &&& same_links(before, after)
        &&& same_types(before, after)
    }
}

/// Whether the registry knows the type at `path` as a resource.
fn names_resource(world: &World, path: &str) -> (known: bool)
    ensures
        known == is_resource_type(*world, path@),
{
    match raw_lookup_path(world, path) {
        Some(found) => found.is_resource(),
        None => false,
    }
}

/// A snapshot of the world's resource of the type, `None` where it holds
/// none.
///
/// Fails with `NotAResource` where the registry does not know the type as a
/// resource.
pub fn get_resource(world: &World, ty: &TypeHandle) -> (outcome: Result<
    Option<DynamicValue>,
    BridgeError,
>)
    ensures
        crate::component::value_facts(outcome) == get_resource_outcome(*world, ty@.full_path),
{
    if !names_resource(world, ty.full_path()) {
        return Err(BridgeError::NotAResource);
    }
    Ok(raw_get_resource(world, ty.full_path()))
}

/// Whether the world holds a resource of the type.
///
/// Fails with `NotAResource` where the registry does not know the type as a
/// resource.
pub fn has_resource(world: &World, ty: &TypeHandle) -> (outcome: Result<bool, BridgeError>)
    ensures
        outcome == has_resource_outcome(*world, ty@.full_path),
{
    if !names_resource(world, ty.full_path()) {
        return Err(BridgeError::NotAResource);
    }
    Ok(raw_get_resource(world, ty.full_path()).is_some())
}

/// Takes the resource of the type from the world. Where the world holds
/// none, nothing happens and the call succeeds.
///
/// Fails with `NotAResource` where the registry does not know the type as a
/// resource.
pub fn remove_resource(world: &mut World, ty: &TypeHandle) -> (outcome: Result<(), BridgeError>)
    ensures
        remove_resource_outcome(*old(world), *final(world), ty@.full_path, outcome),
{
    if !names_resource(world, ty.full_path()) {
        return Err(BridgeError::NotAResource);
    }
    raw_remove_resource(world, ty.full_path());
    Ok(())
}

} // verus!
