//! Resolution of type names.

use crate::ecs::{raw_lookup_path, raw_lookup_short, world_types_by_path, world_types_by_short};
use crate::types::{TypeFacts, TypeHandle};
use bevy::ecs::world::World;
use vstd::prelude::*;

verus! {

/// The type that `name` denotes, given the registry's two indexes: the
/// short name is tried first, the full path second.
pub open spec fn resolved(
    by_short: Map<Seq<char>, TypeFacts>,
    by_path: Map<Seq<char>, TypeFacts>,
    name: Seq<char>,
) -> Option<TypeFacts> {
    if by_short.contains_key(name) {
        Some(by_short[name])
    } else if by_path.contains_key(name) {
        Some(by_path[name])
    } else {
        None
    }
}

/// The model of what a lookup found.
pub open spec fn found_facts(found: Option<TypeHandle>) -> Option<TypeFacts> {
    match found {
        Some(handle) => Some(handle@),
        None => None,
    }
}

/// Resolves a type name, short (`Transform`) or fully qualified
/// (`my_module::Transform`), against the world's registry.
///
/// A name that denotes no registered type gives `None`: an unknown type is
/// an absence, not a failure. A short name that several registered types
/// share denotes none of them. The world is only read.
pub fn resolve(world: &World, name: &str) -> (found: Option<TypeHandle>)
    ensures
        found_facts(found) == resolved(
            world_types_by_short(*world),
            world_types_by_path(*world),
            name@,
        ),
{
    match raw_lookup_short(world, name) {
        Some(handle) => Some(handle),
        None => raw_lookup_path(world, name),
    }
}

/// A registered type is found under its short name and under its full path,
/// provided that the short name is its alone and that its full path is not
/// the short name of another type.
pub proof fn law_registered_type_resolves(
    by_short: Map<Seq<char>, TypeFacts>,
    by_path: Map<Seq<char>, TypeFacts>,
    facts: TypeFacts,
)
    requires
        by_path.contains_key(facts.full_path) && by_path[facts.full_path] == facts,
        by_short.contains_key(facts.short_name) && by_short[facts.short_name] == facts,
        by_short.contains_key(facts.full_path) ==> by_short[facts.full_path] == facts,
    ensures
        resolved(by_short, by_path, facts.short_name) == Some(facts),
        resolved(by_short, by_path, facts.full_path) == Some(facts),
{
}

} // verus!
