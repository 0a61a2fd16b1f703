//! The boundary to the entity-component-system runtime.
//!
//! Everything in this module is believed, not proved. The runtime's `World`
//! is opaque to the verifier; the functions named `world_*` stand for what it
//! holds, and each wrapper states over them what the runtime's source and
//! documentation say of the one call that the wrapper makes. The rest of the
//! library is proved against these statements.
//!
//! Entities are modelled by their 64-bit handles, types by their full type
//! paths, and component and resource instances by the text that the
//! reflection layer's `Debug` rendering gives for them.
//!
//! A world may hold ids that were reserved through a shared reference and
//! are not entities yet. Spawning and despawning bring them to life first;
//! the statements on those two calls say so, and nothing else here touches
//! them.
//!
//! Two things are taken for granted. The registry that the world holds is
//! shared behind a lock of its own: nobody registers types while a call of
//! this library runs. And the reflection data of a registered type does
//! what the runtime documents for it, as the data that the runtime derives
//! does; a type registered with hand-written data that inserts, removes or
//! reports something else is outside these statements.

use crate::types::{DynamicValue, EntityId, TypeFacts, TypeHandle, ValueFacts};
use bevy::ecs::entity::Entity;
use bevy::ecs::reflect::{AppTypeRegistry, ReflectComponent, ReflectResource};
use bevy::ecs::world::World;
use bevy::hierarchy::{BuildWorldChildren, Children, Parent};
use bevy::reflect::std_traits::ReflectDefault;
use bevy::reflect::ReflectFromReflect;
use vstd::prelude::*;

verus! {

/// Makes the runtime's world known as a type. Nothing is said of what is
/// inside it.
#[verifier::external_type_specification]
#[verifier::external_body]
pub struct ExWorld(World);

/// The live entities in the order in which the world's storage hands them
/// out. The order is a property of the storage and changes with it.
pub uninterp spec fn world_iteration(world: World) -> Seq<EntityId>;

/// The entities that are alive in the world.
pub open spec fn world_entities(world: World) -> Set<EntityId> {
    world_iteration(world).to_set()
}

/// The ids that were reserved through a shared reference and are not alive
/// yet. The next spawn or despawn makes each of them a live entity without
/// components.
pub uninterp spec fn world_reserved(world: World) -> Set<EntityId>;

/// The entities that are alive once the reserved ids have come to life.
pub open spec fn settled_entities(world: World) -> Set<EntityId> {
    world_entities(world).union(world_reserved(world))
}

/// None of `ids` holds a component, a child list or a parent link.
pub open spec fn bare(world: World, ids: Set<EntityId>) -> bool {
    forall|entity: EntityId| #[trigger]
        ids.contains(entity) ==> {
            &&& forall|path: Seq<char>|
                !#[trigger] world_components(world).contains_key((entity, path))
            &&& !world_children(world).contains_key(entity)
            &&& !world_parents(world).contains_key(entity)
        }
}

/// The components that entities hold, among the types that the world's
/// registry knows as components: entity and full type path to the rendering
/// of the instance.
pub uninterp spec fn world_components(world: World) -> Map<(EntityId, Seq<char>), Seq<char>>;

/// The resources that the world holds, among the types that its registry
/// knows as resources: full type path to the rendering of the instance.
pub uninterp spec fn world_resources(world: World) -> Map<Seq<char>, Seq<char>>;

/// The child lists: an entity that has a `Children` component to the list
/// in it.
pub uninterp spec fn world_children(world: World) -> Map<EntityId, Seq<EntityId>>;

/// The parent links: an entity that has a `Parent` component to the entity
/// named in it.
pub uninterp spec fn world_parents(world: World) -> Map<EntityId, EntityId>;

/// The registry's index by short name: a short type path that exactly one
/// registered type has, to that type. Empty where the world holds no registry.
pub uninterp spec fn world_types_by_short(world: World) -> Map<Seq<char>, TypeFacts>;

/// The registry's index by full type path. Empty where the world holds no
/// registry.
pub uninterp spec fn world_types_by_path(world: World) -> Map<Seq<char>, TypeFacts>;

/// The default-constructible types whose default instance the registry's
/// conversion from reflected values accepts: full type paths. A type
/// without such a conversion is not among them. Empty where the world
/// holds no registry.
pub uninterp spec fn world_rebuildable(world: World) -> Set<Seq<char>>;

/// The registry knows `path` as a component type.
pub open spec fn is_component_type(world: World, path: Seq<char>) -> bool {
    world_types_by_path(world).contains_key(path) && world_types_by_path(world)[path].is_component
}

/// The registry knows `path` as a resource type.
pub open spec fn is_resource_type(world: World, path: Seq<char>) -> bool {
    world_types_by_path(world).contains_key(path) && world_types_by_path(world)[path].is_resource
}

/// The registry can construct a default instance of the type at `path`.
pub open spec fn is_default_type(world: World, path: Seq<char>) -> bool {
    world_types_by_path(world).contains_key(path) && world_types_by_path(world)[path].has_default
}

/// The component type in which the runtime keeps an entity's child list.
pub open spec fn is_children_path(path: Seq<char>) -> bool {
    path == "bevy_hierarchy::components::children::Children"@
}

/// The component type in which the runtime keeps an entity's parent link.
pub open spec fn is_parent_path(path: Seq<char>) -> bool {
    path == "bevy_hierarchy::components::parent::Parent"@
}

/// The two component types in which the runtime keeps the hierarchy.
pub open spec fn is_link_path(path: Seq<char>) -> bool {
    is_children_path(path) || is_parent_path(path)
}

/// The hierarchy of `after` is that of `before` once `entity` has lost its
/// component of the type at `path`: where that type is the child list or
/// the parent link, the entity's entry has left it; any other type leaves
/// the hierarchy alone.
pub open spec fn links_without_component(
    before: World,
    after: World,
    entity: EntityId,
    path: Seq<char>,
) -> bool {
    &&& world_children(after) == if is_children_path(path) {
        world_children(before).remove(entity)
    } else {
        world_children(before)
    }
    &&& world_parents(after) == if is_parent_path(path) {
        world_parents(before).remove(entity)
    } else {
        world_parents(before)
    }
}

/// The children of `entity`, in order; empty where it has none.
pub open spec fn children_seq(world: World, entity: EntityId) -> Seq<EntityId> {
    if world_children(world).contains_key(entity) {
        world_children(world)[entity]
    } else {
        Seq::empty()
    }
}

/// The parent of `entity`, if it has one.
pub open spec fn parent_opt(world: World, entity: EntityId) -> Option<EntityId> {
    if world_parents(world).contains_key(entity) {
        Some(world_parents(world)[entity])
    } else {
        None
    }
}

/// Both worlds have the same registry contents.
pub open spec fn same_types(before: World, after: World) -> bool {
    &&& world_types_by_short(after) == world_types_by_short(before)
    &&& world_types_by_path(after) == world_types_by_path(before)
    &&& world_rebuildable(after) == world_rebuildable(before)
}

/// Both worlds have the same hierarchy.
pub open spec fn same_links(before: World, after: World) -> bool {
    &&& world_children(after) == world_children(before)
    &&& world_parents(after) == world_parents(before)
}

/// Both worlds agree on everything but the hierarchy and the two component
/// types that carry it.
pub open spec fn same_data(before: World, after: World) -> bool {
    &&& world_entities(after) == world_entities(before)
    &&& world_reserved(after) == world_reserved(before)
    &&& world_resources(after) == world_resources(before)
    &&& same_types(before, after)
    &&& forall|key: (EntityId, Seq<char>)|
        !is_link_path(key.1) ==> {
            &&& world_components(after).contains_key(key) == #[trigger] world_components(
                before,
            ).contains_key(key)
            &&& world_components(before).contains_key(key) ==> world_components(after)[key]
                == world_components(before)[key]
        }
}

/// The components of `before` without those of `entity`.
pub open spec fn components_without(
    components: Map<(EntityId, Seq<char>), Seq<char>>,
    entity: EntityId,
) -> Map<(EntityId, Seq<char>), Seq<char>> {
    Map::new(
        |key: (EntityId, Seq<char>)| components.contains_key(key) && key.0 != entity,
        |key: (EntityId, Seq<char>)| components[key],
    )
}

/// `list` with `added` put in at `index`.
pub open spec fn spliced(list: Seq<EntityId>, index: int, added: Seq<EntityId>) -> Seq<EntityId> {
    list.subrange(0, index) + added + list.subrange(index, list.len() as int)
}

/// What remains of `list` when the members of `taken` leave it.
pub open spec fn without_members(list: Seq<EntityId>, taken: Seq<EntityId>) -> Seq<EntityId> {
    list.filter(|child: EntityId| !taken.contains(child))
}

/// The hierarchy of `after` is that of `before` with `added` made children
/// of `parent`, at `index` of what remains of its list once the members of
/// `added` have left it. Each member of `added` leaves the list of its
/// former parent.
pub open spec fn adopted(
    before: World,
    after: World,
    parent: EntityId,
    index: int,
    added: Seq<EntityId>,
) -> bool {
    &&& forall|entity: EntityId| #[trigger]
        children_seq(after, entity) == if entity == parent {
            spliced(without_members(children_seq(before, parent), added), index, added)
        } else {
            children_seq(before, entity).filter(
                |child: EntityId|
                    !(added.contains(child) && parent_opt(before, child) == Some(entity)),
            )
        }
    &&& forall|child: EntityId| #[trigger]
        parent_opt(after, child) == if added.contains(child) {
            Some(parent)
        } else {
            parent_opt(before, child)
        }
}

/// The hierarchy of `after` is that of `before` with the members of `taken`
/// removed from the list of `parent`. Those that were in the list lose
/// their parent link.
pub open spec fn released(
    before: World,
    after: World,
    parent: EntityId,
    taken: Seq<EntityId>,
) -> bool {
    &&& forall|entity: EntityId| #[trigger]
        children_seq(after, entity) == if entity == parent {
            without_members(children_seq(before, parent), taken)
        } else {
            children_seq(before, entity)
        }
    &&& forall|child: EntityId| #[trigger]
        parent_opt(after, child) == if taken.contains(child) && children_seq(
            before,
            parent,
        ).contains(child) {
            None
        } else {
            parent_opt(before, child)
        }
}

/// `World::get_entity`, after `Entity::try_from_bits`: whether the handle
/// resolves to a live entity. Bits that are no entity handle resolve to none.
#[verifier::external_body]
pub(crate) fn raw_is_alive(world: &World, entity: EntityId) -> (alive: bool)
    ensures
        alive == world_entities(*world).contains(entity),
{
    match Entity::try_from_bits(entity.bits) {
        Ok(found) => world.get_entity(found).is_some(),
        Err(_) => false,
    }
}

/// `World::spawn_empty`: the reserved ids come to life, then a new entity
/// without components is made. Its handle is that of no entity that is
/// alive or reserved. Nothing is reserved afterwards; the new entity and the
/// former reserved ids hold no component and no link, and nothing else in
/// the world changes.
#[verifier::external_body]
pub(crate) fn raw_spawn(world: &mut World) -> (entity: EntityId)
    ensures
        !settled_entities(*old(world)).contains(entity),
        world_entities(*final(world)) == settled_entities(*old(world)).insert(entity),
        world_reserved(*final(world)) == Set::<EntityId>::empty(),
        bare(*final(world), world_reserved(*old(world)).insert(entity)),
        world_components(*final(world)) == world_components(*old(world)),
        world_resources(*final(world)) == world_resources(*old(world)),
        same_links(*old(world), *final(world)),
        same_types(*old(world), *final(world)),
{
    EntityId { bits: world.spawn_empty().id().to_bits() }
}

/// `World::despawn` on a live entity: the reserved ids come to life, then
/// the entity leaves the world together with its components, among them
/// its own parent link and child list. Nothing is reserved afterwards, and
/// the former reserved ids hold no component and no link. Links that other
/// entities hold to the despawned one stay as they are.
#[verifier::external_body]
pub(crate) fn raw_despawn(world: &mut World, entity: EntityId) -> (removed: bool)
    requires
        world_entities(*old(world)).contains(entity),
    ensures
        removed,
        world_entities(*final(world)) == settled_entities(*old(world)).remove(entity),
        world_reserved(*final(world)) == Set::<EntityId>::empty(),
        bare(*final(world), world_reserved(*old(world))),
        world_components(*final(world)) == components_without(
            world_components(*old(world)),
            entity,
        ),
        world_resources(*final(world)) == world_resources(*old(world)),
        world_children(*final(world)) == world_children(*old(world)).remove(entity),
        world_parents(*final(world)) == world_parents(*old(world)).remove(entity),
        same_types(*old(world), *final(world)),
{
    world.despawn(Entity::from_bits(entity.bits))
}

/// `World::iter_entities`: every live entity once, in storage order.
#[verifier::external_body]
pub(crate) fn raw_entity_ids(world: &World) -> (ids: Vec<EntityId>)
    ensures
        ids@ == world_iteration(*world),
        ids@.no_duplicates(),
{
    world.iter_entities().map(|entity| EntityId { bits: entity.id().to_bits() }).collect()
}

/// `TypeRegistry::get_with_short_type_path` on the registry that the world
/// holds as a resource: the type that alone has this short path.
#[verifier::external_body]
pub(crate) fn raw_lookup_short(world: &World, name: &str) -> (found: Option<TypeHandle>)
    ensures
        found is Some <==> world_types_by_short(*world).contains_key(name@),
        found matches Some(handle) ==> handle@ == world_types_by_short(*world)[name@],
{
    let registry = world.get_resource::<AppTypeRegistry>()?.read();
    let registration = registry.get_with_short_type_path(name)?;
    Some(TypeHandle {
        short_name: registration.type_info().type_path_table().short_path().to_string(),
        full_path: registration.type_info().type_path().to_string(),
        is_component: registration.data::<ReflectComponent>().is_some(),
        is_resource: registration.data::<ReflectResource>().is_some(),
        has_default: registration.data::<ReflectDefault>().is_some(),
    })
}

/// `TypeRegistry::get_with_type_path` on the registry that the world holds
/// as a resource: the type registered under this full path. The handle
/// carries the path under which it was found.
#[verifier::external_body]
pub(crate) fn raw_lookup_path(world: &World, path: &str) -> (found: Option<TypeHandle>)
    ensures
        found is Some <==> world_types_by_path(*world).contains_key(path@),
        found matches Some(handle) ==> handle@ == world_types_by_path(*world)[path@]
            && handle@.full_path == path@,
{
    let registry = world.get_resource::<AppTypeRegistry>()?.read();
    let registration = registry.get_with_type_path(path)?;
    Some(TypeHandle {
        short_name: registration.type_info().type_path_table().short_path().to_string(),
        full_path: registration.type_info().type_path().to_string(),
        is_component: registration.data::<ReflectComponent>().is_some(),
        is_resource: registration.data::<ReflectResource>().is_some(),
        has_default: registration.data::<ReflectDefault>().is_some(),
    })
}

/// `ReflectComponent::contains`: whether the entity holds a component of
/// the type.
#[verifier::external_body]
pub(crate) fn raw_has_component(world: &World, entity: EntityId, path: &str) -> (present: bool)
    requires
        world_entities(*world).contains(entity),
        is_component_type(*world, path@),
    ensures
        present == world_components(*world).contains_key((entity, path@)),
{
    let registry = world.resource::<AppTypeRegistry>().read();
    let reflect = registry.get_with_type_path(path).unwrap().data::<ReflectComponent>().unwrap();
    reflect.contains(world.entity(Entity::from_bits(entity.bits)))
}

/// `ReflectComponent::reflect`: the entity's component of the type, if it
/// holds one, rendered as text.
#[verifier::external_body]
pub(crate) fn raw_get_component(world: &World, entity: EntityId, path: &str) -> (found: Option<
    DynamicValue,
>)
    requires
        world_entities(*world).contains(entity),
        is_component_type(*world, path@),
    ensures
        found is Some <==> world_components(*world).contains_key((entity, path@)),
        found matches Some(value) ==> value@ == (ValueFacts {
            type_path: path@,
            text: world_components(*world)[(entity, path@)],
        }),
{
    let registry = world.resource::<AppTypeRegistry>().read();
    let reflect = registry.get_with_type_path(path).unwrap().data::<ReflectComponent>().unwrap();
    reflect.reflect(world.entity(Entity::from_bits(entity.bits))).map(
        |value| DynamicValue { type_path: path.to_string(), text: format!("{:?}", value) },
    )
}

/// `ReflectFromReflect::from_reflect` on the instance that
/// `ReflectDefault::default` constructs: whether the registry's conversion
/// accepts the type's default instance. The answer lies with the function
/// pointers that the registration holds.
#[verifier::external_body]
pub(crate) fn raw_rebuilds_default(world: &World, path: &str) -> (accepted: bool)
    requires
        is_default_type(*world, path@),
    ensures
        accepted == world_rebuildable(*world).contains(path@),
{
    let registry = world.resource::<AppTypeRegistry>().read();
    let registration = registry.get_with_type_path(path).unwrap();
    let instance = registration.data::<ReflectDefault>().unwrap().default();
    match registration.data::<ReflectFromReflect>() {
        Some(convert) => convert.from_reflect(instance.as_ref()).is_some(),
        None => false,
    }
}

/// `ReflectComponent::insert` of the instance that `ReflectDefault::default`
/// constructs: afterwards the entity holds a component of the type, in place
/// of any that it held. Which value the default constructor gives is left
/// open. No default-constructible type carries the hierarchy. The insertion
/// rebuilds the component from the instance by the registry's conversion
/// and panics where that declines, so the type must be one whose default
/// instance the conversion accepts.
#[verifier::external_body]
pub(crate) fn raw_insert_default(world: &mut World, entity: EntityId, path: &str)
    requires
        world_entities(*old(world)).contains(entity),
        is_component_type(*old(world), path@),
        is_default_type(*old(world), path@),
        world_rebuildable(*old(world)).contains(path@),
    ensures
        world_components(*final(world)).contains_key((entity, path@)),
        world_components(*final(world)).remove((entity, path@)) == world_components(
            *old(world),
        ).remove((entity, path@)),
        world_entities(*final(world)) == world_entities(*old(world)),
        world_reserved(*final(world)) == world_reserved(*old(world)),
        world_resources(*final(world)) == world_resources(*old(world)),
        same_links(*old(world), *final(world)),
        same_types(*old(world), *final(world)),
{
    let shared = world.resource::<AppTypeRegistry>().clone();
    let registry = shared.read();
    let registration = registry.get_with_type_path(path).unwrap();
    let instance = registration.data::<ReflectDefault>().unwrap().default();
    let reflect = registration.data::<ReflectComponent>().unwrap();
    let mut target = world.entity_mut(Entity::from_bits(entity.bits));
    reflect.insert(&mut target, instance.as_ref(), &registry);
}

/// `ReflectComponent::remove`: the entity no longer holds a component of
/// the type; nothing happens where it held none. Where the type is the
/// child list or the parent link, the entity's entry leaves the hierarchy
/// with it; the links that other entities hold stay as they are.
#[verifier::external_body]
pub(crate) fn raw_remove_component(world: &mut World, entity: EntityId, path: &str)
    requires
        world_entities(*old(world)).contains(entity),
        is_component_type(*old(world), path@),
    ensures
        world_components(*final(world)) == world_components(*old(world)).remove((entity, path@)),
        world_entities(*final(world)) == world_entities(*old(world)),
        world_reserved(*final(world)) == world_reserved(*old(world)),
        world_resources(*final(world)) == world_resources(*old(world)),
        links_without_component(*old(world), *final(world), entity, path@),
        !world_components(*old(world)).contains_key((entity, path@)) ==> same_links(
            *old(world),
            *final(world),
        ),
        same_types(*old(world), *final(world)),
{
    let shared = world.resource::<AppTypeRegistry>().clone();
    let registry = shared.read();
    let reflect = registry.get_with_type_path(path).unwrap().data::<ReflectComponent>().unwrap();
    reflect.remove(&mut world.entity_mut(Entity::from_bits(entity.bits)));
}

/// `ReflectResource::reflect`: the world's resource of the type, if it holds
/// one, rendered as text.
#[verifier::external_body]
pub(crate) fn raw_get_resource(world: &World, path: &str) -> (found: Option<DynamicValue>)
    requires
        is_resource_type(*world, path@),
    ensures
        found is Some <==> world_resources(*world).contains_key(path@),
        found matches Some(value) ==> value@ == (ValueFacts {
            type_path: path@,
            text: world_resources(*world)[path@],
        }),
{
    let registry = world.resource::<AppTypeRegistry>().read();
    let reflect = registry.get_with_type_path(path).unwrap().data::<ReflectResource>().unwrap();
    reflect.reflect(world).map(
        |value| DynamicValue { type_path: path.to_string(), text: format!("{:?}", value) },
    )
}

/// `ReflectResource::remove`: the world no longer holds a resource of the
/// type; nothing happens where it held none.
#[verifier::external_body]
pub(crate) fn raw_remove_resource(world: &mut World, path: &str)
    requires
        is_resource_type(*old(world), path@),
    ensures
        world_resources(*final(world)) == world_resources(*old(world)).remove(path@),
        world_entities(*final(world)) == world_entities(*old(world)),
        world_reserved(*final(world)) == world_reserved(*old(world)),
        world_components(*final(world)) == world_components(*old(world)),
        same_links(*old(world), *final(world)),
        same_types(*old(world), *final(world)),
{
    let shared = world.resource::<AppTypeRegistry>().clone();
    let registry = shared.read();
    let reflect = registry.get_with_type_path(path).unwrap().data::<ReflectResource>().unwrap();
    reflect.remove(world);
}

/// `World::get::<Children>`: the entity's child list, empty where it has no
/// such component.
#[verifier::external_body]
pub(crate) fn raw_children(world: &World, entity: EntityId) -> (children: Vec<EntityId>)
    requires
        world_entities(*world).contains(entity),
    ensures
        children@ == children_seq(*world, entity),
{
    match world.get::<Children>(Entity::from_bits(entity.bits)) {
        Some(list) => list.iter().map(|child| EntityId { bits: child.to_bits() }).collect(),
        None => Vec::new(),
    }
}

/// `World::get::<Parent>`: the entity named in the entity's parent link.
#[verifier::external_body]
pub(crate) fn raw_parent(world: &World, entity: EntityId) -> (parent: Option<EntityId>)
    requires
        world_entities(*world).contains(entity),
    ensures
        parent == parent_opt(*world, entity),
{
    world.get::<Parent>(Entity::from_bits(entity.bits)).map(
        |link| EntityId { bits: link.get().to_bits() },
    )
}

/// `EntityWorldMut::take::<Children>`: the entity's child list leaves the
/// entity and is handed out. The parent links of the listed entities stay.
#[verifier::external_body]
pub(crate) fn raw_take_children(world: &mut World, entity: EntityId) -> (children: Vec<EntityId>)
    requires
        world_entities(*old(world)).contains(entity),
    ensures
        children@ == children_seq(*old(world), entity),
        world_children(*final(world)) == world_children(*old(world)).remove(entity),
        world_parents(*final(world)) == world_parents(*old(world)),
        same_data(*old(world), *final(world)),
{
    match world.entity_mut(Entity::from_bits(entity.bits)).take::<Children>() {
        Some(list) => list.iter().map(|child| EntityId { bits: child.to_bits() }).collect(),
        None => Vec::new(),
    }
}

/// `BuildWorldChildren::insert_children`. The call panics where the parent
/// or a child is dead, where the parent is among the children, and where
/// the index lies beyond what remains of the parent's list once the
/// children have left it.
#[verifier::external_body]
pub(crate) fn raw_insert_children(
    world: &mut World,
    parent: EntityId,
    index: usize,
    children: &Vec<EntityId>,
)
    requires
        world_entities(*old(world)).contains(parent),
        forall|i: int|
            0 <= i < children@.len() ==> world_entities(*old(world)).contains(children@[i]),
        !children@.contains(parent),
        index <= without_members(children_seq(*old(world), parent), children@).len(),
    ensures
        same_data(*old(world), *final(world)),
        adopted(*old(world), *final(world), parent, index as int, children@),
{
    let ids: Vec<Entity> = children.iter().map(|child| Entity::from_bits(child.bits)).collect();
    world.entity_mut(Entity::from_bits(parent.bits)).insert_children(index, &ids);
}

/// `BuildWorldChildren::push_children`: as `insert_children` at the end of
/// what remains of the parent's list. A child that the parent lists already
/// is taken out and put behind the others, as the source has it. The call
/// panics where the parent or a child is dead and where the parent is among
/// the children.
#[verifier::external_body]
pub(crate) fn raw_push_children(world: &mut World, parent: EntityId, children: &Vec<EntityId>)
    requires
        world_entities(*old(world)).contains(parent),
        forall|i: int|
            0 <= i < children@.len() ==> world_entities(*old(world)).contains(children@[i]),
        !children@.contains(parent),
    ensures
        same_data(*old(world), *final(world)),
        adopted(
            *old(world),
            *final(world),
            parent,
            without_members(children_seq(*old(world), parent), children@).len() as int,
            children@,
        ),
{
    let ids: Vec<Entity> = children.iter().map(|child| Entity::from_bits(child.bits)).collect();
    world.entity_mut(Entity::from_bits(parent.bits)).push_children(&ids);
}

/// `BuildWorldChildren::remove_children`. The call panics where one of the
/// given children that the parent lists is dead.
#[verifier::external_body]
pub(crate) fn raw_remove_children(world: &mut World, parent: EntityId, children: &Vec<EntityId>)
    requires
        world_entities(*old(world)).contains(parent),
        forall|i: int|
            0 <= i < children@.len() ==> world_entities(*old(world)).contains(children@[i]),
    ensures
        same_data(*old(world), *final(world)),
        released(*old(world), *final(world), parent, children@),
{
    let ids: Vec<Entity> = children.iter().map(|child| Entity::from_bits(child.bits)).collect();
    world.entity_mut(Entity::from_bits(parent.bits)).remove_children(&ids);
}

} // verus!
