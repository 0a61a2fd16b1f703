//! The handle through which a script reaches the world.

use crate::component::{
    get_outcome, has_outcome, insert_default_outcome, remove_outcome, value_facts,
};
use crate::ecs::{
    bare, components_without, raw_despawn, raw_is_alive, raw_spawn, same_links, same_types,
    settled_entities, world_children, world_components, world_entities, world_parents,
    world_iteration, world_reserved, world_resources, world_types_by_path,
    world_types_by_short,
};
use crate::hierarchy::{
    adopt_outcome, children_outcome, clamped, despawn_children_outcome, despawn_recursive_outcome,
    detach_outcome, parent_outcome, remaining_len,
};
use crate::query::{build_outcome, built_facts, QueryBuilder, QueryResult};
use crate::registry::{found_facts, resolved};
use crate::resource::{get_resource_outcome, has_resource_outcome, remove_resource_outcome};
use crate::types::{BridgeError, DynamicValue, EntityId, TypeHandle};
use bevy::ecs::world::World;
use std::collections::HashMap;
use vstd::prelude::*;

verus! {

/// A world under the bridge's control.
///
/// The world is held exclusively for as long as scripts work on it, so the
/// borrow rules serialise access: any number of `&self` operations may read
/// side by side, a `&mut self` operation has the world to itself, and
/// either kind of access ends when the call returns, whether it succeeded
/// or failed.
///
/// The bridge remembers every handle that [`ScriptWorld::spawn`] has
/// returned, eight bytes for each, so that it never returns one twice.
pub struct ScriptWorld {
    pub(crate) world: World,
    pub(crate) issued: HashMap<u64, ()>,
}

impl View for ScriptWorld {
    type V = World;

    closed spec fn view(&self) -> World {
        self.world
    }
}

/// Distinct handles whose bits are all among `keys` are no more than there
/// are keys.
proof fn lemma_distinct_keys_bound(held: Seq<EntityId>, keys: Set<u64>)
    requires
        held.no_duplicates(),
        forall|i: int| 0 <= i < held.len() ==> keys.contains(#[trigger] held[i].bits),
        keys.finite(),
    ensures
        held.len() <= keys.len(),
{
    let bits = Seq::new(held.len(), |i: int| held[i].bits);
    assert(bits.no_duplicates()) by {
        assert forall|i: int, j: int|
            0 <= i < bits.len() && 0 <= j < bits.len() && i != j implies bits[i] != bits[j] by {
            assert(held[i] != held[j]);
        }
    }
    bits.unique_seq_to_set();
    assert(bits.to_set().subset_of(keys)) by {
        assert forall|key: u64| bits.to_set().contains(key) implies keys.contains(key) by {
            let i = choose|i: int| 0 <= i < bits.len() && bits[i] == key;
            assert(keys.contains(held[i].bits));
        }
    }
    vstd::set_lib::lemma_len_subset(bits.to_set(), keys);
}

impl ScriptWorld {
    /// The handles that [`ScriptWorld::spawn`] has returned so far.
    pub closed spec fn issued(&self) -> Set<EntityId> {
        Set::new(|entity: EntityId| self.issued@.contains_key(entity.bits))
    }

    /// `post` is `pre` after a spawn that returned `entity`.
    ///
    /// The handle is that of no entity that was alive or reserved, and it
    /// was never returned before. The new entity holds no component and no
    /// link. The ids that were reserved have come to life in the same
    /// state.
    pub open spec fn spawned(pre: ScriptWorld, post: ScriptWorld, entity: EntityId) -> bool {
        &&& !settled_entities(pre@).contains(entity)
        &&& !pre.issued().contains(entity)
        &&& post.issued() == pre.issued().insert(entity)
        &&& world_entities(post@) == settled_entities(pre@).insert(entity)
        &&& world_reserved(post@) == Set::<EntityId>::empty()
        &&& bare(post@, world_reserved(pre@).insert(entity))
        &&& world_components(post@) == world_components(pre@)
        &&& world_resources(post@) == world_resources(pre@)
        &&& same_links(pre@, post@)
        &&& same_types(pre@, post@)
    }

    /// `post` is `pre` after `despawn(entity)` returned `removed`.
    ///
    /// A despawn that removes the entity also brings the reserved ids to
    /// life, without components or links.
    pub open spec fn despawned(
        pre: ScriptWorld,
        post: ScriptWorld,
        entity: EntityId,
        removed: bool,
    ) -> bool {
        &&& removed == world_entities(pre@).contains(entity)
        &&& post.issued() == pre.issued()
        &&& !removed ==> post@ == pre@
        &&& removed ==> {
            &&& world_entities(post@) == settled_entities(pre@).remove(entity)
            &&& world_reserved(post@) == Set::<EntityId>::empty()
            &&& bare(post@, world_reserved(pre@))
            &&& world_components(post@) == components_without(world_components(pre@), entity)
            &&& world_resources(post@) == world_resources(pre@)
            &&& world_children(post@) == world_children(pre@).remove(entity)
            &&& world_parents(post@) == world_parents(pre@).remove(entity)
            &&& same_types(pre@, post@)
        }
    }

    /// Takes a world under the bridge's control.
    pub fn new(world: World) -> (wrapped: ScriptWorld)
        ensures
            wrapped@ == world,
            wrapped.issued() == Set::<EntityId>::empty(),
    {
        let wrapped = ScriptWorld { world, issued: HashMap::new() };
        assert(wrapped.issued() =~= Set::<EntityId>::empty());
        wrapped
    }

    /// Gives the world back to its owner.
    pub fn into_world(self) -> (world: World)
        ensures
            world == self@,
    {
        self.world
    }

    /// Trades the world under the bridge's control for `world`. A host
    /// that lends its world for the length of a script call trades it in
    /// before the call and back out after it; the handles that `spawn` has
    /// returned stay remembered across the trades.
    pub fn exchange_world(&mut self, world: &mut World)
        ensures
            final(self)@ == *old(world),
            *final(world) == old(self)@,
            final(self).issued() == old(self).issued(),
    {
        std::mem::swap(&mut self.world, world);
    }

    /// The world, for the owner's own reads.
    pub fn world(&self) -> (world: &World)
        ensures
            *world == self@,
    {
        &self.world
    }

    /// The world, for the owner's own changes. What the owner does to it
    /// is the owner's business; the handles that `spawn` has returned stay
    /// remembered.
    pub fn world_mut(&mut self) -> (world: &mut World)
        ensures
            *world == old(self)@,
            final(self)@ == *final(world),
            final(self).issued() == old(self).issued(),
    {
        &mut self.world
    }

    /// Whether the handle resolves to a live entity.
    pub fn is_alive(&self, entity: EntityId) -> (alive: bool)
        ensures
            alive == world_entities(self@).contains(entity),
    {
        raw_is_alive(&self.world, entity)
    }

    /// Creates an entity without components or links and returns its
    /// handle.
    ///
    /// The handle is that of no entity that is alive, and it differs from
    /// every handle that `spawn` has returned before, whatever happened to
    /// those entities since. Should the runtime hand such a handle out
    /// again, the entity that it stands for is kept alive until another
    /// handle has been found, and is despawned then.
    pub fn spawn(&mut self) -> (entity: EntityId)
        ensures
            Self::spawned(*old(self), *final(self), entity),
    {
        broadcast use vstd::std_specs::hash::group_hash_axioms;

        let ghost reserved = world_reserved(old(self)@);
        let ghost settled = settled_entities(old(self)@);
        let mut entity = raw_spawn(&mut self.world);
        let mut held: Vec<EntityId> = Vec::new();
        proof {
            assert(held@.to_set() =~= Set::<EntityId>::empty());
            assert(world_entities(self@) =~= settled.union(held@.to_set()).insert(entity));
            assert(reserved.union(held@.to_set()).insert(entity) =~= reserved.insert(entity));
        }
        while self.issued.contains_key(&entity.bits)
            invariant
                self.issued@ == old(self).issued@,
                reserved == world_reserved(old(self)@),
                settled == settled_entities(old(self)@),
                held@.no_duplicates(),
                !held@.contains(entity),
                !settled.contains(entity),
                forall|i: int|
                    0 <= i < held@.len() ==> self.issued@.contains_key((#[trigger] held@[i]).bits),
                forall|i: int| 0 <= i < held@.len() ==> !settled.contains(#[trigger] held@[i]),
                world_entities(self@) == settled.union(held@.to_set()).insert(entity),
                world_reserved(self@) == Set::<EntityId>::empty(),
                bare(self@, reserved.union(held@.to_set()).insert(entity)),
                world_components(self@) == world_components(old(self)@),
                world_resources(self@) == world_resources(old(self)@),
                same_links(old(self)@, self@),
                same_types(old(self)@, self@),
            decreases self.issued@.dom().len() - held@.len(),
        {
            let ghost before = self@;
            let ghost kept = held@;
            let ghost rejected = entity;
            held.push(entity);
            proof {
                crate::hierarchy::lemma_push_contains(kept, rejected);
                assert forall|i: int| 0 <= i < held@.len() implies self.issued@.contains_key(
                    (#[trigger] held@[i]).bits,
                ) by {
                    if i < kept.len() {
                        assert(held@[i] == kept[i]);
                    }
                }
                lemma_distinct_keys_bound(held@, self.issued@.dom());
                assert(held@.to_set() =~= kept.to_set().insert(rejected));
            }
            entity = raw_spawn(&mut self.world);
            proof {
                assert(settled_entities(before) =~= world_entities(before));
                assert(!held@.contains(entity)) by {
                    if held@.contains(entity) {
                        assert(held@.to_set().contains(entity));
                    }
                }
                assert forall|i: int| 0 <= i < held@.len() implies !settled.contains(
                    #[trigger] held@[i],
                ) by {
                    if i < kept.len() {
                        assert(held@[i] == kept[i]);
                    }
                }
                assert(world_entities(self@) =~= settled.union(held@.to_set()).insert(entity));
                assert(bare(self@, reserved.union(held@.to_set()).insert(entity))) by {
                    assert(bare(before, reserved.union(kept.to_set()).insert(rejected)));
                    assert(bare(self@, Set::<EntityId>::empty().insert(entity)));
                    assert forall|id: EntityId| #[trigger]
                        reserved.union(held@.to_set()).insert(entity).contains(id) implies {
                        &&& forall|path: Seq<char>|
                            !#[trigger] world_components(self@).contains_key((id, path))
                        &&& !world_children(self@).contains_key(id)
                        &&& !world_parents(self@).contains_key(id)
                    } by {
                        if id == entity {
                            assert(Set::<EntityId>::empty().insert(entity).contains(id));
                        } else {
                            assert(reserved.union(kept.to_set()).insert(rejected).contains(id));
                        }
                    }
                }
            }
        }
        let mut i: usize = 0;
        proof {
            assert(held@.subrange(0, held@.len() as int) =~= held@);
        }
        while i < held.len()
            invariant
                i <= held@.len(),
                self.issued@ == old(self).issued@,
                reserved == world_reserved(old(self)@),
                settled == settled_entities(old(self)@),
                held@.no_duplicates(),
                !held@.contains(entity),
                !settled.contains(entity),
                !self.issued@.contains_key(entity.bits),
                forall|j: int| 0 <= j < held@.len() ==> !settled.contains(#[trigger] held@[j]),
                world_entities(self@) == settled.union(
                    held@.subrange(i as int, held@.len() as int).to_set(),
                ).insert(entity),
                world_reserved(self@) == Set::<EntityId>::empty(),
                bare(self@, reserved.union(held@.to_set()).insert(entity)),
                world_components(self@) == world_components(old(self)@),
                world_resources(self@) == world_resources(old(self)@),
                same_links(old(self)@, self@),
                same_types(old(self)@, self@),
            decreases held.len() - i,
        {
            let ghost before = self@;
            let ghost rest = held@.subrange(i as int, held@.len() as int);
            let ghost later = held@.subrange(i as int + 1, held@.len() as int);
            let doomed = held[i];
            proof {
                assert(rest[0] == doomed);
                assert(rest.to_set().contains(doomed));
                assert(reserved.union(held@.to_set()).insert(entity).contains(doomed)) by {
                    assert(held@.to_set().contains(held@[i as int]));
                }
            }
            raw_despawn(&mut self.world, doomed);
            proof {
                assert(!later.contains(doomed)) by {
                    if later.contains(doomed) {
                        let j = choose|j: int| 0 <= j < later.len() && later[j] == doomed;
                        assert(held@[i + 1 + j] == held@[i as int]);
                    }
                }
                assert(rest.to_set().remove(doomed) =~= later.to_set()) by {
                    assert forall|id: EntityId| rest.to_set().remove(doomed).contains(id)
                        == later.to_set().contains(id) by {
                        if later.to_set().contains(id) {
                            let j = choose|j: int| 0 <= j < later.len() && later[j] == id;
                            assert(rest[j + 1] == id);
                        }
                        if rest.to_set().remove(doomed).contains(id) {
                            let j = choose|j: int| 0 <= j < rest.len() && rest[j] == id;
                            assert(j != 0);
                            assert(later[j - 1] == id);
                        }
                    }
                }
                assert(settled_entities(before) =~= world_entities(before));
                assert(world_entities(self@) =~= settled.union(later.to_set()).insert(entity));
                assert forall|key: (EntityId, Seq<char>)|
                    world_components(before).contains_key(key) implies key.0 != doomed by {
                    assert(key == (key.0, key.1));
                }
                assert(world_components(self@) =~= world_components(before));
                assert(world_children(self@) =~= world_children(before));
                assert(world_parents(self@) =~= world_parents(before));
            }
            i += 1;
        }
        proof {
            assert(held@.subrange(held@.len() as int, held@.len() as int).to_set()
                =~= Set::<EntityId>::empty());
            assert(world_entities(self@) =~= settled.insert(entity));
            assert(reserved.insert(entity).subset_of(
                reserved.union(held@.to_set()).insert(entity),
            ));
        }
        let ghost known = self.issued();
        self.issued.insert(entity.bits, ());
        proof {
            assert(!known.contains(entity));
            assert(self.issued() =~= known.insert(entity));
        }
        entity
    }

    /// Removes the entity with its components. Returns `true` if it was
    /// alive and is now removed, `false` if it was already gone.
    ///
    /// Links that other entities hold to it stay;
    /// [`ScriptWorld::despawn_recursive`] is the operation that follows and
    /// clears them.
    pub fn despawn(&mut self, entity: EntityId) -> (removed: bool)
        ensures
            Self::despawned(*old(self), *final(self), entity, removed),
    {
        if raw_is_alive(&self.world, entity) {
            raw_despawn(&mut self.world, entity)
        } else {
            false
        }
    }

    /// Resolves a type name against the world's registry. See
    /// [`crate::registry::resolve`].
    pub fn resolve(&self, name: &str) -> (found: Option<TypeHandle>)
        ensures
            found_facts(found) == resolved(
                world_types_by_short(self@),
                world_types_by_path(self@),
                name@,
            ),
    {
        crate::registry::resolve(&self.world, name)
    }

    /// Whether the entity holds a component of the type. See
    /// [`crate::component::has`].
    pub fn has_component(&self, entity: EntityId, ty: &TypeHandle) -> (outcome: Result<
        bool,
        BridgeError,
    >)
        ensures
            outcome == has_outcome(self@, entity, ty@.full_path),
    {
        crate::component::has(&self.world, entity, ty)
    }

    /// A snapshot of the entity's component of the type. See
    /// [`crate::component::get`].
    pub fn get_component(&self, entity: EntityId, ty: &TypeHandle) -> (outcome: Result<
        Option<DynamicValue>,
        BridgeError,
    >)
        ensures
            value_facts(outcome) == get_outcome(self@, entity, ty@.full_path),
    {
        crate::component::get(&self.world, entity, ty)
    }

    /// Gives the entity a default-constructed component of the type. See
    /// [`crate::component::insert_default`].
    pub fn insert_default_component(&mut self, entity: EntityId, ty: &TypeHandle) -> (outcome:
        Result<(), BridgeError>)
        ensures
            insert_default_outcome(old(self)@, final(self)@, entity, ty@.full_path, outcome),
            final(self).issued() == old(self).issued(),
    {
        crate::component::insert_default(&mut self.world, entity, ty)
    }

    /// Takes the component of the type from the entity. See
    /// [`crate::component::remove`].
    pub fn remove_component(&mut self, entity: EntityId, ty: &TypeHandle) -> (outcome: Result<
        (),
        BridgeError,
    >)
        ensures
            remove_outcome(old(self)@, final(self)@, entity, ty@.full_path, outcome),
            final(self).issued() == old(self).issued(),
    {
        crate::component::remove(&mut self.world, entity, ty)
    }

    /// A snapshot of the world's resource of the type. See
    /// [`crate::resource::get_resource`].
    pub fn get_resource(&self, ty: &TypeHandle) -> (outcome: Result<
        Option<DynamicValue>,
        BridgeError,
    >)
        ensures
            value_facts(outcome) == get_resource_outcome(self@, ty@.full_path),
    {
        crate::resource::get_resource(&self.world, ty)
    }

    /// Whether the world holds a resource of the type. See
    /// [`crate::resource::has_resource`].
    pub fn has_resource(&self, ty: &TypeHandle) -> (outcome: Result<bool, BridgeError>)
        ensures
            outcome == has_resource_outcome(self@, ty@.full_path),
    {
        crate::resource::has_resource(&self.world, ty)
    }

    /// Takes the resource of the type from the world. See
    /// [`crate::resource::remove_resource`].
    pub fn remove_resource(&mut self, ty: &TypeHandle) -> (outcome: Result<(), BridgeError>)
        ensures
            remove_resource_outcome(old(self)@, final(self)@, ty@.full_path, outcome),
            final(self).issued() == old(self).issued(),
    {
        crate::resource::remove_resource(&mut self.world, ty)
    }

    /// The children of the entity. See [`crate::hierarchy::get_children`].
    pub fn get_children(&self, entity: EntityId) -> (outcome: Result<Vec<EntityId>, BridgeError>)
        ensures
            match outcome {
                Ok(list) => children_outcome(self@, entity) == Ok::<Seq<EntityId>, BridgeError>(
                    list@,
                ),
                Err(error) => children_outcome(self@, entity) == Err::<
                    Seq<EntityId>,
                    BridgeError,
                >(error),
            },
    {
        crate::hierarchy::get_children(&self.world, entity)
    }

    /// The parent of the entity. See [`crate::hierarchy::get_parent`].
    pub fn get_parent(&self, entity: EntityId) -> (outcome: Result<Option<EntityId>, BridgeError>)
        ensures
            outcome == parent_outcome(self@, entity),
    {
        crate::hierarchy::get_parent(&self.world, entity)
    }

    /// Makes `child` the last child of `parent`. See
    /// [`crate::hierarchy::attach_child`].
    pub fn attach_child(&mut self, parent: EntityId, child: EntityId) -> (outcome: Result<
        (),
        BridgeError,
    >)
        ensures
            adopt_outcome(
                old(self)@,
                final(self)@,
                parent,
                remaining_len(old(self)@, parent, seq![child]) as int,
                seq![child],
                outcome,
            ),
            final(self).issued() == old(self).issued(),
    {
        crate::hierarchy::attach_child(&mut self.world, parent, child)
    }

    /// Makes `children` the last children of `parent`. See
    /// [`crate::hierarchy::attach_children`].
    pub fn attach_children(&mut self, parent: EntityId, children: &Vec<EntityId>) -> (outcome:
        Result<(), BridgeError>)
        ensures
            adopt_outcome(
                old(self)@,
                final(self)@,
                parent,
                remaining_len(old(self)@, parent, children@) as int,
                children@,
                outcome,
            ),
            final(self).issued() == old(self).issued(),
    {
        crate::hierarchy::attach_children(&mut self.world, parent, children)
    }

    /// Puts `child` into the list of `parent` at `index`; an index beyond
    /// the end means the end. See [`crate::hierarchy::insert_child_at`].
    pub fn insert_child_at(&mut self, parent: EntityId, index: usize, child: EntityId) -> (outcome:
        Result<(), BridgeError>)
        ensures
            adopt_outcome(
                old(self)@,
                final(self)@,
                parent,
                clamped(index, remaining_len(old(self)@, parent, seq![child])),
                seq![child],
                outcome,
            ),
            final(self).issued() == old(self).issued(),
    {
        crate::hierarchy::insert_child_at(&mut self.world, parent, index, child)
    }

    /// Puts `children` into the list of `parent` at `index`; an index
    /// beyond the end means the end. See
    /// [`crate::hierarchy::insert_children_at`].
    pub fn insert_children_at(
        &mut self,
        parent: EntityId,
        index: usize,
        children: &Vec<EntityId>,
    ) -> (outcome: Result<(), BridgeError>)
        ensures
            adopt_outcome(
                old(self)@,
                final(self)@,
                parent,
                clamped(index, remaining_len(old(self)@, parent, children@)),
                children@,
                outcome,
            ),
            final(self).issued() == old(self).issued(),
    {
        crate::hierarchy::insert_children_at(&mut self.world, parent, index, children)
    }

    /// Removes `child` from the list of `parent`. See
    /// [`crate::hierarchy::detach_child`].
    pub fn detach_child(&mut self, parent: EntityId, child: EntityId) -> (outcome: Result<
        (),
        BridgeError,
    >)
        ensures
            detach_outcome(old(self)@, final(self)@, parent, seq![child], outcome),
            final(self).issued() == old(self).issued(),
    {
        crate::hierarchy::detach_child(&mut self.world, parent, child)
    }

    /// Removes `children` from the list of `parent`. See
    /// [`crate::hierarchy::detach_children`].
    pub fn detach_children(&mut self, parent: EntityId, children: &Vec<EntityId>) -> (outcome:
        Result<(), BridgeError>)
        ensures
            detach_outcome(old(self)@, final(self)@, parent, children@, outcome),
            final(self).issued() == old(self).issued(),
    {
        crate::hierarchy::detach_children(&mut self.world, parent, children)
    }

    /// Despawns the entity and all its live descendants. See
    /// [`crate::hierarchy::despawn_recursive`].
    pub fn despawn_recursive(&mut self, entity: EntityId) -> (outcome: Result<(), BridgeError>)
        ensures
            despawn_recursive_outcome(old(self)@, final(self)@, entity, outcome),
            final(self).issued() == old(self).issued(),
    {
        crate::hierarchy::despawn_recursive(&mut self.world, entity)
    }

    /// Despawns all live descendants of the entity and keeps the entity.
    /// See [`crate::hierarchy::despawn_children_recursive`].
    pub fn despawn_children_recursive(&mut self, entity: EntityId) -> (outcome: Result<
        (),
        BridgeError,
    >)
        ensures
            despawn_children_outcome(old(self)@, final(self)@, entity, outcome),
            final(self).issued() == old(self).issued(),
    {
        crate::hierarchy::despawn_children_recursive(&mut self.world, entity)
    }

    /// Evaluates a query against the world. See
    /// [`crate::query::QueryBuilder::build`].
    pub fn query(&self, builder: &QueryBuilder) -> (outcome: Result<Vec<QueryResult>, BridgeError>)
        ensures
            built_facts(outcome) == build_outcome(self@, builder.required(), builder.excluded()),
            outcome is Ok ==> world_iteration(self@).no_duplicates(),
    {
        builder.build(&self.world)
    }
}

/// A handle that `spawn` returns differs from every handle that `spawn`
/// returned before, and from then on it counts among those itself. Every
/// other operation leaves the handles that were returned as they are, so
/// the property holds across any sequence of calls.
pub proof fn law_spawned_handle_is_new(
    pre: ScriptWorld,
    post: ScriptWorld,
    entity: EntityId,
    earlier: EntityId,
)
    requires
        ScriptWorld::spawned(pre, post, entity),
        pre.issued().contains(earlier),
    ensures
        entity != earlier,
        post.issued().contains(earlier),
        post.issued().contains(entity),
{
}

/// Two calls of `spawn` return different handles, also where the first
/// entity, or any other, was despawned in between.
pub proof fn law_sequential_spawns_differ(
    start: ScriptWorld,
    after_first: ScriptWorld,
    after_despawn: ScriptWorld,
    after_second: ScriptWorld,
    first: EntityId,
    second: EntityId,
    victim: EntityId,
    removed: bool,
)
    requires
        ScriptWorld::spawned(start, after_first, first),
        ScriptWorld::despawned(after_first, after_despawn, victim, removed),
        ScriptWorld::spawned(after_despawn, after_second, second),
    ensures
        first != second,
{
}

/// Three calls of `spawn` in a row return three different handles: a
/// spawn in between does not free an older handle for reuse.
pub proof fn law_spawns_differ_across_a_spawn(
    start: ScriptWorld,
    after_first: ScriptWorld,
    after_second: ScriptWorld,
    after_third: ScriptWorld,
    first: EntityId,
    second: EntityId,
    third: EntityId,
)
    requires
        ScriptWorld::spawned(start, after_first, first),
        ScriptWorld::spawned(after_first, after_second, second),
        ScriptWorld::spawned(after_second, after_third, third),
    ensures
        first != second,
        first != third,
        second != third,
{
}

/// A fresh entity can be read at once: it is alive, and it has no children
/// and no parent.
pub proof fn law_spawned_entity_is_empty(pre: ScriptWorld, post: ScriptWorld, entity: EntityId)
    requires
        ScriptWorld::spawned(pre, post, entity),
    ensures
        world_entities(post@).contains(entity),
        children_outcome(post@, entity) == Ok::<Seq<EntityId>, BridgeError>(Seq::empty()),
        parent_outcome(post@, entity) == Ok::<Option<EntityId>, BridgeError>(None),
        forall|path: Seq<char>| !#[trigger] world_components(post@).contains_key((entity, path)),
{
    assert(world_reserved(pre@).insert(entity).contains(entity));
}

} // verus!
