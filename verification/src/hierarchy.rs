//! Parent and child links between entities.
//!
//! The runtime keeps the hierarchy in two components: a child list on the
//! parent and a parent link on the child. The operations here check every
//! handle first, so that none of them can fail half-way, and then change
//! both sides together.
//!
//! Nothing forces the links to form a tree. Other code may leave a list
//! that names a dead entity, a child that two parents list, or a cycle. The
//! recursive operations therefore walk the child lists as a graph and keep
//! track of what they have seen.

use crate::component::has_outcome;
use crate::ecs::{
    adopted, bare, children_seq, is_component_type, is_link_path, parent_opt, raw_children,
    raw_despawn, raw_insert_children, raw_is_alive, raw_parent, raw_push_children,
    raw_remove_children, raw_take_children, released, same_data, same_types, settled_entities,
    spliced, without_members, world_children, world_components, world_entities, world_parents,
    world_reserved, world_resources,
};
use crate::types::{BridgeError, EntityId};
use bevy::ecs::world::World;
use vstd::prelude::*;

verus! {

/// Every member of `list` is alive.
pub open spec fn all_live(world: World, list: Seq<EntityId>) -> bool {
    forall|i: int| 0 <= i < list.len() ==> world_entities(world).contains(#[trigger] list[i])
}

/// `parent` can take `children`: all of them are alive, and the parent is
/// not asked to become its own child.
pub open spec fn can_adopt(world: World, parent: EntityId, children: Seq<EntityId>) -> bool {
    &&& world_entities(world).contains(parent)
    &&& all_live(world, children)
    &&& !children.contains(parent)
}

/// The place at which an insertion at `index` lands in a list of `len`
/// entries: an index beyond the end means the end.
pub open spec fn clamped(index: usize, len: nat) -> int {
    if index <= len {
        index as int
    } else {
        len as int
    }
}

/// What `get_children` returns.
pub open spec fn children_outcome(world: World, entity: EntityId) -> Result<
    Seq<EntityId>,
    BridgeError,
> {
    if world_entities(world).contains(entity) {
        Ok(children_seq(world, entity))
    } else {
        Err(BridgeError::InvalidEntity)
    }
}

/// What `get_parent` returns.
pub open spec fn parent_outcome(world: World, entity: EntityId) -> Result<
    Option<EntityId>,
    BridgeError,
> {
    if world_entities(world).contains(entity) {
        Ok(parent_opt(world, entity))
    } else {
        Err(BridgeError::InvalidEntity)
    }
}

/// The length of what remains of the list of `parent` once the members of
/// `children` have left it.
pub open spec fn remaining_len(world: World, parent: EntityId, children: Seq<EntityId>) -> nat {
    without_members(children_seq(world, parent), children).len()
}

/// What putting `children` under `parent` at `place` does to the world and
/// returns.
pub open spec fn adopt_outcome(
    before: World,
    after: World,
    parent: EntityId,
    place: int,
    children: Seq<EntityId>,
    outcome: Result<(), BridgeError>,
) -> bool {
    if can_adopt(before, parent, children) {
        &&& outcome == Ok::<(), BridgeError>(())
        &&& same_data(before, after)
        &&& adopted(before, after, parent, place, children)
    } else {
        &&& outcome == Err::<(), BridgeError>(BridgeError::InvalidEntity)
        &&& after == before
    }
}

/// What the removal of `children` from the list of `parent` does to the
/// world and returns.
pub open spec fn detach_outcome(
    before: World,
    after: World,
    parent: EntityId,
    children: Seq<EntityId>,
    outcome: Result<(), BridgeError>,
) -> bool {
    if world_entities(before).contains(parent) && all_live(before, children) {
        &&& outcome == Ok::<(), BridgeError>(())
        &&& same_data(before, after)
        &&& released(before, after, parent, children)
    } else {
        &&& outcome == Err::<(), BridgeError>(BridgeError::InvalidEntity)
        &&& after == before
    }
}

/// `entity` is reached from `root` in `depth` steps along child lists,
/// through live entities only.
pub open spec fn reaches(world: World, root: EntityId, entity: EntityId, depth: nat) -> bool
    decreases depth,
{
    if depth == 0 {
        entity == root && world_entities(world).contains(root)
    } else {
        &&& world_entities(world).contains(entity)
        &&& exists|via: EntityId|
            reaches(world, root, via, (depth - 1) as nat) && #[trigger] children_seq(
                world,
                via,
            ).contains(entity)
    }
}

/// `entity` is `root` or one of its live descendants.
pub open spec fn descends(world: World, root: EntityId, entity: EntityId) -> bool {
    exists|depth: nat| reaches(world, root, entity, depth)
}

/// `root` with all its live descendants. Empty where `root` is dead.
pub open spec fn subtree(world: World, root: EntityId) -> Set<EntityId> {
    Set::new(|entity: EntityId| descends(world, root, entity))
}

/// The child lists of `world` never lead from a member of `set` to a live
/// entity outside it.
pub open spec fn closed_under_children(world: World, set: Set<EntityId>) -> bool {
    forall|node: EntityId, child: EntityId|
        set.contains(node) && #[trigger] children_seq(world, node).contains(child)
            && world_entities(world).contains(child) ==> set.contains(child)
}

/// Every live child of `node` is a member of `found`.
pub open spec fn expanded(world: World, found: Seq<EntityId>, node: EntityId) -> bool {
    forall|child: EntityId|
        #[trigger] children_seq(world, node).contains(child) && world_entities(world).contains(
            child,
        ) ==> found.contains(child)
}

/// The components of `components` that entities outside `gone` hold.
pub open spec fn components_outside(
    components: Map<(EntityId, Seq<char>), Seq<char>>,
    gone: Set<EntityId>,
) -> Map<(EntityId, Seq<char>), Seq<char>> {
    Map::new(
        |key: (EntityId, Seq<char>)| components.contains_key(key) && !gone.contains(key.0),
        |key: (EntityId, Seq<char>)| components[key],
    )
}

/// The live entities of `world`, with the reserved ids among them if a
/// despawn has `flushed` them into life.
pub open spec fn entities_after_flush(world: World, flushed: bool) -> Set<EntityId> {
    if flushed {
        settled_entities(world)
    } else {
        world_entities(world)
    }
}

/// What is reserved in `after`, and what holds of the ids that were
/// reserved in `before`: a despawn brings them to life without components
/// or links and leaves nothing reserved.
pub open spec fn reserved_after_flush(before: World, after: World, flushed: bool) -> bool {
    if flushed {
        world_reserved(after) == Set::<EntityId>::empty() && bare(after, world_reserved(before))
    } else {
        world_reserved(after) == world_reserved(before)
    }
}

/// `after` is `before` with the entities in `gone` despawned one by one and
/// nothing else done. `flushed` says whether there was any to despawn.
pub open spec fn swept(before: World, after: World, gone: Set<EntityId>, flushed: bool) -> bool {
    &&& world_entities(after) == entities_after_flush(before, flushed).difference(gone)
    &&& reserved_after_flush(before, after, flushed)
    &&& world_components(after) == components_outside(world_components(before), gone)
    &&& world_children(after) == world_children(before).remove_keys(gone)
    &&& world_parents(after) == world_parents(before).remove_keys(gone)
    &&& world_resources(after) == world_resources(before)
    &&& same_types(before, after)
}

/// `after` is `before` once the entities in `gone` have been despawned:
/// they have left with their components and links, and every other entity
/// keeps what it had, but for the two component types that carry the
/// hierarchy. Where anything was despawned, the ids that were reserved
/// have come to life.
pub open spec fn removed_from(
    before: World,
    after: World,
    gone: Set<EntityId>,
    flushed: bool,
) -> bool {
    &&& world_entities(after) == entities_after_flush(before, flushed).difference(gone)
    &&& reserved_after_flush(before, after, flushed)
    &&& world_resources(after) == world_resources(before)
    &&& same_types(before, after)
    &&& forall|key: (EntityId, Seq<char>)|
        !is_link_path(key.1) ==> {
            &&& #[trigger] world_components(after).contains_key(key) == (world_components(
                before,
            ).contains_key(key) && !gone.contains(key.0))
            &&& world_components(after).contains_key(key) ==> world_components(after)[key]
                == world_components(before)[key]
        }
    &&& forall|entity: EntityId|
        gone.contains(entity) ==> {
            &&& !#[trigger] world_children(after).contains_key(entity)
            &&& !world_parents(after).contains_key(entity)
        }
}

/// What `despawn_recursive` does to the world and returns.
///
/// On success the subtree of `entity` is gone. The one list that changes
/// among the survivors is that of the entity's parent, which no longer
/// names `entity`; every other survivor keeps its list and its parent link
/// as they were.
pub open spec fn despawn_recursive_outcome(
    before: World,
    after: World,
    entity: EntityId,
    outcome: Result<(), BridgeError>,
) -> bool {
    if world_entities(before).contains(entity) {
        let gone = subtree(before, entity);
        &&& outcome == Ok::<(), BridgeError>(())
        &&& removed_from(before, after, gone, true)
        &&& forall|other: EntityId|
            !gone.contains(other) ==> #[trigger] children_seq(after, other) == if parent_opt(
                before,
                entity,
            ) == Some(other) && world_entities(before).contains(other) {
                without_members(children_seq(before, other), seq![entity])
            } else {
                children_seq(before, other)
            }
        &&& forall|other: EntityId|
            !gone.contains(other) ==> #[trigger] parent_opt(after, other) == parent_opt(
                before,
                other,
            )
    } else {
        &&& outcome == Err::<(), BridgeError>(BridgeError::InvalidEntity)
        &&& after == before
    }
}

/// What `despawn_children_recursive` does to the world and returns.
///
/// On success the live descendants of `entity` are gone and `entity` has
/// the empty child list. The reserved ids come to life if there was a
/// descendant to despawn. The entity itself stays, also where a cycle leads
/// back to it, and so does its own parent link.
pub open spec fn despawn_children_outcome(
    before: World,
    after: World,
    entity: EntityId,
    outcome: Result<(), BridgeError>,
) -> bool {
    if world_entities(before).contains(entity) {
        let gone = subtree(before, entity).remove(entity);
        &&& outcome == Ok::<(), BridgeError>(())
        &&& removed_from(before, after, gone, !(gone =~= Set::<EntityId>::empty()))
        &&& forall|other: EntityId|
            !gone.contains(other) ==> #[trigger] children_seq(after, other) == if other == entity {
                Seq::<EntityId>::empty()
            } else {
                children_seq(before, other)
            }
        &&& forall|other: EntityId|
            !gone.contains(other) ==> #[trigger] parent_opt(after, other) == parent_opt(
                before,
                other,
            )
    } else {
        &&& outcome == Err::<(), BridgeError>(BridgeError::InvalidEntity)
        &&& after == before
    }
}

/// What is reached is alive.
pub proof fn lemma_reached_is_alive(world: World, root: EntityId, entity: EntityId, depth: nat)
    requires
        reaches(world, root, entity, depth),
    ensures
        world_entities(world).contains(entity),
{
}

/// Nothing is reached from a dead root.
pub proof fn lemma_root_is_alive(world: World, root: EntityId, entity: EntityId, depth: nat)
    requires
        reaches(world, root, entity, depth),
    ensures
        world_entities(world).contains(root),
    decreases depth,
{
    if depth > 0 {
        let via = choose|via: EntityId|
            reaches(world, root, via, (depth - 1) as nat) && #[trigger] children_seq(
                world,
                via,
            ).contains(entity);
        lemma_root_is_alive(world, root, via, (depth - 1) as nat);
    }
}

/// A live child of what is reached is reached one step later.
pub proof fn lemma_reaches_child(
    world: World,
    root: EntityId,
    via: EntityId,
    child: EntityId,
    depth: nat,
)
    requires
        reaches(world, root, via, depth),
        children_seq(world, via).contains(child),
        world_entities(world).contains(child),
    ensures
        reaches(world, root, child, depth + 1),
        descends(world, root, child),
{
    assert(reaches(world, root, via, ((depth + 1) - 1) as nat));
}

/// A set that holds `root` and is closed under live children holds all that
/// is reached from `root`.
pub proof fn lemma_closed_set_holds_reached(
    world: World,
    root: EntityId,
    set: Set<EntityId>,
    entity: EntityId,
    depth: nat,
)
    requires
        set.contains(root),
        closed_under_children(world, set),
        reaches(world, root, entity, depth),
    ensures
        set.contains(entity),
    decreases depth,
{
    if depth > 0 {
        let via = choose|via: EntityId|
            reaches(world, root, via, (depth - 1) as nat) && #[trigger] children_seq(
                world,
                via,
            ).contains(entity);
        lemma_closed_set_holds_reached(world, root, set, via, (depth - 1) as nat);
    }
}

/// Distinct live entities are no more than there are live entities.
pub proof fn lemma_distinct_live_bound(world: World, list: Seq<EntityId>)
    requires
        list.no_duplicates(),
        all_live(world, list),
    ensures
        world_entities(world).finite(),
        list.len() <= world_entities(world).len(),
{
    vstd::seq_lib::seq_to_set_is_finite(crate::ecs::world_iteration(world));
    list.unique_seq_to_set();
    assert(list.to_set().subset_of(world_entities(world))) by {
        assert forall|entity: EntityId| list.to_set().contains(entity) implies world_entities(
            world,
        ).contains(entity) by {
            let i = choose|i: int| 0 <= i < list.len() && list[i] == entity;
            assert(world_entities(world).contains(list[i]));
        }
    }
    vstd::set_lib::lemma_len_subset(list.to_set(), world_entities(world));
}

/// What a list holds once it has grown by one entry.
pub proof fn lemma_push_contains(list: Seq<EntityId>, last: EntityId)
    ensures
        list.push(last).contains(last),
        forall|entity: EntityId|
            list.contains(entity) ==> #[trigger] list.push(last).contains(entity),
        forall|entity: EntityId|
            #[trigger] list.push(last).contains(entity) ==> entity == last || list.contains(entity),
{
    let grown = list.push(last);
    assert(grown[list.len() as int] == last);
    assert forall|entity: EntityId| list.contains(entity) implies #[trigger] grown.contains(
        entity,
    ) by {
        let i = choose|i: int| 0 <= i < list.len() && list[i] == entity;
        assert(grown[i] == entity);
    }
    assert forall|entity: EntityId| #[trigger] grown.contains(entity) implies entity == last
        || list.contains(entity) by {
        let i = choose|i: int| 0 <= i < grown.len() && grown[i] == entity;
        if i < list.len() {
            assert(list[i] == entity);
        }
    }
}

/// Whether `entity` is a member of `list`.
pub fn contains_entity(list: &Vec<EntityId>, entity: EntityId) -> (found: bool)
    ensures
        found == list@.contains(entity),
{
    let mut i: usize = 0;
    while i < list.len()
        invariant
            i <= list.len(),
            forall|j: int| 0 <= j < i ==> list@[j] != entity,
        decreases list.len() - i,
    {
        if list[i] == entity {
            return true;
        }
        i += 1;
    }
    false
}

/// Whether every member of `list` is alive.
pub fn all_alive(world: &World, list: &Vec<EntityId>) -> (alive: bool)
    ensures
        alive == all_live(*world, list@),
{
    let mut i: usize = 0;
    while i < list.len()
        invariant
            i <= list.len(),
            forall|j: int| 0 <= j < i ==> world_entities(*world).contains(#[trigger] list@[j]),
        decreases list.len() - i,
    {
        if !raw_is_alive(world, list[i]) {
            return false;
        }
        i += 1;
    }
    true
}

/// How many members of `list` are not in `taken`.
pub fn count_remaining(list: &Vec<EntityId>, taken: &Vec<EntityId>) -> (count: usize)
    ensures
        count == without_members(list@, taken@).len(),
{
    let ghost keep = |child: EntityId| !taken@.contains(child);
    let mut count: usize = 0;
    let mut i: usize = 0;
    proof {
        assert(list@.take(0) =~= Seq::<EntityId>::empty());
        reveal(Seq::filter);
    }
    while i < list.len()
        invariant
            i <= list.len(),
            count <= i,
            keep == (|child: EntityId| !taken@.contains(child)),
            count == list@.take(i as int).filter(keep).len(),
        decreases list.len() - i,
    {
        proof {
            list@.take(i as int).lemma_filter_push(list@[i as int], keep);
            assert(list@.take(i as int + 1) =~= list@.take(i as int).push(list@[i as int]));
        }
        if !contains_entity(taken, list[i]) {
            count += 1;
        }
        i += 1;
    }
    proof {
        assert(list@.take(i as int) =~= list@);
    }
    count
}

/// The children of `entity`, in order.
///
/// Fails with `InvalidEntity` where the entity is dead. An entity without
/// children has the empty list.
pub fn get_children(world: &World, entity: EntityId) -> (outcome: Result<
    Vec<EntityId>,
    BridgeError,
>)
    ensures
        match outcome {
            Ok(list) => children_outcome(*world, entity) == Ok::<Seq<EntityId>, BridgeError>(list@),
            Err(error) => children_outcome(*world, entity) == Err::<Seq<EntityId>, BridgeError>(
                error,
            ),
        },
{
    if !raw_is_alive(world, entity) {
        return Err(BridgeError::InvalidEntity);
    }
    Ok(raw_children(world, entity))
}

/// The parent of `entity`, `None` where it has none.
///
/// Fails with `InvalidEntity` where the entity is dead.
pub fn get_parent(world: &World, entity: EntityId) -> (outcome: Result<
    Option<EntityId>,
    BridgeError,
>)
    ensures
        outcome == parent_outcome(*world, entity),
{
    if !raw_is_alive(world, entity) {
        return Err(BridgeError::InvalidEntity);
    }
    Ok(raw_parent(world, entity))
}

/// Makes `children` the last children of `parent`, in the order given.
///
/// A child that another parent lists leaves that list; one that `parent`
/// lists already moves to the end. Fails with `InvalidEntity`, and changes
/// nothing, where the parent or a child is dead or the parent is among the
/// children.
pub fn attach_children(world: &mut World, parent: EntityId, children: &Vec<EntityId>) -> (outcome:
    Result<(), BridgeError>)
    ensures
        adopt_outcome(
            *old(world),
            *final(world),
            parent,
            remaining_len(*old(world), parent, children@) as int,
            children@,
            outcome,
        ),
{
    if !raw_is_alive(world, parent) || !all_alive(world, children) || contains_entity(
        children,
        parent,
    ) {
        return Err(BridgeError::InvalidEntity);
    }
    raw_push_children(world, parent, children);
    Ok(())
}

/// Makes `child` the last child of `parent`. See [`attach_children`].
pub fn attach_child(world: &mut World, parent: EntityId, child: EntityId) -> (outcome: Result<
    (),
    BridgeError,
>)
    ensures
        adopt_outcome(
            *old(world),
            *final(world),
            parent,
            remaining_len(*old(world), parent, seq![child]) as int,
            seq![child],
            outcome,
        ),
{
    let mut children: Vec<EntityId> = Vec::new();
    children.push(child);
    assert(children@ =~= seq![child]);
    attach_children(world, parent, &children)
}

/// Puts `children` into the list of `parent` at `index`, in the order
/// given.
///
/// The index counts in what remains of the list once the members of
/// `children` have left it. An index beyond the end of that list is no
/// error: it means the end. Fails with `InvalidEntity`, and changes
/// nothing, where the parent or a child is dead or the parent is among the
/// children.
pub fn insert_children_at(
    world: &mut World,
    parent: EntityId,
    index: usize,
    children: &Vec<EntityId>,
) -> (outcome: Result<(), BridgeError>)
    ensures
        adopt_outcome(
            *old(world),
            *final(world),
            parent,
            clamped(index, remaining_len(*old(world), parent, children@)),
            children@,
            outcome,
        ),
{
    if !raw_is_alive(world, parent) || !all_alive(world, children) || contains_entity(
        children,
        parent,
    ) {
        return Err(BridgeError::InvalidEntity);
    }
    let current = raw_children(world, parent);
    let remaining = count_remaining(&current, children);
    let place = if index <= remaining {
        index
    } else {
        remaining
    };
    raw_insert_children(world, parent, place, children);
    Ok(())
}

/// Puts `child` into the list of `parent` at `index`. See
/// [`insert_children_at`].
pub fn insert_child_at(
    world: &mut World,
    parent: EntityId,
    index: usize,
    child: EntityId,
) -> (outcome: Result<(), BridgeError>)
    ensures
        adopt_outcome(
            *old(world),
            *final(world),
            parent,
            clamped(index, remaining_len(*old(world), parent, seq![child])),
            seq![child],
            outcome,
        ),
{
    let mut children: Vec<EntityId> = Vec::new();
    children.push(child);
    assert(children@ =~= seq![child]);
    insert_children_at(world, parent, index, &children)
}

/// Removes `children` from the list of `parent`.
///
/// A child that the list holds loses its parent link; for one that the
/// list does not hold nothing happens. Fails with `InvalidEntity`, and
/// changes nothing, where the parent or a child is dead.
pub fn detach_children(world: &mut World, parent: EntityId, children: &Vec<EntityId>) -> (outcome:
    Result<(), BridgeError>)
    ensures
        detach_outcome(*old(world), *final(world), parent, children@, outcome),
{
    if !raw_is_alive(world, parent) || !all_alive(world, children) {
        return Err(BridgeError::InvalidEntity);
    }
    raw_remove_children(world, parent, children);
    Ok(())
}

/// Removes `child` from the list of `parent`. See [`detach_children`].
pub fn detach_child(world: &mut World, parent: EntityId, child: EntityId) -> (outcome: Result<
    (),
    BridgeError,
>)
    ensures
        detach_outcome(*old(world), *final(world), parent, seq![child], outcome),
{
    let mut children: Vec<EntityId> = Vec::new();
    children.push(child);
    assert(children@ =~= seq![child]);
    detach_children(world, parent, &children)
}

/// `root` and its live descendants, each once, `root` first, in the order
/// in which a depth-first walk of the child lists meets them. Empty where
/// `root` is dead.
///
/// The walk keeps the entities that it has met, so it ends on any graph,
/// cycles included.
pub fn collect_subtree(world: &World, root: EntityId) -> (found: Vec<EntityId>)
    ensures
        found@.no_duplicates(),
        found@.to_set() == subtree(*world, root),
        world_entities(*world).contains(root) ==> found@.len() > 0 && found@[0] == root,
{
    let mut found: Vec<EntityId> = Vec::new();
    let mut pending: Vec<EntityId> = Vec::new();
    if !raw_is_alive(world, root) {
        proof {
            assert forall|entity: EntityId| !descends(*world, root, entity) by {
                if descends(*world, root, entity) {
                    let depth = choose|depth: nat| reaches(*world, root, entity, depth);
                    lemma_root_is_alive(*world, root, entity, depth);
                }
            }
            assert(found@.to_set() =~= subtree(*world, root));
        }
        return found;
    }
    found.push(root);
    pending.push(root);
    proof {
        assert(reaches(*world, root, root, 0));
        assert(found@ =~= seq![root]);
        assert(pending@ =~= seq![root]);
        assert(pending@[0] == root);
        lemma_distinct_live_bound(*world, found@);
    }
    while pending.len() > 0
        invariant
            found@.len() > 0,
            found@[0] == root,
            found@.no_duplicates(),
            pending@.no_duplicates(),
            world_entities(*world).finite(),
            found@.len() <= world_entities(*world).len(),
            forall|i: int| 0 <= i < found@.len() ==> descends(*world, root, #[trigger] found@[i]),
            forall|i: int| 0 <= i < pending@.len() ==> found@.contains(#[trigger] pending@[i]),
            forall|i: int|
                0 <= i < found@.len() ==> pending@.contains(#[trigger] found@[i]) || expanded(
                    *world,
                    found@,
                    found@[i],
                ),
        decreases 2 * (world_entities(*world).len() - found@.len()) + pending@.len(),
    {
        let ghost found_before = found@;
        let ghost pending_before = pending@;
        let node = pending.pop().unwrap();
        proof {
            assert(node == pending_before[pending_before.len() - 1]);
            assert(found@.contains(node));
            let at = choose|i: int| 0 <= i < found@.len() && found@[i] == node;
            assert(descends(*world, root, found@[at]));
            let depth = choose|depth: nat| reaches(*world, root, node, depth);
            lemma_reached_is_alive(*world, root, node, depth);
            assert(!pending@.contains(node)) by {
                if pending@.contains(node) {
                    let j = choose|j: int| 0 <= j < pending@.len() && pending@[j] == node;
                    assert(pending_before[j] == node);
                }
            }
            assert forall|i: int| 0 <= i < found@.len() implies found@[i] == node
                || pending@.contains(#[trigger] found@[i]) || expanded(
                *world,
                found@,
                found@[i],
            ) by {
                if pending_before.contains(found@[i]) && found@[i] != node {
                    let j = choose|j: int|
                        0 <= j < pending_before.len() && pending_before[j] == found@[i];
                    assert(pending@[j] == found@[i]);
                }
            }
        }
        let kids = raw_children(world, node);
        let mut k: usize = 0;
        while k < kids.len()
            invariant
                k <= kids.len(),
                kids@ == children_seq(*world, node),
                found@.len() > 0,
                found@[0] == root,
                found@.no_duplicates(),
                pending@.no_duplicates(),
                world_entities(*world).finite(),
                found@.len() <= world_entities(*world).len(),
                descends(*world, root, node),
                found@.contains(node),
                !pending@.contains(node),
                found@.len() - found_before.len() == pending@.len() - (pending_before.len() - 1),
                found@.len() >= found_before.len(),
                forall|i: int|
                    0 <= i < found@.len() ==> descends(*world, root, #[trigger] found@[i]),
                forall|i: int| 0 <= i < pending@.len() ==> found@.contains(#[trigger] pending@[i]),
                forall|i: int|
                    0 <= i < found@.len() ==> found@[i] == node || pending@.contains(
                        #[trigger] found@[i],
                    ) || expanded(*world, found@, found@[i]),
                forall|j: int|
                    0 <= j < k && world_entities(*world).contains(#[trigger] kids@[j])
                        ==> found@.contains(kids@[j]),
            decreases kids.len() - k,
        {
            let kid = kids[k];
            if raw_is_alive(world, kid) && !contains_entity(&found, kid) {
                let ghost found_inner = found@;
                let ghost pending_inner = pending@;
                found.push(kid);
                pending.push(kid);
                proof {
                    lemma_push_contains(found_inner, kid);
                    lemma_push_contains(pending_inner, kid);
                    assert(kids@.contains(kid));
                    let depth = choose|depth: nat| reaches(*world, root, node, depth);
                    lemma_reaches_child(*world, root, node, kid, depth);
                    assert(!pending_inner.contains(kid)) by {
                        if pending_inner.contains(kid) {
                            let j = choose|j: int|
                                0 <= j < pending_inner.len() && pending_inner[j] == kid;
                            assert(found_inner.contains(pending_inner[j]));
                        }
                    }
                    assert(kid != node);
                    assert forall|i: int| 0 <= i < found@.len() implies found@[i] == node
                        || pending@.contains(#[trigger] found@[i]) || expanded(
                        *world,
                        found@,
                        found@[i],
                    ) by {
                        if i < found_inner.len() {
                            assert(found@[i] == found_inner[i]);
                            if expanded(*world, found_inner, found_inner[i]) {
                                assert(expanded(*world, found@, found@[i]));
                            }
                        }
                    }
                    assert forall|i: int| 0 <= i < found@.len() implies descends(
                        *world,
                        root,
                        #[trigger] found@[i],
                    ) by {
                        if i < found_inner.len() {
                            assert(found@[i] == found_inner[i]);
                        }
                    }
                    assert forall|i: int| 0 <= i < pending@.len() implies found@.contains(
                        #[trigger] pending@[i],
                    ) by {
                        if i < pending_inner.len() {
                            assert(pending@[i] == pending_inner[i]);
                            assert(found_inner.contains(pending_inner[i]));
                        }
                    }
                    assert(all_live(*world, found@)) by {
                        assert forall|i: int| 0 <= i < found@.len() implies world_entities(
                            *world,
                        ).contains(#[trigger] found@[i]) by {
                            let depth = choose|depth: nat| reaches(*world, root, found@[i], depth);
                            lemma_reached_is_alive(*world, root, found@[i], depth);
                        }
                    }
                    lemma_distinct_live_bound(*world, found@);
                }
            }
            k += 1;
        }
        proof {
            assert(expanded(*world, found@, node)) by {
                assert forall|child: EntityId|
                    #[trigger] children_seq(*world, node).contains(child) && world_entities(
                        *world,
                    ).contains(child) implies found@.contains(child) by {
                    let j = choose|j: int| 0 <= j < kids@.len() && kids@[j] == child;
                    assert(world_entities(*world).contains(kids@[j]));
                }
            }
        }
    }
    proof {
        let set = found@.to_set();
        assert(closed_under_children(*world, set)) by {
            assert forall|node: EntityId, child: EntityId|
                set.contains(node) && #[trigger] children_seq(*world, node).contains(child)
                    && world_entities(*world).contains(child) implies set.contains(child) by {
                let i = choose|i: int| 0 <= i < found@.len() && found@[i] == node;
                assert(pending@.contains(found@[i]) || expanded(*world, found@, found@[i]));
                assert(expanded(*world, found@, node));
            }
        }
        assert forall|entity: EntityId| set.contains(entity) == descends(
            *world,
            root,
            entity,
        ) by {
            if descends(*world, root, entity) {
                let depth = choose|depth: nat| reaches(*world, root, entity, depth);
                lemma_closed_set_holds_reached(*world, root, set, entity, depth);
            }
            if set.contains(entity) {
                let i = choose|i: int| 0 <= i < found@.len() && found@[i] == entity;
                assert(descends(*world, root, found@[i]));
            }
        }
        assert(set =~= subtree(*world, root));
    }
    found
}

/// The members of a stretch of a list that grew by one entry.
proof fn lemma_stretch_grows(list: Seq<EntityId>, from: int, to: int)
    requires
        0 <= from <= to < list.len(),
    ensures
        list.subrange(from, to + 1).to_set() == list.subrange(from, to).to_set().insert(list[to]),
{
    let shorter = list.subrange(from, to);
    let longer = list.subrange(from, to + 1);
    assert(longer =~= shorter.push(list[to]));
    lemma_push_contains(shorter, list[to]);
    assert(longer.to_set() =~= shorter.to_set().insert(list[to]));
}

/// Every member of the subtree of `root` is alive.
proof fn lemma_subtree_is_alive(world: World, root: EntityId, list: Seq<EntityId>)
    requires
        list.to_set() == subtree(world, root),
    ensures
        all_live(world, list),
{
    assert forall|i: int| 0 <= i < list.len() implies world_entities(world).contains(
        #[trigger] list[i],
    ) by {
        assert(list.to_set().contains(list[i]));
        let depth = choose|depth: nat| reaches(world, root, list[i], depth);
        lemma_reached_is_alive(world, root, list[i], depth);
    }
}

/// Despawns the members of `list` from position `from` on.
fn despawn_listed(world: &mut World, list: &Vec<EntityId>, from: usize)
    requires
        from <= list@.len(),
        list@.no_duplicates(),
        all_live(*old(world), list@),
    ensures
        swept(
            *old(world),
            *final(world),
            list@.subrange(from as int, list@.len() as int).to_set(),
            from < list@.len(),
        ),
{
    let mut i: usize = from;
    proof {
        let none = list@.subrange(from as int, from as int).to_set();
        assert(none =~= Set::<EntityId>::empty());
        assert(world_entities(*world) =~= world_entities(*world).difference(none));
        assert(world_components(*world) =~= components_outside(world_components(*world), none));
        assert(world_children(*world) =~= world_children(*world).remove_keys(none));
        assert(world_parents(*world) =~= world_parents(*world).remove_keys(none));
    }
    while i < list.len()
        invariant
            from <= i <= list@.len(),
            list@.no_duplicates(),
            all_live(*old(world), list@),
            swept(*old(world), *world, list@.subrange(from as int, i as int).to_set(), from < i),
        decreases list.len() - i,
    {
        let ghost gone = list@.subrange(from as int, i as int).to_set();
        let ghost during = *world;
        let entity = list[i];
        proof {
            assert(world_entities(*old(world)).contains(list@[i as int]));
            assert(!gone.contains(entity)) by {
                if gone.contains(entity) {
                    let stretch = list@.subrange(from as int, i as int);
                    let j = choose|j: int| 0 <= j < stretch.len() && stretch[j] == entity;
                    assert(list@[from + j] == list@[i as int]);
                }
            }
        }
        raw_despawn(world, entity);
        proof {
            lemma_stretch_grows(list@, from as int, i as int);
            let more = gone.insert(entity);
            let reserved = world_reserved(*old(world));
            assert(world_entities(*world) =~= settled_entities(*old(world)).difference(more));
            assert(world_components(*world) =~= components_outside(
                world_components(*old(world)),
                more,
            ));
            assert(world_children(*world) =~= world_children(*old(world)).remove_keys(more));
            assert(world_parents(*world) =~= world_parents(*old(world)).remove_keys(more));
            assert(bare(*world, reserved)) by {
                assert forall|id: EntityId| #[trigger] reserved.contains(id) implies {
                    &&& forall|path: Seq<char>|
                        !#[trigger] world_components(*world).contains_key((id, path))
                    &&& !world_children(*world).contains_key(id)
                    &&& !world_parents(*world).contains_key(id)
                } by {
                    if from < i {
                        assert(bare(during, reserved));
                    } else {
                        assert(world_reserved(during) == reserved);
                    }
                }
            }
        }
        i += 1;
    }
}

/// Despawns `entity` and all its live descendants.
///
/// The walk follows the child lists depth-first and keeps track of what it
/// has met, so a cycle in the links ends it instead of trapping it. Before
/// anything is despawned, `entity` leaves the child list of its parent. The
/// despawned entities take their own links with them.
///
/// Fails with `InvalidEntity`, and changes nothing, where `entity` is dead.
pub fn despawn_recursive(world: &mut World, entity: EntityId) -> (outcome: Result<(), BridgeError>)
    ensures
        despawn_recursive_outcome(*old(world), *final(world), entity, outcome),
{
    if !raw_is_alive(world, entity) {
        return Err(BridgeError::InvalidEntity);
    }
    let doomed = collect_subtree(world, entity);
    proof {
        lemma_subtree_is_alive(*world, entity, doomed@);
    }
    match raw_parent(world, entity) {
        Some(parent) => {
            if raw_is_alive(world, parent) {
                let mut only: Vec<EntityId> = Vec::new();
                only.push(entity);
                assert(only@ =~= seq![entity]);
                raw_remove_children(world, parent, &only);
            }
        },
        None => {},
    }
    let ghost detached = *world;
    despawn_listed(world, &doomed, 0);
    proof {
        let before = *old(world);
        let gone = subtree(before, entity);
        assert(doomed@.subrange(0, doomed@.len() as int) =~= doomed@);
        assert(gone.contains(entity)) by {
            assert(reaches(before, entity, entity, 0));
        }
        assert forall|other: EntityId| !gone.contains(other) implies #[trigger] parent_opt(
            *world,
            other,
        ) == parent_opt(before, other) by {
            assert(parent_opt(*world, other) == parent_opt(detached, other));
            assert(other != entity);
            assert(seq![entity].contains(other) ==> other == entity);
        }
        assert forall|other: EntityId| !gone.contains(other) implies #[trigger] children_seq(
            *world,
            other,
        ) == if parent_opt(before, entity) == Some(other) && world_entities(before).contains(
            other,
        ) {
            without_members(children_seq(before, other), seq![entity])
        } else {
            children_seq(before, other)
        } by {
            assert(children_seq(*world, other) == children_seq(detached, other));
        }
        assert(doomed@.len() > 0);
        assert(removed_from(before, *world, gone, true));
    }
    Ok(())
}

/// Despawns all live descendants of `entity` and keeps `entity` itself.
///
/// The walk is that of [`despawn_recursive`]. Afterwards `entity` has no
/// children; its own parent link is untouched.
///
/// Fails with `InvalidEntity`, and changes nothing, where `entity` is dead.
pub fn despawn_children_recursive(world: &mut World, entity: EntityId) -> (outcome: Result<
    (),
    BridgeError,
>)
    ensures
        despawn_children_outcome(*old(world), *final(world), entity, outcome),
{
    if !raw_is_alive(world, entity) {
        return Err(BridgeError::InvalidEntity);
    }
    let doomed = collect_subtree(world, entity);
    proof {
        lemma_subtree_is_alive(*world, entity, doomed@);
    }
    let _ = raw_take_children(world, entity);
    let ghost cleared = *world;
    despawn_listed(world, &doomed, 1);
    proof {
        let before = *old(world);
        let gone = subtree(before, entity).remove(entity);
        let rest = doomed@.subrange(1, doomed@.len() as int);
        assert(rest.to_set() =~= gone) by {
            assert forall|other: EntityId| rest.to_set().contains(other) == gone.contains(
                other,
            ) by {
                if rest.to_set().contains(other) {
                    let j = choose|j: int| 0 <= j < rest.len() && rest[j] == other;
                    assert(doomed@[j + 1] == other);
                    assert(doomed@.to_set().contains(other));
                    assert(doomed@[0] == entity);
                }
                if gone.contains(other) {
                    assert(doomed@.to_set().contains(other));
                    let j = choose|j: int| 0 <= j < doomed@.len() && doomed@[j] == other;
                    assert(j != 0);
                    assert(rest[j - 1] == other);
                }
            }
        }
        assert forall|other: EntityId| !gone.contains(other) implies #[trigger] parent_opt(
            *world,
            other,
        ) == parent_opt(before, other) by {
            assert(parent_opt(*world, other) == parent_opt(cleared, other));
        }
        assert forall|other: EntityId| !gone.contains(other) implies #[trigger] children_seq(
            *world,
            other,
        ) == if other == entity {
            Seq::<EntityId>::empty()
        } else {
            children_seq(before, other)
        } by {
            assert(children_seq(*world, other) == children_seq(cleared, other));
        }
        assert((1 < doomed@.len()) == !(gone =~= Set::<EntityId>::empty())) by {
            if 1 < doomed@.len() {
                assert(rest[0] == doomed@[1]);
                assert(rest.to_set().contains(rest[0]));
            } else {
                assert(rest =~= Seq::<EntityId>::empty());
            }
        }
        assert(removed_from(before, *world, gone, 1 < doomed@.len()));
    }
    Ok(())
}

/// The two sides of the hierarchy agree around the members of `set`: an
/// entity that lists a live member as its child is named in that member's
/// parent link, and a member that a live entity names as its parent lists
/// that entity. Links that touch no member may be as they will.
pub open spec fn links_agree_around(world: World, set: Set<EntityId>) -> bool {
    &&& forall|parent: EntityId, child: EntityId|
        set.contains(child) && #[trigger] children_seq(world, parent).contains(child)
            && world_entities(world).contains(child) ==> parent_opt(world, child) == Some(parent)
    &&& forall|parent: EntityId, child: EntityId|
        set.contains(parent) && world_entities(world).contains(child) && parent_opt(world, child)
            == Some(parent) ==> #[trigger] children_seq(world, parent).contains(child)
}

/// An index at or beyond the end of what remains of the list puts the new
/// children behind all that remain.
pub proof fn law_index_beyond_end_appends(list: Seq<EntityId>, index: usize, added: Seq<EntityId>)
    requires
        index >= without_members(list, added).len(),
    ensures
        spliced(
            without_members(list, added),
            clamped(index, without_members(list, added).len()),
            added,
        ) == without_members(list, added) + added,
{
    let kept = without_members(list, added);
    assert(kept.subrange(0, kept.len() as int) =~= kept);
    assert(kept.subrange(kept.len() as int, kept.len() as int) =~= Seq::<EntityId>::empty());
    assert(spliced(kept, kept.len() as int, added) =~= kept + added);
}

/// After a recursive despawn every entity of the subtree is dead, so that
/// any later access to it is refused. If the two sides of the hierarchy
/// agreed around the subtree before, no survivor is left with a link to a
/// despawned entity: none lists one as its child and none names one as its
/// parent. A malformed link elsewhere in the world does not matter.
pub proof fn law_recursive_despawn_leaves_no_dangling_link(
    before: World,
    after: World,
    entity: EntityId,
    gone: EntityId,
    survivor: EntityId,
)
    requires
        despawn_recursive_outcome(before, after, entity, Ok(())),
        subtree(before, entity).contains(gone),
        world_entities(after).contains(survivor),
    ensures
        !world_entities(after).contains(gone),
        children_outcome(after, gone) == Err::<Seq<EntityId>, BridgeError>(
            BridgeError::InvalidEntity,
        ),
        parent_outcome(after, gone) == Err::<Option<EntityId>, BridgeError>(
            BridgeError::InvalidEntity,
        ),
        forall|path: Seq<char>|
            is_component_type(after, path) ==> #[trigger] has_outcome(after, gone, path) == Err::<
                bool,
                BridgeError,
            >(BridgeError::InvalidEntity),
        links_agree_around(before, subtree(before, entity)) ==> !children_seq(
            after,
            survivor,
        ).contains(gone),
        links_agree_around(before, subtree(before, entity)) ==> parent_opt(after, survivor)
            != Some(gone),
{
    let doomed = subtree(before, entity);
    assert(!doomed.contains(survivor));
    if !world_entities(before).contains(survivor) {
        // The survivor was a reserved id: it came to life without links.
        assert(world_reserved(before).contains(survivor));
        assert(!world_children(after).contains_key(survivor));
        assert(!world_parents(after).contains_key(survivor));
    }
    let depth = choose|depth: nat| reaches(before, entity, gone, depth);
    lemma_reached_is_alive(before, entity, gone, depth);
    if links_agree_around(before, doomed) {
        if parent_opt(after, survivor) == Some(gone) {
            assert(parent_opt(before, survivor) == Some(gone));
            assert(children_seq(before, gone).contains(survivor));
            lemma_reaches_child(before, entity, gone, survivor, depth);
        }
        if children_seq(after, survivor).contains(gone) {
            let listed = children_seq(before, survivor);
            if parent_opt(before, entity) == Some(survivor) {
                let only = seq![entity];
                listed.lemma_filter_contains_rev(|child: EntityId| !only.contains(child), gone);
                let at = choose|at: int|
                    0 <= at < without_members(listed, only).len() && without_members(
                        listed,
                        only,
                    )[at] == gone;
                listed.lemma_filter_pred(|child: EntityId| !only.contains(child), at);
                assert(only[0] == entity);
                assert(gone != entity);
            }
            assert(listed.contains(gone));
            assert(parent_opt(before, gone) == Some(survivor));
            if depth == 0 {
                assert(gone == entity);
            } else {
                let via = choose|via: EntityId|
                    reaches(before, entity, via, (depth - 1) as nat) && #[trigger] children_seq(
                        before,
                        via,
                    ).contains(gone);
                assert(descends(before, entity, via));
                assert(parent_opt(before, gone) == Some(via));
            }
        }
    }
}

} // verus!
