//! Queries: the entities that hold all of some component types and none of
//! some others, with a snapshot of the components asked for.
//!
//! A [`QueryBuilder`] collects the filter. Building it reads the world once
//! and copies what matches; the rows and the [`QueryCursor`] over them hold
//! no reference to the world and never read it again.

use crate::ecs::{
    is_component_type, raw_entity_ids, raw_get_component, raw_has_component, raw_lookup_path,
    world_components, world_entities, world_iteration,
};
use crate::types::{BridgeError, DynamicValue, EntityId, TypeHandle, ValueFacts};
use bevy::ecs::world::World;
use vstd::prelude::*;

verus! {

/// The model of a [`QueryResult`].
pub struct RowFacts {
    pub entity: EntityId,
    /// One value for each required type, in the order of the filter.
    pub values: Seq<ValueFacts>,
}

/// One row of a query: an entity that matched, with a snapshot of each
/// required component, in the order in which the filter names them.
#[derive(Debug)]
pub struct QueryResult {
    entity: EntityId,
    values: Vec<DynamicValue>,
}

/// The models of some values.
pub open spec fn value_views(values: Seq<DynamicValue>) -> Seq<ValueFacts> {
    Seq::new(values.len(), |i: int| values[i]@)
}

/// The models of some rows.
pub open spec fn row_views(rows: Seq<QueryResult>) -> Seq<RowFacts> {
    Seq::new(rows.len(), |i: int| rows[i]@)
}

/// The full paths of some types.
pub open spec fn paths_of(types: Seq<TypeHandle>) -> Seq<Seq<char>> {
    Seq::new(types.len(), |i: int| types[i]@.full_path)
}

impl View for QueryResult {
    type V = RowFacts;

    closed spec fn view(&self) -> RowFacts {
        RowFacts { entity: self.entity, values: value_views(self.values@) }
    }
}

impl QueryResult {
    /// The entity that matched.
    pub fn entity(&self) -> (entity: EntityId)
        ensures
            entity == self@.entity,
    {
        self.entity
    }

    /// The number of values in the row.
    pub fn len(&self) -> (len: usize)
        ensures
            len == self@.values.len(),
    {
        self.values.len()
    }

    /// The value at `index`, `None` beyond the end of the row.
    pub fn value(&self, index: usize) -> (value: Option<&DynamicValue>)
        ensures
            index < self@.values.len() ==> (value matches Some(found) && found@
                == self@.values[index as int]),
            index >= self@.values.len() ==> value is None,
    {
        if index < self.values.len() {
            Some(&self.values[index])
        } else {
            None
        }
    }

}

impl Clone for QueryResult {
    fn clone(&self) -> (copy: QueryResult)
        ensures
            copy@ == self@,
    {
        let mut values: Vec<DynamicValue> = Vec::new();
        let mut i: usize = 0;
        while i < self.values.len()
            invariant
                i <= self.values@.len(),
                values@.len() == i,
                forall|j: int| 0 <= j < i ==> values@[j]@ == self.values@[j]@,
            decreases self.values.len() - i,
        {
            values.push(self.values[i].clone());
            i += 1;
        }
        assert(value_views(values@) =~= value_views(self.values@));
        QueryResult { entity: self.entity, values }
    }
}

/// Some member of `required` is also a member of `excluded`.
pub open spec fn ambiguous(required: Seq<Seq<char>>, excluded: Seq<Seq<char>>) -> bool {
    exists|i: int| 0 <= i < required.len() && excluded.contains(#[trigger] required[i])
}

/// The registry knows every member of `paths` as a component type.
pub open spec fn all_components(world: World, paths: Seq<Seq<char>>) -> bool {
    forall|i: int| 0 <= i < paths.len() ==> is_component_type(world, #[trigger] paths[i])
}

/// The entity holds every required component and no excluded one.
pub open spec fn matches_filter(
    world: World,
    entity: EntityId,
    required: Seq<Seq<char>>,
    excluded: Seq<Seq<char>>,
) -> bool {
    &&& forall|i: int|
        0 <= i < required.len() ==> world_components(world).contains_key(
            (entity, #[trigger] required[i]),
        )
    &&& forall|i: int|
        0 <= i < excluded.len() ==> !world_components(world).contains_key(
            (entity, #[trigger] excluded[i]),
        )
}

/// The test that a query applies to each entity.
pub open spec fn filter_of(world: World, required: Seq<Seq<char>>, excluded: Seq<Seq<char>>)
    -> spec_fn(EntityId) -> bool {
    |entity: EntityId| matches_filter(world, entity, required, excluded)
}

/// The row that a query hands out for an entity that matched.
pub open spec fn row_of(world: World, entity: EntityId, required: Seq<Seq<char>>) -> RowFacts {
    RowFacts {
        entity,
        values: Seq::new(
            required.len(),
            |i: int|
                ValueFacts {
                    type_path: required[i],
                    text: world_components(world)[(entity, required[i])],
                },
        ),
    }
}

/// The rows of a query: the live entities that match, in storage order.
pub open spec fn matching_rows(world: World, required: Seq<Seq<char>>, excluded: Seq<Seq<char>>)
    -> Seq<RowFacts> {
    let matched = world_iteration(world).filter(filter_of(world, required, excluded));
    Seq::new(matched.len(), |i: int| row_of(world, matched[i], required))
}

/// What building a query returns.
///
/// A filter that requires and excludes one type is refused before anything
/// else is looked at. Next, every type that the filter names must be known
/// to the registry as a component.
pub open spec fn build_outcome(world: World, required: Seq<Seq<char>>, excluded: Seq<Seq<char>>)
    -> Result<Seq<RowFacts>, BridgeError> {
    if ambiguous(required, excluded) {
        Err(BridgeError::AmbiguousFilter)
    } else if !all_components(world, required) || !all_components(world, excluded) {
        Err(BridgeError::NotAComponent)
    } else {
        Ok(matching_rows(world, required, excluded))
    }
}

/// The model of what a build handed out.
pub open spec fn built_facts(outcome: Result<Vec<QueryResult>, BridgeError>) -> Result<
    Seq<RowFacts>,
    BridgeError,
> {
    match outcome {
        Ok(rows) => Ok(row_views(rows@)),
        Err(error) => Err(error),
    }
}

/// `list` with those members of `added` put behind it that it does not hold
/// yet, each once, in the order of `added`.
pub open spec fn merged(list: Seq<Seq<char>>, added: Seq<Seq<char>>) -> Seq<Seq<char>>
    decreases added.len(),
{
    if added.len() == 0 {
        list
    } else {
        let sofar = merged(list, added.drop_last());
        if sofar.contains(added.last()) {
            sofar
        } else {
            sofar.push(added.last())
        }
    }
}

/// Whether `types` holds the type of `ty`.
fn holds_type(types: &Vec<TypeHandle>, ty: &TypeHandle) -> (held: bool)
    ensures
        held == paths_of(types@).contains(ty@.full_path),
{
    let mut i: usize = 0;
    while i < types.len()
        invariant
            i <= types@.len(),
            forall|j: int| 0 <= j < i ==> paths_of(types@)[j] != ty@.full_path,
        decreases types.len() - i,
    {
        if types[i].same_type(ty) {
            assert(paths_of(types@)[i as int] == ty@.full_path);
            return true;
        }
        i += 1;
    }
    false
}

/// Puts behind `list` the members of `added` that it does not hold yet.
fn merge_types(list: &mut Vec<TypeHandle>, added: &Vec<TypeHandle>)
    ensures
        paths_of(final(list)@) == merged(paths_of(old(list)@), paths_of(added@)),
{
    let mut i: usize = 0;
    assert(paths_of(added@).take(0) =~= Seq::<Seq<char>>::empty());
    while i < added.len()
        invariant
            i <= added@.len(),
            paths_of(list@) == merged(paths_of(old(list)@), paths_of(added@).take(i as int)),
        decreases added.len() - i,
    {
        let ghost before = list@;
        let ghost prefix = paths_of(added@).take(i as int);
        let ghost longer = paths_of(added@).take(i as int + 1);
        proof {
            assert(longer.drop_last() =~= prefix);
            assert(longer.last() == added@[i as int]@.full_path);
        }
        if !holds_type(list, &added[i]) {
            list.push(added[i].clone());
            assert(paths_of(list@) =~= paths_of(before).push(added@[i as int]@.full_path));
        }
        i += 1;
    }
    assert(paths_of(added@).take(i as int) =~= paths_of(added@));
}

/// Whether some required type is also excluded.
fn is_ambiguous(required: &Vec<TypeHandle>, excluded: &Vec<TypeHandle>) -> (found: bool)
    ensures
        found == ambiguous(paths_of(required@), paths_of(excluded@)),
{
    let mut i: usize = 0;
    while i < required.len()
        invariant
            i <= required@.len(),
            forall|j: int|
                0 <= j < i ==> !paths_of(excluded@).contains(#[trigger] paths_of(required@)[j]),
        decreases required.len() - i,
    {
        if holds_type(excluded, &required[i]) {
            assert(paths_of(excluded@).contains(paths_of(required@)[i as int]));
            return true;
        }
        i += 1;
    }
    false
}

/// Whether the registry knows every one of `types` as a component.
fn names_components(world: &World, types: &Vec<TypeHandle>) -> (known: bool)
    ensures
        known == all_components(*world, paths_of(types@)),
{
    let mut i: usize = 0;
    while i < types.len()
        invariant
            i <= types@.len(),
            forall|j: int| 0 <= j < i ==> is_component_type(*world, #[trigger] paths_of(types@)[j]),
        decreases types.len() - i,
    {
        let known = match raw_lookup_path(world, types[i].full_path()) {
            Some(found) => found.is_component(),
            None => false,
        };
        if !known {
            assert(!is_component_type(*world, paths_of(types@)[i as int]));
            return false;
        }
        i += 1;
    }
    true
}

/// Whether the entity holds a component of each of `types`, if `wanted`,
/// or of none of them, if not.
fn holds_each(
    world: &World,
    entity: EntityId,
    types: &Vec<TypeHandle>,
    wanted: bool,
) -> (held: bool)
    requires
        world_entities(*world).contains(entity),
        all_components(*world, paths_of(types@)),
    ensures
        held == (forall|i: int|
            0 <= i < types@.len() ==> world_components(*world).contains_key(
                (entity, #[trigger] paths_of(types@)[i]),
            ) == wanted),
{
    let mut i: usize = 0;
    while i < types.len()
        invariant
            i <= types@.len(),
            world_entities(*world).contains(entity),
            all_components(*world, paths_of(types@)),
            forall|j: int|
                0 <= j < i ==> world_components(*world).contains_key(
                    (entity, #[trigger] paths_of(types@)[j]),
                ) == wanted,
        decreases types.len() - i,
    {
        assert(is_component_type(*world, paths_of(types@)[i as int]));
        if raw_has_component(world, entity, types[i].full_path()) != wanted {
            assert(world_components(*world).contains_key((entity, paths_of(types@)[i as int]))
                != wanted);
            return false;
        }
        i += 1;
    }
    true
}

/// The row for an entity that holds every one of `types`.
fn fetch_row(world: &World, entity: EntityId, types: &Vec<TypeHandle>) -> (row: QueryResult)
    requires
        world_entities(*world).contains(entity),
        all_components(*world, paths_of(types@)),
        forall|i: int|
            0 <= i < types@.len() ==> world_components(*world).contains_key(
                (entity, #[trigger] paths_of(types@)[i]),
            ),
    ensures
        row@ == row_of(*world, entity, paths_of(types@)),
{
    let mut values: Vec<DynamicValue> = Vec::new();
    let mut i: usize = 0;
    while i < types.len()
        invariant
            i <= types@.len(),
            values@.len() == i,
            world_entities(*world).contains(entity),
            all_components(*world, paths_of(types@)),
            forall|j: int|
                0 <= j < types@.len() ==> world_components(*world).contains_key(
                    (entity, #[trigger] paths_of(types@)[j]),
                ),
            forall|j: int|
                0 <= j < i ==> values@[j]@ == row_of(*world, entity, paths_of(types@)).values[j],
        decreases types.len() - i,
    {
        assert(is_component_type(*world, paths_of(types@)[i as int]));
        assert(world_components(*world).contains_key((entity, paths_of(types@)[i as int])));
        match raw_get_component(world, entity, types[i].full_path()) {
            Some(value) => {
                values.push(value);
            },
            None => {
                assert(false);
            },
        }
        i += 1;
    }
    assert(value_views(values@) =~= row_of(*world, entity, paths_of(types@)).values);
    QueryResult { entity, values }
}

/// Collects what a query asks for. A new builder asks for every live
/// entity and for no component.
pub struct QueryBuilder {
    required: Vec<TypeHandle>,
    excluded: Vec<TypeHandle>,
}

impl QueryBuilder {
    /// The full paths of the required types, each once, in the order in
    /// which they were first named.
    pub closed spec fn required(&self) -> Seq<Seq<char>> {
        paths_of(self.required@)
    }

    /// The full paths of the excluded types, each once, in the order in
    /// which they were first named.
    pub closed spec fn excluded(&self) -> Seq<Seq<char>> {
        paths_of(self.excluded@)
    }

    pub fn new() -> (builder: QueryBuilder)
        ensures
            builder.required() == Seq::<Seq<char>>::empty(),
            builder.excluded() == Seq::<Seq<char>>::empty(),
    {
        let builder = QueryBuilder { required: Vec::new(), excluded: Vec::new() };
        assert(builder.required() =~= Seq::<Seq<char>>::empty());
        assert(builder.excluded() =~= Seq::<Seq<char>>::empty());
        builder
    }

    /// Requires the given component types. Each row will carry a value for
    /// each required type. A type that is required already is not added
    /// again.
    pub fn with(&mut self, types: &Vec<TypeHandle>)
        ensures
            final(self).required() == merged(old(self).required(), paths_of(types@)),
            final(self).excluded() == old(self).excluded(),
    {
        merge_types(&mut self.required, types);
    }

    /// Excludes the given component types. A type that is excluded already
    /// is not added again.
    pub fn without(&mut self, types: &Vec<TypeHandle>)
        ensures
            final(self).excluded() == merged(old(self).excluded(), paths_of(types@)),
            final(self).required() == old(self).required(),
    {
        merge_types(&mut self.excluded, types);
    }

    /// Evaluates the filter against the world and copies what matches.
    ///
    /// The rows come in the order in which the world's storage hands out
    /// its entities at this moment. Fails with `AmbiguousFilter` where a
    /// type is both required and excluded, else with `NotAComponent` where
    /// the registry does not know one of the types as a component. The
    /// world is only read.
    ///
    /// The storage hands out every live entity once, so no entity has two
    /// rows.
    pub fn build(&self, world: &World) -> (outcome: Result<Vec<QueryResult>, BridgeError>)
        ensures
            built_facts(outcome) == build_outcome(*world, self.required(), self.excluded()),
            outcome is Ok ==> world_iteration(*world).no_duplicates(),
    {
        if is_ambiguous(&self.required, &self.excluded) {
            return Err(BridgeError::AmbiguousFilter);
        }
        if !names_components(world, &self.required) || !names_components(world, &self.excluded) {
            return Err(BridgeError::NotAComponent);
        }
        let ghost required = self.required();
        let ghost excluded = self.excluded();
        let ghost keep = filter_of(*world, required, excluded);
        let ids = raw_entity_ids(world);
        let mut rows: Vec<QueryResult> = Vec::new();
        let mut i: usize = 0;
        proof {
            assert(ids@.take(0) =~= Seq::<EntityId>::empty());
            reveal(Seq::filter);
        }
        while i < ids.len()
            invariant
                i <= ids@.len(),
                ids@ == world_iteration(*world),
                required == paths_of(self.required@),
                excluded == paths_of(self.excluded@),
                keep == filter_of(*world, required, excluded),
                all_components(*world, required),
                all_components(*world, excluded),
                rows@.len() == ids@.take(i as int).filter(keep).len(),
                forall|j: int|
                    0 <= j < rows@.len() ==> (#[trigger] rows@[j])@ == row_of(
                        *world,
                        ids@.take(i as int).filter(keep)[j],
                        required,
                    ),
            decreases ids.len() - i,
        {
            let entity = ids[i];
            proof {
                ids@.take(i as int).lemma_filter_push(entity, keep);
                assert(ids@.take(i as int + 1) =~= ids@.take(i as int).push(entity));
                assert(ids@.contains(entity));
            }
            if holds_each(world, entity, &self.required, true) && holds_each(
                world,
                entity,
                &self.excluded,
                false,
            ) {
                assert(matches_filter(*world, entity, required, excluded));
                rows.push(fetch_row(world, entity, &self.required));
            } else {
                assert(!matches_filter(*world, entity, required, excluded));
            }
            i += 1;
        }
        proof {
            assert(ids@.take(i as int) =~= ids@);
            assert(row_views(rows@) =~= matching_rows(*world, required, excluded));
        }
        Ok(rows)
    }

    /// Builds the query and puts a cursor on its first row.
    pub fn iter(&self, world: &World) -> (outcome: Result<QueryCursor, BridgeError>)
        ensures
            match outcome {
                Ok(cursor) => build_outcome(*world, self.required(), self.excluded()) == Ok::<
                    Seq<RowFacts>,
                    BridgeError,
                >(cursor.rows()) && cursor.position() == 0 && world_iteration(
                    *world,
                ).no_duplicates(),
                Err(error) => build_outcome(*world, self.required(), self.excluded()) == Err::<
                    Seq<RowFacts>,
                    BridgeError,
                >(error),
            },
    {
        match self.build(world) {
            Ok(rows) => Ok(QueryCursor::new(rows)),
            Err(error) => Err(error),
        }
    }
}

/// A position in the rows of a query that was built.
///
/// The cursor owns its rows. Stepping hands them out one by one; past the
/// last row every step reports the end, however often it is asked.
pub struct QueryCursor {
    rows: Vec<QueryResult>,
    position: usize,
}

impl QueryCursor {
    /// The rows, all of them, whatever the position.
    pub closed spec fn rows(&self) -> Seq<RowFacts> {
        row_views(self.rows@)
    }

    /// The number of rows that were handed out since the cursor was made or
    /// last restarted.
    pub closed spec fn position(&self) -> nat {
        if self.position <= self.rows@.len() {
            self.position as nat
        } else {
            self.rows@.len()
        }
    }

    /// `post` is `pre` after a step that returned `row`.
    pub open spec fn stepped(pre: QueryCursor, post: QueryCursor, row: Option<RowFacts>) -> bool {
        &&& post.rows() == pre.rows()
        &&& if pre.position() < pre.rows().len() {
            row == Some(pre.rows()[pre.position() as int]) && post.position() == pre.position() + 1
        } else {
            row is None && post.position() == pre.position()
        }
    }

    /// A cursor on the first of `rows`.
    pub fn new(rows: Vec<QueryResult>) -> (cursor: QueryCursor)
        ensures
            cursor.rows() == row_views(rows@),
            cursor.position() == 0,
    {
        QueryCursor { rows, position: 0 }
    }

    /// The number of rows.
    pub fn len(&self) -> (len: usize)
        ensures
            len == self.rows().len(),
    {
        self.rows.len()
    }

    /// Hands out the row at the cursor and moves on, or reports the end
    /// with `None` and stays.
    pub fn step(&mut self) -> (row: Option<QueryResult>)
        ensures
            Self::stepped(
                *old(self),
                *final(self),
                match row {
                    Some(found) => Some(found@),
                    None => None,
                },
            ),
    {
        if self.position < self.rows.len() {
            let row = self.rows[self.position].clone();
            self.position = self.position + 1;
            Some(row)
        } else {
            None
        }
    }

    /// Puts the cursor back on the first row. The rows are those of the
    /// build; the world is not read again.
    pub fn restart(&mut self)
        ensures
            final(self).rows() == old(self).rows(),
            final(self).position() == 0,
    {
        self.position = 0;
    }
}

/// Filtering a list without duplicates leaves no duplicates.
pub proof fn lemma_filter_keeps_distinct(list: Seq<EntityId>, keep: spec_fn(EntityId) -> bool)
    requires
        list.no_duplicates(),
    ensures
        list.filter(keep).no_duplicates(),
    decreases list.len(),
{
    reveal(Seq::filter);
    if list.len() > 0 {
        let front = list.drop_last();
        lemma_filter_keeps_distinct(front, keep);
        if keep(list.last()) {
            let kept = front.filter(keep);
            if kept.contains(list.last()) {
                front.lemma_filter_contains_rev(keep, list.last());
                let i = choose|i: int| 0 <= i < front.len() && front[i] == list.last();
                assert(list[i] == list[list.len() - 1]);
            }
            assert forall|i: int, j: int|
                0 <= i < kept.push(list.last()).len() && 0 <= j < kept.push(list.last()).len() && i
                    != j implies kept.push(list.last())[i] != kept.push(list.last())[j] by {
                if i < kept.len() && j < kept.len() {
                } else if i < kept.len() {
                    assert(kept.contains(kept[i]));
                } else {
                    assert(kept.contains(kept[j]));
                }
            }
        }
    }
}

/// A filter that requires and excludes one type is refused, whatever else
/// it names and whatever the world holds.
pub proof fn law_ambiguous_filter_is_refused(
    world: World,
    required: Seq<Seq<char>>,
    excluded: Seq<Seq<char>>,
    path: Seq<char>,
)
    requires
        required.contains(path),
        excluded.contains(path),
    ensures
        build_outcome(world, required, excluded) == Err::<Seq<RowFacts>, BridgeError>(
            BridgeError::AmbiguousFilter,
        ),
{
    let i = choose|i: int| 0 <= i < required.len() && required[i] == path;
    assert(excluded.contains(required[i]));
}

/// A query hands out exactly the live entities that hold every required
/// component and no excluded one, each once, and with each the values of
/// its required components in the order of the filter.
pub proof fn law_rows_are_the_matching_entities(
    world: World,
    required: Seq<Seq<char>>,
    excluded: Seq<Seq<char>>,
    rows: Seq<RowFacts>,
)
    requires
        build_outcome(world, required, excluded) == Ok::<Seq<RowFacts>, BridgeError>(rows),
        world_iteration(world).no_duplicates(),
    ensures
        forall|entity: EntityId|
            (exists|i: int| 0 <= i < rows.len() && (#[trigger] rows[i]).entity == entity) <==> (
            world_entities(world).contains(entity) && matches_filter(
                world,
                entity,
                required,
                excluded,
            )),
        forall|i: int, j: int|
            0 <= i < j < rows.len() ==> (#[trigger] rows[i]).entity != (#[trigger] rows[j]).entity,
        forall|i: int|
            0 <= i < rows.len() ==> (#[trigger] rows[i]) == row_of(world, rows[i].entity, required),
{
    let keep = filter_of(world, required, excluded);
    let all = world_iteration(world);
    let matched = all.filter(keep);
    assert forall|entity: EntityId|
        (exists|i: int| 0 <= i < rows.len() && (#[trigger] rows[i]).entity == entity) <==> (
        world_entities(world).contains(entity) && matches_filter(
            world,
            entity,
            required,
            excluded,
        )) by {
        if world_entities(world).contains(entity) && matches_filter(
            world,
            entity,
            required,
            excluded,
        ) {
            assert(keep(entity));
            assert(all.contains(entity));
            let at = choose|at: int| 0 <= at < all.len() && all[at] == entity;
            all.lemma_filter_contains(keep, at);
            assert(matched.contains(entity));
            let i = choose|i: int| 0 <= i < matched.len() && matched[i] == entity;
            assert(rows[i].entity == entity);
        }
        if exists|i: int| 0 <= i < rows.len() && (#[trigger] rows[i]).entity == entity {
            let i = choose|i: int| 0 <= i < rows.len() && (#[trigger] rows[i]).entity == entity;
            assert(matched[i] == entity);
            assert(matched.contains(entity));
            all.lemma_filter_contains_rev(keep, entity);
            all.lemma_filter_pred(keep, i);
        }
    }
    lemma_filter_keeps_distinct(all, keep);
}

/// Past the last row a step reports the end and leaves the cursor where it
/// is, so that the next step reports the end again.
pub proof fn law_exhausted_cursor_stays_exhausted(
    pre: QueryCursor,
    post: QueryCursor,
    row: Option<RowFacts>,
)
    requires
        pre.position() >= pre.rows().len(),
        QueryCursor::stepped(pre, post, row),
    ensures
        row is None,
        post.position() >= post.rows().len(),
        post.position() == pre.position(),
        post.rows() == pre.rows(),
{
}

} // verus!
