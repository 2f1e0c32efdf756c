//! World objects that come and go with the chunks they stand in.
use crate::entity::Entity;
use crate::geometry::{has_column, IVec2, IVec3};
use crate::map::streaming::column_of;
use crate::map::types::ChunkEntityRef;
use crate::names::NameMap;
use crate::scalar::Vector;
use crate::seqs::{
    filter_map, lemma_filter_map_picks, lemma_filter_map_step, lemma_filter_picks, lemma_picks_same,
    lemma_picks_unique, picks,
};
use std::collections::HashMap;
use vstd::prelude::*;

verus! {

broadcast use vstd::std_specs::hash::group_hash_axioms;

/// A world object in a chunk.
#[derive(Debug)]
pub struct ChunkEntityRow {
    pub entity: Entity,
    pub chunk_ref: ChunkEntityRef,
    pub object_id: String,
    pub position: Vector,
}

impl Clone for ChunkEntityRow {
    fn clone(&self) -> (copy: ChunkEntityRow)
        ensures
            copy == *self,
    {
        ChunkEntityRow {
            entity: self.entity,
            chunk_ref: self.chunk_ref,
            object_id: self.object_id.clone(),
            position: self.position,
        }
    }
}

/// A world object as it is saved with its chunk.
#[derive(Debug)]
pub struct WorldObjectSpawn {
    pub object_id: String,
    pub position: Vector,
}

/// The objects of one chunk.
#[derive(Debug)]
pub struct ChunkGroup {
    pub chunk_ref: ChunkEntityRef,
    /// What is saved of the objects.
    pub spawns: Vec<WorldObjectSpawn>,
    /// The objects themselves, in the same order.
    pub entities: Vec<Entity>,
}

/// What is saved of an object, if it is in the given chunk.
pub open spec fn spawn_in(row: ChunkEntityRow, chunk_ref: ChunkEntityRef) -> Option<
    WorldObjectSpawn,
> {
    if row.chunk_ref == chunk_ref {
        Some(WorldObjectSpawn { object_id: row.object_id, position: row.position })
    } else {
        None
    }
}

/// An object, if it is in the given chunk.
pub open spec fn entity_in(row: ChunkEntityRow, chunk_ref: ChunkEntityRef) -> Option<Entity> {
    if row.chunk_ref == chunk_ref {
        Some(row.entity)
    } else {
        None
    }
}

/// Whether `group` holds the objects among `rows` that are in its chunk.
pub open spec fn is_group_of(group: ChunkGroup, rows: Seq<ChunkEntityRow>) -> bool {
    &&& group.spawns@ == filter_map(rows, |r: ChunkEntityRow| spawn_in(r, group.chunk_ref))
    &&& group.entities@ == filter_map(rows, |r: ChunkEntityRow| entity_in(r, group.chunk_ref))
}

/// Whether a group for the given chunk is among `groups`.
pub open spec fn has_chunk_group(groups: Seq<ChunkGroup>, chunk_ref: ChunkEntityRef) -> bool {
    exists|i: int| 0 <= i < groups.len() && (#[trigger] groups[i]).chunk_ref == chunk_ref
}

/// Whether an object among `rows` is in the given chunk.
pub open spec fn chunk_has_object(rows: Seq<ChunkEntityRow>, chunk_ref: ChunkEntityRef) -> bool {
    exists|i: int| 0 <= i < rows.len() && (#[trigger] rows[i]).chunk_ref == chunk_ref
}

/// Whether no two groups are for the same chunk.
pub open spec fn groups_differ(groups: Seq<ChunkGroup>) -> bool {
    forall|i: int, j: int|
        0 <= i < j < groups.len() ==> (#[trigger] groups[i]).chunk_ref != (
        #[trigger] groups[j]).chunk_ref
}

/// Whether `groups` hold the objects of `rows`, one group for each chunk that has any.
pub open spec fn are_groups_of(groups: Seq<ChunkGroup>, rows: Seq<ChunkEntityRow>) -> bool {
    &&& groups_differ(groups)
    &&& forall|i: int| 0 <= i < groups.len() ==> is_group_of(#[trigger] groups[i], rows)
    &&& forall|r: ChunkEntityRef| #[trigger]
        has_chunk_group(groups, r) <==> chunk_has_object(rows, r)
}

/// Whether `groups` hold the objects of `rows`, one group for each chunk that is loaded or has any.
pub open spec fn are_saves_of(
    groups: Seq<ChunkGroup>,
    loaded: Seq<ChunkEntityRef>,
    rows: Seq<ChunkEntityRow>,
) -> bool {
    &&& groups_differ(groups)
    &&& forall|i: int| 0 <= i < groups.len() ==> is_group_of(#[trigger] groups[i], rows)
    &&& forall|r: ChunkEntityRef| #[trigger]
        has_chunk_group(groups, r) <==> loaded.contains(r) || chunk_has_object(rows, r)
}

proof fn lemma_longer_rows(rows: Seq<ChunkEntityRow>, i: int, r: ChunkEntityRef)
    requires
        0 <= i < rows.len(),
    ensures
        chunk_has_object(rows.take(i + 1), r) <==> chunk_has_object(rows.take(i), r)
            || rows[i].chunk_ref == r,
{
    let prefix = rows.take(i);
    let longer = rows.take(i + 1);
    assert(longer[i] == rows[i]);
    if chunk_has_object(prefix, r) {
        let m = choose|m: int| 0 <= m < prefix.len() && (#[trigger] prefix[m]).chunk_ref == r;
        assert(longer[m] == prefix[m]);
    }
    if chunk_has_object(longer, r) {
        let m = choose|m: int| 0 <= m < longer.len() && (#[trigger] longer[m]).chunk_ref == r;
        if m < i {
            assert(prefix[m] == longer[m]);
        }
    }
}

proof fn lemma_one_more_group(before: Seq<ChunkGroup>, after: Seq<ChunkGroup>, r: ChunkEntityRef)
    requires
        after == before || after.len() == before.len() + 1 && after.drop_last() == before,
    ensures
        has_chunk_group(after, r) <==> has_chunk_group(before, r) || after.len() > before.len()
            && after.last().chunk_ref == r,
{
    if after != before {
        if has_chunk_group(before, r) {
            let k = choose|k: int| 0 <= k < before.len() && (#[trigger] before[k]).chunk_ref == r;
            assert(after[k] == after.drop_last()[k]);
        }
        if has_chunk_group(after, r) {
            let k = choose|k: int| 0 <= k < after.len() && (#[trigger] after[k]).chunk_ref == r;
            if k < before.len() {
                assert(before[k] == after.drop_last()[k]);
            }
        }
    }
}

fn find_chunk_group(groups: &Vec<ChunkGroup>, chunk_ref: ChunkEntityRef) -> (found: bool)
    ensures
        found == has_chunk_group(groups@, chunk_ref),
{
    let mut i: usize = 0;
    while i < groups.len()
        invariant
            i <= groups@.len(),
            forall|j: int| 0 <= j < i ==> (#[trigger] groups@[j]).chunk_ref != chunk_ref,
        decreases groups@.len() - i,
    {
        if groups[i].chunk_ref == chunk_ref {
            assert(groups@[i as int].chunk_ref == chunk_ref);
            return true;
        }
        i = i + 1;
    }
    false
}

fn collect_group(rows: &Vec<ChunkEntityRow>, chunk_ref: ChunkEntityRef) -> (group: ChunkGroup)
    ensures
        group.chunk_ref == chunk_ref,
        is_group_of(group, rows@),
{
    let mut spawns: Vec<WorldObjectSpawn> = Vec::new();
    let mut entities: Vec<Entity> = Vec::new();
    let mut i: usize = 0;
    let ghost f = |r: ChunkEntityRow| spawn_in(r, chunk_ref);
    let ghost g = |r: ChunkEntityRow| entity_in(r, chunk_ref);
    assert(rows@.take(0) =~= Seq::empty());
    while i < rows.len()
        invariant
            i <= rows@.len(),
            f == (|r: ChunkEntityRow| spawn_in(r, chunk_ref)),
            g == (|r: ChunkEntityRow| entity_in(r, chunk_ref)),
            spawns@ == filter_map(rows@.take(i as int), f),
            entities@ == filter_map(rows@.take(i as int), g),
        decreases rows@.len() - i,
    {
        proof {
            crate::seqs::lemma_filter_map_step(rows@, i as int, f);
            crate::seqs::lemma_filter_map_step(rows@, i as int, g);
        }
        let row = &rows[i];
        if row.chunk_ref == chunk_ref {
            spawns.push(
                WorldObjectSpawn { object_id: row.object_id.clone(), position: row.position },
            );
            entities.push(row.entity);
        }
        i = i + 1;
    }
    assert(rows@.take(i as int) =~= rows@);
    ChunkGroup { chunk_ref, spawns, entities }
}

/// Adds a group for each chunk that has an object and no group yet.
fn add_groups(groups: &mut Vec<ChunkGroup>, rows: &Vec<ChunkEntityRow>)
    requires
        groups_differ(old(groups)@),
        forall|a: int| 0 <= a < old(groups)@.len() ==> is_group_of(#[trigger] old(groups)@[a], rows@),
    ensures
        groups_differ(final(groups)@),
        forall|a: int|
            0 <= a < final(groups)@.len() ==> is_group_of(#[trigger] final(groups)@[a], rows@),
        forall|r: ChunkEntityRef| #[trigger]
            has_chunk_group(final(groups)@, r) <==> has_chunk_group(old(groups)@, r)
                || chunk_has_object(rows@, r),
{
    let mut i: usize = 0;
    while i < rows.len()
        invariant
            i <= rows@.len(),
            groups_differ(groups@),
            forall|a: int| 0 <= a < groups@.len() ==> is_group_of(#[trigger] groups@[a], rows@),
            forall|r: ChunkEntityRef| #[trigger]
                has_chunk_group(groups@, r) <==> has_chunk_group(old(groups)@, r)
                    || chunk_has_object(rows@.take(i as int), r),
        decreases rows@.len() - i,
    {
        let chunk_ref = rows[i].chunk_ref;
        let ghost before = groups@;
        let ghost longer = rows@.take(i + 1);
        if !find_chunk_group(groups, chunk_ref) {
            groups.push(collect_group(rows, chunk_ref));
        }
        proof {
            assert forall|r: ChunkEntityRef| #[trigger] has_chunk_group(groups@, r)
                <==> has_chunk_group(old(groups)@, r) || chunk_has_object(longer, r) by {
                lemma_longer_rows(rows@, i as int, r);
                assert(groups@ == before || groups@.drop_last() =~= before);
                lemma_one_more_group(before, groups@, r);
            }
        }
        i = i + 1;
    }
    assert(rows@.take(i as int) =~= rows@);
}

/// Groups world objects by the chunk they are in.
pub fn group_by_chunk(rows: &Vec<ChunkEntityRow>) -> (groups: Vec<ChunkGroup>)
    ensures
        are_groups_of(groups@, rows@),
{
    let mut groups: Vec<ChunkGroup> = Vec::new();
    add_groups(&mut groups, rows);
    groups
}

/// The columns that have a level, for each map, by the map's bits.
pub struct LeveledColumns {
    pub maps: HashMap<u64, Vec<IVec2>>,
}

/// Whether an object is evicted: its map is there, and its column has no level on it any more.
pub open spec fn is_evicted(row: ChunkEntityRow, columns: &LeveledColumns) -> bool {
    &&& columns.maps@.dom().contains(row.chunk_ref.map_entity.bits_spec())
    &&& !columns.maps@[row.chunk_ref.map_entity.bits_spec()]@.contains(
        column_of(row.chunk_ref.chunk_pos),
    )
}

/// The objects that are evicted.
pub open spec fn evicted_rows(rows: Seq<ChunkEntityRow>, columns: &LeveledColumns) -> Seq<
    ChunkEntityRow,
> {
    rows.filter(|r: ChunkEntityRow| is_evicted(r, columns))
}

/// The objects that go with their columns, grouped by chunk: each group is saved, and its objects
/// despawned.
pub fn evict_chunk_entities(rows: &Vec<ChunkEntityRow>, columns: &LeveledColumns) -> (groups: Vec<
    ChunkGroup,
>)
    ensures
        are_groups_of(groups@, evicted_rows(rows@, columns)),
{
    let mut evicted: Vec<ChunkEntityRow> = Vec::new();
    let mut i: usize = 0;
    let ghost pred = |r: ChunkEntityRow| is_evicted(r, columns);
    proof {
        crate::seqs::lemma_filter_empty(rows@.take(0), pred);
    }
    while i < rows.len()
        invariant
            i <= rows@.len(),
            pred == (|r: ChunkEntityRow| is_evicted(r, columns)),
            evicted@ == rows@.take(i as int).filter(pred),
        decreases rows@.len() - i,
    {
        proof {
            crate::seqs::lemma_filter_step(rows@, i as int, pred);
        }
        let row = &rows[i];
        if let Some(leveled) = columns.maps.get(&row.chunk_ref.map_entity.to_bits()) {
            let chunk_pos = row.chunk_ref.chunk_pos;
            let col = IVec2 { x: chunk_pos.x, y: chunk_pos.z };
            if !has_column(leveled, col) {
                evicted.push(row.clone());
            }
        }
        i = i + 1;
    }
    assert(rows@.take(i as int) =~= rows@);
    group_by_chunk(&evicted)
}

/// What is saved of the world objects when the server shuts down: those of every loaded chunk, grouped
/// by chunk. One that was destroyed is not there any more, and so not in what is saved, also where it
/// was the last one of its chunk.
///
/// `loaded` holds the chunks that are loaded and whose objects were put into the world.
pub fn save_all_chunk_entities_on_exit(
    exiting: bool,
    loaded: &Vec<ChunkEntityRef>,
    rows: &Vec<ChunkEntityRow>,
) -> (groups: Vec<ChunkGroup>)
    ensures
        exiting ==> are_saves_of(groups@, loaded@, rows@),
        !exiting ==> groups@.len() == 0,
{
    let mut groups: Vec<ChunkGroup> = Vec::new();
    if !exiting {
        return groups;
    }
    let mut i: usize = 0;
    while i < loaded.len()
        invariant
            i <= loaded@.len(),
            groups_differ(groups@),
            forall|a: int| 0 <= a < groups@.len() ==> is_group_of(#[trigger] groups@[a], rows@),
            forall|r: ChunkEntityRef| #[trigger]
                has_chunk_group(groups@, r) <==> loaded@.take(i as int).contains(r),
        decreases loaded@.len() - i,
    {
        let chunk_ref = loaded[i];
        let ghost before = groups@;
        if !find_chunk_group(&groups, chunk_ref) {
            groups.push(collect_group(rows, chunk_ref));
        }
        proof {
            let prefix = loaded@.take(i as int);
            assert(loaded@.take(i + 1) =~= prefix.push(chunk_ref));
            assert forall|r: ChunkEntityRef| #[trigger] has_chunk_group(groups@, r)
                <==> loaded@.take(i + 1).contains(r) by {
                assert(groups@ == before || groups@.drop_last() =~= before);
                lemma_one_more_group(before, groups@, r);
                assert(has_chunk_group(before, r) <==> prefix.contains(r));
                assert(prefix.push(chunk_ref)[i as int] == chunk_ref);
                if prefix.contains(r) {
                    let m = choose|m: int| 0 <= m < prefix.len() && prefix[m] == r;
                    assert(prefix.push(chunk_ref)[m] == r);
                }
            }
        }
        i = i + 1;
    }
    assert(loaded@.take(i as int) =~= loaded@);
    add_groups(&mut groups, rows);
    groups
}

/// A chunk whose objects have all been destroyed is saved without any: none of them comes back.
pub proof fn law_destroyed_objects_stay_away(
    groups: Seq<ChunkGroup>,
    loaded: Seq<ChunkEntityRef>,
    rows: Seq<ChunkEntityRow>,
    chunk_ref: ChunkEntityRef,
)
    requires
        are_saves_of(groups, loaded, rows),
        loaded.contains(chunk_ref),
        !chunk_has_object(rows, chunk_ref),
    ensures
        exists|g: int|
            0 <= g < groups.len() && (#[trigger] groups[g]).chunk_ref == chunk_ref
                && groups[g].spawns@.len() == 0,
{
    assert(has_chunk_group(groups, chunk_ref));
    let g = choose|g: int| 0 <= g < groups.len() && (#[trigger] groups[g]).chunk_ref == chunk_ref;
    assert(is_group_of(groups[g], rows));
    lemma_no_spawns(rows, chunk_ref);
}

proof fn lemma_no_spawns(rows: Seq<ChunkEntityRow>, r: ChunkEntityRef)
    requires
        !chunk_has_object(rows, r),
    ensures
        filter_map(rows, |row: ChunkEntityRow| spawn_in(row, r)).len() == 0,
    decreases rows.len(),
{
    if rows.len() > 0 {
        let init = rows.drop_last();
        assert(rows[rows.len() - 1].chunk_ref != r);
        if chunk_has_object(init, r) {
            let m = choose|m: int| 0 <= m < init.len() && (#[trigger] init[m]).chunk_ref == r;
            assert(rows[m].chunk_ref == r);
        }
        lemma_no_spawns(init, r);
    }
}

/// Every object is in the group of its chunk, and what is saved of it stands at the same place.
pub proof fn law_every_object_is_grouped(
    groups: Seq<ChunkGroup>,
    rows: Seq<ChunkEntityRow>,
    i: int,
)
    requires
        are_groups_of(groups, rows),
        0 <= i < rows.len(),
    ensures
        exists|g: int, k: int|
            0 <= g < groups.len() && 0 <= k < groups[g].entities@.len() && groups[g].chunk_ref
                == rows[i].chunk_ref && #[trigger] groups[g].entities@[k] == rows[i].entity
                && groups[g].spawns@[k] == (WorldObjectSpawn {
                object_id: rows[i].object_id,
                position: rows[i].position,
            }),
{
    let r = rows[i].chunk_ref;
    assert(chunk_has_object(rows, r));
    assert(has_chunk_group(groups, r));
    let g = choose|g: int| 0 <= g < groups.len() && (#[trigger] groups[g]).chunk_ref == r;
    assert(is_group_of(groups[g], rows));
    let k = lemma_place_in_group(rows, r, i);
    assert(groups[g].entities@[k] == rows[i].entity);
}

proof fn lemma_place_in_group(rows: Seq<ChunkEntityRow>, r: ChunkEntityRef, i: int) -> (k: int)
    requires
        0 <= i < rows.len(),
        rows[i].chunk_ref == r,
    ensures
        ({
            let spawns = filter_map(rows, |row: ChunkEntityRow| spawn_in(row, r));
            let entities = filter_map(rows, |row: ChunkEntityRow| entity_in(row, r));
            &&& spawns.len() == entities.len()
            &&& 0 <= k < entities.len()
            &&& entities[k] == rows[i].entity
            &&& Some(spawns[k]) == spawn_in(rows[i], r)
        }),
    decreases rows.len(),
{
    let init = rows.drop_last();
    lemma_same_length(init, r);
    if i == rows.len() - 1 {
        filter_map(init, |row: ChunkEntityRow| entity_in(row, r)).len() as int
    } else {
        lemma_place_in_group(init, r, i)
    }
}

proof fn lemma_same_length(rows: Seq<ChunkEntityRow>, r: ChunkEntityRef)
    ensures
        filter_map(rows, |row: ChunkEntityRow| spawn_in(row, r)).len() == filter_map(
            rows,
            |row: ChunkEntityRow| entity_in(row, r),
        ).len(),
    decreases rows.len(),
{
    if rows.len() > 0 {
        lemma_same_length(rows.drop_last(), r);
    }
}

/// The objects that were generated for a chunk.
#[derive(Debug)]
pub struct PendingChunk {
    pub chunk_pos: IVec3,
    pub spawns: Vec<WorldObjectSpawn>,
}

/// An object that is put into the world: its definition, its place, and its chunk.
#[derive(Debug)]
pub struct PlacedObject {
    pub object_id: String,
    pub definition: u64,
    pub position: Vector,
    pub chunk_ref: ChunkEntityRef,
}

/// The object that a spawn puts into the world, if its definition is known.
pub open spec fn placed(
    spawn: WorldObjectSpawn,
    definitions: Map<Seq<char>, u64>,
    chunk_ref: ChunkEntityRef,
) -> Option<PlacedObject> {
    if definitions.dom().contains(spawn.object_id@) {
        Some(
            PlacedObject {
                object_id: spawn.object_id,
                definition: definitions[spawn.object_id@],
                position: spawn.position,
                chunk_ref,
            },
        )
    } else {
        None
    }
}

/// The objects that a chunk's generation puts into the world; nothing, not even an empty list, where
/// nothing was generated.
///
/// Where there is a list, everything that was generated is saved, also what has no definition.
pub fn spawn_chunk_entities(
    map_entity: Entity,
    pending: &PendingChunk,
    definitions: &NameMap<u64>,
) -> (objects: Option<Vec<PlacedObject>>)
    requires
        definitions.wf(),
    ensures
        objects is None <==> pending.spawns@.len() == 0,
        objects is Some ==> objects->0@ == filter_map(
            pending.spawns@,
            |spawn: WorldObjectSpawn|
                placed(
                    spawn,
                    definitions.view(),
                    ChunkEntityRef { chunk_pos: pending.chunk_pos, map_entity },
                ),
        ),
{
    if pending.spawns.len() == 0 {
        return None;
    }
    let chunk_ref = ChunkEntityRef { chunk_pos: pending.chunk_pos, map_entity };
    let mut objects: Vec<PlacedObject> = Vec::new();
    let mut i: usize = 0;
    let ghost f = |spawn: WorldObjectSpawn| placed(spawn, definitions.view(), chunk_ref);
    assert(pending.spawns@.take(0) =~= Seq::empty());
    while i < pending.spawns.len()
        invariant
            i <= pending.spawns@.len(),
            definitions.wf(),
            f == (|spawn: WorldObjectSpawn| placed(spawn, definitions.view(), chunk_ref)),
            objects@ == filter_map(pending.spawns@.take(i as int), f),
        decreases pending.spawns@.len() - i,
    {
        proof {
            lemma_filter_map_step(pending.spawns@, i as int, f);
        }
        let spawn: &WorldObjectSpawn = &pending.spawns[i];
        if let Some(definition) = definitions.get(&spawn.object_id) {
            objects.push(
                PlacedObject {
                    object_id: spawn.object_id.clone(),
                    definition: *definition,
                    position: spawn.position,
                    chunk_ref,
                },
            );
        }
        i = i + 1;
    }
    assert(pending.spawns@.take(i as int) =~= pending.spawns@);
    Some(objects)
}

/// A group holds all objects of its chunk and no others, in their order, and of each what brings it
/// back: its kind and its place. Gives the object that stands at each place of the group.
pub proof fn law_groups_hold_their_objects(group: ChunkGroup, rows: Seq<ChunkEntityRow>) -> (at: Seq<
    int,
>)
    requires
        is_group_of(group, rows),
    ensures
        at.len() == group.spawns@.len(),
        at.len() == group.entities@.len(),
        picks(at, rows.len() as int, |i: int| rows[i].chunk_ref == group.chunk_ref),
        forall|k: int|
            #![trigger at[k]]
            0 <= k < at.len() ==> group.spawns@[k].object_id == rows[at[k]].object_id
                && group.spawns@[k].position == rows[at[k]].position && group.entities@[k]
                == rows[at[k]].entity,
{
    let f = |r: ChunkEntityRow| spawn_in(r, group.chunk_ref);
    let g = |r: ChunkEntityRow| entity_in(r, group.chunk_ref);
    let here = |i: int| rows[i].chunk_ref == group.chunk_ref;
    let n = rows.len() as int;
    let at = lemma_filter_map_picks(rows, f);
    let saved = |i: int| f(rows[i]) is Some;
    assert forall|i: int| 0 <= i < n implies #[trigger] saved(i) == #[trigger] here(i) by {}
    lemma_picks_same(at, n, saved, here);
    let other = lemma_filter_map_picks(rows, g);
    let listed = |i: int| g(rows[i]) is Some;
    assert forall|i: int| 0 <= i < n implies #[trigger] listed(i) == #[trigger] here(i) by {}
    lemma_picks_same(other, n, listed, here);
    lemma_picks_unique(at, other, n, here);
    assert forall|k: int|
        #![trigger at[k]]
        0 <= k < at.len() implies group.spawns@[k].object_id == rows[at[k]].object_id
        && group.spawns@[k].position == rows[at[k]].position && group.entities@[k]
        == rows[at[k]].entity by {
        assert(other[k] == at[k]);
        assert(f(rows[at[k]]) == Some(group.spawns@[k]));
        assert(g(rows[other[k]]) == Some(group.entities@[k]));
    }
    at
}

/// Whether one of the groups is that of a chunk.
pub open spec fn lists_chunk(groups: Seq<ChunkGroup>, chunk: ChunkEntityRef) -> bool {
    exists|g: int|
        0 <= g < groups.len() && (#[trigger] groups[g]).chunk_ref.chunk_pos == chunk.chunk_pos
            && groups[g].chunk_ref.map_entity == chunk.map_entity
}

/// Each chunk with objects has one group, and there are no groups but those.
pub proof fn law_each_chunk_has_one_group(groups: Seq<ChunkGroup>, rows: Seq<ChunkEntityRow>)
    requires
        are_groups_of(groups, rows),
    ensures
        forall|g: int, h: int|
            0 <= g < groups.len() && 0 <= h < groups.len() && (#[trigger] groups[g]).chunk_ref == (
            #[trigger] groups[h]).chunk_ref ==> g == h,
        forall|g: int|
            0 <= g < groups.len() ==> is_group_of(#[trigger] groups[g], rows) && exists|i: int|
                0 <= i < rows.len() && (#[trigger] rows[i]).chunk_ref == groups[g].chunk_ref,
        forall|i: int|
            0 <= i < rows.len() ==> lists_chunk(groups, (#[trigger] rows[i]).chunk_ref),
{
    assert forall|g: int| 0 <= g < groups.len() implies is_group_of(#[trigger] groups[g], rows)
        && exists|i: int|
        0 <= i < rows.len() && (#[trigger] rows[i]).chunk_ref == groups[g].chunk_ref by {
        assert(has_chunk_group(groups, groups[g].chunk_ref));
    }
    assert forall|i: int| 0 <= i < rows.len() implies lists_chunk(
        groups,
        (#[trigger] rows[i]).chunk_ref,
    ) by {
        assert(chunk_has_object(rows, rows[i].chunk_ref));
        assert(has_chunk_group(groups, rows[i].chunk_ref));
    }
}

/// Each chunk that is loaded or has objects is saved once, and no other chunk is.
pub proof fn law_each_loaded_chunk_is_saved(
    groups: Seq<ChunkGroup>,
    loaded: Seq<ChunkEntityRef>,
    rows: Seq<ChunkEntityRow>,
)
    requires
        are_saves_of(groups, loaded, rows),
    ensures
        forall|g: int, h: int|
            0 <= g < groups.len() && 0 <= h < groups.len() && (#[trigger] groups[g]).chunk_ref == (
            #[trigger] groups[h]).chunk_ref ==> g == h,
        forall|g: int|
            0 <= g < groups.len() ==> is_group_of(#[trigger] groups[g], rows) && (
            loaded.contains(groups[g].chunk_ref) || exists|i: int|
                0 <= i < rows.len() && (#[trigger] rows[i]).chunk_ref == groups[g].chunk_ref),
        forall|i: int|
            0 <= i < rows.len() ==> lists_chunk(groups, (#[trigger] rows[i]).chunk_ref),
        forall|i: int| 0 <= i < loaded.len() ==> lists_chunk(groups, #[trigger] loaded[i]),
{
    assert forall|g: int| 0 <= g < groups.len() implies is_group_of(#[trigger] groups[g], rows) && (
    loaded.contains(groups[g].chunk_ref) || exists|i: int|
        0 <= i < rows.len() && (#[trigger] rows[i]).chunk_ref == groups[g].chunk_ref) by {
        assert(has_chunk_group(groups, groups[g].chunk_ref));
    }
    assert forall|i: int| 0 <= i < rows.len() implies lists_chunk(
        groups,
        (#[trigger] rows[i]).chunk_ref,
    ) by {
        assert(chunk_has_object(rows, rows[i].chunk_ref));
        assert(has_chunk_group(groups, rows[i].chunk_ref));
    }
    assert forall|i: int| 0 <= i < loaded.len() implies lists_chunk(groups, #[trigger] loaded[i]) by {
        assert(loaded.contains(loaded[i]));
        assert(has_chunk_group(groups, loaded[i]));
    }
}

/// Whether a chunk stands in one of the columns that are listed.
pub open spec fn stands_in(chunk: IVec3, columns: Seq<IVec2>) -> bool {
    exists|c: int|
        0 <= c < columns.len() && (#[trigger] columns[c]).x == chunk.x && columns[c].y == chunk.z
}

/// The objects that go are all those on a map that is there whose chunk stands in none of the columns
/// that have a level on it, in their order. Gives the place of each.
pub proof fn law_objects_go_with_their_columns(
    rows: Seq<ChunkEntityRow>,
    columns: &LeveledColumns,
) -> (at: Seq<int>)
    ensures
        at.len() == evicted_rows(rows, columns).len(),
        picks(
            at,
            rows.len() as int,
            |i: int|
                columns.maps@.dom().contains(rows[i].chunk_ref.map_entity.bits_spec())
                    && !stands_in(
                    rows[i].chunk_ref.chunk_pos,
                    columns.maps@[rows[i].chunk_ref.map_entity.bits_spec()]@,
                ),
        ),
        forall|k: int|
            0 <= k < at.len() ==> evicted_rows(rows, columns)[k] == rows[#[trigger] at[k]],
{
    let pred = |r: ChunkEntityRow| is_evicted(r, columns);
    let at = lemma_filter_picks(rows, pred);
    let goes = |i: int| pred(rows[i]);
    let raw = |i: int|
        columns.maps@.dom().contains(rows[i].chunk_ref.map_entity.bits_spec()) && !stands_in(
            rows[i].chunk_ref.chunk_pos,
            columns.maps@[rows[i].chunk_ref.map_entity.bits_spec()]@,
        );
    assert forall|i: int| 0 <= i < rows.len() implies #[trigger] goes(i) == #[trigger] raw(i) by {
        let chunk = rows[i].chunk_ref.chunk_pos;
        let leveled = columns.maps@[rows[i].chunk_ref.map_entity.bits_spec()]@;
        if leveled.contains(column_of(chunk)) {
            let c = choose|c: int| 0 <= c < leveled.len() && leveled[c] == column_of(chunk);
            assert(leveled[c].x == chunk.x && leveled[c].y == chunk.z);
        }
        if stands_in(chunk, leveled) {
            let c = choose|c: int|
                0 <= c < leveled.len() && (#[trigger] leveled[c]).x == chunk.x && leveled[c].y
                    == chunk.z;
            assert(leveled[c] == column_of(chunk));
        }
    }
    lemma_picks_same(at, rows.len() as int, goes, raw);
    at
}

/// Every object whose kind is known is put into the world, in turn: at its place, with the definition
/// of its kind, and as part of its chunk. Gives the spawn that each object comes of.
pub proof fn law_known_objects_are_placed(
    spawns: Seq<WorldObjectSpawn>,
    definitions: Map<Seq<char>, u64>,
    chunk_ref: ChunkEntityRef,
) -> (at: Seq<int>)
    ensures
        ({
            let objects = filter_map(
                spawns,
                |spawn: WorldObjectSpawn| placed(spawn, definitions, chunk_ref),
            );
            &&& at.len() == objects.len()
            &&& picks(
                at,
                spawns.len() as int,
                |i: int| definitions.dom().contains(spawns[i].object_id@),
            )
            &&& forall|k: int|
                #![trigger at[k]]
                0 <= k < at.len() ==> objects[k].object_id == spawns[at[k]].object_id
                    && objects[k].definition == definitions[spawns[at[k]].object_id@]
                    && objects[k].position == spawns[at[k]].position && objects[k].chunk_ref
                    == chunk_ref
        }),
{
    let f = |spawn: WorldObjectSpawn| placed(spawn, definitions, chunk_ref);
    let at = lemma_filter_map_picks(spawns, f);
    let a = |i: int| f(spawns[i]) is Some;
    let b = |i: int| definitions.dom().contains(spawns[i].object_id@);
    assert forall|i: int| 0 <= i < spawns.len() implies #[trigger] a(i) == #[trigger] b(i) by {}
    lemma_picks_same(at, spawns.len() as int, a, b);
    assert forall|k: int|
        #![trigger at[k]]
        0 <= k < at.len() implies f(spawns[at[k]]) == Some(filter_map(spawns, f)[k]) by {}
    at
}

} // verus!
