//! When the world is saved, and what is written then.
use crate::geometry::{ChunkSet, IVec3};
use crate::map::edits::WorldDirtyState;
use crate::map::persistence::{
    collect_saved_entities, groups_saved, spawn_points_on, spawn_points_spec, MapEntities,
    RespawnRow, SaveRow,
};
use crate::map::types::MapInstanceId;
use crate::scalar::Vector;
use crate::seqs::{
    lemma_filter_empty, lemma_filter_picks, lemma_filter_step, lemma_picks_same, lemma_unknown,
    lemma_unknown_picks, picks, unknown,
};
use vstd::prelude::*;

verus! {

/// A map on the server, as far as saving it goes.
pub struct SavedMap {
    pub map_id: MapInstanceId,
    pub seed: u64,
    pub generation_version: u32,
    /// Whether the map has a directory to be saved in.
    pub has_save_dir: bool,
    /// The chunks that have changed since they were saved, each once.
    pub dirty_chunks: Vec<IVec3>,
    /// The chunks whose data is at hand.
    pub loaded: ChunkSet,
}

impl SavedMap {
    /// No chunk is dirty twice.
    pub open spec fn wf(&self) -> bool {
        self.dirty_chunks@.no_duplicates()
    }
}

/// Whether no chunk of any map is dirty twice.
pub open spec fn maps_wf(maps: Seq<SavedMap>) -> bool {
    forall|i: int| 0 <= i < maps.len() ==> (#[trigger] maps[i]).wf()
}

/// The chunks that have changed and whose data is at hand, in order.
pub open spec fn savable(dirty: Seq<IVec3>, loaded: &ChunkSet) -> Seq<IVec3> {
    dirty.filter(|chunk: IVec3| loaded.has(chunk))
}

/// Whether `after` is `before` with other dirty chunks, if that.
pub open spec fn same_map(before: SavedMap, after: SavedMap) -> bool {
    &&& after.map_id == before.map_id
    &&& after.seed == before.seed
    &&& after.generation_version == before.generation_version
    &&& after.has_save_dir == before.has_save_dir
    &&& after.loaded == before.loaded
}

/// What is kept of a list without repetitions has none.
proof fn lemma_savable_once(dirty: Seq<IVec3>, loaded: &ChunkSet)
    requires
        dirty.no_duplicates(),
    ensures
        savable(dirty, loaded).no_duplicates(),
    decreases dirty.len(),
{
    reveal(Seq::filter);
    let pred = |chunk: IVec3| loaded.has(chunk);
    if dirty.len() > 0 {
        let init = dirty.drop_last();
        assert(init.no_duplicates());
        lemma_savable_once(init, loaded);
        let kept = savable(init, loaded);
        if pred(dirty.last()) {
            assert(!kept.contains(dirty.last())) by {
                if kept.contains(dirty.last()) {
                    init.lemma_filter_contains_rev(pred, dirty.last());
                    let k = choose|k: int| 0 <= k < init.len() && init[k] == dirty.last();
                    assert(dirty[k] == dirty[dirty.len() - 1]);
                }
            }
            assert(savable(dirty, loaded) =~= kept.push(dirty.last()));
        }
    }
}

/// Takes the dirty chunks off a map, and gives those to be written, each once: the ones whose data is
/// at hand.
pub fn enqueue_dirty_chunks(map: &mut SavedMap) -> (chunks: Vec<IVec3>)
    requires
        old(map).wf(),
    ensures
        final(map).wf(),
        chunks@.no_duplicates(),
        chunks@ == savable(old(map).dirty_chunks@, &old(map).loaded),
        same_map(*old(map), *final(map)),
        final(map).dirty_chunks@.len() == 0,
{
    let ghost before = *map;
    let mut chunks: Vec<IVec3> = Vec::new();
    let mut i: usize = 0;
    let ghost pred = |chunk: IVec3| before.loaded.has(chunk);
    proof {
        lemma_filter_empty(before.dirty_chunks@.take(0), pred);
    }
    while i < map.dirty_chunks.len()
        invariant
            *map == before,
            i <= before.dirty_chunks@.len(),
            pred == (|chunk: IVec3| before.loaded.has(chunk)),
            chunks@ == before.dirty_chunks@.take(i as int).filter(pred),
        decreases before.dirty_chunks@.len() - i,
    {
        proof {
            lemma_filter_step(before.dirty_chunks@, i as int, pred);
        }
        if map.loaded.contains(map.dirty_chunks[i]) {
            chunks.push(map.dirty_chunks[i]);
        }
        i = i + 1;
    }
    assert(before.dirty_chunks@.take(i as int) =~= before.dirty_chunks@);
    proof {
        lemma_savable_once(before.dirty_chunks@, &before.loaded);
    }
    map.dirty_chunks = Vec::new();
    chunks
}

/// Whether the data of a chunk could be written.
#[derive(Clone, Copy, Debug, PartialEq, Eq, Structural)]
pub struct SaveOutcome {
    pub chunk: IVec3,
    pub saved: bool,
}

/// The chunks that could not be written, in order.
pub open spec fn failed_chunks(outcomes: Seq<SaveOutcome>) -> Seq<IVec3> {
    outcomes.filter(|outcome: SaveOutcome| !outcome.saved).map_values(
        |outcome: SaveOutcome| outcome.chunk,
    )
}

/// The dirty chunks after a save: a chunk that could not be written is dirty again, once.
pub open spec fn dirty_after(dirty: Seq<IVec3>, outcomes: Seq<SaveOutcome>) -> Seq<IVec3> {
    dirty + unknown(failed_chunks(outcomes), dirty.to_set())
}

fn has_chunk(chunks: &Vec<IVec3>, chunk: IVec3) -> (found: bool)
    ensures
        found == chunks@.contains(chunk),
{
    let mut i: usize = 0;
    while i < chunks.len()
        invariant
            i <= chunks@.len(),
            forall|j: int| 0 <= j < i ==> chunks@[j] != chunk,
        decreases chunks@.len() - i,
    {
        if chunks[i] == chunk {
            assert(chunks@[i as int] == chunk);
            return true;
        }
        i = i + 1;
    }
    false
}

/// A list and what is unknown to it hold together what either holds.
proof fn lemma_dirty_after(dirty: Seq<IVec3>, outcomes: Seq<SaveOutcome>)
    requires
        dirty.no_duplicates(),
    ensures
        dirty_after(dirty, outcomes).no_duplicates(),
        forall|chunk: IVec3| #[trigger]
            dirty_after(dirty, outcomes).contains(chunk) <==> dirty.contains(chunk)
                || failed_chunks(outcomes).contains(chunk),
{
    let failed = failed_chunks(outcomes);
    let fresh = unknown(failed, dirty.to_set());
    lemma_unknown(failed, dirty.to_set());
    let all = dirty_after(dirty, outcomes);
    assert forall|chunk: IVec3| #[trigger] all.contains(chunk) <==> dirty.contains(chunk)
        || failed.contains(chunk) by {
        if dirty.contains(chunk) {
            let k = choose|k: int| 0 <= k < dirty.len() && dirty[k] == chunk;
            assert(all[k] == chunk);
        }
        if fresh.contains(chunk) {
            let k = choose|k: int| 0 <= k < fresh.len() && fresh[k] == chunk;
            assert(all[dirty.len() + k] == chunk);
        }
        if all.contains(chunk) {
            let k = choose|k: int| 0 <= k < all.len() && all[k] == chunk;
            if k < dirty.len() {
                assert(dirty[k] == chunk);
            } else {
                assert(fresh[k - dirty.len()] == chunk);
            }
        }
    }
    assert forall|a: int, b: int| 0 <= a < b < all.len() implies all[a] != all[b] by {
        if b < dirty.len() {
            assert(dirty[a] != dirty[b]);
        } else {
            assert(fresh.contains(fresh[b - dirty.len()]));
            if a < dirty.len() {
                assert(dirty.contains(dirty[a]));
            } else {
                assert(fresh[a - dirty.len()] != fresh[b - dirty.len()]);
            }
        }
    }
}

/// Ends a save that had to be done at once: a chunk that could not be written is dirty again.
pub fn save_dirty_chunks_sync(map: &mut SavedMap, outcomes: &Vec<SaveOutcome>)
    requires
        old(map).wf(),
    ensures
        final(map).wf(),
        same_map(*old(map), *final(map)),
        final(map).dirty_chunks@ == dirty_after(old(map).dirty_chunks@, outcomes@),
{
    let ghost before = *map;
    let ghost dirty = map.dirty_chunks@;
    let ghost pred = |outcome: SaveOutcome| !outcome.saved;
    let mut i: usize = 0;
    proof {
        lemma_filter_empty(outcomes@.take(0), pred);
        assert(failed_chunks(outcomes@.take(0)) =~= Seq::empty());
        assert(map.dirty_chunks@ =~= dirty_after(dirty, outcomes@.take(0)));
    }
    while i < outcomes.len()
        invariant
            i <= outcomes@.len(),
            dirty == before.dirty_chunks@,
            dirty.no_duplicates(),
            pred == (|outcome: SaveOutcome| !outcome.saved),
            same_map(before, *map),
            map.dirty_chunks@ == dirty_after(dirty, outcomes@.take(i as int)),
        decreases outcomes@.len() - i,
    {
        let outcome: SaveOutcome = outcomes[i];
        let ghost prefix = outcomes@.take(i as int);
        let ghost longer = outcomes@.take(i + 1);
        let ghost here = map.dirty_chunks@;
        proof {
            lemma_filter_step(outcomes@, i as int, pred);
            lemma_dirty_after(dirty, prefix);
            lemma_unknown(failed_chunks(prefix), dirty.to_set());
            if !outcome.saved {
                assert(failed_chunks(longer) =~= failed_chunks(prefix).push(outcome.chunk));
                assert(failed_chunks(longer).drop_last() =~= failed_chunks(prefix));
            } else {
                assert(failed_chunks(longer) =~= failed_chunks(prefix));
            }
        }
        if !outcome.saved {
            if !has_chunk(&map.dirty_chunks, outcome.chunk) {
                map.dirty_chunks.push(outcome.chunk);
            }
            proof {
                let known = unknown(failed_chunks(prefix), dirty.to_set());
                assert(here == dirty + known);
                assert(here.contains(outcome.chunk) <==> dirty.contains(outcome.chunk)
                    || known.contains(outcome.chunk));
            }
        }
        i = i + 1;
        assert(map.dirty_chunks@ =~= dirty_after(dirty, longer));
    }
    assert(outcomes@.take(i as int) =~= outcomes@);
    proof {
        lemma_dirty_after(dirty, outcomes@);
    }
}

/// No change is lost: a dirty chunk whose data is at hand is written, or dirty again.
pub proof fn law_no_change_is_lost(map: SavedMap, outcomes: Seq<SaveOutcome>, chunk: IVec3)
    requires
        outcomes.map_values(|outcome: SaveOutcome| outcome.chunk) == savable(
            map.dirty_chunks@,
            &map.loaded,
        ),
        map.dirty_chunks@.contains(chunk),
        map.loaded.has(chunk),
    ensures
        dirty_after(Seq::empty(), outcomes).contains(chunk) || exists|i: int|
            0 <= i < outcomes.len() && (#[trigger] outcomes[i]).chunk == chunk && outcomes[i].saved,
{
    let dirty = map.dirty_chunks@;
    let at_hand = |c: IVec3| map.loaded.has(c);
    let k = choose|k: int| 0 <= k < dirty.len() && dirty[k] == chunk;
    dirty.lemma_filter_contains(at_hand, k);
    let written = outcomes.map_values(|outcome: SaveOutcome| outcome.chunk);
    assert(written.contains(chunk));
    let i = choose|i: int| 0 <= i < written.len() && written[i] == chunk;
    assert(outcomes[i].chunk == chunk);
    if !outcomes[i].saved {
        let failed = |outcome: SaveOutcome| !outcome.saved;
        outcomes.lemma_filter_contains(failed, i);
        let kept = outcomes.filter(failed);
        let j = choose|j: int| 0 <= j < kept.len() && kept[j] == outcomes[i];
        assert(failed_chunks(outcomes)[j] == chunk);
        lemma_dirty_after(Seq::empty(), outcomes);
    }
}

/// No chunk is written twice: each dirty chunk whose data is at hand is handed out once, and no other
/// chunk is.
pub proof fn law_each_chunk_is_saved_once(map: SavedMap)
    requires
        map.wf(),
    ensures
        savable(map.dirty_chunks@, &map.loaded).no_duplicates(),
        forall|chunk: IVec3| #[trigger]
            savable(map.dirty_chunks@, &map.loaded).contains(chunk)
                <==> map.dirty_chunks@.contains(chunk) && map.loaded.has(chunk),
{
    let dirty = map.dirty_chunks@;
    let at_hand = |c: IVec3| map.loaded.has(c);
    lemma_savable_once(dirty, &map.loaded);
    assert forall|chunk: IVec3| #[trigger] savable(dirty, &map.loaded).contains(chunk)
        <==> dirty.contains(chunk) && map.loaded.has(chunk) by {
        let kept = savable(dirty, &map.loaded);
        if dirty.contains(chunk) && map.loaded.has(chunk) {
            let k = choose|k: int| 0 <= k < dirty.len() && dirty[k] == chunk;
            dirty.lemma_filter_contains(at_hand, k);
        }
        if kept.contains(chunk) {
            dirty.lemma_filter_contains_rev(at_hand, chunk);
            let k = choose|k: int| 0 <= k < kept.len() && kept[k] == chunk;
            dirty.lemma_filter_pred(at_hand, k);
        }
    }
}

/// What is written about a map beside its chunks.
#[derive(Debug)]
pub struct MapMeta {
    pub version: u32,
    pub seed: u64,
    pub generation_version: u32,
    pub spawn_points: Vec<Vector>,
}

/// The version of the file that a map's metadata are written to.
pub const META_VERSION: u32 = 1;

/// What is written of one map.
#[derive(Debug)]
pub struct MapSave {
    pub map_id: MapInstanceId,
    pub chunks: Vec<IVec3>,
    pub meta: MapMeta,
}

/// What is written when the world is saved.
#[derive(Debug)]
pub struct WorldSave {
    pub maps: Vec<MapSave>,
    pub entities: Vec<MapEntities>,
}

/// Whether `save` is what is written of `map`.
pub open spec fn is_map_save(save: MapSave, map: SavedMap, respawns: Seq<RespawnRow>) -> bool {
    &&& save.map_id == map.map_id
    &&& save.chunks@ == savable(map.dirty_chunks@, &map.loaded)
    &&& save.chunks@.no_duplicates()
    &&& save.meta.version == META_VERSION
    &&& save.meta.seed == map.seed
    &&& save.meta.generation_version == map.generation_version
    &&& save.meta.spawn_points@ == spawn_points_spec(respawns, map.map_id)
}

/// The maps that can be saved.
pub open spec fn maps_with_dir(maps: Seq<SavedMap>) -> Seq<SavedMap> {
    maps.filter(|map: SavedMap| map.has_save_dir)
}

/// Whether `saves` are what is written of the maps that can be saved, one each.
pub open spec fn are_map_saves(
    saves: Seq<MapSave>,
    maps: Seq<SavedMap>,
    respawns: Seq<RespawnRow>,
) -> bool {
    &&& saves.len() == maps_with_dir(maps).len()
    &&& forall|i: int|
        0 <= i < saves.len() ==> is_map_save(#[trigger] saves[i], maps_with_dir(maps)[i], respawns)
}

/// The maps after a save: those that can be saved have no dirty chunk.
pub open spec fn drained(before: Seq<SavedMap>, after: Seq<SavedMap>) -> bool {
    &&& after.len() == before.len()
    &&& forall|i: int|
        #![trigger after[i]]
        #![trigger before[i]]
        0 <= i < before.len() ==> same_map(before[i], after[i]) && if before[i].has_save_dir {
            after[i].dirty_chunks@.len() == 0
        } else {
            after[i] == before[i]
        }
}

fn save_maps(maps: &mut Vec<SavedMap>, respawns: &Vec<RespawnRow>) -> (saves: Vec<MapSave>)
    requires
        maps_wf(old(maps)@),
    ensures
        maps_wf(final(maps)@),
        are_map_saves(saves@, old(maps)@, respawns@),
        drained(old(maps)@, final(maps)@),
{
    let ghost before = maps@;
    let ghost pred = |map: SavedMap| map.has_save_dir;
    let mut saves: Vec<MapSave> = Vec::new();
    let mut i: usize = 0;
    proof {
        lemma_filter_empty(before.take(0), pred);
    }
    while i < maps.len()
        invariant
            i <= maps@.len(),
            maps@.len() == before.len(),
            maps_wf(maps@),
            pred == (|map: SavedMap| map.has_save_dir),
            saves@.len() == before.take(i as int).filter(pred).len(),
            forall|k: int|
                0 <= k < saves@.len() ==> is_map_save(
                    #[trigger] saves@[k],
                    before.take(i as int).filter(pred)[k],
                    respawns@,
                ),
            forall|k: int|
                #![trigger maps@[k]]
                #![trigger before[k]]
                0 <= k < i ==> same_map(before[k], maps@[k]) && if before[k].has_save_dir {
                    maps@[k].dirty_chunks@.len() == 0
                } else {
                    maps@[k] == before[k]
                },
            forall|k: int| i <= k < before.len() ==> #[trigger] maps@[k] == before[k],
        decreases before.len() - i,
    {
        proof {
            lemma_filter_step(before, i as int, pred);
        }
        if maps[i].has_save_dir {
            let map_id = maps[i].map_id;
            let meta = MapMeta {
                version: META_VERSION,
                seed: maps[i].seed,
                generation_version: maps[i].generation_version,
                spawn_points: spawn_points_on(respawns, map_id),
            };
            let chunks = enqueue_dirty_chunks(&mut maps[i]);
            saves.push(MapSave { map_id, chunks, meta });
        }
        i = i + 1;
    }
    assert(before.take(i as int) =~= before);
    saves
}

/// Whether `save` is what is written of the world.
pub open spec fn is_world_save(
    save: WorldSave,
    maps: Seq<SavedMap>,
    entities: Seq<SaveRow>,
    respawns: Seq<RespawnRow>,
) -> bool {
    &&& are_map_saves(save.maps@, maps, respawns)
    &&& groups_saved(save.entities@, entities)
}

/// Saves the world if that is due: its maps are drained, and it counts as saved.
pub fn save_dirty_chunks_debounced(
    state: &mut WorldDirtyState,
    now: u64,
    maps: &mut Vec<SavedMap>,
    entities: &Vec<SaveRow>,
    respawns: &Vec<RespawnRow>,
) -> (save: Option<WorldSave>)
    requires
        maps_wf(old(maps)@),
    ensures
        maps_wf(final(maps)@),
        save is Some <==> old(state).save_due(now),
        save is Some ==> {
            &&& is_world_save(save->0, old(maps)@, entities@, respawns@)
            &&& drained(old(maps)@, final(maps)@)
            &&& *final(state) == old(state).saved()
        },
        save is None ==> *final(state) == *old(state) && *final(maps) == *old(maps),
{
    if !state.should_save(now) {
        return None;
    }
    let saves = save_maps(maps, respawns);
    let groups = collect_saved_entities(entities);
    state.mark_saved();
    Some(WorldSave { maps: saves, entities: groups })
}

/// Saves a world that is shut down, if it has changes that are not saved.
pub fn save_world_on_shutdown(
    exiting: bool,
    state: &WorldDirtyState,
    maps: &mut Vec<SavedMap>,
    entities: &Vec<SaveRow>,
    respawns: &Vec<RespawnRow>,
) -> (save: Option<WorldSave>)
    requires
        maps_wf(old(maps)@),
    ensures
        maps_wf(final(maps)@),
        save is Some <==> exiting && state.is_dirty,
        save is Some ==> {
            &&& is_world_save(save->0, old(maps)@, entities@, respawns@)
            &&& drained(old(maps)@, final(maps)@)
        },
        save is None ==> *final(maps) == *old(maps),
{
    if !exiting || !state.is_dirty {
        return None;
    }
    let saves = save_maps(maps, respawns);
    let groups = collect_saved_entities(entities);
    Some(WorldSave { maps: saves, entities: groups })
}

/// Of the chunks that have changed, those whose data is at hand are written, in order. Gives the place
/// of each.
pub proof fn law_chunks_at_hand_are_written(dirty: Seq<IVec3>, loaded: &ChunkSet) -> (at: Seq<int>)
    ensures
        at.len() == savable(dirty, loaded).len(),
        picks(at, dirty.len() as int, |i: int| loaded.has(dirty[i])),
        forall|k: int| 0 <= k < at.len() ==> savable(dirty, loaded)[k] == dirty[#[trigger] at[k]],
{
    let pred = |chunk: IVec3| loaded.has(chunk);
    let at = lemma_filter_picks(dirty, pred);
    let a = |i: int| pred(dirty[i]);
    let b = |i: int| loaded.has(dirty[i]);
    assert forall|i: int| 0 <= i < dirty.len() implies #[trigger] a(i) == #[trigger] b(i) by {}
    lemma_picks_same(at, dirty.len() as int, a, b);
    at
}

/// What is dirty after a save: all that was, as it was, and then each chunk that could not be written
/// and is not there, once, in order. Gives the outcome that each comes of.
pub proof fn law_unwritten_chunks_are_dirty_again(dirty: Seq<IVec3>, outcomes: Seq<SaveOutcome>) -> (at:
    Seq<int>)
    ensures
        ({
            let after = dirty_after(dirty, outcomes);
            &&& after.len() == dirty.len() + at.len()
            &&& forall|k: int| 0 <= k < dirty.len() ==> #[trigger] after[k] == dirty[k]
            &&& forall|k: int|
                #![trigger at[k]]
                0 <= k < at.len() ==> 0 <= at[k] < outcomes.len() && !outcomes[at[k]].saved
                    && after[dirty.len() + k] == outcomes[at[k]].chunk && !dirty.contains(
                    outcomes[at[k]].chunk,
                )
            &&& forall|j: int, k: int|
                0 <= j < k < at.len() ==> #[trigger] at[j] < #[trigger] at[k] && outcomes[at[j]].chunk
                    != outcomes[at[k]].chunk
            &&& forall|i: int|
                0 <= i < outcomes.len() && !(#[trigger] outcomes[i]).saved ==> after.contains(
                    outcomes[i].chunk,
                )
        }),
{
    let failing = |outcome: SaveOutcome| !outcome.saved;
    let failed = failed_chunks(outcomes);
    let places = lemma_filter_picks(outcomes, failing);
    let known = dirty.to_set();
    let fresh = unknown(failed, known);
    let picked = lemma_unknown_picks(failed, known);
    let at = picked.map_values(|k: int| places[k]);
    let after = dirty_after(dirty, outcomes);
    assert forall|k: int| 0 <= k < failed.len() implies #[trigger] failed[k]
        == outcomes[places[k]].chunk && 0 <= places[k] < outcomes.len()
        && !outcomes[places[k]].saved by {
        assert(outcomes[places[k]] == outcomes.filter(failing)[k]);
        assert(failing(outcomes[places[k]]));
    }
    let chosen = |i: int|
        !known.contains(failed[i]) && forall|j: int|
            0 <= j < i ==> #[trigger] failed[j] != failed[i];
    assert forall|k: int|
        #![trigger at[k]]
        0 <= k < at.len() implies 0 <= at[k] < outcomes.len() && !outcomes[at[k]].saved
        && after[dirty.len() + k] == outcomes[at[k]].chunk && !dirty.contains(
        outcomes[at[k]].chunk,
    ) by {
        assert(fresh[k] == failed[picked[k]]);
        assert(chosen(picked[k]));
    }
    assert forall|j: int, k: int| 0 <= j < k < at.len() implies #[trigger] at[j] < #[trigger] at[k]
        && outcomes[at[j]].chunk != outcomes[at[k]].chunk by {
        assert(picked[j] < picked[k]);
        assert(chosen(picked[k]));
        assert(places[picked[j]] < places[picked[k]]);
        assert(failed[picked[j]] != failed[picked[k]]);
    }
    lemma_unknown(failed, known);
    assert forall|i: int| 0 <= i < outcomes.len() && !(#[trigger] outcomes[i]).saved implies after.contains(
        outcomes[i].chunk,
    ) by {
        let was = |m: int| failing(outcomes[m]);
        assert(was(i));
        assert(places.contains(i));
        let k = choose|k: int| 0 <= k < places.len() && places[k] == i;
        assert(failed[k] == outcomes[i].chunk);
        assert(failed.contains(outcomes[i].chunk));
        if dirty.contains(outcomes[i].chunk) {
            let d = choose|d: int| 0 <= d < dirty.len() && dirty[d] == outcomes[i].chunk;
            assert(after[d] == outcomes[i].chunk);
        } else {
            assert(fresh.contains(outcomes[i].chunk));
            let d = choose|d: int| 0 <= d < fresh.len() && fresh[d] == outcomes[i].chunk;
            assert(after[dirty.len() + d] == outcomes[i].chunk);
        }
    }
    at
}

/// Every map that has a directory is written once, in turn, and no other map is: under its own name,
/// with its own seed, the chunks that have changed and are at hand, and the respawn points on it. Gives
/// the map that each is of.
pub proof fn law_maps_with_directories_are_written(
    saves: Seq<MapSave>,
    maps: Seq<SavedMap>,
    respawns: Seq<RespawnRow>,
) -> (at: Seq<int>)
    requires
        are_map_saves(saves, maps, respawns),
    ensures
        at.len() == saves.len(),
        picks(at, maps.len() as int, |i: int| maps[i].has_save_dir),
        forall|k: int|
            #![trigger at[k]]
            0 <= k < at.len() ==> {
                &&& saves[k].map_id == maps[at[k]].map_id
                &&& saves[k].chunks@ == savable(maps[at[k]].dirty_chunks@, &maps[at[k]].loaded)
                &&& saves[k].meta.version == 1
                &&& saves[k].meta.seed == maps[at[k]].seed
                &&& saves[k].meta.generation_version == maps[at[k]].generation_version
                &&& saves[k].meta.spawn_points@ == spawn_points_spec(respawns, maps[at[k]].map_id)
            },
{
    let pred = |map: SavedMap| map.has_save_dir;
    let at = lemma_filter_picks(maps, pred);
    let a = |i: int| pred(maps[i]);
    let b = |i: int| maps[i].has_save_dir;
    assert forall|i: int| 0 <= i < maps.len() implies #[trigger] a(i) == #[trigger] b(i) by {}
    lemma_picks_same(at, maps.len() as int, a, b);
    assert forall|k: int| 0 <= k < at.len() implies is_map_save(
        saves[k],
        maps[#[trigger] at[k]],
        respawns,
    ) by {
        assert(maps[at[k]] == maps_with_dir(maps)[k]);
    }
    at
}

/// A save takes the changes off the maps that it writes, and leaves everything else of all maps.
pub proof fn law_written_maps_are_clean(before: Seq<SavedMap>, after: Seq<SavedMap>, i: int)
    requires
        drained(before, after),
        0 <= i < before.len(),
    ensures
        after.len() == before.len(),
        before[i].has_save_dir ==> after[i].dirty_chunks@.len() == 0,
        !before[i].has_save_dir ==> after[i].dirty_chunks == before[i].dirty_chunks,
        after[i].map_id == before[i].map_id,
        after[i].seed == before[i].seed,
        after[i].generation_version == before[i].generation_version,
        after[i].has_save_dir == before[i].has_save_dir,
        after[i].loaded == before[i].loaded,
{
}

/// The world is written whole: what is written holds what is written of the maps and the entities that
/// are saved with them.
pub proof fn law_world_is_written_whole(
    save: WorldSave,
    maps: Seq<SavedMap>,
    entities: Seq<SaveRow>,
    respawns: Seq<RespawnRow>,
)
    requires
        is_world_save(save, maps, entities, respawns),
    ensures
        are_map_saves(save.maps@, maps, respawns),
        groups_saved(save.entities@, entities),
{
}

} // verus!
