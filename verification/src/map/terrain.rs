//! Terrain definitions for maps.
use crate::entity::Entity;
use crate::map::types::{terrain_def_name, terrain_name, MapInstanceId};
use crate::names::NameMap;
use crate::seqs::{
    filter_map, lemma_filter_map_picks, lemma_filter_map_step, lemma_picks_same, picks,
};
use vstd::prelude::*;

verus! {

/// A map and how far its terrain is.
#[derive(Clone, Copy, Debug, PartialEq, Eq, Structural)]
pub struct TerrainRow {
    pub map_entity: Entity,
    pub map_id: MapInstanceId,
    pub seed: u64,
    /// Whether its terrain definition was applied.
    pub applied: bool,
    /// Whether it has a generator.
    pub has_generator: bool,
}

/// A map whose terrain definition is applied, where there is one. Either way the map is done with.
#[derive(Clone, Copy, Debug, PartialEq, Eq, Structural)]
pub struct TerrainApplication {
    pub map_entity: Entity,
    pub definition: Option<u64>,
}

/// How the terrain definition of a map is applied, if it was not before.
pub open spec fn terrain_application(
    row: TerrainRow,
    definitions: Map<Seq<char>, u64>,
) -> Option<TerrainApplication> {
    if row.applied {
        None
    } else {
        Some(
            TerrainApplication {
                map_entity: row.map_entity,
                definition: if definitions.dom().contains(terrain_name(row.map_id)) {
                    Some(definitions[terrain_name(row.map_id)])
                } else {
                    None
                },
            },
        )
    }
}

/// Applies terrain definitions to the maps that are without.
pub fn apply_terrain_defs(rows: &Vec<TerrainRow>, definitions: &NameMap<u64>) -> (applied: Vec<
    TerrainApplication,
>)
    requires
        definitions.wf(),
    ensures
        applied@ == filter_map(
            rows@,
            |row: TerrainRow| terrain_application(row, definitions.view()),
        ),
{
    let mut applied: Vec<TerrainApplication> = Vec::new();
    let mut i: usize = 0;
    let ghost f = |row: TerrainRow| terrain_application(row, definitions.view());
    assert(rows@.take(0) =~= Seq::empty());
    while i < rows.len()
        invariant
            i <= rows@.len(),
            definitions.wf(),
            f == (|row: TerrainRow| terrain_application(row, definitions.view())),
            applied@ == filter_map(rows@.take(i as int), f),
        decreases rows@.len() - i,
    {
        proof {
            lemma_filter_map_step(rows@, i as int, f);
        }
        let row: TerrainRow = rows[i];
        if !row.applied {
            let definition: Option<u64> = match definitions.get(&terrain_def_name(&row.map_id)) {
                Some(definition) => Some(*definition),
                None => None,
            };
            applied.push(TerrainApplication { map_entity: row.map_entity, definition });
        }
        i = i + 1;
    }
    assert(rows@.take(i as int) =~= rows@);
    applied
}

/// A map that gets a generator, made from its seed.
#[derive(Clone, Copy, Debug, PartialEq, Eq, Structural)]
pub struct NewGenerator {
    pub map_entity: Entity,
    pub seed: u64,
}

/// The generator that a map gets, once its terrain definition was applied.
pub open spec fn new_generator(row: TerrainRow) -> Option<NewGenerator> {
    if row.applied && !row.has_generator {
        Some(NewGenerator { map_entity: row.map_entity, seed: row.seed })
    } else {
        None
    }
}

/// Gives generators to the maps that are ready for one.
pub fn build_terrain_generators(rows: &Vec<TerrainRow>) -> (generators: Vec<NewGenerator>)
    ensures
        generators@ == filter_map(rows@, |row: TerrainRow| new_generator(row)),
{
    let mut generators: Vec<NewGenerator> = Vec::new();
    let mut i: usize = 0;
    let ghost f = |row: TerrainRow| new_generator(row);
    assert(rows@.take(0) =~= Seq::empty());
    while i < rows.len()
        invariant
            i <= rows@.len(),
            f == (|row: TerrainRow| new_generator(row)),
            generators@ == filter_map(rows@.take(i as int), f),
        decreases rows@.len() - i,
    {
        proof {
            lemma_filter_map_step(rows@, i as int, f);
        }
        let row: TerrainRow = rows[i];
        if row.applied && !row.has_generator {
            generators.push(NewGenerator { map_entity: row.map_entity, seed: row.seed });
        }
        i = i + 1;
    }
    assert(rows@.take(i as int) =~= rows@);
    generators
}

/// Every map that is without its terrain definition is done with once, in turn, and gets the one that
/// has the name of its kind, if there is one. Gives the map of each.
pub proof fn law_terrain_goes_by_the_kind_of_map(
    rows: Seq<TerrainRow>,
    definitions: Map<Seq<char>, u64>,
) -> (at: Seq<int>)
    ensures
        ({
            let applied = filter_map(rows, |row: TerrainRow| terrain_application(row, definitions));
            &&& at.len() == applied.len()
            &&& picks(at, rows.len() as int, |i: int| !rows[i].applied)
            &&& forall|k: int|
                #![trigger at[k]]
                0 <= k < at.len() ==> {
                    let name = if rows[at[k]].map_id == MapInstanceId::Overworld {
                        "overworld"@
                    } else {
                        "homebase"@
                    };
                    &&& applied[k].map_entity == rows[at[k]].map_entity
                    &&& applied[k].definition is Some <==> definitions.dom().contains(name)
                    &&& applied[k].definition is Some ==> applied[k].definition->0
                        == definitions[name]
                }
        }),
{
    let f = |row: TerrainRow| terrain_application(row, definitions);
    let at = lemma_filter_map_picks(rows, f);
    let a = |i: int| f(rows[i]) is Some;
    let b = |i: int| !rows[i].applied;
    assert forall|i: int| 0 <= i < rows.len() implies #[trigger] a(i) == #[trigger] b(i) by {}
    lemma_picks_same(at, rows.len() as int, a, b);
    assert forall|k: int|
        #![trigger at[k]]
        0 <= k < at.len() implies f(rows[at[k]]) == Some(filter_map(rows, f)[k]) by {}
    at
}

/// Every map whose terrain definition was applied and that has no generator gets one, in turn, with
/// its own seed. Gives the map of each.
pub proof fn law_generators_have_their_maps_seed(rows: Seq<TerrainRow>) -> (at: Seq<int>)
    ensures
        ({
            let generators = filter_map(rows, |row: TerrainRow| new_generator(row));
            &&& at.len() == generators.len()
            &&& picks(at, rows.len() as int, |i: int| rows[i].applied && !rows[i].has_generator)
            &&& forall|k: int|
                #![trigger at[k]]
                0 <= k < at.len() ==> generators[k].map_entity == rows[at[k]].map_entity
                    && generators[k].seed == rows[at[k]].seed
        }),
{
    let f = |row: TerrainRow| new_generator(row);
    let at = lemma_filter_map_picks(rows, f);
    let a = |i: int| f(rows[i]) is Some;
    let b = |i: int| rows[i].applied && !rows[i].has_generator;
    assert forall|i: int| 0 <= i < rows.len() implies #[trigger] a(i) == #[trigger] b(i) by {}
    lemma_picks_same(at, rows.len() as int, a, b);
    assert forall|k: int|
        #![trigger at[k]]
        0 <= k < at.len() implies f(rows[at[k]]) == Some(filter_map(rows, f)[k]) by {}
    at
}

} // verus!
