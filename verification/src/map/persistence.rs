//! What is saved with a map.
use crate::entity::Entity;
use crate::geometry::IVec3;
use crate::map::types::{
    MapInstanceId, MapRegistry, SavedEntity, SavedEntityKind, OVERWORLD_TREE_HEIGHT,
};
use crate::scalar::Vector;
use crate::seqs::{filter_map, lemma_filter_map_picks, lemma_picks_same, picks};
use vstd::prelude::*;
use vstd::string::StringExecFns;

verus! {

/// An entity that is marked to be saved with its map.
#[derive(Clone, Copy, Debug, PartialEq, Eq, Structural)]
pub struct SaveRow {
    pub map_id: MapInstanceId,
    pub position: Vector,
    pub is_respawn_point: bool,
}

/// The entities saved with one map.
#[derive(Debug)]
pub struct MapEntities {
    pub map_id: MapInstanceId,
    pub entities: Vec<SavedEntity>,
}

/// How an entity is saved with the map `map_id`. One that is not there, or of no known kind, is not.
pub open spec fn saved_form(row: SaveRow, map_id: MapInstanceId) -> Option<SavedEntity> {
    if row.map_id == map_id && row.is_respawn_point {
        Some(SavedEntity { kind: SavedEntityKind::RespawnPoint, position: row.position })
    } else {
        None
    }
}

/// The entities saved with a map, in order.
pub open spec fn saved_on(rows: Seq<SaveRow>, map_id: MapInstanceId) -> Seq<SavedEntity> {
    filter_map(rows, |row: SaveRow| saved_form(row, map_id))
}

fn collect_saved(rows: &Vec<SaveRow>, map_id: MapInstanceId) -> (entities: Vec<SavedEntity>)
    ensures
        entities@ == saved_on(rows@, map_id),
{
    let mut entities: Vec<SavedEntity> = Vec::new();
    let mut i: usize = 0;
    let ghost f = |row: SaveRow| saved_form(row, map_id);
    assert(rows@.take(0) =~= Seq::empty());
    while i < rows.len()
        invariant
            i <= rows@.len(),
            f == (|row: SaveRow| saved_form(row, map_id)),
            entities@ == filter_map(rows@.take(i as int), f),
        decreases rows@.len() - i,
    {
        proof {
            crate::seqs::lemma_filter_map_step(rows@, i as int, f);
        }
        if rows[i].map_id == map_id && rows[i].is_respawn_point {
            entities.push(
                SavedEntity { kind: SavedEntityKind::RespawnPoint, position: rows[i].position },
            );
        }
        i = i + 1;
    }
    assert(rows@.take(i as int) =~= rows@);
    entities
}

/// Whether a group for `map_id` is among `groups`.
pub open spec fn has_group(groups: Seq<MapEntities>, map_id: MapInstanceId) -> bool {
    exists|i: int| 0 <= i < groups.len() && (#[trigger] groups[i]).map_id == map_id
}

fn find_group(groups: &Vec<MapEntities>, map_id: MapInstanceId) -> (found: bool)
    ensures
        found == has_group(groups@, map_id),
{
    let mut i: usize = 0;
    while i < groups.len()
        invariant
            i <= groups@.len(),
            forall|j: int| 0 <= j < i ==> (#[trigger] groups@[j]).map_id != map_id,
        decreases groups@.len() - i,
    {
        if groups[i].map_id == map_id {
            assert(groups@[i as int].map_id == map_id);
            return true;
        }
        i = i + 1;
    }
    false
}

/// Whether `groups` hold what is saved of `rows`: one group for each map that anything is saved with.
pub open spec fn groups_saved(groups: Seq<MapEntities>, rows: Seq<SaveRow>) -> bool {
    &&& forall|i: int, j: int|
        0 <= i < j < groups.len() ==> (#[trigger] groups[i]).map_id != (#[trigger] groups[j]).map_id
    &&& forall|i: int|
        0 <= i < groups.len() ==> (#[trigger] groups[i]).entities@ == saved_on(
            rows,
            groups[i].map_id,
        )
    &&& forall|id: MapInstanceId| #[trigger]
        has_group(groups, id) <==> exists|i: int|
            0 <= i < rows.len() && saved_form(#[trigger] rows[i], id) is Some
}

/// Groups the entities to be saved by map. A map occurs once, and only if anything is saved with it.
pub fn collect_saved_entities(rows: &Vec<SaveRow>) -> (groups: Vec<MapEntities>)
    ensures
        groups_saved(groups@, rows@),
{
    let mut groups: Vec<MapEntities> = Vec::new();
    let mut i: usize = 0;
    while i < rows.len()
        invariant
            i <= rows@.len(),
            forall|a: int, b: int|
                0 <= a < b < groups@.len() ==> (#[trigger] groups@[a]).map_id != (
                #[trigger] groups@[b]).map_id,
            forall|a: int|
                0 <= a < groups@.len() ==> (#[trigger] groups@[a]).entities@ == saved_on(
                    rows@,
                    groups@[a].map_id,
                ),
            forall|id: MapInstanceId| #[trigger]
                has_group(groups@, id) <==> exists|k: int|
                    0 <= k < i && saved_form(#[trigger] rows@[k], id) is Some,
        decreases rows@.len() - i,
    {
        let row = rows[i];
        let ghost before = groups@;
        if row.is_respawn_point {
            if !find_group(&groups, row.map_id) {
                groups.push(
                    MapEntities { map_id: row.map_id, entities: collect_saved(rows, row.map_id) },
                );
            }
        }
        proof {
            assert forall|id: MapInstanceId| #[trigger] has_group(groups@, id) <==> has_group(
                before,
                id,
            ) || saved_form(row, id) is Some by {
                if has_group(before, id) {
                    let k = choose|k: int|
                        0 <= k < before.len() && (#[trigger] before[k]).map_id == id;
                    assert(groups@[k] == before[k]);
                }
                if has_group(groups@, id) {
                    let k = choose|k: int|
                        0 <= k < groups@.len() && (#[trigger] groups@[k]).map_id == id;
                    if k < before.len() {
                        assert(before[k] == groups@[k]);
                    }
                }
                if saved_form(row, id) is Some && !has_group(before, id) {
                    assert(groups@[before.len() as int].map_id == id);
                }
            }
            assert forall|id: MapInstanceId| #[trigger] has_group(groups@, id) <==> exists|k: int|
                0 <= k < i + 1 && saved_form(#[trigger] rows@[k], id) is Some by {
                if saved_form(row, id) is Some {
                    assert(saved_form(rows@[i as int], id) is Some);
                }
            }
        }
        i = i + 1;
    }
    groups
}

/// A respawn point and the map it is on.
#[derive(Clone, Copy, Debug, PartialEq, Eq, Structural)]
pub struct RespawnRow {
    pub position: Vector,
    pub map_id: MapInstanceId,
}

/// The respawn points on a map, in order.
pub open spec fn spawn_points_spec(rows: Seq<RespawnRow>, map_id: MapInstanceId) -> Seq<Vector> {
    filter_map(
        rows,
        |row: RespawnRow|
            if row.map_id == map_id {
                Some(row.position)
            } else {
                None
            },
    )
}

/// The respawn points that are saved with a map.
pub fn spawn_points_on(rows: &Vec<RespawnRow>, map_id: MapInstanceId) -> (points: Vec<Vector>)
    ensures
        points@ == spawn_points_spec(rows@, map_id),
{
    let mut points: Vec<Vector> = Vec::new();
    let mut i: usize = 0;
    let ghost f = |row: RespawnRow|
        if row.map_id == map_id {
            Some(row.position)
        } else {
            None
        };
    assert(rows@.take(0) =~= Seq::empty());
    while i < rows.len()
        invariant
            i <= rows@.len(),
            f == (|row: RespawnRow|
                if row.map_id == map_id {
                    Some(row.position)
                } else {
                    None
                }),
            points@ == filter_map(rows@.take(i as int), f),
        decreases rows@.len() - i,
    {
        proof {
            crate::seqs::lemma_filter_map_step(rows@, i as int, f);
        }
        if rows[i].map_id == map_id {
            points.push(rows[i].position);
        }
        i = i + 1;
    }
    assert(rows@.take(i as int) =~= rows@);
    points
}

/// An entity that was saved with a map, as it comes back there.
pub open spec fn restored(saved: SavedEntity, map_id: MapInstanceId) -> RespawnRow {
    match saved.kind {
        SavedEntityKind::RespawnPoint => RespawnRow { position: saved.position, map_id },
    }
}

/// Brings back the entities that were saved with a map.
pub fn load_map_entities(saved: &Vec<SavedEntity>, map_id: MapInstanceId) -> (rows: Vec<RespawnRow>)
    ensures
        rows@ == saved@.map_values(|entity: SavedEntity| restored(entity, map_id)),
{
    let mut rows: Vec<RespawnRow> = Vec::new();
    let mut i: usize = 0;
    while i < saved.len()
        invariant
            i <= saved@.len(),
            rows@.len() == i,
            forall|k: int| 0 <= k < i ==> #[trigger] rows@[k] == restored(saved@[k], map_id),
        decreases saved@.len() - i,
    {
        match saved[i].kind {
            SavedEntityKind::RespawnPoint => {
                rows.push(RespawnRow { position: saved[i].position, map_id });
            },
        }
        i = i + 1;
    }
    assert(rows@ =~= saved@.map_values(|entity: SavedEntity| restored(entity, map_id)));
    rows
}

/// The respawn points among `rows` that are on a map and are to be saved with it.
pub open spec fn saved_points(rows: Seq<SaveRow>, map_id: MapInstanceId) -> Seq<Vector> {
    rows.filter(|row: SaveRow| row.map_id == map_id && row.is_respawn_point).map_values(
        |row: SaveRow| row.position,
    )
}

/// What was saved with a map comes back there: the same respawn points, in the same order.
pub proof fn law_saved_entities_come_back(rows: Seq<SaveRow>, map_id: MapInstanceId)
    ensures
        saved_on(rows, map_id).map_values(|entity: SavedEntity| restored(entity, map_id))
            == saved_points(rows, map_id).map_values(
            |position: Vector| RespawnRow { position, map_id },
        ),
    decreases rows.len(),
{
    let f = |row: SaveRow| saved_form(row, map_id);
    let pred = |row: SaveRow| row.map_id == map_id && row.is_respawn_point;
    if rows.len() == 0 {
        crate::seqs::lemma_filter_empty(rows, pred);
        assert(filter_map(rows, f) =~= Seq::empty());
    } else {
        let last = rows.len() - 1;
        law_saved_entities_come_back(rows.drop_last(), map_id);
        crate::seqs::lemma_filter_map_step(rows, last, f);
        crate::seqs::lemma_filter_step(rows, last, pred);
        assert(rows.take(last) =~= rows.drop_last());
        assert(rows.take(last + 1) =~= rows);
        let init = rows.drop_last();
        let restore = |entity: SavedEntity| restored(entity, map_id);
        let position_of = |row: SaveRow| row.position;
        let row_of = |position: Vector| RespawnRow { position, map_id };
        if pred(rows[last]) {
            let kept = saved_form(rows[last], map_id)->0;
            assert(saved_on(rows, map_id).map_values(restore) =~= saved_on(
                init,
                map_id,
            ).map_values(restore).push(restored(kept, map_id)));
            assert(saved_points(rows, map_id) =~= saved_points(init, map_id).push(
                rows[last].position,
            ));
            assert(saved_points(rows, map_id).map_values(row_of) =~= saved_points(
                init,
                map_id,
            ).map_values(row_of).push(row_of(rows[last].position)));
        }
    }
}

/// The seed and the generation version that an overworld was saved with.
#[derive(Clone, Copy, Debug, PartialEq, Eq, Structural)]
pub struct SavedStart {
    pub seed: u64,
    pub generation_version: u32,
}

/// The seed of an overworld that was never saved.
pub const DEFAULT_OVERWORLD_SEED: u64 = 999;

/// The version of terrain generation.
pub const GENERATION_VERSION: u32 = 0;

/// A map as the server sets it up.
#[derive(Clone, Copy, Debug, PartialEq, Eq, Structural)]
pub struct ServerMapConfig {
    pub seed: u64,
    pub generation_version: u32,
    pub spawning_distance: u32,
    pub bounds: Option<IVec3>,
    pub tree_height: u32,
}

/// The overworld: as it was saved, or else with the default seed.
pub open spec fn overworld_config(saved: Option<SavedStart>) -> ServerMapConfig {
    ServerMapConfig {
        seed: match saved {
            Some(start) => start.seed,
            None => DEFAULT_OVERWORLD_SEED,
        },
        generation_version: match saved {
            Some(start) => start.generation_version,
            None => GENERATION_VERSION,
        },
        spawning_distance: 2,
        bounds: None,
        tree_height: OVERWORLD_TREE_HEIGHT,
    }
}

/// Sets up the overworld, as the map that `map_entity` is.
pub fn spawn_overworld(
    saved: Option<SavedStart>,
    registry: &mut MapRegistry,
    map_entity: Entity,
) -> (config: ServerMapConfig)
    requires
        old(registry).wf(),
    ensures
        config == overworld_config(saved),
        final(registry).wf(),
        final(registry).view() == old(registry).view().insert(MapInstanceId::Overworld, map_entity),
{
    registry.insert(MapInstanceId::Overworld, map_entity);
    let start: SavedStart = match saved {
        Some(start) => start,
        None => SavedStart {
            seed: DEFAULT_OVERWORLD_SEED,
            generation_version: GENERATION_VERSION,
        },
    };
    ServerMapConfig {
        seed: start.seed,
        generation_version: start.generation_version,
        spawning_distance: 2,
        bounds: None,
        tree_height: OVERWORLD_TREE_HEIGHT,
    }
}

/// The digit with the given value.
pub open spec fn digit(value: int) -> char {
    (value + 48) as char
}

/// A number in decimal notation.
pub open spec fn decimal(n: nat) -> Seq<char>
    decreases n,
{
    if n < 10 {
        seq![digit(n as int)]
    } else {
        decimal(n / 10).push(digit((n % 10) as int))
    }
}

fn digit_text(value: u64) -> (text: &'static str)
    requires
        value < 10,
    ensures
        text@ == seq![digit(value as int)],
{
    proof {
        reveal_strlit("0");
        reveal_strlit("1");
        reveal_strlit("2");
        reveal_strlit("3");
        reveal_strlit("4");
        reveal_strlit("5");
        reveal_strlit("6");
        reveal_strlit("7");
        reveal_strlit("8");
        reveal_strlit("9");
    }
    let text: &'static str = match value {
        0 => "0",
        1 => "1",
        2 => "2",
        3 => "3",
        4 => "4",
        5 => "5",
        6 => "6",
        7 => "7",
        8 => "8",
        _ => "9",
    };
    assert(text@ =~= seq![digit(value as int)]);
    text
}

fn append_decimal(text: &mut String, n: u64)
    ensures
        final(text)@ == old(text)@ + decimal(n as nat),
    decreases n,
{
    if n >= 10 {
        append_decimal(text, n / 10);
    }
    text.append(digit_text(n % 10));
    assert(text@ =~= old(text)@ + decimal(n as nat));
}

/// The name of the directory that a map is saved in.
pub open spec fn map_dir(map_id: MapInstanceId) -> Seq<char> {
    match map_id {
        MapInstanceId::Overworld => "overworld"@,
        MapInstanceId::Homebase { owner } => "homebase-"@ + decimal(owner as nat),
    }
}

/// The name of the directory, in that of the world, that a map is saved in.
pub fn map_dir_name(map_id: &MapInstanceId) -> (name: String)
    ensures
        name@ == map_dir(*map_id),
{
    match map_id {
        MapInstanceId::Overworld => "overworld".to_string(),
        MapInstanceId::Homebase { owner } => {
            let mut name: String = "homebase-".to_string();
            append_decimal(&mut name, *owner);
            name
        },
    }
}

proof fn lemma_decimal_injective(a: nat, b: nat)
    requires
        decimal(a) == decimal(b),
    ensures
        a == b,
    decreases a,
{
    lemma_decimal_nonempty(a / 10);
    lemma_decimal_nonempty(b / 10);
    assert(decimal(a).last() == digit((a % 10) as int));
    assert(decimal(b).last() == digit((b % 10) as int));
    assert(a % 10 == b % 10);
    assert(a < 10 <==> decimal(a).len() == 1);
    assert(b < 10 <==> decimal(b).len() == 1);
    if a >= 10 {
        assert(decimal(a).drop_last() =~= decimal(a / 10));
        assert(decimal(b).drop_last() =~= decimal(b / 10));
        lemma_decimal_injective(a / 10, b / 10);
    }
}

proof fn lemma_decimal_nonempty(n: nat)
    ensures
        decimal(n).len() > 0,
{
}

/// No two maps are saved in the same directory.
pub proof fn law_maps_have_their_own_directories(a: MapInstanceId, b: MapInstanceId)
    requires
        map_dir(a) == map_dir(b),
    ensures
        a == b,
{
    reveal_strlit("overworld");
    reveal_strlit("homebase-");
    match (a, b) {
        (MapInstanceId::Homebase { owner: x }, MapInstanceId::Homebase { owner: y }) => {
            let prefix = "homebase-"@;
            assert(map_dir(a).skip(prefix.len() as int) =~= decimal(x as nat));
            assert(map_dir(b).skip(prefix.len() as int) =~= decimal(y as nat));
            lemma_decimal_injective(x as nat, y as nat);
        },
        (MapInstanceId::Overworld, MapInstanceId::Homebase { owner }) => {
            assert(map_dir(a)[0] == 'o');
            assert(map_dir(b)[0] == 'h');
        },
        (MapInstanceId::Homebase { owner }, MapInstanceId::Overworld) => {
            assert(map_dir(a)[0] == 'h');
            assert(map_dir(b)[0] == 'o');
        },
        _ => {},
    }
}

/// Of the entities that are marked, a map is saved with every respawn point on it, in order, at its
/// place. Gives the entity that each comes of.
pub proof fn law_respawn_points_are_saved(rows: Seq<SaveRow>, map_id: MapInstanceId) -> (at: Seq<int>)
    ensures
        at.len() == saved_on(rows, map_id).len(),
        picks(at, rows.len() as int, |i: int| rows[i].map_id == map_id && rows[i].is_respawn_point),
        forall|k: int|
            #![trigger at[k]]
            0 <= k < at.len() ==> saved_on(rows, map_id)[k].kind == SavedEntityKind::RespawnPoint
                && saved_on(rows, map_id)[k].position == rows[at[k]].position,
{
    let f = |row: SaveRow| saved_form(row, map_id);
    let at = lemma_filter_map_picks(rows, f);
    let a = |i: int| f(rows[i]) is Some;
    let b = |i: int| rows[i].map_id == map_id && rows[i].is_respawn_point;
    assert forall|i: int| 0 <= i < rows.len() implies #[trigger] a(i) == #[trigger] b(i) by {}
    lemma_picks_same(at, rows.len() as int, a, b);
    assert forall|k: int|
        #![trigger at[k]]
        0 <= k < at.len() implies f(rows[at[k]]) == Some(saved_on(rows, map_id)[k]) by {}
    at
}

/// Each map with a respawn point on it is saved with its entities once, and no other map is.
pub proof fn law_maps_are_saved_with_their_entities(groups: Seq<MapEntities>, rows: Seq<SaveRow>)
    requires
        groups_saved(groups, rows),
    ensures
        forall|g: int, h: int|
            0 <= g < groups.len() && 0 <= h < groups.len() && (#[trigger] groups[g]).map_id == (
            #[trigger] groups[h]).map_id ==> g == h,
        forall|g: int|
            0 <= g < groups.len() ==> (#[trigger] groups[g]).entities@ == saved_on(
                rows,
                groups[g].map_id,
            ) && exists|i: int|
                0 <= i < rows.len() && (#[trigger] rows[i]).is_respawn_point && rows[i].map_id
                    == groups[g].map_id,
        forall|i: int|
            0 <= i < rows.len() && (#[trigger] rows[i]).is_respawn_point ==> is_saved_map(
                groups,
                rows[i].map_id,
            ),
{
    assert forall|g: int| 0 <= g < groups.len() implies (#[trigger] groups[g]).entities@ == saved_on(
        rows,
        groups[g].map_id,
    ) && exists|i: int|
        0 <= i < rows.len() && (#[trigger] rows[i]).is_respawn_point && rows[i].map_id
            == groups[g].map_id by {
        assert(has_group(groups, groups[g].map_id));
        let i = choose|i: int|
            0 <= i < rows.len() && saved_form(#[trigger] rows[i], groups[g].map_id) is Some;
        assert(rows[i].is_respawn_point && rows[i].map_id == groups[g].map_id);
    }
    assert forall|i: int|
        0 <= i < rows.len() && (#[trigger] rows[i]).is_respawn_point implies is_saved_map(
        groups,
        rows[i].map_id,
    ) by {
        assert(saved_form(rows[i], rows[i].map_id) is Some);
        assert(has_group(groups, rows[i].map_id));
    }
}

/// Whether a map is among those that are saved.
pub open spec fn is_saved_map(groups: Seq<MapEntities>, map_id: MapInstanceId) -> bool {
    exists|g: int| 0 <= g < groups.len() && (#[trigger] groups[g]).map_id == map_id
}

/// The respawn points of a map are all those on it, in order. Gives the row of each.
pub proof fn law_spawn_points_are_the_maps_own(rows: Seq<RespawnRow>, map_id: MapInstanceId) -> (at:
    Seq<int>)
    ensures
        at.len() == spawn_points_spec(rows, map_id).len(),
        picks(at, rows.len() as int, |i: int| rows[i].map_id == map_id),
        forall|k: int|
            0 <= k < at.len() ==> spawn_points_spec(rows, map_id)[k] == rows[#[trigger] at[k]].position,
{
    let f = |row: RespawnRow|
        if row.map_id == map_id {
            Some(row.position)
        } else {
            None
        };
    let at = lemma_filter_map_picks(rows, f);
    let a = |i: int| f(rows[i]) is Some;
    let b = |i: int| rows[i].map_id == map_id;
    assert forall|i: int| 0 <= i < rows.len() implies #[trigger] a(i) == #[trigger] b(i) by {}
    lemma_picks_same(at, rows.len() as int, a, b);
    assert forall|k: int|
        #![trigger at[k]]
        0 <= k < at.len() implies f(rows[at[k]]) == Some(spawn_points_spec(rows, map_id)[k]) by {}
    at
}

/// What was saved comes back at its place, on the map that is loaded.
pub proof fn law_loaded_entities_keep_their_place(saved: SavedEntity, map_id: MapInstanceId)
    ensures
        restored(saved, map_id).position == saved.position,
        restored(saved, map_id).map_id == map_id,
{
}

/// The overworld goes on as it was saved; one that was never saved has the seed 999. Either way it has
/// no bounds, a tree five high, and is spawned two chunks far.
pub proof fn law_overworld_goes_on_as_saved(saved: Option<SavedStart>)
    ensures
        ({
            let config = overworld_config(saved);
            &&& saved is Some ==> config.seed == saved->0.seed && config.generation_version
                == saved->0.generation_version
            &&& saved is None ==> config.seed == 999 && config.generation_version == 0
            &&& config.spawning_distance == 2
            &&& config.bounds is None
            &&& config.tree_height == 5
        }),
{
}

/// The number that a list of digits stands for.
pub open spec fn number_of(digits: Seq<char>) -> int
    decreases digits.len(),
{
    if digits.len() == 0 {
        0
    } else {
        10 * number_of(digits.drop_last()) + (digits.last() as int - '0' as int)
    }
}

/// A number in decimal notation stands for itself, is made of digits alone, and has no zeros in front.
pub proof fn law_decimals_stand_for_their_number(n: nat)
    ensures
        number_of(decimal(n)) == n,
        decimal(n).len() >= 1,
        forall|i: int| 0 <= i < decimal(n).len() ==> '0' <= #[trigger] decimal(n)[i] <= '9',
        decimal(n).len() > 1 ==> decimal(n)[0] != '0',
    decreases n,
{
    assert(number_of(Seq::empty()) == 0);
    if n < 10 {
        assert(decimal(n).drop_last() =~= Seq::empty());
        assert(decimal(n).last() as int == n + '0' as int);
    } else {
        let front = decimal(n / 10);
        law_decimals_stand_for_their_number(n / 10);
        assert(decimal(n).drop_last() =~= front);
        assert(decimal(n).last() as int == n % 10 + '0' as int);
        assert(decimal(n)[0] == front[0]);
        assert(front.len() == 1 ==> front[0] != '0') by {
            if front.len() == 1 && front[0] == '0' {
                assert(front.drop_last() =~= Seq::empty());
                assert(number_of(front) == 0);
            }
        }
        assert forall|i: int| 0 <= i < decimal(n).len() implies '0' <= #[trigger] decimal(n)[i]
            <= '9' by {
            if i < front.len() {
                assert(decimal(n)[i] == front[i]);
            }
        }
    }
}

/// The overworld is saved in a directory of that name, and a homebase in one that names its owner.
pub proof fn law_directories_name_their_map(owner: u64)
    ensures
        map_dir(MapInstanceId::Overworld) == "overworld"@,
        map_dir(MapInstanceId::Homebase { owner }) == "homebase-"@ + decimal(owner as nat),
{
}

} // verus!
