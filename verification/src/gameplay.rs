//! Joining, dying and coming back to life.
use crate::entity::Entity;
use crate::map::persistence::{
    law_spawn_points_are_the_maps_own, spawn_points_on, spawn_points_spec, RespawnRow,
};
use crate::map::types::{can_be_room, MapInstanceId, MapRegistry, RoomRegistry};
use crate::player::PlayerId;
use crate::scalar::{Scalar, Vector};
use crate::seqs::{
    filter_map, lemma_filter_map_picks, lemma_filter_map_step, lemma_picks_same, picks,
};
use crate::tick::{signed16, Tick};
use vstd::prelude::*;

verus! {

/// How many ticks a character cannot be hurt after it came back to life.
pub const INVULNERABLE_TICKS: i16 = 128;

/// How far around its character a client has chunks loaded.
pub const PLAYER_CHUNK_RADIUS: u32 = 4;

/// The place to appear where no respawn point is known: five units above the origin.
pub open spec fn default_spawn() -> Vector {
    Vector { x: Scalar(0), y: Scalar(0x40a0_0000), z: Scalar(0) }
}

pub fn default_spawn_pos() -> (position: Vector)
    ensures
        position == default_spawn(),
{
    Vector { x: Scalar(0), y: Scalar(0x40a0_0000), z: Scalar(0) }
}

/// The respawn points of a map: the saved ones, or the default one where none are saved.
pub fn respawn_points(saved: Option<Vec<Vector>>) -> (points: Vec<Vector>)
    ensures
        points@ == (if saved is Some && saved->0@.len() > 0 {
            saved->0@
        } else {
            seq![default_spawn()]
        }),
{
    if let Some(points) = saved {
        if points.len() > 0 {
            return points;
        }
    }
    let mut points: Vec<Vector> = Vec::new();
    points.push(default_spawn_pos());
    points
}

/// A respawn point and its squared distance from whoever died.
#[derive(Clone, Copy, Debug, PartialEq, Eq, Structural)]
pub struct RespawnCandidate {
    pub position: Vector,
    pub distance: Scalar,
}

/// Where the search for the nearest candidate ends: a later one wins only if it is known to be
/// nearer than the best one before it.
pub open spec fn nearest_index(candidates: Seq<RespawnCandidate>) -> int
    decreases candidates.len(),
{
    if candidates.len() <= 1 {
        0
    } else {
        let best = nearest_index(candidates.drop_last());
        if candidates[best].distance.exceeds_spec(candidates.last().distance) {
            candidates.len() - 1
        } else {
            best
        }
    }
}

/// The place to respawn.
pub open spec fn nearest_spec(candidates: Seq<RespawnCandidate>) -> Vector {
    if candidates.len() == 0 {
        default_spawn()
    } else {
        candidates[nearest_index(candidates)].position
    }
}

pub fn nearest_respawn_pos(candidates: &Vec<RespawnCandidate>) -> (position: Vector)
    ensures
        position == nearest_spec(candidates@),
{
    if candidates.len() == 0 {
        return default_spawn_pos();
    }
    let mut best: usize = 0;
    let mut i: usize = 1;
    while i < candidates.len()
        invariant
            1 <= i <= candidates@.len(),
            best < i,
            best == nearest_index(candidates@.take(i as int)),
        decreases candidates@.len() - i,
    {
        proof {
            let next = candidates@.take(i + 1);
            assert(next.drop_last() =~= candidates@.take(i as int));
            assert(next[best as int] == candidates@[best as int]);
        }
        let challenger: Scalar = candidates[i].distance;
        let champion: Scalar = candidates[best].distance;
        if champion.exceeds(challenger) {
            best = i;
        }
        i = i + 1;
    }
    assert(candidates@.take(i as int) =~= candidates@);
    candidates[best].position
}

/// Where all distances are numbers, the chosen point is no farther than any other, and nearer than
/// all that come before it.
pub proof fn law_nearest_is_nearest(candidates: Seq<RespawnCandidate>, i: int)
    requires
        0 <= i < candidates.len(),
        forall|k: int| 0 <= k < candidates.len() ==> !(#[trigger] candidates[k]).distance.is_nan_spec(),
    ensures
        0 <= nearest_index(candidates) < candidates.len(),
        candidates[i].distance.at_least_spec(candidates[nearest_index(candidates)].distance),
        i < nearest_index(candidates) ==> candidates[i].distance.exceeds_spec(
            candidates[nearest_index(candidates)].distance,
        ),
    decreases candidates.len(),
{
    if candidates.len() > 1 {
        let init = candidates.drop_last();
        assert(forall|k: int| 0 <= k < init.len() ==> #[trigger] init[k] == candidates[k]);
        if i < init.len() {
            law_nearest_is_nearest(init, i);
        } else {
            law_nearest_is_nearest(init, 0);
        }
    }
}

/// A character as the check for death sees it.
#[derive(Debug)]
pub struct DeathRow {
    pub entity: Entity,
    /// Whether its health has run out.
    pub dead: bool,
    pub candidates: Vec<RespawnCandidate>,
}

/// Brings a character back: its health is full, it stands still, and nothing hurts it for a while.
#[derive(Clone, Copy, Debug, PartialEq, Eq, Structural)]
pub struct Respawn {
    pub entity: Entity,
    pub position: Vector,
    pub invulnerable_until: Tick,
}

/// What happens to a character.
pub open spec fn respawn_of(row: DeathRow, tick: Tick) -> Option<Respawn> {
    if row.dead {
        Some(
            Respawn {
                entity: row.entity,
                position: nearest_spec(row.candidates@),
                invulnerable_until: tick.offset_spec(INVULNERABLE_TICKS as int),
            },
        )
    } else {
        None
    }
}

/// Brings back every dead character, at the nearest respawn point.
pub fn check_death_and_respawn(rows: &Vec<DeathRow>, tick: Tick) -> (respawns: Vec<Respawn>)
    ensures
        respawns@ == filter_map(rows@, |row: DeathRow| respawn_of(row, tick)),
{
    let mut respawns: Vec<Respawn> = Vec::new();
    let mut i: usize = 0;
    let ghost f = |row: DeathRow| respawn_of(row, tick);
    assert(rows@.take(0) =~= Seq::empty());
    while i < rows.len()
        invariant
            i <= rows@.len(),
            f == (|row: DeathRow| respawn_of(row, tick)),
            respawns@ == filter_map(rows@.take(i as int), f),
        decreases rows@.len() - i,
    {
        proof {
            lemma_filter_map_step(rows@, i as int, f);
        }
        if rows[i].dead {
            respawns.push(
                Respawn {
                    entity: rows[i].entity,
                    position: nearest_respawn_pos(&rows[i].candidates),
                    invulnerable_until: tick.offset(INVULNERABLE_TICKS),
                },
            );
        }
        i = i + 1;
    }
    assert(rows@.take(i as int) =~= rows@);
    respawns
}

/// A character that cannot be hurt until the given tick.
#[derive(Clone, Copy, Debug, PartialEq, Eq, Structural)]
pub struct InvulnerableRow {
    pub entity: Entity,
    pub expires_at: Tick,
}

/// The character, if its protection is over.
pub open spec fn expired(row: InvulnerableRow, tick: Tick) -> Option<Entity> {
    if tick.reached_spec(row.expires_at) {
        Some(row.entity)
    } else {
        None
    }
}

/// The characters whose protection is over.
pub fn expire_invulnerability(rows: &Vec<InvulnerableRow>, tick: Tick) -> (entities: Vec<Entity>)
    ensures
        entities@ == filter_map(rows@, |row: InvulnerableRow| expired(row, tick)),
{
    let mut entities: Vec<Entity> = Vec::new();
    let mut i: usize = 0;
    let ghost f = |row: InvulnerableRow| expired(row, tick);
    assert(rows@.take(0) =~= Seq::empty());
    while i < rows.len()
        invariant
            i <= rows@.len(),
            f == (|row: InvulnerableRow| expired(row, tick)),
            entities@ == filter_map(rows@.take(i as int), f),
        decreases rows@.len() - i,
    {
        proof {
            lemma_filter_map_step(rows@, i as int, f);
        }
        if tick.reached(rows[i].expires_at) {
            entities.push(rows[i].entity);
        }
        i = i + 1;
    }
    assert(rows@.take(i as int) =~= rows@);
    entities
}

/// A character that came back at `tick` is protected for the next 128 ticks, and no longer.
pub proof fn law_protection_lasts(row: DeathRow, tick: Tick, elapsed: int)
    requires
        row.dead,
        0 <= elapsed <= 0x7fff,
    ensures
        expired(
            InvulnerableRow {
                entity: row.entity,
                expires_at: respawn_of(row, tick)->0.invulnerable_until,
            },
            tick.offset_spec(elapsed),
        ) is Some <==> elapsed >= INVULNERABLE_TICKS,
{
    let until = tick.offset_spec(INVULNERABLE_TICKS as int);
    let now = tick.offset_spec(elapsed);
    assert(signed16(until.0 - now.0) == INVULNERABLE_TICKS - elapsed);
}

/// The colours that characters get, in turn.
#[derive(Clone, Copy, Debug, PartialEq, Eq, Structural)]
pub enum CharacterColor {
    LimeGreen,
    Pink,
    Yellow,
    Aqua,
    Crimson,
}

/// The colours in the order in which they are given out.
pub open spec fn available_colors() -> Seq<CharacterColor> {
    seq![
        CharacterColor::LimeGreen,
        CharacterColor::Pink,
        CharacterColor::Yellow,
        CharacterColor::Aqua,
        CharacterColor::Crimson,
    ]
}

/// The colour of the next character, when there are `count` already.
pub fn character_color(count: usize) -> (color: CharacterColor)
    ensures
        color == available_colors()[count as int % 5],
{
    match count % 5 {
        0 => CharacterColor::LimeGreen,
        1 => CharacterColor::Pink,
        2 => CharacterColor::Yellow,
        3 => CharacterColor::Aqua,
        _ => CharacterColor::Crimson,
    }
}

/// The character of a client that joined, and the room that the client listens to.
///
/// It appears above `spawn_point`.
#[derive(Clone, Copy, Debug, PartialEq, Eq, Structural)]
pub struct NewCharacter {
    pub player: PlayerId,
    pub owner: Entity,
    pub color: CharacterColor,
    pub spawn_point: Vector,
    pub map_id: MapInstanceId,
    pub map_entity: Entity,
    pub chunk_radius: u32,
    pub room: Entity,
}

/// The first respawn point on the overworld, or the default one.
pub open spec fn first_spawn(points: Seq<RespawnRow>) -> Vector {
    let on_overworld = spawn_points_spec(points, MapInstanceId::Overworld);
    if on_overworld.len() > 0 {
        on_overworld[0]
    } else {
        default_spawn()
    }
}

/// The rooms once the overworld has one: `fresh`, unless it had one before.
pub open spec fn with_overworld_room(rooms: Map<MapInstanceId, Entity>, fresh: Entity) -> Map<
    MapInstanceId,
    Entity,
> {
    if rooms.dom().contains(MapInstanceId::Overworld) {
        rooms
    } else {
        rooms.insert(MapInstanceId::Overworld, fresh)
    }
}

/// Gives a client that joined a character on the overworld.
///
/// `character_count` is the number of players' characters so far. `fresh_room` is the room to use
/// if the overworld has none yet.
pub fn handle_connected(
    client: Entity,
    player: PlayerId,
    character_count: usize,
    points: &Vec<RespawnRow>,
    registry: &MapRegistry,
    rooms: &mut RoomRegistry,
    fresh_room: Entity,
) -> (character: NewCharacter)
    requires
        registry.wf(),
        registry.view().dom().contains(MapInstanceId::Overworld),
        old(rooms).wf(),
        can_be_room(old(rooms).view(), MapInstanceId::Overworld, fresh_room),
    ensures
        final(rooms).wf(),
        final(rooms).view().dom().contains(MapInstanceId::Overworld),
        final(rooms).view() == with_overworld_room(old(rooms).view(), fresh_room),
        character == (NewCharacter {
            player,
            owner: client,
            color: available_colors()[character_count as int % 5],
            spawn_point: first_spawn(points@),
            map_id: MapInstanceId::Overworld,
            map_entity: registry.view()[MapInstanceId::Overworld],
            chunk_radius: PLAYER_CHUNK_RADIUS,
            room: final(rooms).view()[MapInstanceId::Overworld],
        }),
{
    let on_overworld: Vec<Vector> = spawn_points_on(points, MapInstanceId::Overworld);
    let spawn_point: Vector = if on_overworld.len() > 0 {
        on_overworld[0]
    } else {
        default_spawn_pos()
    };
    let room: Entity = rooms.get_or_create(&MapInstanceId::Overworld, fresh_room);
    NewCharacter {
        player,
        owner: client,
        color: character_color(character_count),
        spawn_point,
        map_id: MapInstanceId::Overworld,
        map_entity: registry.get(&MapInstanceId::Overworld),
        chunk_radius: PLAYER_CHUNK_RADIUS,
        room,
    }
}

/// Clients that join the overworld all listen to the same room.
pub proof fn law_overworld_has_one_room(
    rooms: Map<MapInstanceId, Entity>,
    first: Entity,
    second: Entity,
)
    ensures
        with_overworld_room(with_overworld_room(rooms, first), second) == with_overworld_room(
            rooms,
            first,
        ),
{
}

/// A character that was replicated to a client.
#[derive(Clone, Copy, Debug, PartialEq, Eq, Structural)]
pub struct ReplicatedCharacter {
    pub entity: Entity,
    /// Whether it is the client's own.
    pub controlled: bool,
}

/// What a client does with a new character.
#[derive(Clone, Copy, Debug, PartialEq, Eq, Structural)]
pub enum CharacterSetup {
    /// Lets the player's input reach it.
    BindInput(Entity),
    /// Puts it into the simulation, on the given map.
    AddPhysics { entity: Entity, map_id: MapInstanceId },
}

/// What a client does with its new characters: its own take input, and those that it simulates are
/// put into the overworld.
pub open spec fn character_setup(
    replicated: Seq<ReplicatedCharacter>,
    simulated: Seq<Entity>,
) -> Seq<CharacterSetup> {
    filter_map(
        replicated,
        |row: ReplicatedCharacter|
            if row.controlled {
                Some(CharacterSetup::BindInput(row.entity))
            } else {
                None
            },
    ) + simulated.map_values(
        |entity: Entity| CharacterSetup::AddPhysics { entity, map_id: MapInstanceId::Overworld },
    )
}

/// Sets up new characters on a client. `simulated` are those that are predicted or interpolated from
/// now on.
pub fn handle_new_character(
    replicated: &Vec<ReplicatedCharacter>,
    simulated: &Vec<Entity>,
) -> (setup: Vec<CharacterSetup>)
    ensures
        setup@ == character_setup(replicated@, simulated@),
{
    let mut setup: Vec<CharacterSetup> = Vec::new();
    let mut i: usize = 0;
    let ghost f = |row: ReplicatedCharacter|
        if row.controlled {
            Some(CharacterSetup::BindInput(row.entity))
        } else {
            None
        };
    assert(replicated@.take(0) =~= Seq::empty());
    while i < replicated.len()
        invariant
            i <= replicated@.len(),
            f == (|row: ReplicatedCharacter|
                if row.controlled {
                    Some(CharacterSetup::BindInput(row.entity))
                } else {
                    None
                }),
            setup@ == filter_map(replicated@.take(i as int), f),
        decreases replicated@.len() - i,
    {
        proof {
            lemma_filter_map_step(replicated@, i as int, f);
        }
        if replicated[i].controlled {
            setup.push(CharacterSetup::BindInput(replicated[i].entity));
        }
        i = i + 1;
    }
    assert(replicated@.take(i as int) =~= replicated@);
    let ghost bound = setup@;
    let ghost added = simulated@.map_values(
        |entity: Entity| CharacterSetup::AddPhysics { entity, map_id: MapInstanceId::Overworld },
    );
    let mut j: usize = 0;
    assert(setup@ =~= bound + added.take(0));
    while j < simulated.len()
        invariant
            j <= simulated@.len(),
            added == simulated@.map_values(
                |entity: Entity|
                    CharacterSetup::AddPhysics { entity, map_id: MapInstanceId::Overworld },
            ),
            setup@ == bound + added.take(j as int),
        decreases simulated@.len() - j,
    {
        setup.push(
            CharacterSetup::AddPhysics { entity: simulated[j], map_id: MapInstanceId::Overworld },
        );
        j = j + 1;
        assert(setup@ =~= bound + added.take(j as int));
    }
    assert(added.take(j as int) =~= added);
    setup
}

/// Where no respawn point is known, one appears five units above the origin.
pub proof fn law_default_place_is_above_the_origin()
    ensures
        default_spawn().x == Scalar(0),
        default_spawn().y == Scalar(0x40a0_0000),
        default_spawn().z == Scalar(0),
{
}

proof fn lemma_nearest(candidates: Seq<RespawnCandidate>)
    requires
        candidates.len() > 0,
    ensures
        ({
            let j = nearest_index(candidates);
            &&& 0 <= j < candidates.len()
            &&& candidates[0].distance.is_nan_spec() ==> j == 0
            &&& !candidates[0].distance.is_nan_spec() ==> {
                &&& !candidates[j].distance.is_nan_spec()
                &&& forall|i: int|
                    0 <= i < candidates.len() && !(
                    #[trigger] candidates[i]).distance.is_nan_spec()
                        ==> candidates[j].distance.rank() <= candidates[i].distance.rank() && (i < j
                        ==> candidates[j].distance.rank() < candidates[i].distance.rank())
            }
        }),
    decreases candidates.len(),
{
    if candidates.len() > 1 {
        let init = candidates.drop_last();
        lemma_nearest(init);
        let best = nearest_index(init);
        assert(init[0] == candidates[0]);
        assert(init[best] == candidates[best]);
        assert(forall|i: int| 0 <= i < init.len() ==> #[trigger] candidates[i] == init[i]);
    }
}

/// Whoever comes back does so at one of the respawn points, and where the first distance is a number at
/// the nearest of those whose distance is one, the first of these where several are. Without respawn
/// points it is the default place. Gives the point.
pub proof fn law_one_comes_back_at_the_nearest_point(candidates: Seq<RespawnCandidate>) -> (j: int)
    ensures
        candidates.len() == 0 ==> nearest_spec(candidates) == default_spawn(),
        candidates.len() > 0 ==> 0 <= j < candidates.len() && nearest_spec(candidates)
            == candidates[j].position,
        candidates.len() > 0 && candidates[0].distance.is_nan_spec() ==> j == 0,
        candidates.len() > 0 && !candidates[0].distance.is_nan_spec() ==> {
            &&& !candidates[j].distance.is_nan_spec()
            &&& forall|i: int|
                0 <= i < candidates.len() && !(#[trigger] candidates[i]).distance.is_nan_spec()
                    ==> candidates[j].distance.rank() <= candidates[i].distance.rank() && (i < j
                    ==> candidates[j].distance.rank() < candidates[i].distance.rank())
        },
{
    if candidates.len() > 0 {
        lemma_nearest(candidates);
    }
    nearest_index(candidates)
}

/// Every dead character comes back, in turn, at the nearest of its respawn points, and no other does.
/// It is protected until 128 ticks from now. Gives the character of each.
pub proof fn law_the_dead_come_back(rows: Seq<DeathRow>, tick: Tick) -> (at: Seq<int>)
    ensures
        ({
            let respawns = filter_map(rows, |row: DeathRow| respawn_of(row, tick));
            &&& at.len() == respawns.len()
            &&& picks(at, rows.len() as int, |i: int| rows[i].dead)
            &&& forall|k: int|
                #![trigger at[k]]
                0 <= k < at.len() ==> respawns[k].entity == rows[at[k]].entity
                    && respawns[k].position == nearest_spec(rows[at[k]].candidates@)
                    && respawns[k].invulnerable_until == Tick(
                    ((tick.0 + 128) % 0x1_0000) as u16,
                )
        }),
{
    let f = |row: DeathRow| respawn_of(row, tick);
    let at = lemma_filter_map_picks(rows, f);
    let a = |i: int| f(rows[i]) is Some;
    let b = |i: int| rows[i].dead;
    assert forall|i: int| 0 <= i < rows.len() implies #[trigger] a(i) == #[trigger] b(i) by {}
    lemma_picks_same(at, rows.len() as int, a, b);
    assert forall|k: int|
        #![trigger at[k]]
        0 <= k < at.len() implies f(rows[at[k]]) == Some(filter_map(rows, f)[k]) by {}
    at
}

/// The protection of every character whose time is reached is over, in turn, and of no other. Gives the
/// character of each.
pub proof fn law_protection_ends_when_its_time_is_reached(
    rows: Seq<InvulnerableRow>,
    tick: Tick,
) -> (at: Seq<int>)
    ensures
        ({
            let entities = filter_map(rows, |row: InvulnerableRow| expired(row, tick));
            &&& at.len() == entities.len()
            &&& picks(at, rows.len() as int, |i: int| tick.reached_spec(rows[i].expires_at))
            &&& forall|k: int|
                0 <= k < at.len() ==> entities[k] == rows[#[trigger] at[k]].entity
        }),
{
    let f = |row: InvulnerableRow| expired(row, tick);
    let at = lemma_filter_map_picks(rows, f);
    let a = |i: int| f(rows[i]) is Some;
    let b = |i: int| tick.reached_spec(rows[i].expires_at);
    assert forall|i: int| 0 <= i < rows.len() implies #[trigger] a(i) == #[trigger] b(i) by {}
    lemma_picks_same(at, rows.len() as int, a, b);
    assert forall|k: int|
        #![trigger at[k]]
        0 <= k < at.len() implies f(rows[at[k]]) == Some(filter_map(rows, f)[k]) by {}
    at
}

/// There are five colours, and they are given out in a fixed order, over and over.
pub proof fn law_colors_are_given_out_in_turn()
    ensures
        available_colors().len() == 5,
        available_colors()[0] == CharacterColor::LimeGreen,
        available_colors()[1] == CharacterColor::Pink,
        available_colors()[2] == CharacterColor::Yellow,
        available_colors()[3] == CharacterColor::Aqua,
        available_colors()[4] == CharacterColor::Crimson,
{
}

/// Whoever joins appears at the first respawn point on the overworld, or at the default place where the
/// overworld has none.
pub proof fn law_one_joins_at_the_first_point(points: Seq<RespawnRow>)
    ensures
        forall|i: int|
            0 <= i < points.len() && (#[trigger] points[i]).map_id == MapInstanceId::Overworld && (
            forall|j: int|
                0 <= j < i ==> (#[trigger] points[j]).map_id != MapInstanceId::Overworld)
                ==> first_spawn(points) == points[i].position,
        (forall|i: int|
            0 <= i < points.len() ==> (#[trigger] points[i]).map_id != MapInstanceId::Overworld)
            ==> first_spawn(points) == default_spawn(),
{
    let at = law_spawn_points_are_the_maps_own(points, MapInstanceId::Overworld);
    let here = |i: int| points[i].map_id == MapInstanceId::Overworld;
    assert forall|i: int|
        0 <= i < points.len() && (#[trigger] points[i]).map_id == MapInstanceId::Overworld && (
        forall|j: int|
            0 <= j < i ==> (
            #[trigger] points[j]).map_id != MapInstanceId::Overworld) implies first_spawn(points)
        == points[i].position by {
        assert(here(i));
        assert(at.contains(i));
        let k = choose|k: int| 0 <= k < at.len() && at[k] == i;
        assert(here(at[0]));
        if k > 0 {
            assert(at[0] < at[k]);
        }
    }
    if at.len() > 0 {
        assert(here(at[0]));
    }
}

/// The overworld's room is the one that it has, or the new one where it has none; other maps' rooms
/// stay.
pub proof fn law_joining_opens_the_overworlds_room(
    rooms: Map<MapInstanceId, Entity>,
    fresh: Entity,
    other: MapInstanceId,
)
    ensures
        ({
            let after = with_overworld_room(rooms, fresh);
            &&& after.dom().contains(MapInstanceId::Overworld)
            &&& rooms.dom().contains(MapInstanceId::Overworld) ==> after[MapInstanceId::Overworld]
                == rooms[MapInstanceId::Overworld]
            &&& !rooms.dom().contains(MapInstanceId::Overworld) ==> after[MapInstanceId::Overworld]
                == fresh
            &&& other != MapInstanceId::Overworld ==> after.dom().contains(other)
                == rooms.dom().contains(other) && (rooms.dom().contains(other) ==> after[other]
                == rooms[other])
        }),
{
}

/// A client has chunks loaded four chunks around its character.
pub proof fn law_players_see_four_chunks_far()
    ensures
        PLAYER_CHUNK_RADIUS == 4,
        INVULNERABLE_TICKS == 128,
{
}

/// A client binds its input to each character of its own, in turn, and then puts every character that
/// it simulates into the overworld. Gives the character that each binding is for.
pub proof fn law_characters_are_set_up(
    replicated: Seq<ReplicatedCharacter>,
    simulated: Seq<Entity>,
) -> (at: Seq<int>)
    ensures
        ({
            let setup = character_setup(replicated, simulated);
            &&& setup.len() == at.len() + simulated.len()
            &&& picks(at, replicated.len() as int, |i: int| replicated[i].controlled)
            &&& forall|k: int|
                0 <= k < at.len() ==> setup[k] == CharacterSetup::BindInput(
                    replicated[#[trigger] at[k]].entity,
                )
            &&& forall|k: int|
                0 <= k < simulated.len() ==> setup[at.len() + k] == (CharacterSetup::AddPhysics {
                    entity: #[trigger] simulated[k],
                    map_id: MapInstanceId::Overworld,
                })
        }),
{
    let f = |row: ReplicatedCharacter|
        if row.controlled {
            Some(CharacterSetup::BindInput(row.entity))
        } else {
            None
        };
    let at = lemma_filter_map_picks(replicated, f);
    let a = |i: int| f(replicated[i]) is Some;
    let b = |i: int| replicated[i].controlled;
    assert forall|i: int| 0 <= i < replicated.len() implies #[trigger] a(i) == #[trigger] b(i) by {}
    lemma_picks_same(at, replicated.len() as int, a, b);
    let setup = character_setup(replicated, simulated);
    assert forall|k: int| 0 <= k < at.len() implies setup[k] == CharacterSetup::BindInput(
        replicated[#[trigger] at[k]].entity,
    ) by {
        assert(f(replicated[at[k]]) == Some(filter_map(replicated, f)[k]));
    }
    at
}

} // verus!
