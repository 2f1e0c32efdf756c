//! Maps on the client: the chunks it has, and its part in transitions.
use crate::entity::Entity;
use crate::geometry::{ChunkMap, ChunkSet, IVec2, IVec3};
use crate::map::streaming::{
    chunk_in, column_of, pushes, ChunkPush, ChunkTicket, ClientChunkVisibility, StreamSettings,
    StreamedMap, TicketKind,
};
use crate::map::transition::{ServerTransition, TransitionStep};
use crate::map::types::{
    ChunkDataSync, InstanceEntry, MapInstanceId, MapRegistry, MapTransitionStart, PendingTransition,
    RoomRegistry, UnloadColumn, VoxelType, HOMEBASE_TREE_HEIGHT, OVERWORLD_TREE_HEIGHT,
};
use crate::scalar::Vector;
use crate::seqs::{filter_map, lemma_filter_map_picks, lemma_picks_same, picks};
use crate::ui::{MapTransitionState, UiState};
use std::collections::HashMap;
use vstd::prelude::*;

verus! {

broadcast use vstd::std_specs::hash::group_hash_axioms;

/// A column of chunks, and its level.
#[derive(Clone, Copy, Debug, PartialEq, Eq, Structural)]
pub struct ColumnLevel {
    pub column: IVec2,
    pub level: u32,
}

/// The level of a column, if it has one.
pub open spec fn level_of(levels: Seq<ColumnLevel>, column: IVec2) -> Option<u32>
    decreases levels.len(),
{
    if levels.len() == 0 {
        None
    } else if levels.last().column == column {
        Some(levels.last().level)
    } else {
        level_of(levels.drop_last(), column)
    }
}

proof fn lemma_no_level(levels: Seq<ColumnLevel>, column: IVec2)
    requires
        forall|i: int| 0 <= i < levels.len() ==> (#[trigger] levels[i]).column != column,
    ensures
        level_of(levels, column) is None,
    decreases levels.len(),
{
    if levels.len() > 0 {
        assert(levels[levels.len() - 1].column != column);
        lemma_no_level(levels.drop_last(), column);
    }
}

proof fn lemma_has_level(levels: Seq<ColumnLevel>, i: int)
    requires
        0 <= i < levels.len(),
    ensures
        level_of(levels, levels[i].column) is Some,
    decreases levels.len(),
{
    if i < levels.len() - 1 {
        lemma_has_level(levels.drop_last(), i);
    }
}

/// What a client has of a map.
pub struct ClientMap {
    /// The voxels of the chunks that are there.
    pub chunks: ChunkMap<Vec<VoxelType>>,
    /// The columns that have a level, each once.
    pub levels: Vec<ColumnLevel>,
    /// The chunks that are to be meshed again.
    pub needing_remesh: ChunkSet,
}

impl Default for ClientMap {
    fn default() -> (map: ClientMap)
        ensures
            map.wf(),
            map.chunks.view() == Map::<IVec3, Vec<VoxelType>>::empty(),
            map.levels@.len() == 0,
            forall|p: IVec3| !map.needing_remesh.has(p),
    {
        ClientMap {
            chunks: ChunkMap::new(),
            levels: Vec::new(),
            needing_remesh: ChunkSet::new(),
        }
    }
}

/// Whether a client's map has taken the voxels of a chunk: they are there, in place of those that were,
/// the chunk is to be meshed again, and its column keeps its level or, if it has none, gets level zero.
/// Nothing else changes.
pub open spec fn takes_chunk(
    before: ClientMap,
    after: ClientMap,
    chunk_pos: IVec3,
    voxels: Vec<VoxelType>,
) -> bool {
    &&& after.chunks.view() == before.chunks.view().insert(chunk_pos, voxels)
    &&& forall|p: IVec3| #[trigger]
        after.needing_remesh.has(p) <==> p == chunk_pos || before.needing_remesh.has(p)
    &&& forall|c: IVec2| #[trigger]
        level_of(after.levels@, c) == (if c == column_of(chunk_pos) && level_of(before.levels@, c)
            is None {
            Some(0u32)
        } else {
            level_of(before.levels@, c)
        })
}

/// Whether a client's map has dropped a column: the voxels of its chunks and its level are gone.
/// Nothing else changes.
pub open spec fn drops_column(
    before: ClientMap,
    after: ClientMap,
    column: IVec2,
    heights: Seq<i32>,
) -> bool {
    &&& after.chunks.view() == before.chunks.view().remove_keys(column_chunks(column, heights))
    &&& after.needing_remesh == before.needing_remesh
    &&& forall|c: IVec2| #[trigger]
        level_of(after.levels@, c) == (if c == column {
            None
        } else {
            level_of(before.levels@, c)
        })
}

/// The chunks of a column.
pub open spec fn column_chunks(column: IVec2, heights: Seq<i32>) -> Set<IVec3> {
    Set::new(|p: IVec3| column_of(p) == column && heights.contains(p.y))
}

impl ClientMap {
    /// No column occurs twice.
    pub open spec fn wf(&self) -> bool {
        forall|i: int, j: int|
            0 <= i < j < self.levels@.len() ==> (#[trigger] self.levels@[i]).column != (
            #[trigger] self.levels@[j]).column
    }

    fn has_level(&self, column: IVec2) -> (leveled: bool)
        ensures
            leveled == (level_of(self.levels@, column) is Some),
            !leveled ==> forall|i: int|
                0 <= i < self.levels@.len() ==> (#[trigger] self.levels@[i]).column != column,
    {
        let mut i: usize = 0;
        while i < self.levels.len()
            invariant
                i <= self.levels@.len(),
                forall|j: int| 0 <= j < i ==> (#[trigger] self.levels@[j]).column != column,
            decreases self.levels@.len() - i,
        {
            if self.levels[i].column == column {
                proof {
                    lemma_has_level(self.levels@, i as int);
                }
                return true;
            }
            i = i + 1;
        }
        proof {
            lemma_no_level(self.levels@, column);
        }
        false
    }

    /// Takes the voxels of a chunk.
    pub fn handle_chunk_data_sync(&mut self, chunk_pos: IVec3, voxels: Vec<VoxelType>)
        requires
            old(self).wf(),
        ensures
            final(self).wf(),
            takes_chunk(*old(self), *final(self), chunk_pos, voxels),
    {
        let ghost before = self.levels@;
        let column = IVec2 { x: chunk_pos.x, y: chunk_pos.z };
        self.chunks.insert(chunk_pos, voxels);
        if !self.has_level(column) {
            self.levels.push(ColumnLevel { column, level: 0 });
            proof {
                assert forall|c: IVec2| #[trigger] level_of(self.levels@, c) == (if c == column {
                    Some(0u32)
                } else {
                    level_of(before, c)
                }) by {
                    assert(self.levels@.drop_last() =~= before);
                }
            }
        }
        self.needing_remesh.insert(chunk_pos);
    }

    /// Drops the chunks of a column, and its level.
    pub fn handle_unload_column(&mut self, column: IVec2, heights: &Vec<i32>)
        requires
            old(self).wf(),
        ensures
            final(self).wf(),
            drops_column(*old(self), *final(self), column, heights@),
    {
        let ghost before = *self;
        let mut j: usize = 0;
        assert(before.chunks.view().remove_keys(column_chunks(column, heights@.take(0)))
            =~= before.chunks.view());
        while j < heights.len()
            invariant
                j <= heights@.len(),
                self.levels == before.levels,
                self.needing_remesh == before.needing_remesh,
                self.chunks.view() == before.chunks.view().remove_keys(
                    column_chunks(column, heights@.take(j as int)),
                ),
            decreases heights@.len() - j,
        {
            let pos = IVec3 { x: column.x, y: heights[j], z: column.y };
            self.chunks.remove(pos);
            proof {
                let prefix = heights@.take(j as int);
                let longer = heights@.take(j + 1);
                assert(longer =~= prefix.push(heights@[j as int]));
                assert forall|y: i32| #[trigger] longer.contains(y) <==> prefix.contains(y) || y
                    == heights@[j as int] by {
                    if prefix.contains(y) {
                        let k = choose|k: int| 0 <= k < prefix.len() && prefix[k] == y;
                        assert(longer[k] == y);
                    }
                    assert(longer[j as int] == heights@[j as int]);
                    if longer.contains(y) {
                        let k = choose|k: int| 0 <= k < longer.len() && longer[k] == y;
                        if k < j {
                            assert(prefix[k] == y);
                        }
                    }
                }
                assert(self.chunks.view() =~= before.chunks.view().remove_keys(
                    column_chunks(column, longer),
                ));
            }
            j = j + 1;
        }
        assert(heights@.take(j as int) =~= heights@);
        let mut kept: Vec<ColumnLevel> = Vec::new();
        let mut i: usize = 0;
        while i < self.levels.len()
            invariant
                i <= self.levels@.len(),
                self.wf(),
                forall|a: int, b: int|
                    0 <= a < b < kept@.len() ==> (#[trigger] kept@[a]).column != (
                    #[trigger] kept@[b]).column,
                forall|a: int|
                    0 <= a < kept@.len() ==> exists|k: int|
                        0 <= k < i && #[trigger] self.levels@[k] == #[trigger] kept@[a],
                forall|c: IVec2| #[trigger]
                    level_of(kept@, c) == (if c == column {
                        None
                    } else {
                        level_of(self.levels@.take(i as int), c)
                    }),
            decreases self.levels@.len() - i,
        {
            let entry = self.levels[i];
            let ghost kept_before = kept@;
            proof {
                assert(self.levels@.take(i + 1).drop_last() =~= self.levels@.take(i as int));
                assert(self.levels@.take(i + 1).last() == entry);
            }
            if entry.column != column {
                kept.push(entry);
                proof {
                    assert(kept@.drop_last() =~= kept_before);
                    assert(kept@.last() == entry);
                    assert forall|a: int, b: int| 0 <= a < b < kept@.len() implies (
                    #[trigger] kept@[a]).column != (#[trigger] kept@[b]).column by {
                        if b == kept_before.len() {
                            assert(kept_before[a] == kept@[a]);
                            let k = choose|k: int|
                                0 <= k < i && #[trigger] self.levels@[k] == kept_before[a];
                            assert(self.levels@[k].column != self.levels@[i as int].column);
                        } else {
                            assert(kept_before[a].column != kept_before[b].column);
                        }
                    }
                    assert forall|a: int| 0 <= a < kept@.len() implies exists|k: int|
                        0 <= k < i + 1 && #[trigger] self.levels@[k] == #[trigger] kept@[a] by {
                        if a < kept_before.len() {
                            assert(kept_before[a] == kept@[a]);
                        } else {
                            assert(self.levels@[i as int] == kept@[a]);
                        }
                    }
                }
            }
            proof {
                assert forall|c: IVec2| #[trigger] level_of(kept@, c) == (if c == column {
                    None
                } else {
                    level_of(self.levels@.take(i + 1), c)
                }) by {
                    let earlier = level_of(kept_before, c);
                }
            }
            i = i + 1;
        }
        assert(self.levels@.take(i as int) =~= self.levels@);
        self.levels = kept;
    }

    /// Whether a client that goes to this map is ready: the first of its chunks are there.
    pub fn is_ready(&self) -> (ready: bool)
        ensures
            ready == (self.levels@.len() > 0),
    {
        self.levels.len() > 0
    }
}

/// What a client has of its maps, by the bits of their map entities.
pub struct ClientMaps {
    pub maps: HashMap<u64, ClientMap>,
}

impl ClientMaps {
    pub open spec fn wf(&self) -> bool {
        forall|bits: u64| #[trigger] self.maps@.dom().contains(bits) ==> self.maps@[bits].wf()
    }

    /// The bits of the map entity of an instance that is registered and that the client has.
    pub open spec fn target(&self, registry: &MapRegistry, map_id: MapInstanceId) -> Option<u64> {
        if registry.view().dom().contains(map_id) && self.maps@.dom().contains(
            registry.view()[map_id].bits_spec(),
        ) {
            Some(registry.view()[map_id].bits_spec())
        } else {
            None
        }
    }

    /// Takes the voxels of a chunk that the server has sent. Those of a map that is not there are
    /// passed over.
    pub fn handle_chunk_data_sync(&mut self, registry: &MapRegistry, sync: ChunkDataSync)
        requires
            registry.wf(),
            old(self).wf(),
        ensures
            final(self).wf(),
            match old(self).target(registry, sync.map_id) {
                Some(bits) => final(self).maps@ == old(self).maps@.insert(
                    bits,
                    final(self).maps@[bits],
                ) && takes_chunk(
                    old(self).maps@[bits],
                    final(self).maps@[bits],
                    sync.chunk_pos,
                    sync.data,
                ),
                None => final(self).maps@ == old(self).maps@,
            },
    {
        let ghost before = self.maps@;
        if let Some(map_entity) = registry.lookup(&sync.map_id) {
            let bits: u64 = map_entity.to_bits();
            match self.maps.remove(&bits) {
                Some(map) => {
                    let mut map: ClientMap = map;
                    map.handle_chunk_data_sync(sync.chunk_pos, sync.data);
                    self.maps.insert(bits, map);
                    assert(self.maps@ =~= before.insert(bits, map));
                },
                None => {
                    assert(self.maps@ =~= before);
                },
            }
        }
    }

    /// Drops a column that the server says is not needed. One of a map that is not there is passed
    /// over.
    pub fn handle_unload_column(
        &mut self,
        registry: &MapRegistry,
        unload: &UnloadColumn,
        heights: &Vec<i32>,
    )
        requires
            registry.wf(),
            old(self).wf(),
        ensures
            final(self).wf(),
            match old(self).target(registry, unload.map_id) {
                Some(bits) => final(self).maps@ == old(self).maps@.insert(
                    bits,
                    final(self).maps@[bits],
                ) && drops_column(
                    old(self).maps@[bits],
                    final(self).maps@[bits],
                    unload.column,
                    heights@,
                ),
                None => final(self).maps@ == old(self).maps@,
            },
    {
        let ghost before = self.maps@;
        if let Some(map_entity) = registry.lookup(&unload.map_id) {
            let bits: u64 = map_entity.to_bits();
            match self.maps.remove(&bits) {
                Some(map) => {
                    let mut map: ClientMap = map;
                    map.handle_unload_column(unload.column, heights);
                    self.maps.insert(bits, map);
                    assert(self.maps@ =~= before.insert(bits, map));
                },
                None => {
                    assert(self.maps@ =~= before);
                },
            }
        }
    }
}

impl Default for ClientMaps {
    fn default() -> (maps: ClientMaps)
        ensures
            maps.wf(),
            maps.maps@ == Map::<u64, ClientMap>::empty(),
    {
        ClientMaps { maps: HashMap::new() }
    }
}

/// A map as the client sets it up. The client generates no chunks.
#[derive(Clone, Copy, Debug, PartialEq, Eq, Structural)]
pub struct ClientMapConfig {
    pub seed: u64,
    pub generation_version: u32,
    pub spawning_distance: u32,
    pub bounds: Option<IVec3>,
    pub tree_height: u32,
    pub generates_chunks: bool,
}

/// How a map is set up: the overworld is deeper than a homebase, and a bounded map is spawned as far
/// as it reaches.
pub open spec fn client_map_config(
    map_id: MapInstanceId,
    seed: u64,
    bounds: Option<IVec3>,
) -> ClientMapConfig {
    ClientMapConfig {
        seed,
        generation_version: 0,
        spawning_distance: match bounds {
            Some(b) => if b.max_element_spec() > 1 {
                b.max_element_spec() as u32
            } else {
                1
            },
            None => 10,
        },
        bounds,
        tree_height: if map_id == MapInstanceId::Overworld {
            OVERWORLD_TREE_HEIGHT
        } else {
            HOMEBASE_TREE_HEIGHT
        },
        generates_chunks: false,
    }
}

pub fn spawn_map_instance(map_id: &MapInstanceId, seed: u64, bounds: Option<IVec3>) -> (config:
    ClientMapConfig)
    ensures
        config == client_map_config(*map_id, seed, bounds),
{
    let tree_height: u32 = match map_id {
        MapInstanceId::Overworld => OVERWORLD_TREE_HEIGHT,
        MapInstanceId::Homebase { .. } => HOMEBASE_TREE_HEIGHT,
    };
    let spawning_distance: u32 = match bounds {
        Some(b) => {
            let extent: i32 = b.max_element();
            if extent > 1 {
                extent as u32
            } else {
                1
            }
        },
        None => 10,
    };
    ClientMapConfig {
        seed,
        generation_version: 0,
        spawning_distance,
        bounds,
        tree_height,
        generates_chunks: false,
    }
}

/// Sets up the overworld that a client starts with, as the map that `map_entity` is.
pub fn spawn_overworld(registry: &mut MapRegistry, map_entity: Entity) -> (config: ClientMapConfig)
    requires
        old(registry).wf(),
    ensures
        config == (ClientMapConfig {
            seed: 0,
            generation_version: 0,
            spawning_distance: 2,
            bounds: None,
            tree_height: OVERWORLD_TREE_HEIGHT,
            generates_chunks: false,
        }),
        final(registry).wf(),
        final(registry).view() == old(registry).view().insert(MapInstanceId::Overworld, map_entity),
{
    registry.insert(MapInstanceId::Overworld, map_entity);
    ClientMapConfig {
        seed: 0,
        generation_version: 0,
        spawning_distance: 2,
        bounds: None,
        tree_height: OVERWORLD_TREE_HEIGHT,
        generates_chunks: false,
    }
}

/// A predicted character on the client.
#[derive(Clone, Copy, Debug, PartialEq, Eq, Structural)]
pub struct TicketRow {
    pub player: Entity,
    pub map_id: MapInstanceId,
    pub has_ticket: bool,
}

/// A character that gets a ticket for the chunks of a map.
#[derive(Clone, Copy, Debug, PartialEq, Eq, Structural)]
pub struct NewTicket {
    pub player: Entity,
    pub map_entity: Entity,
    pub kind: TicketKind,
}

/// The ticket that a character gets, if it has none: that of a player, for the map it is on.
pub open spec fn ticket_for(row: TicketRow, maps: Map<MapInstanceId, Entity>) -> Option<NewTicket> {
    if row.has_ticket {
        None
    } else {
        Some(
            NewTicket {
                player: row.player,
                map_entity: maps[row.map_id],
                kind: TicketKind::Player,
            },
        )
    }
}

/// Gives each predicted character a ticket for the map it is on.
pub fn attach_chunk_ticket_to_player(rows: &Vec<TicketRow>, registry: &MapRegistry) -> (tickets: Vec<
    NewTicket,
>)
    requires
        registry.wf(),
        forall|i: int|
            0 <= i < rows@.len() && !(#[trigger] rows@[i]).has_ticket
                ==> registry.view().dom().contains(rows@[i].map_id),
    ensures
        tickets@ == filter_map(rows@, |row: TicketRow| ticket_for(row, registry.view())),
{
    let mut tickets: Vec<NewTicket> = Vec::new();
    let mut i: usize = 0;
    let ghost f = |row: TicketRow| ticket_for(row, registry.view());
    assert(rows@.take(0) =~= Seq::empty());
    while i < rows.len()
        invariant
            i <= rows@.len(),
            registry.wf(),
            forall|k: int|
                0 <= k < rows@.len() && !(#[trigger] rows@[k]).has_ticket
                    ==> registry.view().dom().contains(rows@[k].map_id),
            f == (|row: TicketRow| ticket_for(row, registry.view())),
            tickets@ == filter_map(rows@.take(i as int), f),
        decreases rows@.len() - i,
    {
        proof {
            crate::seqs::lemma_filter_map_step(rows@, i as int, f);
        }
        let row: TicketRow = rows[i];
        if !row.has_ticket {
            tickets.push(
                NewTicket {
                    player: row.player,
                    map_entity: registry.get(&row.map_id),
                    kind: TicketKind::Player,
                },
            );
        }
        i = i + 1;
    }
    assert(rows@.take(i as int) =~= rows@);
    tickets
}

/// A step of a transition on the client. Steps are taken in order.
#[derive(Clone, Copy, Debug, PartialEq, Eq, Structural)]
pub enum ClientTransitionStep {
    DespawnMap(Entity),
    /// Takes the player out of the simulation and puts it at a position, at rest.
    Freeze { player: Entity, pending: PendingTransition, position: Vector },
    SpawnMap { map_entity: Entity, map_id: MapInstanceId, config: ClientMapConfig },
    /// Has chunks loaded around a player.
    SetTicket { player: Entity, map_entity: Entity, kind: TicketKind },
    /// Puts a character back into the simulation; it is not on its way any more.
    Unfreeze(Entity),
}

/// The maps that go when only `keep` stays.
pub open spec fn despawn_steps(entries: Seq<InstanceEntry>, keep: MapInstanceId) -> Seq<
    ClientTransitionStep,
> {
    filter_map(
        entries,
        |e: InstanceEntry|
            if e.id != keep {
                Some(e.entity)
            } else {
                None
            },
    ).map_values(|e: Entity| ClientTransitionStep::DespawnMap(e))
}

/// The steps of a transition: all maps but the target go, the player is frozen, the target is spawned
/// if it is not there, and the player gets a ticket for the transition to it.
pub open spec fn client_transition_steps(
    registry: &MapRegistry,
    player: Entity,
    start: MapTransitionStart,
    fresh: Entity,
) -> Seq<ClientTransitionStep> {
    let known = registry.view().dom().contains(start.target);
    let map_entity = if known {
        registry.view()[start.target]
    } else {
        fresh
    };
    let freeze = ClientTransitionStep::Freeze {
        player,
        pending: PendingTransition(start.target),
        position: start.spawn_position,
    };
    let before = despawn_steps(registry.0.entries@, start.target).push(freeze);
    let spawned = if known {
        before
    } else {
        before.push(
            ClientTransitionStep::SpawnMap {
                map_entity,
                map_id: start.target,
                config: client_map_config(start.target, start.seed, start.bounds),
            },
        )
    };
    spawned.push(
        ClientTransitionStep::SetTicket { player, map_entity, kind: TicketKind::MapTransition },
    )
}

/// Begins a transition. `fresh` becomes the target's map if it has none.
pub fn handle_map_transition_start(
    registry: &mut MapRegistry,
    player: Entity,
    start: &MapTransitionStart,
    fresh: Entity,
) -> (steps: Vec<ClientTransitionStep>)
    requires
        old(registry).wf(),
    ensures
        steps@ == client_transition_steps(old(registry), player, *start, fresh),
        final(registry).wf(),
        final(registry).view() == Map::<MapInstanceId, Entity>::empty().insert(
            start.target,
            if old(registry).view().dom().contains(start.target) {
                old(registry).view()[start.target]
            } else {
                fresh
            },
        ),
{
    let ghost before = *registry;
    let removed = registry.0.retain_only(start.target);
    let mut steps: Vec<ClientTransitionStep> = Vec::new();
    let mut i: usize = 0;
    let ghost despawns = despawn_steps(before.0.entries@, start.target);
    while i < removed.len()
        invariant
            i <= removed@.len(),
            removed@.len() == despawns.len(),
            forall|k: int|
                0 <= k < removed@.len() ==> #[trigger] despawns[k]
                    == ClientTransitionStep::DespawnMap(removed@[k]),
            steps@ == despawns.take(i as int),
        decreases removed@.len() - i,
    {
        steps.push(ClientTransitionStep::DespawnMap(removed[i]));
        assert(despawns[i as int] == ClientTransitionStep::DespawnMap(removed@[i as int]));
        i = i + 1;
        assert(steps@ =~= despawns.take(i as int));
    }
    assert(despawns.take(i as int) =~= despawns);
    steps.push(
        ClientTransitionStep::Freeze {
            player,
            pending: PendingTransition(start.target),
            position: start.spawn_position,
        },
    );
    let map_entity = match registry.lookup(&start.target) {
        Some(entity) => entity,
        None => {
            steps.push(
                ClientTransitionStep::SpawnMap {
                    map_entity: fresh,
                    map_id: start.target,
                    config: spawn_map_instance(&start.target, start.seed, start.bounds),
                },
            );
            registry.insert(start.target, fresh);
            fresh
        },
    };
    steps.push(
        ClientTransitionStep::SetTicket { player, map_entity, kind: TicketKind::MapTransition },
    );
    assert(registry.view() =~= Map::<MapInstanceId, Entity>::empty().insert(
        start.target,
        map_entity,
    ));
    steps
}

/// The transition is over: every predicted character goes back into the simulation, and play goes on
/// at the next update.
pub fn handle_map_transition_end(ui: &mut UiState, characters: &Vec<Entity>) -> (steps: Vec<
    ClientTransitionStep,
>)
    ensures
        *final(ui) == (UiState {
            next_transition: Some(MapTransitionState::Playing),
            ..*old(ui)
        }),
        steps@ == characters@.map_values(|e: Entity| ClientTransitionStep::Unfreeze(e)),
{
    let mut steps: Vec<ClientTransitionStep> = Vec::new();
    let mut i: usize = 0;
    while i < characters.len()
        invariant
            i <= characters@.len(),
            steps@.len() == i,
            forall|k: int|
                0 <= k < i ==> #[trigger] steps@[k] == ClientTransitionStep::Unfreeze(characters@[k]),
        decreases characters@.len() - i,
    {
        steps.push(ClientTransitionStep::Unfreeze(characters[i]));
        i = i + 1;
    }
    ui.set_transition(MapTransitionState::Playing);
    assert(steps@ =~= characters@.map_values(|e: Entity| ClientTransitionStep::Unfreeze(e)));
    steps
}

/// Whether a player on its way to a map tells the server that it is ready: it has not done so, and
/// the map is there with its first chunks.
pub fn check_transition_chunks_loaded(ready_sent: bool, map: Option<&ClientMap>) -> (tell: bool)
    ensures
        tell == (!ready_sent && (map matches Some(map) && map.levels@.len() > 0)),
{
    match map {
        Some(map) => !ready_sent && map.is_ready(),
        None => false,
    }
}

/// Whether the chunk that is sent at `k` is not sent again before `n`.
pub open spec fn is_last_send(sends: Seq<IVec3>, k: int, n: int) -> bool {
    forall|m: int| k < m < n ==> #[trigger] sends[m] != sends[k]
}

/// A client's map after it has taken what the server pushed: it has what it had and what was sent, but
/// nothing of the columns to unload. What was sent is there with the voxels that came with it, of a
/// chunk that was sent twice the later ones, and what was there before is as it was. What was sent is to
/// be meshed again, and its columns have a level, but the columns to unload have none.
pub open spec fn applies_push(
    before: ClientMap,
    after: ClientMap,
    push: ChunkPush,
    voxels: Seq<Vec<VoxelType>>,
    heights: Seq<i32>,
) -> bool {
    &&& forall|p: IVec3| #[trigger]
        after.chunks.has(p) <==> (before.chunks.has(p) || push.sends@.contains(p)) && !chunk_in(
            p,
            push.unloads@,
            heights,
        )
    &&& forall|p: IVec3|
        after.chunks.has(p) && !push.sends@.contains(p) ==> #[trigger] after.chunks.view()[p]
            == before.chunks.view()[p]
    &&& forall|i: int|
        0 <= i < push.sends@.len() && after.chunks.has(push.sends@[i]) && is_last_send(
            push.sends@,
            i,
            push.sends@.len() as int,
        ) ==> after.chunks.view()[#[trigger] push.sends@[i]]@ == voxels[i]@
    &&& forall|p: IVec3| #[trigger]
        after.needing_remesh.has(p) <==> before.needing_remesh.has(p) || push.sends@.contains(p)
    &&& forall|c: IVec2| #[trigger]
        level_of(after.levels@, c) == (if push.unloads@.contains(c) {
            None
        } else {
            level_after_sends(level_of(before.levels@, c), push.sends@, c)
        })
}

/// Whether a chunk of a column is sent.
pub open spec fn sent_to(sends: Seq<IVec3>, column: IVec2) -> bool {
    exists|i: int| 0 <= i < sends.len() && column_of(#[trigger] sends[i]) == column
}

/// The level of a column once chunks have been taken: it keeps the one it has, and gets level zero if
/// it has none and a chunk of it came.
pub open spec fn level_after_sends(before: Option<u32>, sends: Seq<IVec3>, column: IVec2) -> Option<
    u32,
> {
    if before is Some {
        before
    } else if sent_to(sends, column) {
        Some(0u32)
    } else {
        None
    }
}

proof fn lemma_one_more_send(sends: Seq<IVec3>, i: int, c: IVec2)
    requires
        0 <= i < sends.len(),
    ensures
        sent_to(sends.take(i + 1), c) <==> sent_to(sends.take(i), c) || column_of(sends[i]) == c,
{
    let prefix = sends.take(i);
    let longer = sends.take(i + 1);
    assert(longer[i] == sends[i]);
    if sent_to(prefix, c) {
        let k = choose|k: int| 0 <= k < prefix.len() && column_of(#[trigger] prefix[k]) == c;
        assert(longer[k] == prefix[k]);
    }
    if sent_to(longer, c) {
        let k = choose|k: int| 0 <= k < longer.len() && column_of(#[trigger] longer[k]) == c;
        if k < i {
            assert(prefix[k] == longer[k]);
        }
    }
}

fn copy_voxels(voxels: &Vec<VoxelType>) -> (copy: Vec<VoxelType>)
    ensures
        copy@ == voxels@,
{
    let mut copy: Vec<VoxelType> = Vec::new();
    let mut i: usize = 0;
    while i < voxels.len()
        invariant
            i <= voxels@.len(),
            copy@ == voxels@.take(i as int),
        decreases voxels@.len() - i,
    {
        copy.push(voxels[i]);
        i = i + 1;
        assert(copy@ =~= voxels@.take(i as int));
    }
    assert(copy@ =~= voxels@);
    copy
}

/// Takes what the server pushed: the chunks, whose voxels are given in the same order, and the columns
/// to unload.
pub fn apply_push(
    map: &mut ClientMap,
    push: &ChunkPush,
    voxels: &Vec<Vec<VoxelType>>,
    heights: &Vec<i32>,
)
    requires
        old(map).wf(),
        voxels@.len() == push.sends@.len(),
    ensures
        final(map).wf(),
        applies_push(*old(map), *final(map), *push, voxels@, heights@),
{
    let ghost before = *map;
    let ghost sends = push.sends@;
    let mut i: usize = 0;
    assert(sends.take(0) =~= Seq::empty());
    assert forall|c: IVec2| #[trigger] level_of(map.levels@, c) == level_after_sends(
        level_of(before.levels@, c),
        sends.take(0),
        c,
    ) by {
        assert(!sent_to(sends.take(0), c));
    }
    while i < push.sends.len()
        invariant
            i <= sends.len() == voxels@.len(),
            sends == push.sends@,
            map.wf(),
            forall|p: IVec3| #[trigger]
                map.chunks.has(p) <==> before.chunks.has(p) || sends.take(i as int).contains(p),
            forall|p: IVec3|
                map.chunks.has(p) && !sends.take(i as int).contains(p)
                    ==> #[trigger] map.chunks.view()[p] == before.chunks.view()[p],
            forall|k: int|
                0 <= k < i && is_last_send(sends, k, i as int)
                    ==> map.chunks.view()[#[trigger] sends[k]]@ == voxels@[k]@,
            forall|p: IVec3| #[trigger]
                map.needing_remesh.has(p) <==> before.needing_remesh.has(p) || sends.take(
                    i as int,
                ).contains(p),
            forall|c: IVec2| #[trigger]
                level_of(map.levels@, c) == level_after_sends(
                    level_of(before.levels@, c),
                    sends.take(i as int),
                    c,
                ),
        decreases sends.len() - i,
    {
        let ghost here = map.chunks;
        let ghost start = *map;
        let pos: IVec3 = push.sends[i];
        map.handle_chunk_data_sync(pos, copy_voxels(&voxels[i]));
        proof {
            let prefix = sends.take(i as int);
            let longer = sends.take(i + 1);
            assert(longer =~= prefix.push(pos));
            assert forall|p: IVec3| #[trigger] longer.contains(p) <==> prefix.contains(p) || p
                == pos by {
                if prefix.contains(p) {
                    let k = choose|k: int| 0 <= k < prefix.len() && prefix[k] == p;
                    assert(longer[k] == p);
                }
                assert(longer[i as int] == pos);
                if longer.contains(p) {
                    let k = choose|k: int| 0 <= k < longer.len() && longer[k] == p;
                    if k < i {
                        assert(prefix[k] == p);
                    }
                }
            }
            assert forall|p: IVec3| #[trigger] map.chunks.has(p) <==> before.chunks.has(p)
                || longer.contains(p) by {
                assert(map.chunks.has(p) <==> p == pos || here.has(p));
            }
            assert forall|p: IVec3| map.chunks.has(p) && !longer.contains(p) implies
                #[trigger] map.chunks.view()[p] == before.chunks.view()[p] by {
                assert(here.has(p));
                assert(map.chunks.view()[p] == here.view()[p]);
            }
            assert forall|p: IVec3| #[trigger] map.needing_remesh.has(p)
                <==> before.needing_remesh.has(p) || longer.contains(p) by {
                assert(map.needing_remesh.has(p) <==> p == pos || start.needing_remesh.has(p));
            }
            assert forall|c: IVec2| #[trigger] level_of(map.levels@, c) == level_after_sends(
                level_of(before.levels@, c),
                longer,
                c,
            ) by {
                lemma_one_more_send(sends, i as int, c);
                let earlier = level_of(start.levels@, c);
            }
            assert forall|k: int| 0 <= k < i + 1 && is_last_send(sends, k, i + 1) implies
                map.chunks.view()[#[trigger] sends[k]]@ == voxels@[k]@ by {
                if k < i {
                    assert(sends[i as int] != sends[k]);
                    assert(is_last_send(sends, k, i as int));
                    assert(map.chunks.view()[sends[k]] == here.view()[sends[k]]);
                }
            }
        }
        i = i + 1;
    }
    assert(sends.take(i as int) =~= sends);
    let ghost middle = *map;
    let mut j: usize = 0;
    while j < push.unloads.len()
        invariant
            j <= push.unloads@.len(),
            map.wf(),
            forall|p: IVec3| #[trigger]
                map.chunks.has(p) <==> middle.chunks.has(p) && !(heights@.contains(p.y)
                    && exists|k: int| 0 <= k < j && #[trigger] push.unloads@[k] == column_of(p)),
            forall|p: IVec3|
                map.chunks.has(p) ==> #[trigger] map.chunks.view()[p] == middle.chunks.view()[p],
            map.needing_remesh == middle.needing_remesh,
            forall|c: IVec2| #[trigger]
                level_of(map.levels@, c) == (if exists|k: int|
                    0 <= k < j && #[trigger] push.unloads@[k] == c {
                    None
                } else {
                    level_of(middle.levels@, c)
                }),
        decreases push.unloads@.len() - j,
    {
        let ghost here = map.chunks;
        let ghost start = *map;
        map.handle_unload_column(push.unloads[j], heights);
        proof {
            assert forall|p: IVec3| #[trigger] map.chunks.has(p) <==> middle.chunks.has(p) && !(
            heights@.contains(p.y) && exists|k: int|
                0 <= k < j + 1 && #[trigger] push.unloads@[k] == column_of(p)) by {
                assert(map.chunks.has(p) <==> here.has(p) && !(column_of(p)
                    == push.unloads@[j as int] && heights@.contains(p.y)));
                if column_of(p) == push.unloads@[j as int] {
                    assert(push.unloads@[j as int] == column_of(p));
                }
            }
            assert forall|c: IVec2| #[trigger] level_of(map.levels@, c) == (if exists|k: int|
                0 <= k < j + 1 && #[trigger] push.unloads@[k] == c {
                None
            } else {
                level_of(middle.levels@, c)
            }) by {
                let earlier = level_of(start.levels@, c);
                assert(push.unloads@[j as int] == c || push.unloads@[j as int] != c);
            }
            assert forall|p: IVec3| map.chunks.has(p) implies #[trigger] map.chunks.view()[p]
                == middle.chunks.view()[p] by {
                assert(here.has(p));
                assert(map.chunks.view()[p] == here.view()[p]);
            }
        }
        j = j + 1;
    }
}

/// A client that takes every push has exactly the chunks that the server believes it has, as long as
/// its player stays on one map.
pub proof fn law_client_mirrors_server(
    client_before: ClientMap,
    client_after: ClientMap,
    server_before: ClientChunkVisibility,
    server_after: ClientChunkVisibility,
    push: ChunkPush,
    voxels: Seq<Vec<VoxelType>>,
    ticket: ChunkTicket,
    map: Option<StreamedMap>,
    settings: &StreamSettings,
    player: IVec2,
)
    requires
        server_before.tracked_map == Some(ticket.map_entity),
        forall|p: IVec3| #[trigger]
            client_before.chunks.has(p) <==> server_before.sent_chunks.has(p),
        pushes(push, server_before, server_after, ticket, map, settings, player),
        applies_push(client_before, client_after, push, voxels, settings.column_heights@),
    ensures
        forall|p: IVec3| #[trigger]
            client_after.chunks.has(p) <==> server_after.sent_chunks.has(p),
{
}

/// A client that is sent to a homebase sets up the map that the server spawned for it: one with the
/// same seed, the same bounds and a tree of the same height.
pub proof fn law_homebase_configs_match(
    transition: ServerTransition,
    server_maps: &MapRegistry,
    rooms: &RoomRegistry,
    client_maps: &MapRegistry,
    player: Entity,
    start: MapTransitionStart,
    fresh: Entity,
)
    requires
        transition.can_start(server_maps),
        !server_maps.view().dom().contains(transition.target),
        !client_maps.view().dom().contains(transition.target),
        transition.steps(server_maps, rooms).last() == (TransitionStep::SendStart {
            client: transition.client,
            start,
        }),
    ensures
        ({
            let params = transition.params(server_maps);
            let config = client_map_config(start.target, start.seed, start.bounds);
            &&& transition.steps(server_maps, rooms).contains(
                TransitionStep::SpawnHomebase {
                    map_entity: transition.map_entity(server_maps),
                    owner: transition.target->owner,
                    params,
                    tree_height: HOMEBASE_TREE_HEIGHT,
                },
            )
            &&& client_transition_steps(client_maps, player, start, fresh).contains(
                ClientTransitionStep::SpawnMap {
                    map_entity: fresh,
                    map_id: transition.target,
                    config,
                },
            )
            &&& config.seed == params.seed
            &&& config.bounds == params.bounds
            &&& config.tree_height == HOMEBASE_TREE_HEIGHT
        }),
{
    let steps = transition.steps(server_maps, rooms);
    assert(steps[4] is SpawnHomebase);
    let client_steps = client_transition_steps(client_maps, player, start, fresh);
    assert(client_steps[client_steps.len() - 2] is SpawnMap);
}

/// A column has the level that stands beside it, and one that is not listed has none.
pub proof fn law_columns_have_their_level(map: ClientMap, column: IVec2)
    requires
        map.wf(),
    ensures
        forall|i: int|
            0 <= i < map.levels@.len() && (#[trigger] map.levels@[i]).column == column ==> level_of(
                map.levels@,
                column,
            ) == Some(map.levels@[i].level),
        level_of(map.levels@, column) is Some ==> exists|i: int|
            0 <= i < map.levels@.len() && (#[trigger] map.levels@[i]).column == column,
{
    lemma_level_of(map.levels@, column);
}

proof fn lemma_level_of(levels: Seq<ColumnLevel>, column: IVec2)
    requires
        forall|i: int, j: int|
            0 <= i < j < levels.len() ==> (#[trigger] levels[i]).column != (
            #[trigger] levels[j]).column,
    ensures
        forall|i: int|
            0 <= i < levels.len() && (#[trigger] levels[i]).column == column ==> level_of(
                levels,
                column,
            ) == Some(levels[i].level),
        level_of(levels, column) is Some ==> exists|i: int|
            0 <= i < levels.len() && (#[trigger] levels[i]).column == column,
    decreases levels.len(),
{
    if levels.len() > 0 {
        let init = levels.drop_last();
        let last = levels.len() - 1;
        assert forall|i: int, j: int| 0 <= i < j < init.len() implies (#[trigger] init[i]).column != (
        #[trigger] init[j]).column by {
            assert(levels[i].column != levels[j].column);
        }
        lemma_level_of(init, column);
        assert forall|i: int|
            0 <= i < levels.len() && (#[trigger] levels[i]).column == column implies level_of(
            levels,
            column,
        ) == Some(levels[i].level) by {
            if i < last {
                assert(init[i] == levels[i]);
                assert(levels[i].column != levels[last].column);
            }
        }
        if level_of(levels, column) is Some && levels[last].column != column {
            let i = choose|i: int| 0 <= i < init.len() && (#[trigger] init[i]).column == column;
            assert(levels[i].column == column);
        }
    }
}

/// A chunk that a client takes is there with its voxels and waits to be meshed, and its column, the one
/// with its x and z, has a level. Everything else stays.
pub proof fn law_taken_chunk_is_there(
    before: ClientMap,
    after: ClientMap,
    chunk_pos: IVec3,
    voxels: Vec<VoxelType>,
)
    requires
        takes_chunk(before, after, chunk_pos, voxels),
    ensures
        after.chunks.view().dom().contains(chunk_pos),
        after.chunks.view()[chunk_pos] == voxels,
        after.needing_remesh.has(chunk_pos),
        forall|p: IVec3|
            p != chunk_pos ==> {
                &&& (#[trigger] after.chunks.view().dom().contains(p))
                    == before.chunks.view().dom().contains(p)
                &&& before.chunks.view().dom().contains(p) ==> after.chunks.view()[p]
                    == before.chunks.view()[p]
            },
        forall|p: IVec3|
            p != chunk_pos ==> (#[trigger] after.needing_remesh.has(p))
                == before.needing_remesh.has(p),
        forall|c: IVec2|
            !(c.x == chunk_pos.x && c.y == chunk_pos.z) ==> #[trigger] level_of(after.levels@, c)
                == level_of(before.levels@, c),
        ({
            let column = IVec2 { x: chunk_pos.x, y: chunk_pos.z };
            match level_of(before.levels@, column) {
                Some(level) => level_of(after.levels@, column) == Some(level),
                None => level_of(after.levels@, column) == Some(0u32),
            }
        }),
{
}

/// A column that a client drops is gone, with the chunks that stand in it at the heights of the map.
/// Everything else stays.
pub proof fn law_dropped_column_is_gone(
    before: ClientMap,
    after: ClientMap,
    column: IVec2,
    heights: Seq<i32>,
)
    requires
        drops_column(before, after, column, heights),
    ensures
        forall|p: IVec3|
            p.x == column.x && p.z == column.y && heights.contains(p.y)
                ==> !#[trigger] after.chunks.view().dom().contains(p),
        forall|p: IVec3|
            !(p.x == column.x && p.z == column.y && heights.contains(p.y)) ==> {
                &&& (#[trigger] after.chunks.view().dom().contains(p))
                    == before.chunks.view().dom().contains(p)
                &&& before.chunks.view().dom().contains(p) ==> after.chunks.view()[p]
                    == before.chunks.view()[p]
            },
        level_of(after.levels@, column) is None,
        forall|c: IVec2|
            c != column ==> #[trigger] level_of(after.levels@, c) == level_of(before.levels@, c),
        forall|p: IVec3|
            (#[trigger] after.needing_remesh.has(p)) == before.needing_remesh.has(p),
{
    assert forall|p: IVec3|
        p.x == column.x && p.z == column.y && heights.contains(
            p.y,
        ) implies !#[trigger] after.chunks.view().dom().contains(p) by {
        assert(column_chunks(column, heights).contains(p));
    }
    assert forall|p: IVec3|
        !(p.x == column.x && p.z == column.y && heights.contains(p.y)) implies {
        &&& (#[trigger] after.chunks.view().dom().contains(p))
            == before.chunks.view().dom().contains(p)
        &&& before.chunks.view().dom().contains(p) ==> after.chunks.view()[p]
            == before.chunks.view()[p]
    } by {
        assert(!column_chunks(column, heights).contains(p));
    }
}

/// What comes for a map goes to the map that is registered under its name, if the client has it.
pub proof fn law_maps_get_their_own(maps: &ClientMaps, registry: &MapRegistry, map_id: MapInstanceId)
    ensures
        maps.target(registry, map_id) is Some <==> registry.view().dom().contains(map_id)
            && maps.maps@.dom().contains(registry.view()[map_id].bits_spec()),
        maps.target(registry, map_id) is Some ==> maps.target(registry, map_id)->0
            == registry.view()[map_id].bits_spec(),
{
}

/// A bounded map is spawned as far as its greatest coordinate reaches, and at least one chunk far, and
/// an unbounded one ten chunks far. An overworld's tree is five high, a homebase's three.
pub proof fn law_maps_are_set_up_as_far_as_they_reach(
    map_id: MapInstanceId,
    seed: u64,
    bounds: Option<IVec3>,
)
    ensures
        ({
            let config = client_map_config(map_id, seed, bounds);
            let far = config.spawning_distance;
            &&& config.seed == seed
            &&& config.bounds == bounds
            &&& config.generation_version == 0
            &&& !config.generates_chunks
            &&& map_id == MapInstanceId::Overworld ==> config.tree_height == 5
            &&& map_id is Homebase ==> config.tree_height == 3
            &&& bounds is None ==> far == 10
            &&& bounds matches Some(b) ==> far >= 1 && far >= b.x && far >= b.y && far >= b.z && (far
                == 1 || far == b.x || far == b.y || far == b.z)
        }),
{
}

/// Every character without a ticket gets one, in turn: as a player's, and for the map it is on. Gives
/// the character of each.
pub proof fn law_characters_get_their_maps_ticket(
    rows: Seq<TicketRow>,
    maps: Map<MapInstanceId, Entity>,
) -> (at: Seq<int>)
    ensures
        ({
            let tickets = filter_map(rows, |row: TicketRow| ticket_for(row, maps));
            &&& at.len() == tickets.len()
            &&& picks(at, rows.len() as int, |i: int| !rows[i].has_ticket)
            &&& forall|k: int|
                #![trigger at[k]]
                0 <= k < at.len() ==> tickets[k].player == rows[at[k]].player
                    && tickets[k].map_entity == maps[rows[at[k]].map_id] && tickets[k].kind
                    == TicketKind::Player
        }),
{
    let f = |row: TicketRow| ticket_for(row, maps);
    let at = lemma_filter_map_picks(rows, f);
    let a = |i: int| f(rows[i]) is Some;
    let b = |i: int| !rows[i].has_ticket;
    assert forall|i: int| 0 <= i < rows.len() implies #[trigger] a(i) == #[trigger] b(i) by {}
    lemma_picks_same(at, rows.len() as int, a, b);
    assert forall|k: int|
        #![trigger at[k]]
        0 <= k < at.len() implies f(rows[at[k]]) == Some(filter_map(rows, f)[k]) by {}
    at
}

/// A client on its way drops every map but the target, in turn, and then freezes the player at the
/// place where it is to appear. A target that it does not know is set up as the server describes it,
/// and the player gets the ticket of someone on the way to the target. Gives the map that each of the
/// first steps drops.
pub proof fn law_client_leaves_for_the_target(
    registry: &MapRegistry,
    player: Entity,
    start: MapTransitionStart,
    fresh: Entity,
) -> (at: Seq<int>)
    ensures
        ({
            let steps = client_transition_steps(registry, player, start, fresh);
            let entries = registry.0.entries@;
            let n = at.len() as int;
            let freeze = ClientTransitionStep::Freeze {
                player,
                pending: PendingTransition(start.target),
                position: start.spawn_position,
            };
            &&& picks(at, entries.len() as int, |i: int| entries[i].id != start.target)
            &&& forall|k: int|
                0 <= k < n ==> steps[k] == ClientTransitionStep::DespawnMap(
                    entries[#[trigger] at[k]].entity,
                )
            &&& steps[n] == freeze
            &&& registry.view().dom().contains(start.target) ==> steps.len() == n + 2 && steps[n + 1]
                == (ClientTransitionStep::SetTicket {
                player,
                map_entity: registry.view()[start.target],
                kind: TicketKind::MapTransition,
            })
            &&& !registry.view().dom().contains(start.target) ==> steps.len() == n + 3 && steps[n
                + 1] == (ClientTransitionStep::SpawnMap {
                map_entity: fresh,
                map_id: start.target,
                config: client_map_config(start.target, start.seed, start.bounds),
            }) && steps[n + 2] == (ClientTransitionStep::SetTicket {
                player,
                map_entity: fresh,
                kind: TicketKind::MapTransition,
            })
        }),
{
    let entries = registry.0.entries@;
    let f = |e: InstanceEntry|
        if e.id != start.target {
            Some(e.entity)
        } else {
            None
        };
    let at = lemma_filter_map_picks(entries, f);
    let a = |i: int| f(entries[i]) is Some;
    let b = |i: int| entries[i].id != start.target;
    assert forall|i: int| 0 <= i < entries.len() implies #[trigger] a(i) == #[trigger] b(i) by {}
    lemma_picks_same(at, entries.len() as int, a, b);
    let steps = client_transition_steps(registry, player, start, fresh);
    assert(despawn_steps(entries, start.target).len() == at.len());
    assert forall|k: int| 0 <= k < at.len() implies steps[k] == ClientTransitionStep::DespawnMap(
        entries[#[trigger] at[k]].entity,
    ) by {
        assert(f(entries[at[k]]) == Some(filter_map(entries, f)[k]));
        assert(steps[k] == despawn_steps(entries, start.target)[k]);
    }
    at
}

/// Whether a chunk stands in one of the columns that are listed, at one of the heights.
pub open spec fn stands_in_one_of(p: IVec3, columns: Seq<IVec2>, heights: Seq<i32>) -> bool {
    &&& exists|c: int|
        0 <= c < columns.len() && (#[trigger] columns[c]).x == p.x && columns[c].y == p.z
    &&& exists|h: int| 0 <= h < heights.len() && #[trigger] heights[h] == p.y
}

/// A client that takes a push has exactly what it had and what came, less what stands in the columns to
/// unload. A chunk that came has the voxels that came with it the last time, and any other those that
/// it had.
pub proof fn law_push_is_taken_whole(
    before: ClientMap,
    after: ClientMap,
    push: ChunkPush,
    voxels: Seq<Vec<VoxelType>>,
    heights: Seq<i32>,
    p: IVec3,
)
    requires
        applies_push(before, after, push, voxels, heights),
    ensures
        after.chunks.view().dom().contains(p) <==> (before.chunks.view().dom().contains(p) || exists|
            i: int,
        |
            0 <= i < push.sends@.len() && #[trigger] push.sends@[i] == p) && !stands_in_one_of(
            p,
            push.unloads@,
            heights,
        ),
        after.chunks.view().dom().contains(p) && (forall|i: int|
            0 <= i < push.sends@.len() ==> #[trigger] push.sends@[i] != p) ==> after.chunks.view()[p]
            == before.chunks.view()[p],
        forall|i: int|
            0 <= i < push.sends@.len() && #[trigger] push.sends@[i] == p && (forall|m: int|
                i < m < push.sends@.len() ==> #[trigger] push.sends@[m] != p)
                && after.chunks.view().dom().contains(p) ==> after.chunks.view()[p]@ == voxels[i]@,
        after.needing_remesh.has(p) <==> before.needing_remesh.has(p) || exists|i: int|
            0 <= i < push.sends@.len() && #[trigger] push.sends@[i] == p,
{
    let sends = push.sends@;
    let unloads = push.unloads@;
    assert(after.chunks.has(p) == after.chunks.view().dom().contains(p));
    assert(sends.contains(p) <==> exists|i: int| 0 <= i < sends.len() && #[trigger] sends[i] == p);
    assert(chunk_in(p, unloads, heights) <==> stands_in_one_of(p, unloads, heights)) by {
        if unloads.contains(column_of(p)) {
            let c = choose|c: int| 0 <= c < unloads.len() && unloads[c] == column_of(p);
            assert(unloads[c].x == p.x && unloads[c].y == p.z);
        }
        if stands_in_one_of(p, unloads, heights) {
            let c = choose|c: int|
                0 <= c < unloads.len() && (#[trigger] unloads[c]).x == p.x && unloads[c].y == p.z;
            assert(unloads[c] == column_of(p));
        }
    }
    assert forall|i: int|
        0 <= i < sends.len() && #[trigger] sends[i] == p && (forall|m: int|
            i < m < sends.len() ==> #[trigger] sends[m] != p) && after.chunks.view().dom().contains(
            p,
        ) implies after.chunks.view()[p]@ == voxels[i]@ by {
        assert(is_last_send(sends, i, sends.len() as int));
    }
}

/// After a push, a column to unload has no level, and one that stays has the level that it had, or level
/// zero if it had none and a chunk with its x and z came.
pub proof fn law_pushed_columns_have_a_level(
    before: ClientMap,
    after: ClientMap,
    push: ChunkPush,
    voxels: Seq<Vec<VoxelType>>,
    heights: Seq<i32>,
    c: IVec2,
)
    requires
        applies_push(before, after, push, voxels, heights),
    ensures
        push.unloads@.contains(c) ==> level_of(after.levels@, c) is None,
        !push.unloads@.contains(c) && level_of(before.levels@, c) is Some ==> level_of(
            after.levels@,
            c,
        ) == level_of(before.levels@, c),
        !push.unloads@.contains(c) && level_of(before.levels@, c) is None ==> level_of(
            after.levels@,
            c,
        ) == (if exists|i: int|
            0 <= i < push.sends@.len() && (#[trigger] push.sends@[i]).x == c.x && push.sends@[i].z
                == c.y {
            Some(0u32)
        } else {
            None
        }),
{
    let sends = push.sends@;
    if sent_to(sends, c) {
        let i = choose|i: int| 0 <= i < sends.len() && column_of(#[trigger] sends[i]) == c;
        assert(sends[i].x == c.x && sends[i].z == c.y);
    }
    if exists|i: int|
        0 <= i < sends.len() && (#[trigger] sends[i]).x == c.x && sends[i].z == c.y {
        let i = choose|i: int|
            0 <= i < sends.len() && (#[trigger] sends[i]).x == c.x && sends[i].z == c.y;
        assert(column_of(sends[i]) == c);
    }
}

} // verus!
