//! Identities of map instances, and what is registered under them.
use crate::entity::Entity;
use crate::geometry::{IVec2, IVec3};
use crate::scalar::Vector;
use vstd::prelude::*;

verus! {

/// Identifies the map instance that an entity belongs to.
#[derive(Clone, Copy, Debug, PartialEq, Eq, Structural, Hash)]
pub enum MapInstanceId {
    Overworld,
    Homebase { owner: u64 },
}

/// What a voxel is made of.
#[derive(Clone, Copy, Debug, PartialEq, Eq, Structural)]
pub enum VoxelType {
    Air,
    Solid(u8),
}

/// The map that a player asks to go to.
#[derive(Clone, Copy, Debug, PartialEq, Eq, Structural)]
pub enum MapSwitchTarget {
    Overworld,
    Homebase,
}

/// Asks the server to move the sender to another map.
#[derive(Clone, Copy, Debug, PartialEq, Eq, Structural)]
pub struct PlayerMapSwitchRequest {
    pub target: MapSwitchTarget,
}

/// Marks a player that is on its way to a map.
#[derive(Clone, Copy, Debug, PartialEq, Eq, Structural)]
pub struct PendingTransition(pub MapInstanceId);

/// Tells a client to begin a transition.
#[derive(Clone, Copy, Debug, PartialEq, Eq, Structural)]
pub struct MapTransitionStart {
    pub target: MapInstanceId,
    pub seed: u64,
    pub generation_version: u32,
    pub bounds: Option<IVec3>,
    pub spawn_position: Vector,
}

/// Tells the server that a client has its first chunks.
#[derive(Clone, Copy, Debug, PartialEq, Eq, Structural)]
pub struct MapTransitionReady;

/// Tells a client that its transition is over.
#[derive(Clone, Copy, Debug, PartialEq, Eq, Structural)]
pub struct MapTransitionEnd;

/// Asks the server for a voxel edit.
#[derive(Clone, Copy, Debug, PartialEq, Eq, Structural)]
pub struct VoxelEditRequest {
    pub position: IVec3,
    pub voxel: VoxelType,
    pub sequence: u32,
}

/// Tells clients of a voxel edit.
#[derive(Clone, Copy, Debug, PartialEq, Eq, Structural)]
pub struct VoxelEditBroadcast {
    pub position: IVec3,
    pub voxel: VoxelType,
}

/// Confirms the edits up to a sequence number.
#[derive(Clone, Copy, Debug, PartialEq, Eq, Structural)]
pub struct VoxelEditAck {
    pub sequence: u32,
}

/// Refuses an edit: the client must put the voxel back.
#[derive(Clone, Copy, Debug, PartialEq, Eq, Structural)]
pub struct VoxelEditReject {
    pub sequence: u32,
    pub position: IVec3,
    pub correct_voxel: VoxelType,
}

/// Tells clients of several edits in one chunk.
#[derive(Debug)]
pub struct SectionBlocksUpdate {
    pub chunk_pos: IVec3,
    pub changes: Vec<(IVec3, VoxelType)>,
}

/// Brings a client the voxels of a chunk.
#[derive(Debug)]
pub struct ChunkDataSync {
    pub map_id: MapInstanceId,
    pub chunk_pos: IVec3,
    pub data: Vec<VoxelType>,
}

/// Tells a client to drop the chunks of a column.
#[derive(Clone, Copy, Debug, PartialEq, Eq, Structural)]
pub struct UnloadColumn {
    pub map_id: MapInstanceId,
    pub column: IVec2,
}

/// The height of the tree that an overworld's chunks are kept in.
pub const OVERWORLD_TREE_HEIGHT: u32 = 5;

/// The height of the tree that a homebase's chunks are kept in.
pub const HOMEBASE_TREE_HEIGHT: u32 = 3;

/// What distinguishes a saved entity.
#[derive(Clone, Copy, Debug, PartialEq, Eq, Structural)]
pub enum SavedEntityKind {
    RespawnPoint,
}

/// An entity as it is saved with its map.
#[derive(Clone, Copy, Debug, PartialEq, Eq, Structural)]
pub struct SavedEntity {
    pub kind: SavedEntityKind,
    pub position: Vector,
}

/// The chunk that an entity belongs to, and its map.
#[derive(Clone, Copy, Debug, PartialEq, Eq, Structural)]
pub struct ChunkEntityRef {
    pub chunk_pos: IVec3,
    pub map_entity: Entity,
}

/// A map instance and the entity registered for it.
#[derive(Clone, Copy, Debug, PartialEq, Eq, Structural)]
pub struct InstanceEntry {
    pub id: MapInstanceId,
    pub entity: Entity,
}

/// Entities by map instance. No instance occurs twice.
#[derive(Debug)]
pub struct InstanceTable {
    pub entries: Vec<InstanceEntry>,
}

impl InstanceTable {
    pub open spec fn wf(&self) -> bool {
        forall|i: int, j: int|
            0 <= i < j < self.entries@.len() ==> (#[trigger] self.entries@[i]).id != (
            #[trigger] self.entries@[j]).id
    }

    /// Whether an entity is registered for `id`.
    pub open spec fn has(&self, id: MapInstanceId) -> bool {
        exists|i: int| 0 <= i < self.entries@.len() && (#[trigger] self.entries@[i]).id == id
    }

    /// The entity registered for `id`.
    pub open spec fn at(&self, id: MapInstanceId) -> Entity {
        self.entries@[choose|i: int|
            0 <= i < self.entries@.len() && (#[trigger] self.entries@[i]).id == id].entity
    }

    /// The registered instances and their entities.
    pub open spec fn view(&self) -> Map<MapInstanceId, Entity> {
        Map::new(|id: MapInstanceId| self.has(id), |id: MapInstanceId| self.at(id))
    }

    proof fn lemma_entry(&self, i: int)
        requires
            self.wf(),
            0 <= i < self.entries@.len(),
        ensures
            self.view().dom().contains(self.entries@[i].id),
            self.view()[self.entries@[i].id] == self.entries@[i].entity,
    {
        let id = self.entries@[i].id;
        let j = choose|j: int|
            0 <= j < self.entries@.len() && (#[trigger] self.entries@[j]).id == id;
        assert(0 <= j < self.entries@.len() && self.entries@[j].id == id);
    }

    proof fn lemma_inserted(&self, after: InstanceTable, i: int, id: MapInstanceId, entity: Entity)
        requires
            self.wf(),
            0 <= i <= self.entries@.len(),
            i < self.entries@.len() ==> self.entries@[i].id == id && after.entries@
                == self.entries@.update(i, InstanceEntry { id, entity }),
            i == self.entries@.len() ==> !self.has(id) && after.entries@ == self.entries@.push(
                InstanceEntry { id, entity },
            ),
        ensures
            after.wf(),
            after.view() == self.view().insert(id, entity),
    {
        assert forall|k: int| 0 <= k < self.entries@.len() implies (#[trigger] after.entries@[k]).id
            == self.entries@[k].id && (k != i ==> after.entries@[k] == self.entries@[k]) by {}
        assert(after.wf()) by {
            assert forall|a: int, b: int| 0 <= a < b < after.entries@.len() implies (
            #[trigger] after.entries@[a]).id != (#[trigger] after.entries@[b]).id by {
                if b < self.entries@.len() {
                    assert(self.entries@[a].id != self.entries@[b].id);
                } else {
                    assert(self.entries@[a].id != id);
                }
            }
        }
        after.lemma_entry(i);
        assert forall|n: MapInstanceId| n != id implies #[trigger] after.has(n) == self.has(n) by {
            if self.has(n) {
                let k = choose|k: int|
                    0 <= k < self.entries@.len() && (#[trigger] self.entries@[k]).id == n;
                assert(after.entries@[k].id == n);
            }
            if after.has(n) {
                let k = choose|k: int|
                    0 <= k < after.entries@.len() && (#[trigger] after.entries@[k]).id == n;
                assert(self.entries@[k].id == n);
            }
        }
        assert forall|n: MapInstanceId| n != id && self.has(n) implies #[trigger] after.view()[n]
            == self.view()[n] by {
            let k = choose|k: int|
                0 <= k < self.entries@.len() && (#[trigger] self.entries@[k]).id == n;
            assert(after.entries@[k] == self.entries@[k]);
            self.lemma_entry(k);
            after.lemma_entry(k);
        }
        assert(after.view() =~= self.view().insert(id, entity));
    }

    pub fn new() -> (table: InstanceTable)
        ensures
            table.wf(),
            table.view() == Map::<MapInstanceId, Entity>::empty(),
    {
        let table = InstanceTable { entries: Vec::new() };
        assert(table.view() =~= Map::<MapInstanceId, Entity>::empty());
        table
    }

    fn position(&self, id: MapInstanceId) -> (index: Option<usize>)
        ensures
            match index {
                Some(i) => i < self.entries@.len() && self.entries@[i as int].id == id,
                None => !self.has(id),
            },
    {
        let mut i: usize = 0;
        while i < self.entries.len()
            invariant
                i <= self.entries@.len(),
                forall|j: int| 0 <= j < i ==> (#[trigger] self.entries@[j]).id != id,
            decreases self.entries@.len() - i,
        {
            if self.entries[i].id == id {
                return Some(i);
            }
            i = i + 1;
        }
        None
    }

    /// The entity registered for `id`, if there is one.
    pub fn lookup(&self, id: MapInstanceId) -> (entity: Option<Entity>)
        requires
            self.wf(),
        ensures
            entity is Some <==> self.view().dom().contains(id),
            entity is Some ==> entity->0 == self.view()[id],
    {
        match self.position(id) {
            Some(i) => {
                proof {
                    self.lemma_entry(i as int);
                }
                Some(self.entries[i].entity)
            },
            None => None,
        }
    }

    /// Registers `entity` for `id`, in place of the entity that was.
    pub fn insert(&mut self, id: MapInstanceId, entity: Entity)
        requires
            old(self).wf(),
        ensures
            final(self).wf(),
            final(self).view() == old(self).view().insert(id, entity),
    {
        let ghost before = *self;
        match self.position(id) {
            Some(i) => {
                self.entries.set(i, InstanceEntry { id, entity });
                proof {
                    before.lemma_inserted(*self, i as int, id, entity);
                }
            },
            None => {
                self.entries.push(InstanceEntry { id, entity });
                proof {
                    before.lemma_inserted(*self, before.entries@.len() as int, id, entity);
                }
            },
        }
    }

    /// Forgets every instance but `keep`, and hands out the entities that were registered for them.
    pub fn retain_only(&mut self, keep: MapInstanceId) -> (removed: Vec<Entity>)
        requires
            old(self).wf(),
        ensures
            final(self).wf(),
            final(self).view() == old(self).view().restrict(set![keep]),
            removed@ == crate::seqs::filter_map(
                old(self).entries@,
                |e: InstanceEntry|
                    if e.id != keep {
                        Some(e.entity)
                    } else {
                        None
                    },
            ),
    {
        let ghost before = *self;
        let kept = self.lookup(keep);
        let mut removed: Vec<Entity> = Vec::new();
        let mut i: usize = 0;
        let ghost f = |e: InstanceEntry|
            if e.id != keep {
                Some(e.entity)
            } else {
                None
            };
        assert(before.entries@.take(0) =~= Seq::empty());
        while i < self.entries.len()
            invariant
                i <= self.entries@.len(),
                self.entries@ == before.entries@,
                f == (|e: InstanceEntry|
                    if e.id != keep {
                        Some(e.entity)
                    } else {
                        None
                    }),
                removed@ == crate::seqs::filter_map(before.entries@.take(i as int), f),
            decreases self.entries@.len() - i,
        {
            proof {
                crate::seqs::lemma_filter_map_step(before.entries@, i as int, f);
            }
            if self.entries[i].id != keep {
                removed.push(self.entries[i].entity);
            }
            i = i + 1;
        }
        assert(before.entries@.take(i as int) =~= before.entries@);
        self.entries.clear();
        if let Some(entity) = kept {
            self.entries.push(InstanceEntry { id: keep, entity });
            proof {
                self.lemma_entry(0);
            }
        }
        assert(self.view() =~= before.view().restrict(set![keep]));
        removed
    }
}

/// The map entity of each map instance. Server and client keep one each.
#[derive(Debug)]
pub struct MapRegistry(pub InstanceTable);

impl MapRegistry {
    pub open spec fn wf(&self) -> bool {
        self.0.wf()
    }

    pub open spec fn view(&self) -> Map<MapInstanceId, Entity> {
        self.0.view()
    }

    /// The map entity of a registered instance.
    pub fn get(&self, id: &MapInstanceId) -> (entity: Entity)
        requires
            self.wf(),
            self.view().dom().contains(*id),
        ensures
            entity == self.view()[*id],
    {
        match self.0.lookup(*id) {
            Some(entity) => entity,
            None => vstd::pervasive::unreached(),
        }
    }

    /// The map entity of an instance, if it is registered.
    pub fn lookup(&self, id: &MapInstanceId) -> (entity: Option<Entity>)
        requires
            self.wf(),
        ensures
            entity is Some <==> self.view().dom().contains(*id),
            entity is Some ==> entity->0 == self.view()[*id],
    {
        self.0.lookup(*id)
    }

    pub fn insert(&mut self, id: MapInstanceId, entity: Entity)
        requires
            old(self).wf(),
        ensures
            final(self).wf(),
            final(self).view() == old(self).view().insert(id, entity),
    {
        self.0.insert(id, entity);
    }
}

impl Default for MapRegistry {
    fn default() -> (registry: MapRegistry)
        ensures
            registry.wf(),
            registry.view() == Map::<MapInstanceId, Entity>::empty(),
    {
        MapRegistry(InstanceTable::new())
    }
}

/// The room of each map instance, through which its clients are reached. No two instances share one.
#[derive(Debug)]
pub struct RoomRegistry(pub InstanceTable);

/// Whether no two map instances share a room.
pub open spec fn rooms_distinct(rooms: Map<MapInstanceId, Entity>) -> bool {
    forall|a: MapInstanceId, b: MapInstanceId|
        rooms.dom().contains(a) && rooms.dom().contains(b) && #[trigger] rooms[a]
            == #[trigger] rooms[b] ==> a == b
}

/// Whether `fresh` can become the room of an instance: the instance has one, or `fresh` is no room
/// yet.
pub open spec fn can_be_room(
    rooms: Map<MapInstanceId, Entity>,
    id: MapInstanceId,
    fresh: Entity,
) -> bool {
    rooms.dom().contains(id) || !rooms.contains_value(fresh)
}

impl RoomRegistry {
    pub open spec fn wf(&self) -> bool {
        self.0.wf() && rooms_distinct(self.view())
    }

    pub open spec fn view(&self) -> Map<MapInstanceId, Entity> {
        self.0.view()
    }

    /// The room of an instance, if it has one.
    pub fn lookup(&self, id: &MapInstanceId) -> (room: Option<Entity>)
        requires
            self.wf(),
        ensures
            room is Some <==> self.view().dom().contains(*id),
            room is Some ==> room->0 == self.view()[*id],
    {
        self.0.lookup(*id)
    }

    /// The room of an instance; `fresh` becomes its room if it has none.
    pub fn get_or_create(&mut self, id: &MapInstanceId, fresh: Entity) -> (room: Entity)
        requires
            old(self).wf(),
            can_be_room(old(self).view(), *id, fresh),
        ensures
            final(self).wf(),
            final(self).view().dom().contains(*id),
            room == final(self).view()[*id],
            old(self).view().dom().contains(*id) ==> room == old(self).view()[*id]
                && final(self).view() == old(self).view(),
            !old(self).view().dom().contains(*id) ==> room == fresh && final(self).view()
                == old(self).view().insert(*id, fresh),
    {
        match self.0.lookup(*id) {
            Some(room) => room,
            None => {
                let ghost before = self.view();
                self.0.insert(*id, fresh);
                assert(rooms_distinct(self.view())) by {
                    assert forall|a: MapInstanceId, b: MapInstanceId|
                        self.view().dom().contains(a) && self.view().dom().contains(b)
                            && #[trigger] self.view()[a] == #[trigger] self.view()[b] implies a
                        == b by {
                        if a != *id {
                            assert(before.contains_value(before[a]));
                        }
                        if b != *id {
                            assert(before.contains_value(before[b]));
                        }
                    }
                }
                fresh
            },
        }
    }
}

impl Default for RoomRegistry {
    fn default() -> (registry: RoomRegistry)
        ensures
            registry.wf(),
            registry.view() == Map::<MapInstanceId, Entity>::empty(),
    {
        RoomRegistry(InstanceTable::new())
    }
}

/// A map's terrain definition has the name of the kind of map.
pub open spec fn terrain_name(map_id: MapInstanceId) -> Seq<char> {
    match map_id {
        MapInstanceId::Overworld => "overworld"@,
        MapInstanceId::Homebase { .. } => "homebase"@,
    }
}

pub fn terrain_def_name(map_id: &MapInstanceId) -> (name: String)
    ensures
        name@ == terrain_name(*map_id),
{
    match map_id {
        MapInstanceId::Overworld => "overworld".to_owned(),
        MapInstanceId::Homebase { .. } => "homebase".to_owned(),
    }
}

/// A table holds what stands in its entries, and nothing else.
pub proof fn law_entries_are_registered(table: &InstanceTable, id: MapInstanceId)
    requires
        table.wf(),
    ensures
        forall|i: int|
            0 <= i < table.entries@.len() && (#[trigger] table.entries@[i]).id == id
                ==> table.view().dom().contains(id) && table.view()[id] == table.entries@[i].entity,
        table.view().dom().contains(id) ==> exists|i: int|
            0 <= i < table.entries@.len() && (#[trigger] table.entries@[i]).id == id,
{
    assert forall|i: int|
        0 <= i < table.entries@.len() && (
        #[trigger] table.entries@[i]).id == id implies table.view().dom().contains(id)
        && table.view()[id] == table.entries@[i].entity by {
        table.lemma_entry(i);
    }
}

/// Maps have the terrain of their kind: all homebases the same, and the overworld another.
pub proof fn law_terrain_has_the_name_of_the_kind(owner: u64)
    ensures
        terrain_name(MapInstanceId::Overworld) == "overworld"@,
        terrain_name(MapInstanceId::Homebase { owner }) == "homebase"@,
{
}

} // verus!
