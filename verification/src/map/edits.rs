//! Voxel edits on the server: taking requests, telling clients, and when to save.
use crate::entity::Entity;
use crate::geometry::IVec3;
use crate::map::types::{
    MapInstanceId, MapRegistry, VoxelEditAck, VoxelEditReject, VoxelEditRequest, VoxelType,
};
use crate::seqs::{filter_map, lemma_filter_map_picks, lemma_picks_same, picks};
use vstd::prelude::*;

verus! {

/// How long after the last edit the world is saved, in nanoseconds.
pub const SAVE_DEBOUNCE_NANOS: u64 = 1_000_000_000;

/// How long edits can put off saving the world, in nanoseconds.
pub const MAX_DIRTY_NANOS: u64 = 5_000_000_000;

/// Whether the world has edits that are not saved, and since when. Times are in nanoseconds.
#[derive(Clone, Copy, Debug, PartialEq, Eq, Structural)]
pub struct WorldDirtyState {
    pub is_dirty: bool,
    pub last_edit_time: u64,
    pub first_dirty_time: Option<u64>,
}

impl Default for WorldDirtyState {
    fn default() -> (state: WorldDirtyState)
        ensures
            state == (WorldDirtyState {
                is_dirty: false,
                last_edit_time: 0,
                first_dirty_time: None,
            }),
    {
        WorldDirtyState { is_dirty: false, last_edit_time: 0, first_dirty_time: None }
    }
}

impl WorldDirtyState {
    /// The state after an edit at `now`.
    pub open spec fn edited(self, now: u64) -> WorldDirtyState {
        WorldDirtyState {
            is_dirty: true,
            last_edit_time: now,
            first_dirty_time: if self.is_dirty {
                self.first_dirty_time
            } else {
                Some(now)
            },
        }
    }

    /// The state after the world was saved.
    pub open spec fn saved(self) -> WorldDirtyState {
        WorldDirtyState { is_dirty: false, first_dirty_time: None, ..self }
    }

    /// Whether the world is to be saved at `now`: no edit came for a while, or edits have put off
    /// saving for too long.
    pub open spec fn save_due(self, now: u64) -> bool {
        &&& self.is_dirty
        &&& {
            ||| now - self.last_edit_time >= SAVE_DEBOUNCE_NANOS
            ||| self.first_dirty_time matches Some(first) && now - first >= MAX_DIRTY_NANOS
        }
    }

    /// Notes an edit at `now`.
    pub fn mark_edited(&mut self, now: u64)
        ensures
            *final(self) == old(self).edited(now),
    {
        if !self.is_dirty {
            self.first_dirty_time = Some(now);
        }
        self.is_dirty = true;
        self.last_edit_time = now;
    }

    /// Notes that the world was saved.
    pub fn mark_saved(&mut self)
        ensures
            *final(self) == old(self).saved(),
    {
        self.is_dirty = false;
        self.first_dirty_time = None;
    }

    /// Whether the world is to be saved at `now`.
    pub fn should_save(&self, now: u64) -> (due: bool)
        ensures
            due == self.save_due(now),
    {
        if !self.is_dirty {
            return false;
        }
        let settled = now >= self.last_edit_time && now - self.last_edit_time
            >= SAVE_DEBOUNCE_NANOS;
        let overdue = match self.first_dirty_time {
            Some(first) => now >= first && now - first >= MAX_DIRTY_NANOS,
            None => false,
        };
        settled || overdue
    }
}

/// The state after edits at the given times, one after the other.
pub open spec fn edited_at(state: WorldDirtyState, times: Seq<u64>) -> WorldDirtyState
    decreases times.len(),
{
    if times.len() == 0 {
        state
    } else {
        edited_at(state, times.drop_last()).edited(times.last())
    }
}

/// However often a clean world is edited, it is due to be saved once the first edit is old enough.
pub proof fn law_saving_is_not_put_off_forever(
    state: WorldDirtyState,
    first: u64,
    later: Seq<u64>,
    now: u64,
)
    requires
        !state.is_dirty,
        now - first >= MAX_DIRTY_NANOS,
    ensures
        edited_at(state.edited(first), later).save_due(now),
    decreases later.len(),
{
    lemma_first_edit_remembered(state.edited(first), later);
}

proof fn lemma_first_edit_remembered(state: WorldDirtyState, later: Seq<u64>)
    requires
        state.is_dirty,
    ensures
        edited_at(state, later).is_dirty,
        edited_at(state, later).first_dirty_time == state.first_dirty_time,
    decreases later.len(),
{
    if later.len() > 0 {
        lemma_first_edit_remembered(state, later.drop_last());
    }
}

/// A world that was saved is not due until it is edited again, and not before the edit has settled.
pub proof fn law_saved_world_is_clean(state: WorldDirtyState, edit: u64, now: u64)
    ensures
        !state.saved().save_due(now),
        now - edit < SAVE_DEBOUNCE_NANOS ==> !state.saved().edited(edit).save_due(now),
{
}

/// A character, by the client that controls it and the map it is on.
#[derive(Clone, Copy, Debug, PartialEq, Eq, Structural)]
pub struct ControlledCharacter {
    pub owner: Entity,
    pub map_id: MapInstanceId,
}

/// The map of the first character that `client` controls.
pub open spec fn player_map(client: Entity, characters: Seq<ControlledCharacter>) -> Option<
    MapInstanceId,
>
    decreases characters.len(),
{
    if characters.len() == 0 {
        None
    } else if characters.first().owner == client {
        Some(characters.first().map_id)
    } else {
        player_map(client, characters.drop_first())
    }
}

/// Whether every character is on a registered map.
pub open spec fn characters_on_maps(
    characters: Seq<ControlledCharacter>,
    registry: &MapRegistry,
) -> bool {
    forall|i: int|
        0 <= i < characters.len() ==> registry.view().dom().contains(
            (#[trigger] characters[i]).map_id,
        )
}

/// The map that a client's character is on, and its entity.
pub fn resolve_player_map(
    client: Entity,
    characters: &Vec<ControlledCharacter>,
    registry: &MapRegistry,
) -> (found: Option<(Entity, MapInstanceId)>)
    requires
        registry.wf(),
        characters_on_maps(characters@, registry),
    ensures
        match player_map(client, characters@) {
            Some(id) => found == Some((registry.view()[id], id)) && registry.view().dom().contains(
                id,
            ),
            None => found is None,
        },
{
    let mut i: usize = 0;
    assert(characters@.skip(0) =~= characters@);
    while i < characters.len()
        invariant
            i <= characters@.len(),
            registry.wf(),
            characters_on_maps(characters@, registry),
            player_map(client, characters@) == player_map(client, characters@.skip(i as int)),
        decreases characters@.len() - i,
    {
        let character = characters[i];
        assert(characters@.skip(i as int).first() == character);
        assert(characters@.skip(i as int).drop_first() =~= characters@.skip(i + 1));
        if character.owner == client {
            assert(registry.view().dom().contains(characters@[i as int].map_id));
            return Some((registry.get(&character.map_id), character.map_id));
        }
        i = i + 1;
    }
    None
}

/// Whether an edit may be made. Every edit may.
pub open spec fn edit_allowed(request: VoxelEditRequest) -> bool {
    true
}

/// Whether an edit may be made.
pub fn validate_voxel_edit(request: &VoxelEditRequest) -> (valid: bool)
    ensures
        valid == edit_allowed(*request),
{
    true
}

/// The answer to an edit that may not be made: what the voxel is in truth.
pub fn reject_edit(request: &VoxelEditRequest, current_voxel: VoxelType) -> (reject: VoxelEditReject)
    ensures
        reject == (VoxelEditReject {
            sequence: request.sequence,
            position: request.position,
            correct_voxel: current_voxel,
        }),
{
    VoxelEditReject {
        sequence: request.sequence,
        position: request.position,
        correct_voxel: current_voxel,
    }
}

/// An edit that clients are still to be told of.
#[derive(Clone, Copy, Debug, PartialEq, Eq, Structural)]
pub struct PendingVoxelEdit {
    pub position: IVec3,
    pub voxel: VoxelType,
    /// The client that made the edit, which is not told of it.
    pub originator: Entity,
    pub map_id: MapInstanceId,
}

/// The edits of one chunk of a map, in the order they were made.
#[derive(Debug)]
pub struct ChunkEdits {
    pub map_id: MapInstanceId,
    pub chunk_pos: IVec3,
    pub edits: Vec<PendingVoxelEdit>,
}

impl ChunkEdits {
    /// There are edits, and all are on the map.
    pub open spec fn wf(&self) -> bool {
        &&& self.edits@.len() > 0
        &&& forall|i: int|
            0 <= i < self.edits@.len() ==> (#[trigger] self.edits@[i]).map_id == self.map_id
    }

    /// Whether these are the edits of the chunk at `pos` of a map.
    pub open spec fn is_at(&self, map_id: MapInstanceId, pos: IVec3) -> bool {
        self.map_id == map_id && self.chunk_pos == pos
    }
}

/// The edits of a tick, by map and chunk. No chunk of a map occurs twice.
#[derive(Debug)]
pub struct PendingVoxelBroadcasts {
    pub per_chunk: Vec<ChunkEdits>,
}

impl PendingVoxelBroadcasts {
    pub open spec fn wf(&self) -> bool {
        &&& forall|i: int, j: int|
            0 <= i < j < self.per_chunk@.len() ==> !(#[trigger] self.per_chunk@[i]).is_at(
                (#[trigger] self.per_chunk@[j]).map_id,
                self.per_chunk@[j].chunk_pos,
            )
        &&& forall|i: int| 0 <= i < self.per_chunk@.len() ==> (#[trigger] self.per_chunk@[i]).wf()
    }

    /// Whether the chunk at `pos` of a map has edits.
    pub open spec fn has_edits(&self, map_id: MapInstanceId, pos: IVec3) -> bool {
        exists|i: int|
            0 <= i < self.per_chunk@.len() && (#[trigger] self.per_chunk@[i]).is_at(map_id, pos)
    }

    /// The edits of the chunk at `pos` of a map.
    pub open spec fn edits_at(&self, map_id: MapInstanceId, pos: IVec3) -> Seq<PendingVoxelEdit> {
        if self.has_edits(map_id, pos) {
            self.per_chunk@[choose|i: int|
                0 <= i < self.per_chunk@.len() && (#[trigger] self.per_chunk@[i]).is_at(
                    map_id,
                    pos,
                )].edits@
        } else {
            Seq::empty()
        }
    }

    proof fn lemma_edits_at(&self, i: int)
        requires
            self.wf(),
            0 <= i < self.per_chunk@.len(),
        ensures
            self.edits_at(self.per_chunk@[i].map_id, self.per_chunk@[i].chunk_pos)
                == self.per_chunk@[i].edits@,
    {
        let map_id = self.per_chunk@[i].map_id;
        let pos = self.per_chunk@[i].chunk_pos;
        assert(self.per_chunk@[i].is_at(map_id, pos));
        let j = choose|j: int|
            0 <= j < self.per_chunk@.len() && (#[trigger] self.per_chunk@[j]).is_at(map_id, pos);
        assert(0 <= j < self.per_chunk@.len() && self.per_chunk@[j].is_at(map_id, pos));
        if j < i {
            assert(!self.per_chunk@[j].is_at(map_id, pos));
        } else if i < j {
            assert(!self.per_chunk@[i].is_at(
                self.per_chunk@[j].map_id,
                self.per_chunk@[j].chunk_pos,
            ));
        }
    }

    pub fn new() -> (pending: PendingVoxelBroadcasts)
        ensures
            pending.wf(),
            pending.per_chunk@.len() == 0,
            forall|map_id: MapInstanceId, pos: IVec3| pending.edits_at(map_id, pos).len() == 0,
    {
        PendingVoxelBroadcasts { per_chunk: Vec::new() }
    }

    fn position(&self, map_id: MapInstanceId, chunk_pos: IVec3) -> (index: Option<usize>)
        ensures
            match index {
                Some(i) => i < self.per_chunk@.len() && self.per_chunk@[i as int].is_at(
                    map_id,
                    chunk_pos,
                ),
                None => !self.has_edits(map_id, chunk_pos),
            },
    {
        let mut i: usize = 0;
        while i < self.per_chunk.len()
            invariant
                i <= self.per_chunk@.len(),
                forall|j: int|
                    0 <= j < i ==> !(#[trigger] self.per_chunk@[j]).is_at(map_id, chunk_pos),
            decreases self.per_chunk@.len() - i,
        {
            if self.per_chunk[i].map_id == map_id && self.per_chunk[i].chunk_pos == chunk_pos {
                return Some(i);
            }
            i = i + 1;
        }
        None
    }

    /// Adds an edit in the chunk at `chunk_pos` of the edit's map.
    pub fn push(&mut self, chunk_pos: IVec3, edit: PendingVoxelEdit)
        requires
            old(self).wf(),
        ensures
            final(self).wf(),
            forall|map_id: MapInstanceId, pos: IVec3| #[trigger]
                final(self).edits_at(map_id, pos) == (if map_id == edit.map_id && pos == chunk_pos {
                    old(self).edits_at(map_id, pos).push(edit)
                } else {
                    old(self).edits_at(map_id, pos)
                }),
    {
        let ghost before = *self;
        let map_id = edit.map_id;
        let i: usize = match self.position(map_id, chunk_pos) {
            Some(i) => i,
            None => self.per_chunk.len(),
        };
        if i < self.per_chunk.len() {
            let chunk = &mut self.per_chunk[i];
            chunk.edits.push(edit);
        } else {
            let mut edits: Vec<PendingVoxelEdit> = Vec::new();
            edits.push(edit);
            self.per_chunk.push(ChunkEdits { map_id, chunk_pos, edits });
        }
        proof {
            let n = before.per_chunk@.len() as int;
            assert forall|k: int| 0 <= k < n implies (#[trigger] self.per_chunk@[k]).chunk_pos
                == before.per_chunk@[k].chunk_pos && self.per_chunk@[k].map_id
                == before.per_chunk@[k].map_id && (k != i ==> self.per_chunk@[k]
                == before.per_chunk@[k]) by {}
            assert(self.per_chunk@[i as int].is_at(map_id, chunk_pos));
            assert forall|a: int, b: int| 0 <= a < b < self.per_chunk@.len() implies !(
            #[trigger] self.per_chunk@[a]).is_at(
                (#[trigger] self.per_chunk@[b]).map_id,
                self.per_chunk@[b].chunk_pos,
            ) by {
                if b < n {
                    assert(!before.per_chunk@[a].is_at(
                        before.per_chunk@[b].map_id,
                        before.per_chunk@[b].chunk_pos,
                    ));
                } else {
                    assert(!before.per_chunk@[a].is_at(map_id, chunk_pos));
                }
            }
            assert forall|k: int| 0 <= k < self.per_chunk@.len() implies (
            #[trigger] self.per_chunk@[k]).wf() by {
                if k < n {
                    assert(before.per_chunk@[k].wf());
                }
                if k == i {
                    let now = self.per_chunk@[k].edits@;
                    assert forall|e: int| 0 <= e < now.len() implies (#[trigger] now[e]).map_id
                        == map_id by {
                        if e < now.len() - 1 {
                            assert(before.per_chunk@[k].edits@[e].map_id == map_id);
                        }
                    }
                }
            }
            assert(self.wf());
            self.lemma_edits_at(i as int);
            if i < n {
                before.lemma_edits_at(i as int);
            } else {
                assert(self.per_chunk@[i as int].edits@ =~= before.edits_at(map_id, chunk_pos).push(
                    edit,
                ));
            }
            assert forall|m: MapInstanceId, pos: IVec3| !(m == map_id && pos == chunk_pos) implies
                #[trigger] self.edits_at(m, pos) == before.edits_at(m, pos) by {
                if before.has_edits(m, pos) {
                    let k = choose|k: int|
                        0 <= k < n && (#[trigger] before.per_chunk@[k]).is_at(m, pos);
                    assert(self.per_chunk@[k] == before.per_chunk@[k]);
                    before.lemma_edits_at(k);
                    self.lemma_edits_at(k);
                } else {
                    assert forall|k: int| 0 <= k < self.per_chunk@.len() implies !(
                    #[trigger] self.per_chunk@[k]).is_at(m, pos) by {
                        if k < n {
                            assert(!before.per_chunk@[k].is_at(m, pos));
                        }
                    }
                }
            }
        }
    }
}

impl Default for PendingVoxelBroadcasts {
    fn default() -> (pending: PendingVoxelBroadcasts)
        ensures
            pending.wf(),
            pending.per_chunk@.len() == 0,
            forall|map_id: MapInstanceId, pos: IVec3| pending.edits_at(map_id, pos).len() == 0,
    {
        PendingVoxelBroadcasts::new()
    }
}

/// A request for an edit, as it came in: who sent it, and the chunk that the position lies in.
#[derive(Clone, Copy, Debug, PartialEq, Eq, Structural)]
pub struct EditMessage {
    pub client: Entity,
    pub request: VoxelEditRequest,
    pub chunk_pos: IVec3,
}

/// What comes of a request.
#[derive(Clone, Copy, Debug, PartialEq, Eq, Structural)]
pub enum EditResponse {
    /// The voxel is set, and the client is told so.
    Apply {
        client: Entity,
        map_entity: Entity,
        position: IVec3,
        voxel: VoxelType,
        ack: VoxelEditAck,
    },
    /// The client is told what the voxel is; see [`reject_edit`].
    Reject { client: Entity, map_entity: Entity, request: VoxelEditRequest },
}

/// What comes of a request of a client whose character is on a map; nothing comes of others.
pub open spec fn edit_response(
    message: EditMessage,
    characters: Seq<ControlledCharacter>,
    registry: &MapRegistry,
) -> Option<EditResponse> {
    match player_map(message.client, characters) {
        Some(id) => Some(
            if edit_allowed(message.request) {
                EditResponse::Apply {
                    client: message.client,
                    map_entity: registry.view()[id],
                    position: message.request.position,
                    voxel: message.request.voxel,
                    ack: VoxelEditAck { sequence: message.request.sequence },
                }
            } else {
                EditResponse::Reject {
                    client: message.client,
                    map_entity: registry.view()[id],
                    request: message.request,
                }
            },
        ),
        None => None,
    }
}

/// The edit that clients are to be told of, if a request is granted.
pub open spec fn granted_edit(
    message: EditMessage,
    characters: Seq<ControlledCharacter>,
) -> Option<PendingVoxelEdit> {
    match player_map(message.client, characters) {
        Some(id) if edit_allowed(message.request) => Some(
            PendingVoxelEdit {
                position: message.request.position,
                voxel: message.request.voxel,
                originator: message.client,
                map_id: id,
            },
        ),
        _ => None,
    }
}

/// The edit that a request brings about in the chunk at `pos` of a map, if it does.
pub open spec fn granted_edit_at(
    message: EditMessage,
    characters: Seq<ControlledCharacter>,
    map_id: MapInstanceId,
    pos: IVec3,
) -> Option<PendingVoxelEdit> {
    match granted_edit(message, characters) {
        Some(edit) if edit.map_id == map_id && message.chunk_pos == pos => Some(edit),
        _ => None,
    }
}

/// The edits granted in the chunk at `pos` of a map.
pub open spec fn granted_edits_at(
    messages: Seq<EditMessage>,
    characters: Seq<ControlledCharacter>,
    map_id: MapInstanceId,
    pos: IVec3,
) -> Seq<PendingVoxelEdit> {
    filter_map(messages, |m: EditMessage| granted_edit_at(m, characters, map_id, pos))
}

/// Whether any request is granted.
pub open spec fn any_granted(
    messages: Seq<EditMessage>,
    characters: Seq<ControlledCharacter>,
) -> bool {
    exists|i: int|
        0 <= i < messages.len() && granted_edit(#[trigger] messages[i], characters) is Some
}

/// Takes the requests that came in: answers them, notes that the world was edited, and remembers the
/// edits that clients are to be told of.
pub fn handle_voxel_edit_requests(
    messages: &Vec<EditMessage>,
    characters: &Vec<ControlledCharacter>,
    registry: &MapRegistry,
    dirty_state: &mut WorldDirtyState,
    pending: &mut PendingVoxelBroadcasts,
    now: u64,
) -> (responses: Vec<EditResponse>)
    requires
        registry.wf(),
        characters_on_maps(characters@, registry),
        old(pending).wf(),
    ensures
        responses@ == filter_map(
            messages@,
            |m: EditMessage| edit_response(m, characters@, registry),
        ),
        *final(dirty_state) == (if any_granted(messages@, characters@) {
            old(dirty_state).edited(now)
        } else {
            *old(dirty_state)
        }),
        final(pending).wf(),
        forall|map_id: MapInstanceId, pos: IVec3| #[trigger]
            final(pending).edits_at(map_id, pos) == old(pending).edits_at(map_id, pos)
                + granted_edits_at(messages@, characters@, map_id, pos),
{
    let ghost pending_before = *pending;
    let ghost dirty_before = *dirty_state;
    let mut responses: Vec<EditResponse> = Vec::new();
    let mut i: usize = 0;
    let ghost f = |m: EditMessage| edit_response(m, characters@, registry);
    proof {
        assert(messages@.take(0) =~= Seq::empty());
        assert forall|map_id: MapInstanceId, pos: IVec3| #[trigger] pending.edits_at(map_id, pos)
            == pending_before.edits_at(map_id, pos) + granted_edits_at(
            messages@.take(0),
            characters@,
            map_id,
            pos,
        ) by {
            assert(granted_edits_at(messages@.take(0), characters@, map_id, pos) =~= Seq::empty());
            assert(pending_before.edits_at(map_id, pos) + Seq::<PendingVoxelEdit>::empty()
                =~= pending_before.edits_at(map_id, pos));
        }
    }
    while i < messages.len()
        invariant
            i <= messages@.len(),
            registry.wf(),
            characters_on_maps(characters@, registry),
            pending.wf(),
            f == (|m: EditMessage| edit_response(m, characters@, registry)),
            responses@ == filter_map(messages@.take(i as int), f),
            *dirty_state == (if any_granted(messages@.take(i as int), characters@) {
                dirty_before.edited(now)
            } else {
                dirty_before
            }),
            forall|map_id: MapInstanceId, pos: IVec3| #[trigger]
                pending.edits_at(map_id, pos) == pending_before.edits_at(map_id, pos)
                    + granted_edits_at(messages@.take(i as int), characters@, map_id, pos),
        decreases messages@.len() - i,
    {
        let message = messages[i];
        let ghost prefix = messages@.take(i as int);
        let ghost longer = messages@.take(i + 1);
        let ghost granted = granted_edit(message, characters@);
        let ghost pending_here = *pending;
        proof {
            crate::seqs::lemma_filter_map_step(messages@, i as int, f);
            assert(longer =~= prefix.push(message));
            assert(any_granted(longer, characters@) <==> any_granted(prefix, characters@)
                || granted is Some) by {
                if any_granted(prefix, characters@) {
                    let k = choose|k: int|
                        0 <= k < prefix.len() && granted_edit(#[trigger] prefix[k], characters@)
                            is Some;
                    assert(longer[k] == prefix[k]);
                }
                if granted is Some {
                    assert(longer[i as int] == message);
                }
                if any_granted(longer, characters@) {
                    let k = choose|k: int|
                        0 <= k < longer.len() && granted_edit(#[trigger] longer[k], characters@)
                            is Some;
                    if k < i {
                        assert(prefix[k] == longer[k]);
                    }
                }
            }
        }
        if let Some((map_entity, map_id)) = resolve_player_map(
            message.client,
            characters,
            registry,
        ) {
            if validate_voxel_edit(&message.request) {
                dirty_state.mark_edited(now);
                pending.push(
                    message.chunk_pos,
                    PendingVoxelEdit {
                        position: message.request.position,
                        voxel: message.request.voxel,
                        originator: message.client,
                        map_id,
                    },
                );
                responses.push(
                    EditResponse::Apply {
                        client: message.client,
                        map_entity,
                        position: message.request.position,
                        voxel: message.request.voxel,
                        ack: VoxelEditAck { sequence: message.request.sequence },
                    },
                );
            } else {
                responses.push(
                    EditResponse::Reject {
                        client: message.client,
                        map_entity,
                        request: message.request,
                    },
                );
            }
        }
        proof {
            assert forall|map_id: MapInstanceId, pos: IVec3| #[trigger] pending.edits_at(map_id, pos)
                == pending_before.edits_at(map_id, pos) + granted_edits_at(
                longer,
                characters@,
                map_id,
                pos,
            ) by {
                let g = |m: EditMessage| granted_edit_at(m, characters@, map_id, pos);
                crate::seqs::lemma_filter_map_step(messages@, i as int, g);
                let earlier = pending_before.edits_at(map_id, pos);
                let granted_so_far = granted_edits_at(prefix, characters@, map_id, pos);
                assert(pending_here.edits_at(map_id, pos) == earlier + granted_so_far);
                if granted_edit_at(message, characters@, map_id, pos) is Some {
                    assert(earlier + granted_so_far.push(granted->0) =~= (earlier
                        + granted_so_far).push(granted->0));
                }
            }
        }
        i = i + 1;
    }
    assert(messages@.take(i as int) =~= messages@);
    responses
}

/// Whether `c` is the place of the first character that `client` controls.
pub open spec fn is_first_character(
    characters: Seq<ControlledCharacter>,
    client: Entity,
    c: int,
) -> bool {
    &&& 0 <= c < characters.len()
    &&& characters[c].owner == client
    &&& forall|d: int| 0 <= d < c ==> (#[trigger] characters[d]).owner != client
}

/// Whether `client` controls a character.
pub open spec fn controls_character(characters: Seq<ControlledCharacter>, client: Entity) -> bool {
    exists|c: int| 0 <= c < characters.len() && (#[trigger] characters[c]).owner == client
}

proof fn lemma_player_map(client: Entity, characters: Seq<ControlledCharacter>)
    ensures
        player_map(client, characters) is Some <==> controls_character(characters, client),
        forall|c: int| #[trigger]
            is_first_character(characters, client, c) ==> player_map(client, characters) == Some(
                characters[c].map_id,
            ),
        player_map(client, characters) is Some ==> exists|c: int|
            is_first_character(characters, client, c),
    decreases characters.len(),
{
    if characters.len() > 0 {
        let rest = characters.drop_first();
        if characters.first().owner == client {
            assert(characters[0].owner == client);
            assert(is_first_character(characters, client, 0));
        } else {
            lemma_player_map(client, rest);
            if controls_character(rest, client) {
                let c = choose|c: int| 0 <= c < rest.len() && (#[trigger] rest[c]).owner == client;
                assert(characters[c + 1].owner == client);
                let d = choose|d: int| is_first_character(rest, client, d);
                assert forall|e: int| 0 <= e < d + 1 implies (#[trigger] characters[e]).owner
                    != client by {
                    if e > 0 {
                        assert(rest[e - 1].owner != client);
                    }
                }
                assert(characters[d + 1] == rest[d]);
                assert(is_first_character(characters, client, d + 1));
            }
            if controls_character(characters, client) {
                let c = choose|c: int|
                    0 <= c < characters.len() && (#[trigger] characters[c]).owner == client;
                assert(rest[c - 1].owner == client);
            }
            assert forall|c: int| #[trigger] is_first_character(characters, client, c) implies
                player_map(client, characters) == Some(characters[c].map_id) by {
                assert(rest[c - 1] == characters[c]);
                assert forall|e: int| 0 <= e < c - 1 implies (#[trigger] rest[e]).owner
                    != client by {
                    assert(characters[e + 1].owner != client);
                }
                assert(is_first_character(rest, client, c - 1));
            }
        }
    }
}

/// Every request of a client whose character is on a map is granted, whatever it asks for and wherever:
/// the voxel is set on the map of the client's first character, and the client's own number comes back
/// to it. The other clients are told of the same voxel, on the same map.
pub proof fn law_every_edit_is_granted(
    message: EditMessage,
    characters: Seq<ControlledCharacter>,
    registry: &MapRegistry,
    c: int,
)
    requires
        is_first_character(characters, message.client, c),
    ensures
        edit_response(message, characters, registry) == Some(
            EditResponse::Apply {
                client: message.client,
                map_entity: registry.view()[characters[c].map_id],
                position: message.request.position,
                voxel: message.request.voxel,
                ack: VoxelEditAck { sequence: message.request.sequence },
            },
        ),
        granted_edit(message, characters) == Some(
            PendingVoxelEdit {
                position: message.request.position,
                voxel: message.request.voxel,
                originator: message.client,
                map_id: characters[c].map_id,
            },
        ),
        edit_allowed(message.request),
{
    lemma_player_map(message.client, characters);
}

/// Nothing comes of the requests of clients that control no character.
pub proof fn law_strangers_edit_nothing(
    message: EditMessage,
    characters: Seq<ControlledCharacter>,
    registry: &MapRegistry,
)
    requires
        !controls_character(characters, message.client),
    ensures
        edit_response(message, characters, registry) is None,
        granted_edit(message, characters) is None,
{
    lemma_player_map(message.client, characters);
}

/// Every request of a client that controls a character is answered, in the order of the requests, and
/// with what it asks for. Gives the request that each answer is to.
pub proof fn law_requests_are_answered_in_turn(
    messages: Seq<EditMessage>,
    characters: Seq<ControlledCharacter>,
    registry: &MapRegistry,
    responses: Seq<EditResponse>,
) -> (at: Seq<int>)
    requires
        responses == filter_map(
            messages,
            |m: EditMessage| edit_response(m, characters, registry),
        ),
    ensures
        at.len() == responses.len(),
        picks(
            at,
            messages.len() as int,
            |i: int| controls_character(characters, messages[i].client),
        ),
        forall|k: int|
            0 <= k < at.len() ==> {
                let message = messages[#[trigger] at[k]];
                responses[k] matches EditResponse::Apply { client, position, voxel, ack, .. }
                    && client == message.client && position == message.request.position && voxel
                    == message.request.voxel && ack.sequence == message.request.sequence
            },
{
    let f = |m: EditMessage| edit_response(m, characters, registry);
    let at = lemma_filter_map_picks(messages, f);
    let answered = |i: int| f(messages[i]) is Some;
    let controls = |i: int| controls_character(characters, messages[i].client);
    assert forall|i: int| 0 <= i < messages.len() implies #[trigger] answered(i)
        == #[trigger] controls(i) by {
        lemma_player_map(messages[i].client, characters);
    }
    lemma_picks_same(at, messages.len() as int, answered, controls);
    assert forall|k: int| 0 <= k < at.len() implies {
        let message = messages[#[trigger] at[k]];
        responses[k] matches EditResponse::Apply { client, position, voxel, ack, .. } && client
            == message.client && position == message.request.position && voxel
            == message.request.voxel && ack.sequence == message.request.sequence
    } by {
        let message = messages[at[k]];
        lemma_player_map(message.client, characters);
        let c = choose|c: int| is_first_character(characters, message.client, c);
        law_every_edit_is_granted(message, characters, registry, c);
    }
    at
}

/// Requests make the world dirty exactly if one of them is of a client that controls a character.
pub proof fn law_edits_make_the_world_dirty(
    messages: Seq<EditMessage>,
    characters: Seq<ControlledCharacter>,
)
    ensures
        any_granted(messages, characters) <==> exists|i: int|
            0 <= i < messages.len() && controls_character(
                characters,
                (#[trigger] messages[i]).client,
            ),
{
    assert forall|i: int| 0 <= i < messages.len() implies (granted_edit(
        #[trigger] messages[i],
        characters,
    ) is Some <==> controls_character(characters, messages[i].client)) by {
        lemma_player_map(messages[i].client, characters);
    }
}

/// The edits that a chunk of a map gets are those of the requests in that chunk whose client is on that
/// map, in their order. Gives the request that each edit comes of.
pub proof fn law_edits_are_kept_by_map_and_chunk(
    messages: Seq<EditMessage>,
    characters: Seq<ControlledCharacter>,
    map_id: MapInstanceId,
    pos: IVec3,
) -> (at: Seq<int>)
    ensures
        at.len() == granted_edits_at(messages, characters, map_id, pos).len(),
        picks(
            at,
            messages.len() as int,
            |i: int|
                messages[i].chunk_pos == pos && exists|c: int|
                    #![trigger characters[c]]
                    is_first_character(characters, messages[i].client, c) && characters[c].map_id
                        == map_id,
        ),
        forall|k: int|
            0 <= k < at.len() ==> {
                let message = messages[#[trigger] at[k]];
                granted_edits_at(messages, characters, map_id, pos)[k] == (PendingVoxelEdit {
                    position: message.request.position,
                    voxel: message.request.voxel,
                    originator: message.client,
                    map_id,
                })
            },
{
    let f = |m: EditMessage| granted_edit_at(m, characters, map_id, pos);
    let at = lemma_filter_map_picks(messages, f);
    let kept = |i: int| f(messages[i]) is Some;
    let there = |i: int|
        messages[i].chunk_pos == pos && exists|c: int|
            #![trigger characters[c]]
            is_first_character(characters, messages[i].client, c) && characters[c].map_id == map_id;
    assert forall|i: int| 0 <= i < messages.len() implies #[trigger] kept(i)
        == #[trigger] there(i) by {
        let client = messages[i].client;
        lemma_player_map(client, characters);
        if player_map(client, characters) is Some {
            let c = choose|c: int| is_first_character(characters, client, c);
            assert(player_map(client, characters) == Some(characters[c].map_id));
        }
    }
    lemma_picks_same(at, messages.len() as int, kept, there);
    assert forall|k: int| 0 <= k < at.len() implies {
        let message = messages[#[trigger] at[k]];
        granted_edits_at(messages, characters, map_id, pos)[k] == (PendingVoxelEdit {
            position: message.request.position,
            voxel: message.request.voxel,
            originator: message.client,
            map_id,
        })
    } by {
        assert(f(messages[at[k]]) == Some(granted_edits_at(messages, characters, map_id, pos)[k]));
    }
    at
}

/// The edits of a chunk are those listed for it, and a chunk that is not listed has none.
pub proof fn law_edits_are_listed_by_chunk(pending: &PendingVoxelBroadcasts, i: int)
    requires
        pending.wf(),
    ensures
        0 <= i < pending.per_chunk@.len() ==> pending.edits_at(
            pending.per_chunk@[i].map_id,
            pending.per_chunk@[i].chunk_pos,
        ) == pending.per_chunk@[i].edits@,
        forall|map_id: MapInstanceId, pos: IVec3| #[trigger]
            pending.edits_at(map_id, pos).len() > 0 ==> exists|k: int|
                0 <= k < pending.per_chunk@.len() && (#[trigger] pending.per_chunk@[k]).map_id
                    == map_id && pending.per_chunk@[k].chunk_pos == pos,
{
    if 0 <= i < pending.per_chunk@.len() {
        pending.lemma_edits_at(i);
    }
}

/// A dirty world is saved a second after the last edit, or five seconds after the first, whichever is
/// earlier, and not before; a clean one is not saved.
pub proof fn law_saving_waits_for_quiet(state: WorldDirtyState, first: u64, last: u64, now: u64)
    requires
        state.first_dirty_time == Some(first),
        state.last_edit_time == last,
    ensures
        state.save_due(now) <==> state.is_dirty && (now >= last + 1_000_000_000 || now >= first
            + 5_000_000_000),
{
}

/// An edit makes the world dirty from then on; the first edit of a clean world is remembered until the
/// world is saved, and the last one counts as the last.
pub proof fn law_edits_are_timed(state: WorldDirtyState, now: u64, later: u64)
    ensures
        state.edited(now).is_dirty,
        state.edited(now).last_edit_time == now,
        !state.is_dirty ==> state.edited(now).edited(later).first_dirty_time == Some(now),
        state.edited(now).edited(later).last_edit_time == later,
        !state.edited(now).saved().is_dirty,
        state.edited(now).saved().edited(later).first_dirty_time == Some(later),
{
}

} // verus!
