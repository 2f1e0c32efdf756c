//! Telling the clients of a map about the edits that others made.
use crate::entity::{Entity, EntitySet};
use crate::geometry::IVec3;
use crate::map::edits::{ChunkEdits, PendingVoxelBroadcasts, PendingVoxelEdit};
use crate::map::types::{
    MapInstanceId, RoomRegistry, SectionBlocksUpdate, VoxelEditBroadcast, VoxelType,
};
use crate::seqs::{lemma_filter_picks, lemma_picks_same, picks};
use std::collections::HashMap;
use vstd::prelude::*;

verus! {

broadcast use vstd::std_specs::hash::group_hash_axioms;

/// The clients in each room, by the room's bits.
pub struct RoomClients {
    pub clients: HashMap<u64, Vec<Entity>>,
}

/// What clients are told.
#[derive(Debug)]
pub enum BroadcastMessage {
    /// The only edit of a chunk.
    Edit(VoxelEditBroadcast),
    /// All edits of a chunk that has several.
    Section(SectionBlocksUpdate),
}

/// A message and the clients that it goes to.
#[derive(Debug)]
pub struct Broadcast {
    pub targets: Vec<Entity>,
    pub message: BroadcastMessage,
}

/// The clients in the room of a map, if the map has a room with clients.
pub open spec fn listeners(
    map_id: MapInstanceId,
    rooms: &RoomRegistry,
    clients: &RoomClients,
) -> Option<Seq<Entity>> {
    if rooms.view().dom().contains(map_id) && clients.clients@.dom().contains(
        rooms.view()[map_id].bits_spec(),
    ) {
        Some(clients.clients@[rooms.view()[map_id].bits_spec()]@)
    } else {
        None
    }
}

/// The clients that are told of a chunk's edits: those in the room of its map.
pub open spec fn audience(chunk: ChunkEdits, rooms: &RoomRegistry, clients: &RoomClients) -> Option<
    Seq<Entity>,
> {
    listeners(chunk.map_id, rooms, clients)
}

/// Whether `client` made one of `edits`.
pub open spec fn made_one_of(edits: Seq<PendingVoxelEdit>, client: Entity) -> bool {
    exists|i: int| 0 <= i < edits.len() && (#[trigger] edits[i]).originator == client
}

/// The positions of `edits` and what is there now.
pub open spec fn changes_of(edits: Seq<PendingVoxelEdit>) -> Seq<(IVec3, VoxelType)> {
    edits.map_values(|e: PendingVoxelEdit| (e.position, e.voxel))
}

/// Whether `sent` tells the clients of `audience` of a chunk's edits: all but those who made one,
/// in one message.
pub open spec fn tells(sent: Broadcast, chunk: ChunkEdits, audience: Seq<Entity>) -> bool {
    &&& sent.targets@ == audience.filter(|c: Entity| !made_one_of(chunk.edits@, c))
    &&& match sent.message {
        BroadcastMessage::Edit(edit) => chunk.edits@.len() == 1 && edit == (VoxelEditBroadcast {
            position: chunk.edits@[0].position,
            voxel: chunk.edits@[0].voxel,
        }),
        BroadcastMessage::Section(update) => chunk.edits@.len() != 1 && update.chunk_pos
            == chunk.chunk_pos && update.changes@ == changes_of(chunk.edits@),
    }
}

/// The chunks whose edits somebody is told of.
pub open spec fn heard_chunks(
    chunks: Seq<ChunkEdits>,
    rooms: &RoomRegistry,
    clients: &RoomClients,
) -> Seq<ChunkEdits> {
    chunks.filter(|c: ChunkEdits| audience(c, rooms, clients) is Some)
}

/// Whether `sent` tells of all edits that somebody is told of: the edits of each chunk of a map in one
/// message to the clients in the map's room, chunk by chunk.
pub open spec fn tells_all(
    sent: Seq<Broadcast>,
    chunks: Seq<ChunkEdits>,
    rooms: &RoomRegistry,
    clients: &RoomClients,
) -> bool {
    let heard = heard_chunks(chunks, rooms, clients);
    &&& sent.len() == heard.len()
    &&& forall|i: int|
        0 <= i < heard.len() ==> tells(
            #[trigger] sent[i],
            heard[i],
            audience(heard[i], rooms, clients)->0,
        )
}

fn collect_originators(edits: &Vec<PendingVoxelEdit>) -> (originators: EntitySet)
    ensures
        forall|e: Entity| #[trigger] originators.has(e) <==> made_one_of(edits@, e),
{
    let mut originators = EntitySet::new();
    let mut i: usize = 0;
    while i < edits.len()
        invariant
            i <= edits@.len(),
            forall|e: Entity| #[trigger]
                originators.has(e) <==> made_one_of(edits@.take(i as int), e),
        decreases edits@.len() - i,
    {
        let ghost prefix = edits@.take(i as int);
        let ghost longer = edits@.take(i + 1);
        originators.insert(edits[i].originator);
        proof {
            assert forall|e: Entity| #[trigger] originators.has(e) <==> made_one_of(longer, e) by {
                if made_one_of(prefix, e) {
                    let k = choose|k: int|
                        0 <= k < prefix.len() && (#[trigger] prefix[k]).originator == e;
                    assert(longer[k] == prefix[k]);
                }
                assert(longer[i as int] == edits@[i as int]);
                if made_one_of(longer, e) {
                    let k = choose|k: int|
                        0 <= k < longer.len() && (#[trigger] longer[k]).originator == e;
                    if k < i {
                        assert(prefix[k] == longer[k]);
                    }
                }
            }
        }
        i = i + 1;
    }
    assert(edits@.take(i as int) =~= edits@);
    originators
}

fn collect_changes(edits: &Vec<PendingVoxelEdit>) -> (changes: Vec<(IVec3, VoxelType)>)
    ensures
        changes@ == changes_of(edits@),
{
    let mut changes: Vec<(IVec3, VoxelType)> = Vec::new();
    let mut i: usize = 0;
    while i < edits.len()
        invariant
            i <= edits@.len(),
            changes@ == changes_of(edits@.take(i as int)),
        decreases edits@.len() - i,
    {
        changes.push((edits[i].position, edits[i].voxel));
        i = i + 1;
        assert(changes@ =~= changes_of(edits@.take(i as int)));
    }
    assert(edits@.take(i as int) =~= edits@);
    changes
}

fn broadcast_chunk(chunk: &ChunkEdits, audience: &Vec<Entity>) -> (sent: Broadcast)
    requires
        chunk.edits@.len() > 0,
    ensures
        tells(sent, *chunk, audience@),
{
    let originators = collect_originators(&chunk.edits);
    let mut targets: Vec<Entity> = Vec::new();
    let mut i: usize = 0;
    let ghost pred = |c: Entity| !made_one_of(chunk.edits@, c);
    proof {
        crate::seqs::lemma_filter_empty(audience@.take(0), pred);
    }
    while i < audience.len()
        invariant
            i <= audience@.len(),
            forall|e: Entity| #[trigger] originators.has(e) <==> made_one_of(chunk.edits@, e),
            pred == (|c: Entity| !made_one_of(chunk.edits@, c)),
            targets@ == audience@.take(i as int).filter(pred),
        decreases audience@.len() - i,
    {
        proof {
            crate::seqs::lemma_filter_step(audience@, i as int, pred);
        }
        if !originators.contains(audience[i]) {
            targets.push(audience[i]);
        }
        i = i + 1;
    }
    assert(audience@.take(i as int) =~= audience@);
    let message = if chunk.edits.len() == 1 {
        BroadcastMessage::Edit(
            VoxelEditBroadcast { position: chunk.edits[0].position, voxel: chunk.edits[0].voxel },
        )
    } else {
        BroadcastMessage::Section(
            SectionBlocksUpdate {
                chunk_pos: chunk.chunk_pos,
                changes: collect_changes(&chunk.edits),
            },
        )
    };
    Broadcast { targets, message }
}

/// Tells the clients in a map's room of all edits on the map that they have not been told of: a chunk
/// with one edit in a message of its own, a chunk with several in one message for all of them.
pub fn flush_voxel_broadcasts(
    pending: &mut PendingVoxelBroadcasts,
    rooms: &RoomRegistry,
    clients: &RoomClients,
) -> (sent: Vec<Broadcast>)
    requires
        old(pending).wf(),
        rooms.wf(),
    ensures
        final(pending).wf(),
        final(pending).per_chunk@.len() == 0,
        tells_all(sent@, old(pending).per_chunk@, rooms, clients),
{
    let mut sent: Vec<Broadcast> = Vec::new();
    let mut i: usize = 0;
    let ghost chunks = pending.per_chunk@;
    let ghost pred = |c: ChunkEdits| audience(c, rooms, clients) is Some;
    proof {
        crate::seqs::lemma_filter_empty(chunks.take(0), pred);
    }
    while i < pending.per_chunk.len()
        invariant
            i <= chunks.len(),
            pending.per_chunk@ == chunks,
            pending.wf(),
            rooms.wf(),
            pred == (|c: ChunkEdits| audience(c, rooms, clients) is Some),
            sent@.len() == chunks.take(i as int).filter(pred).len(),
            forall|k: int|
                0 <= k < sent@.len() ==> tells(
                    #[trigger] sent@[k],
                    chunks.take(i as int).filter(pred)[k],
                    audience(chunks.take(i as int).filter(pred)[k], rooms, clients)->0,
                ),
        decreases chunks.len() - i,
    {
        let ghost done = chunks.take(i as int).filter(pred);
        proof {
            crate::seqs::lemma_filter_step(chunks, i as int, pred);
        }
        let chunk = &pending.per_chunk[i];
        assert(pending.per_chunk@[i as int].wf());
        if let Some(room) = rooms.lookup(&chunk.map_id) {
            if let Some(audience) = clients.clients.get(&room.to_bits()) {
                let message = broadcast_chunk(chunk, audience);
                sent.push(message);
            }
        }
        i = i + 1;
    }
    assert(chunks.take(i as int) =~= chunks);
    pending.per_chunk.clear();
    sent
}

/// A client that made an edit is not told of its chunk's edits, and every other client in the
/// audience is.
pub proof fn law_originators_are_left_out(
    sent: Broadcast,
    chunk: ChunkEdits,
    audience: Seq<Entity>,
    client: Entity,
)
    requires
        tells(sent, chunk, audience),
    ensures
        sent.targets@.contains(client) <==> audience.contains(client) && !made_one_of(
            chunk.edits@,
            client,
        ),
{
    let pred = |c: Entity| !made_one_of(chunk.edits@, c);
    if sent.targets@.contains(client) {
        audience.lemma_filter_contains_rev(pred, client);
        let k = choose|k: int| 0 <= k < sent.targets@.len() && sent.targets@[k] == client;
        audience.lemma_filter_pred(pred, k);
    }
    if audience.contains(client) && pred(client) {
        let k = choose|k: int| 0 <= k < audience.len() && audience[k] == client;
        audience.lemma_filter_contains(pred, k);
    }
}

/// Every edit of a chunk is in the message that tells of the chunk.
pub proof fn law_no_edit_is_lost(sent: Broadcast, chunk: ChunkEdits, audience: Seq<Entity>, i: int)
    requires
        tells(sent, chunk, audience),
        0 <= i < chunk.edits@.len(),
    ensures
        match sent.message {
            BroadcastMessage::Edit(edit) => edit.position == chunk.edits@[i].position && edit.voxel
                == chunk.edits@[i].voxel,
            BroadcastMessage::Section(update) => update.changes@[i] == (
                chunk.edits@[i].position,
                chunk.edits@[i].voxel,
            ),
        },
{
}

/// Whether a message tells of an edit.
pub open spec fn tells_of(message: BroadcastMessage, edit: PendingVoxelEdit) -> bool {
    match message {
        BroadcastMessage::Edit(told) => told.position == edit.position && told.voxel == edit.voxel,
        BroadcastMessage::Section(update) => update.changes@.contains((edit.position, edit.voxel)),
    }
}

/// Whether an edit of a chunk is told to exactly the clients in the room of the edit's own map, less
/// those who made an edit in the chunk.
pub open spec fn is_told_on_its_map(
    sent: Broadcast,
    chunk: ChunkEdits,
    edit: PendingVoxelEdit,
    rooms: &RoomRegistry,
    clients: &RoomClients,
) -> bool {
    &&& tells_of(sent.message, edit)
    &&& listeners(edit.map_id, rooms, clients) is Some
    &&& sent.targets@ == listeners(edit.map_id, rooms, clients)->0.filter(
        |c: Entity| !made_one_of(chunk.edits@, c),
    )
}

/// Every edit is told to the clients in the room of its own map: if that room has clients, there is a
/// message of the edit that goes to exactly them, less those who made an edit in the chunk.
pub proof fn law_edits_reach_their_map(
    pending: PendingVoxelBroadcasts,
    rooms: &RoomRegistry,
    clients: &RoomClients,
    sent: Seq<Broadcast>,
    c: int,
    e: int,
) -> (i: int)
    requires
        pending.wf(),
        tells_all(sent, pending.per_chunk@, rooms, clients),
        0 <= c < pending.per_chunk@.len(),
        0 <= e < pending.per_chunk@[c].edits@.len(),
        listeners(pending.per_chunk@[c].edits@[e].map_id, rooms, clients) is Some,
    ensures
        0 <= i < sent.len(),
        is_told_on_its_map(
            sent[i],
            pending.per_chunk@[c],
            pending.per_chunk@[c].edits@[e],
            rooms,
            clients,
        ),
{
    let chunk = pending.per_chunk@[c];
    assert(chunk.wf());
    let pred = |k: ChunkEdits| audience(k, rooms, clients) is Some;
    let heard = heard_chunks(pending.per_chunk@, rooms, clients);
    pending.per_chunk@.lemma_filter_contains(pred, c);
    let i = choose|i: int| 0 <= i < heard.len() && heard[i] == chunk;
    assert(tells(sent[i], heard[i], audience(heard[i], rooms, clients)->0));
    law_no_edit_is_lost(sent[i], chunk, audience(chunk, rooms, clients)->0, e);
    if let BroadcastMessage::Section(update) = sent[i].message {
        assert(update.changes@[e] == (chunk.edits@[e].position, chunk.edits@[e].voxel));
    }
    i
}

/// No edit is told on another map: each message is that of a chunk of one map, tells of edits on that
/// map only, and goes to clients in that map's room only.
pub proof fn law_edits_stay_on_their_map(
    pending: PendingVoxelBroadcasts,
    rooms: &RoomRegistry,
    clients: &RoomClients,
    sent: Seq<Broadcast>,
    i: int,
) -> (c: int)
    requires
        pending.wf(),
        tells_all(sent, pending.per_chunk@, rooms, clients),
        0 <= i < sent.len(),
    ensures
        0 <= c < pending.per_chunk@.len(),
        ({
            let chunk = pending.per_chunk@[c];
            &&& listeners(chunk.map_id, rooms, clients) is Some
            &&& tells(sent[i], chunk, listeners(chunk.map_id, rooms, clients)->0)
            &&& forall|e: int|
                0 <= e < chunk.edits@.len() ==> (#[trigger] chunk.edits@[e]).map_id == chunk.map_id
            &&& forall|client: Entity| #[trigger]
                sent[i].targets@.contains(client) ==> listeners(
                    chunk.map_id,
                    rooms,
                    clients,
                )->0.contains(client)
        }),
{
    let pred = |k: ChunkEdits| audience(k, rooms, clients) is Some;
    let heard = heard_chunks(pending.per_chunk@, rooms, clients);
    let chunk = heard[i];
    assert(tells(sent[i], chunk, audience(chunk, rooms, clients)->0));
    pending.per_chunk@.lemma_filter_pred(pred, i);
    assert(heard.contains(chunk));
    pending.per_chunk@.lemma_filter_contains_rev(pred, chunk);
    let c = choose|c: int| 0 <= c < pending.per_chunk@.len() && pending.per_chunk@[c] == chunk;
    assert(pending.per_chunk@[c].wf());
    assert forall|client: Entity| #[trigger] sent[i].targets@.contains(client) implies listeners(
        chunk.map_id,
        rooms,
        clients,
    )->0.contains(client) by {
        law_originators_are_left_out(sent[i], chunk, audience(chunk, rooms, clients)->0, client);
    }
    c
}

/// Every chunk of a map whose room has clients is told of in one message, in turn, and no other chunk
/// is: a lone edit by itself, several edits together, each with its position and its voxel. Gives the
/// chunk that each message tells of.
pub proof fn law_each_chunk_is_told_once(
    sent: Seq<Broadcast>,
    chunks: Seq<ChunkEdits>,
    rooms: &RoomRegistry,
    clients: &RoomClients,
) -> (at: Seq<int>)
    requires
        tells_all(sent, chunks, rooms, clients),
    ensures
        at.len() == sent.len(),
        picks(
            at,
            chunks.len() as int,
            |i: int|
                rooms.view().dom().contains(chunks[i].map_id) && clients.clients@.dom().contains(
                    rooms.view()[chunks[i].map_id].bits_spec(),
                ),
        ),
        forall|k: int|
            0 <= k < at.len() ==> tells(
                sent[k],
                chunks[#[trigger] at[k]],
                clients.clients@[rooms.view()[chunks[at[k]].map_id].bits_spec()]@,
            ),
        forall|k: int|
            #![trigger at[k]]
            0 <= k < at.len() ==> match sent[k].message {
                BroadcastMessage::Edit(edit) => {
                    &&& chunks[at[k]].edits@.len() == 1
                    &&& edit.position == chunks[at[k]].edits@[0].position
                    &&& edit.voxel == chunks[at[k]].edits@[0].voxel
                },
                BroadcastMessage::Section(update) => {
                    &&& chunks[at[k]].edits@.len() != 1
                    &&& update.chunk_pos == chunks[at[k]].chunk_pos
                    &&& update.changes@.len() == chunks[at[k]].edits@.len()
                    &&& forall|e: int|
                        0 <= e < update.changes@.len() ==> (#[trigger] update.changes@[e]).0
                            == chunks[at[k]].edits@[e].position && update.changes@[e].1
                            == chunks[at[k]].edits@[e].voxel
                },
            },
{
    let pred = |c: ChunkEdits| audience(c, rooms, clients) is Some;
    let at = lemma_filter_picks(chunks, pred);
    let heard = |i: int| pred(chunks[i]);
    let raw = |i: int|
        rooms.view().dom().contains(chunks[i].map_id) && clients.clients@.dom().contains(
            rooms.view()[chunks[i].map_id].bits_spec(),
        );
    assert forall|i: int| 0 <= i < chunks.len() implies #[trigger] heard(i) == #[trigger] raw(i) by {}
    lemma_picks_same(at, chunks.len() as int, heard, raw);
    assert forall|k: int| 0 <= k < at.len() implies tells(
        sent[k],
        chunks[#[trigger] at[k]],
        clients.clients@[rooms.view()[chunks[at[k]].map_id].bits_spec()]@,
    ) by {
        assert(chunks[at[k]] == heard_chunks(chunks, rooms, clients)[k]);
        assert(raw(at[k]));
    }
    at
}

/// A message goes to all clients that listen, in their order, but for those who made one of the edits
/// that it tells of. Gives the place of each client among those that listen.
pub proof fn law_others_are_told(sent: Broadcast, chunk: ChunkEdits, audience: Seq<Entity>) -> (at:
    Seq<int>)
    requires
        tells(sent, chunk, audience),
    ensures
        at.len() == sent.targets@.len(),
        picks(
            at,
            audience.len() as int,
            |i: int|
                forall|e: int|
                    0 <= e < chunk.edits@.len() ==> (#[trigger] chunk.edits@[e]).originator
                        != audience[i],
        ),
        forall|k: int| 0 <= k < at.len() ==> sent.targets@[k] == audience[#[trigger] at[k]],
{
    let pred = |c: Entity| !made_one_of(chunk.edits@, c);
    let at = lemma_filter_picks(audience, pred);
    let told = |i: int| pred(audience[i]);
    let raw = |i: int|
        forall|e: int|
            0 <= e < chunk.edits@.len() ==> (#[trigger] chunk.edits@[e]).originator != audience[i];
    assert forall|i: int| 0 <= i < audience.len() implies #[trigger] told(i)
        == #[trigger] raw(i) by {}
    lemma_picks_same(at, audience.len() as int, told, raw);
    at
}

} // verus!
