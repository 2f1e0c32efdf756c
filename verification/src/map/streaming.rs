//! Sending chunks to the clients whose players come near them.
use crate::entity::Entity;
use crate::geometry::{has_column, ChunkSet, IVec2, IVec3};
use std::collections::HashMap;
use vstd::prelude::*;

verus! {

broadcast use vstd::std_specs::hash::group_hash_axioms;

/// The most chunks that one client is sent on one tick.
pub const MAX_CHUNK_SENDS_PER_TICK: usize = 16;

/// What a ticket is for.
#[derive(Clone, Copy, Debug, PartialEq, Eq, Structural)]
pub enum TicketKind {
    /// Keeping chunks loaded around a player.
    Player,
    /// Having the first chunks of a map to which a player is on its way.
    MapTransition,
}

/// The columns that a player keeps loaded: those within `radius`, whose level, which grows by one
/// with each step away from the player, does not exceed a limit.
#[derive(Clone, Copy, Debug, PartialEq, Eq, Structural)]
pub struct ChunkTicket {
    pub map_entity: Entity,
    pub base_level: u32,
    pub radius: u32,
}

/// What streaming reads of a map.
pub struct StreamedMap {
    /// The columns that have a level.
    pub leveled_columns: Vec<IVec2>,
    /// The chunks whose data is loaded.
    pub loaded_chunks: ChunkSet,
}

/// How streaming is set up.
pub struct StreamSettings {
    /// The greatest level at which a column counts as loaded.
    pub load_level_threshold: u32,
    /// The heights of the chunks in a column.
    pub column_heights: Vec<i32>,
}

/// What a client has been sent.
pub struct ClientChunkVisibility {
    /// The chunks whose data was sent.
    pub sent_chunks: ChunkSet,
    /// The columns that the client believes to be loaded.
    pub sent_columns: Vec<IVec2>,
    /// The map that the two refer to.
    pub tracked_map: Option<Entity>,
}

impl Default for ClientChunkVisibility {
    fn default() -> (visibility: ClientChunkVisibility)
        ensures
            forall|p: IVec3| !visibility.sent_chunks.has(p),
            visibility.sent_columns@.len() == 0,
            visibility.tracked_map is None,
    {
        ClientChunkVisibility {
            sent_chunks: ChunkSet::new(),
            sent_columns: Vec::new(),
            tracked_map: None,
        }
    }
}

/// The steps between two columns, where a diagonal step counts as one.
pub open spec fn column_distance(a: IVec2, b: IVec2) -> int {
    let dx = if a.x >= b.x {
        a.x - b.x
    } else {
        b.x - a.x
    };
    let dy = if a.y >= b.y {
        a.y - b.y
    } else {
        b.y - a.y
    };
    if dx >= dy {
        dx
    } else {
        dy
    }
}

fn distance_between(a: IVec2, b: IVec2) -> (distance: u32)
    ensures
        distance == column_distance(a, b),
{
    let dx: i64 = if a.x >= b.x {
        a.x as i64 - b.x as i64
    } else {
        b.x as i64 - a.x as i64
    };
    let dy: i64 = if a.y >= b.y {
        a.y as i64 - b.y as i64
    } else {
        b.y as i64 - a.y as i64
    };
    if dx >= dy {
        dx as u32
    } else {
        dy as u32
    }
}

/// The column that a chunk is in.
pub open spec fn column_of(chunk: IVec3) -> IVec2 {
    IVec2 { x: chunk.x, y: chunk.z }
}

/// Whether a column is one of those that a player keeps loaded.
pub open spec fn column_in_range(
    ticket: ChunkTicket,
    map: &StreamedMap,
    threshold: u32,
    player: IVec2,
    col: IVec2,
) -> bool {
    &&& column_distance(col, player) <= ticket.radius
    &&& ticket.base_level + column_distance(col, player) <= threshold
    &&& map.leveled_columns@.contains(col)
}

/// Whether `columns` are the columns that a player keeps loaded, each once.
pub open spec fn are_loaded_columns(
    columns: Seq<IVec2>,
    ticket: ChunkTicket,
    map: &StreamedMap,
    threshold: u32,
    player: IVec2,
) -> bool {
    &&& columns.no_duplicates()
    &&& forall|col: IVec2| #[trigger]
        columns.contains(col) <==> column_in_range(ticket, map, threshold, player, col)
}

/// The columns that a player keeps loaded.
pub fn compute_loaded_columns(
    ticket: &ChunkTicket,
    map: &StreamedMap,
    threshold: u32,
    player: IVec2,
) -> (columns: Vec<IVec2>)
    ensures
        are_loaded_columns(columns@, *ticket, map, threshold, player),
{
    let mut columns: Vec<IVec2> = Vec::new();
    let mut i: usize = 0;
    while i < map.leveled_columns.len()
        invariant
            i <= map.leveled_columns@.len(),
            columns@.no_duplicates(),
            forall|col: IVec2| #[trigger]
                columns@.contains(col) <==> column_distance(col, player) <= ticket.radius
                    && ticket.base_level + column_distance(col, player) <= threshold
                    && map.leveled_columns@.take(i as int).contains(col),
        decreases map.leveled_columns@.len() - i,
    {
        let col = map.leveled_columns[i];
        let distance: u32 = distance_between(col, player);
        let ghost before = columns@;
        let ghost prefix = map.leveled_columns@.take(i as int);
        let ghost longer = map.leveled_columns@.take(i + 1);
        proof {
            assert(longer =~= prefix.push(col));
            assert forall|c: IVec2| #[trigger] longer.contains(c) <==> prefix.contains(c) || c
                == col by {
                if prefix.contains(c) {
                    let k = choose|k: int| 0 <= k < prefix.len() && prefix[k] == c;
                    assert(longer[k] == c);
                }
                assert(longer[i as int] == col);
                if longer.contains(c) {
                    let k = choose|k: int| 0 <= k < longer.len() && longer[k] == c;
                    if k < i {
                        assert(prefix[k] == c);
                    }
                }
            }
        }
        if distance <= ticket.radius && ticket.base_level as u64 + distance as u64
            <= threshold as u64 && !has_column(&columns, col) {
            columns.push(col);
            proof {
                assert forall|c: IVec2| #[trigger] columns@.contains(c) <==> before.contains(c) || c
                    == col by {
                    if before.contains(c) {
                        let k = choose|k: int| 0 <= k < before.len() && before[k] == c;
                        assert(columns@[k] == c);
                    }
                    assert(columns@[before.len() as int] == col);
                    if columns@.contains(c) {
                        let k = choose|k: int| 0 <= k < columns@.len() && columns@[k] == c;
                        if k < before.len() {
                            assert(before[k] == c);
                        }
                    }
                }
            }
        }
        i = i + 1;
    }
    assert(map.leveled_columns@.take(i as int) =~= map.leveled_columns@);
    columns
}

/// A chunk that a client has not been sent, and its distance from the player.
#[derive(Clone, Copy, Debug, PartialEq, Eq, Structural)]
pub struct ChunkCandidate {
    pub chunk_pos: IVec3,
    pub distance: u32,
}

/// Whether a chunk is to be sent: it is in a loaded column, its data is there, and the client does
/// not have it.
pub open spec fn is_candidate(
    chunk: IVec3,
    columns: Seq<IVec2>,
    heights: Seq<i32>,
    sent: ChunkSet,
    loaded: ChunkSet,
) -> bool {
    &&& columns.contains(column_of(chunk))
    &&& heights.contains(chunk.y)
    &&& !sent.has(chunk)
    &&& loaded.has(chunk)
}

/// Whether `found` are the chunks to be sent, each once, with their distances.
spec fn are_candidates(
    found: Seq<ChunkCandidate>,
    columns: Seq<IVec2>,
    heights: Seq<i32>,
    sent: ChunkSet,
    loaded: ChunkSet,
    player: IVec2,
) -> bool {
    &&& forall|i: int, j: int|
        0 <= i < j < found.len() ==> (#[trigger] found[i]).chunk_pos != (
        #[trigger] found[j]).chunk_pos
    &&& forall|i: int|
        0 <= i < found.len() ==> is_candidate(
            (#[trigger] found[i]).chunk_pos,
            columns,
            heights,
            sent,
            loaded,
        ) && found[i].distance == column_distance(column_of(found[i].chunk_pos), player)
    &&& forall|p: IVec3| #[trigger]
        is_candidate(p, columns, heights, sent, loaded) ==> exists|i: int|
            0 <= i < found.len() && (#[trigger] found[i]).chunk_pos == p
}

/// Whether `p` is among the chunks looked at when the first `i` columns and the first `j` heights of
/// the next one have been.
spec fn looked_at(p: IVec3, columns: Seq<IVec2>, heights: Seq<i32>, i: int, j: int) -> bool {
    ||| columns.take(i).contains(column_of(p)) && heights.contains(p.y)
    ||| 0 <= i < columns.len() && column_of(p) == columns[i] && heights.take(j).contains(p.y)
}

proof fn lemma_take_contains<A>(s: Seq<A>, i: int)
    requires
        0 <= i < s.len(),
    ensures
        forall|a: A| #[trigger] s.take(i + 1).contains(a) <==> s.take(i).contains(a) || a == s[i],
{
    let prefix = s.take(i);
    let longer = s.take(i + 1);
    assert forall|a: A| #[trigger] longer.contains(a) <==> prefix.contains(a) || a == s[i] by {
        if prefix.contains(a) {
            let k = choose|k: int| 0 <= k < prefix.len() && prefix[k] == a;
            assert(longer[k] == a);
        }
        assert(longer[i] == s[i]);
        if longer.contains(a) {
            let k = choose|k: int| 0 <= k < longer.len() && longer[k] == a;
            if k < i {
                assert(prefix[k] == a);
            }
        }
    }
}

fn collect_candidates(
    columns: &Vec<IVec2>,
    heights: &Vec<i32>,
    sent: &ChunkSet,
    loaded: &ChunkSet,
    player: IVec2,
) -> (found: Vec<ChunkCandidate>)
    requires
        columns@.no_duplicates(),
        heights@.no_duplicates(),
    ensures
        are_candidates(found@, columns@, heights@, *sent, *loaded, player),
{
    let mut found: Vec<ChunkCandidate> = Vec::new();
    let mut i: usize = 0;
    while i < columns.len()
        invariant
            i <= columns@.len(),
            columns@.no_duplicates(),
            heights@.no_duplicates(),
            forall|a: int, b: int|
                0 <= a < b < found@.len() ==> (#[trigger] found@[a]).chunk_pos != (
                #[trigger] found@[b]).chunk_pos,
            forall|a: int|
                0 <= a < found@.len() ==> is_candidate(
                    (#[trigger] found@[a]).chunk_pos,
                    columns@,
                    heights@,
                    *sent,
                    *loaded,
                ) && found@[a].distance == column_distance(column_of(found@[a].chunk_pos), player)
                    && looked_at(found@[a].chunk_pos, columns@, heights@, i as int, 0),
            forall|p: IVec3| #[trigger]
                is_candidate(p, columns@, heights@, *sent, *loaded) && looked_at(
                    p,
                    columns@,
                    heights@,
                    i as int,
                    0,
                ) ==> exists|a: int| 0 <= a < found@.len() && (#[trigger] found@[a]).chunk_pos == p,
        decreases columns@.len() - i,
    {
        let col = columns[i];
        let distance: u32 = distance_between(col, player);
        let mut j: usize = 0;
        while j < heights.len()
            invariant
                i < columns@.len(),
                j <= heights@.len(),
                col == columns@[i as int],
                distance == column_distance(col, player),
                columns@.no_duplicates(),
                heights@.no_duplicates(),
                forall|a: int, b: int|
                    0 <= a < b < found@.len() ==> (#[trigger] found@[a]).chunk_pos != (
                    #[trigger] found@[b]).chunk_pos,
                forall|a: int|
                    0 <= a < found@.len() ==> is_candidate(
                        (#[trigger] found@[a]).chunk_pos,
                        columns@,
                        heights@,
                        *sent,
                        *loaded,
                    ) && found@[a].distance == column_distance(
                        column_of(found@[a].chunk_pos),
                        player,
                    ) && looked_at(found@[a].chunk_pos, columns@, heights@, i as int, j as int),
                forall|p: IVec3| #[trigger]
                    is_candidate(p, columns@, heights@, *sent, *loaded) && looked_at(
                        p,
                        columns@,
                        heights@,
                        i as int,
                        j as int,
                    ) ==> exists|a: int|
                        0 <= a < found@.len() && (#[trigger] found@[a]).chunk_pos == p,
            decreases heights@.len() - j,
        {
            let chunk_pos = IVec3 { x: col.x, y: heights[j], z: col.y };
            let ghost before = found@;
            proof {
                lemma_take_contains(heights@, j as int);
                assert(column_of(chunk_pos) == col);
                assert(columns@[i as int] == col);
                assert(heights@[j as int] == chunk_pos.y);
                assert(!heights@.take(j as int).contains(chunk_pos.y)) by {
                    if heights@.take(j as int).contains(chunk_pos.y) {
                        let k = choose|k: int|
                            0 <= k < j && heights@.take(j as int)[k] == chunk_pos.y;
                        assert(heights@[k] == heights@[j as int]);
                    }
                }
                assert(!columns@.take(i as int).contains(col)) by {
                    if columns@.take(i as int).contains(col) {
                        let k = choose|k: int| 0 <= k < i && columns@.take(i as int)[k] == col;
                        assert(columns@[k] == columns@[i as int]);
                    }
                }
                assert(!looked_at(chunk_pos, columns@, heights@, i as int, j as int));
            }
            if !sent.contains(chunk_pos) && loaded.contains(chunk_pos) {
                found.push(ChunkCandidate { chunk_pos, distance });
                proof {
                    assert forall|a: int| 0 <= a < before.len() implies (#[trigger] found@[a])
                        == before[a] by {}
                }
            }
            proof {
                assert forall|p: IVec3| #[trigger]
                    is_candidate(p, columns@, heights@, *sent, *loaded) && looked_at(
                        p,
                        columns@,
                        heights@,
                        i as int,
                        j + 1,
                    ) implies exists|a: int|
                    0 <= a < found@.len() && (#[trigger] found@[a]).chunk_pos == p by {
                    if p == chunk_pos {
                        assert(found@[before.len() as int].chunk_pos == p);
                    } else {
                        assert(looked_at(p, columns@, heights@, i as int, j as int));
                        let a = choose|a: int|
                            0 <= a < before.len() && (#[trigger] before[a]).chunk_pos == p;
                        assert(found@[a] == before[a]);
                    }
                }
            }
            j = j + 1;
        }
        proof {
            lemma_take_contains(columns@, i as int);
            assert(heights@.take(j as int) =~= heights@);
            assert(heights@.take(0) =~= Seq::empty());
            assert forall|p: IVec3| heights@.contains(p.y) implies #[trigger] looked_at(
                p,
                columns@,
                heights@,
                i as int,
                j as int,
            ) == looked_at(p, columns@, heights@, i + 1, 0) by {}
            assert forall|a: int| 0 <= a < found@.len() implies looked_at(
                (#[trigger] found@[a]).chunk_pos,
                columns@,
                heights@,
                i + 1,
                0,
            ) by {
                assert(looked_at(found@[a].chunk_pos, columns@, heights@, i as int, j as int));
            }
        }
        i = i + 1;
    }
    proof {
        assert(columns@.take(i as int) =~= columns@);
        assert forall|p: IVec3| #[trigger]
            is_candidate(p, columns@, heights@, *sent, *loaded) implies looked_at(
            p,
            columns@,
            heights@,
            i as int,
            0,
        ) by {}
    }
    found
}

/// How far a chunk's column is from the player.
pub open spec fn chunk_distance(chunk: IVec3, player: IVec2) -> int {
    column_distance(column_of(chunk), player)
}

/// Whether `sends` are the chunks that a client is sent: as many of those to be sent as one tick
/// allows, the closest ones, closest first.
pub open spec fn are_sends(
    sends: Seq<IVec3>,
    columns: Seq<IVec2>,
    heights: Seq<i32>,
    sent: ChunkSet,
    loaded: ChunkSet,
    player: IVec2,
) -> bool {
    &&& sends.no_duplicates()
    &&& sends.len() <= MAX_CHUNK_SENDS_PER_TICK
    &&& forall|i: int|
        0 <= i < sends.len() ==> is_candidate(#[trigger] sends[i], columns, heights, sent, loaded)
    &&& forall|i: int, j: int|
        0 <= i < j < sends.len() ==> chunk_distance(#[trigger] sends[i], player) <= chunk_distance(
            #[trigger] sends[j],
            player,
        )
    &&& forall|p: IVec3| #[trigger]
        is_candidate(p, columns, heights, sent, loaded) && !sends.contains(p) ==> sends.len()
            == MAX_CHUNK_SENDS_PER_TICK && forall|i: int|
            0 <= i < sends.len() ==> chunk_distance(#[trigger] sends[i], player) <= chunk_distance(
                p,
                player,
            )
}

fn closest(candidates: &Vec<ChunkCandidate>) -> (index: usize)
    requires
        candidates@.len() > 0,
    ensures
        index < candidates@.len(),
        forall|j: int|
            0 <= j < candidates@.len() ==> candidates@[index as int].distance <= (
            #[trigger] candidates@[j]).distance,
{
    let mut best: usize = 0;
    let mut i: usize = 1;
    while i < candidates.len()
        invariant
            best < candidates@.len(),
            1 <= i <= candidates@.len(),
            forall|j: int|
                0 <= j < i ==> candidates@[best as int].distance <= (
                #[trigger] candidates@[j]).distance,
        decreases candidates@.len() - i,
    {
        if candidates[i].distance < candidates[best].distance {
            best = i;
        }
        i = i + 1;
    }
    best
}

/// Picks the chunks that a client is sent on this tick, and notes that it has them.
pub fn send_unsent_chunks(
    columns: &Vec<IVec2>,
    heights: &Vec<i32>,
    sent_chunks: &mut ChunkSet,
    loaded: &ChunkSet,
    player: IVec2,
) -> (sends: Vec<IVec3>)
    requires
        columns@.no_duplicates(),
        heights@.no_duplicates(),
    ensures
        are_sends(sends@, columns@, heights@, *old(sent_chunks), *loaded, player),
        forall|p: IVec3| #[trigger]
            final(sent_chunks).has(p) <==> old(sent_chunks).has(p) || sends@.contains(p),
{
    let ghost before = *sent_chunks;
    let mut left = collect_candidates(columns, heights, sent_chunks, loaded, player);
    let mut sends: Vec<IVec3> = Vec::new();
    while sends.len() < MAX_CHUNK_SENDS_PER_TICK && left.len() > 0
        invariant
            sends@.no_duplicates(),
            sends@.len() <= MAX_CHUNK_SENDS_PER_TICK,
            forall|i: int|
                0 <= i < sends@.len() ==> is_candidate(
                    #[trigger] sends@[i],
                    columns@,
                    heights@,
                    before,
                    *loaded,
                ),
            forall|i: int, j: int|
                0 <= i < j < sends@.len() ==> chunk_distance(#[trigger] sends@[i], player)
                    <= chunk_distance(#[trigger] sends@[j], player),
            forall|i: int, j: int|
                0 <= i < j < left@.len() ==> (#[trigger] left@[i]).chunk_pos != (
                #[trigger] left@[j]).chunk_pos,
            forall|i: int|
                0 <= i < left@.len() ==> is_candidate(
                    (#[trigger] left@[i]).chunk_pos,
                    columns@,
                    heights@,
                    before,
                    *loaded,
                ) && left@[i].distance == chunk_distance(left@[i].chunk_pos, player)
                    && !sends@.contains(left@[i].chunk_pos),
            forall|i: int, j: int|
                0 <= i < sends@.len() && 0 <= j < left@.len() ==> chunk_distance(
                    #[trigger] sends@[i],
                    player,
                ) <= (#[trigger] left@[j]).distance,
            forall|p: IVec3| #[trigger]
                is_candidate(p, columns@, heights@, before, *loaded) && !sends@.contains(p)
                    ==> exists|i: int| 0 <= i < left@.len() && (#[trigger] left@[i]).chunk_pos == p,
            forall|p: IVec3| #[trigger]
                sent_chunks.has(p) <==> before.has(p) || sends@.contains(p),
        decreases left@.len(),
    {
        let index: usize = closest(&left);
        let ghost left_before = left@;
        let ghost sends_before = sends@;
        let candidate = left.remove(index);
        sends.push(candidate.chunk_pos);
        sent_chunks.insert(candidate.chunk_pos);
        proof {
            let pos = candidate.chunk_pos;
            assert(left@ =~= left_before.remove(index as int));
            assert forall|j: int| 0 <= j < left@.len() implies #[trigger] left@[j] == left_before[if j
                < index {
                j
            } else {
                j + 1
            }] by {}
            assert forall|p: IVec3| #[trigger] sends@.contains(p) <==> sends_before.contains(p) || p
                == pos by {
                if sends_before.contains(p) {
                    let k = choose|k: int| 0 <= k < sends_before.len() && sends_before[k] == p;
                    assert(sends@[k] == p);
                }
                assert(sends@[sends_before.len() as int] == pos);
                if sends@.contains(p) {
                    let k = choose|k: int| 0 <= k < sends@.len() && sends@[k] == p;
                    if k < sends_before.len() {
                        assert(sends_before[k] == p);
                    }
                }
            }
            assert(!sends_before.contains(left_before[index as int].chunk_pos));
            assert forall|p: IVec3| #[trigger]
                is_candidate(p, columns@, heights@, before, *loaded) && !sends@.contains(
                    p,
                ) implies exists|i: int|
                0 <= i < left@.len() && (#[trigger] left@[i]).chunk_pos == p by {
                let k = choose|k: int|
                    0 <= k < left_before.len() && (#[trigger] left_before[k]).chunk_pos == p;
                let i = if k < index {
                    k
                } else {
                    k - 1
                };
                assert(left@[i].chunk_pos == p);
            }
        }
    }
    proof {
        assert forall|p: IVec3| #[trigger]
            is_candidate(p, columns@, heights@, before, *loaded) && !sends@.contains(
                p,
            ) implies sends@.len() == MAX_CHUNK_SENDS_PER_TICK && forall|i: int|
            0 <= i < sends@.len() ==> chunk_distance(#[trigger] sends@[i], player)
                <= chunk_distance(p, player) by {
            let k = choose|k: int| 0 <= k < left@.len() && (#[trigger] left@[k]).chunk_pos == p;
            assert(left@[k].distance == chunk_distance(p, player));
        }
    }
    sends
}

/// The columns of `sent` that are not among `current`.
pub open spec fn stale_columns(sent: Seq<IVec2>, current: Seq<IVec2>) -> Seq<IVec2> {
    sent.filter(|col: IVec2| !current.contains(col))
}

/// Whether a chunk is one of those that a column consists of.
pub open spec fn chunk_in(chunk: IVec3, columns: Seq<IVec2>, heights: Seq<i32>) -> bool {
    columns.contains(column_of(chunk)) && heights.contains(chunk.y)
}

fn forget_column(sent_chunks: &mut ChunkSet, col: IVec2, heights: &Vec<i32>)
    ensures
        forall|p: IVec3| #[trigger]
            final(sent_chunks).has(p) <==> old(sent_chunks).has(p) && !(column_of(p) == col
                && heights@.contains(p.y)),
{
    let ghost before = *sent_chunks;
    let mut j: usize = 0;
    while j < heights.len()
        invariant
            j <= heights@.len(),
            forall|p: IVec3| #[trigger]
                sent_chunks.has(p) <==> before.has(p) && !(column_of(p) == col && heights@.take(
                    j as int,
                ).contains(p.y)),
        decreases heights@.len() - j,
    {
        proof {
            lemma_take_contains(heights@, j as int);
        }
        sent_chunks.remove(IVec3 { x: col.x, y: heights[j], z: col.y });
        j = j + 1;
    }
    assert(heights@.take(j as int) =~= heights@);
}

/// Finds the columns that a client need not keep, and forgets that it was sent their chunks.
pub fn unload_stale_columns(
    sent_chunks: &mut ChunkSet,
    sent_columns: &Vec<IVec2>,
    current: &Vec<IVec2>,
    heights: &Vec<i32>,
) -> (stale: Vec<IVec2>)
    ensures
        stale@ == stale_columns(sent_columns@, current@),
        forall|p: IVec3| #[trigger]
            final(sent_chunks).has(p) <==> old(sent_chunks).has(p) && !chunk_in(
                p,
                stale@,
                heights@,
            ),
{
    let ghost before = *sent_chunks;
    let mut stale: Vec<IVec2> = Vec::new();
    let mut i: usize = 0;
    let ghost pred = |col: IVec2| !current@.contains(col);
    proof {
        crate::seqs::lemma_filter_empty(sent_columns@.take(0), pred);
    }
    while i < sent_columns.len()
        invariant
            i <= sent_columns@.len(),
            pred == (|col: IVec2| !current@.contains(col)),
            stale@ == sent_columns@.take(i as int).filter(pred),
            forall|p: IVec3| #[trigger]
                sent_chunks.has(p) <==> before.has(p) && !chunk_in(p, stale@, heights@),
        decreases sent_columns@.len() - i,
    {
        let col = sent_columns[i];
        proof {
            crate::seqs::lemma_filter_step(sent_columns@, i as int, pred);
        }
        if !has_column(current, col) {
            let ghost stale_before = stale@;
            stale.push(col);
            forget_column(sent_chunks, col, heights);
            proof {
                assert(stale@.take(stale_before.len() as int) =~= stale_before);
                assert(stale@.take(stale_before.len() as int + 1) =~= stale@);
                lemma_take_contains(stale@, stale_before.len() as int);
            }
        }
        i = i + 1;
    }
    assert(sent_columns@.take(i as int) =~= sent_columns@);
    stale
}

/// What a client is sent on one tick.
#[derive(Debug)]
pub struct ChunkPush {
    /// The chunks whose data is sent, in this order.
    pub sends: Vec<IVec3>,
    /// The columns that the client is told to unload.
    pub unloads: Vec<IVec2>,
}

impl ClientChunkVisibility {
    /// Whether `chunk` counts as sent when the player is on the map `map`: what was sent of another
    /// map does not count.
    pub open spec fn counts_as_sent(&self, map: Entity, chunk: IVec3) -> bool {
        self.tracked_map == Some(map) && self.sent_chunks.has(chunk)
    }

    /// The columns that count as sent when the player is on the map `map`.
    pub open spec fn columns_on(&self, map: Entity) -> Seq<IVec2> {
        if self.tracked_map == Some(map) {
            self.sent_columns@
        } else {
            Seq::empty()
        }
    }

    /// Every chunk that was sent is in a column that the client believes to be loaded.
    pub open spec fn consistent(&self, heights: Seq<i32>) -> bool {
        forall|p: IVec3| #[trigger]
            self.sent_chunks.has(p) ==> chunk_in(p, self.sent_columns@, heights)
    }

    /// Starts over if the player has changed maps.
    fn track(&mut self, map: Entity)
        ensures
            final(self).tracked_map == Some(map),
            final(self).sent_columns@ == old(self).columns_on(map),
            forall|p: IVec3| #[trigger]
                final(self).sent_chunks.has(p) <==> old(self).counts_as_sent(map, p),
    {
        if self.tracked_map != Some(map) {
            self.sent_chunks.clear();
            self.sent_columns.clear();
            self.tracked_map = Some(map);
        }
    }
}

/// Whether `push` is what a client is sent, where `sent` are the chunks and `columns` the columns
/// that it has.
pub open spec fn is_push(
    push: ChunkPush,
    ticket: ChunkTicket,
    map: &StreamedMap,
    settings: &StreamSettings,
    player: IVec2,
    sent: ChunkSet,
    columns: Seq<IVec2>,
    current: Seq<IVec2>,
) -> bool {
    &&& are_loaded_columns(current, ticket, map, settings.load_level_threshold, player)
    &&& are_sends(
        push.sends@,
        current,
        settings.column_heights@,
        sent,
        map.loaded_chunks,
        player,
    )
    &&& push.unloads@ == stale_columns(columns, current)
}

/// Whether `push` is what a client is sent whose player is at the column `player`, and `after` what
/// it has then been sent. Nothing is sent while the player's map is not there.
pub open spec fn pushes(
    push: ChunkPush,
    before: ClientChunkVisibility,
    after: ClientChunkVisibility,
    ticket: ChunkTicket,
    map: Option<StreamedMap>,
    settings: &StreamSettings,
    player: IVec2,
) -> bool {
    &&& after.tracked_map == Some(ticket.map_entity)
    &&& match map {
        Some(map) => exists|sent: ChunkSet|
            {
                &&& #[trigger] is_push(
                    push,
                    ticket,
                    &map,
                    settings,
                    player,
                    sent,
                    before.columns_on(ticket.map_entity),
                    after.sent_columns@,
                )
                &&& forall|p: IVec3| #[trigger]
                    sent.has(p) <==> before.counts_as_sent(ticket.map_entity, p)
            },
        None => {
            &&& push.sends@.len() == 0
            &&& push.unloads@.len() == 0
            &&& after.sent_columns@ == before.columns_on(ticket.map_entity)
        },
    }
    &&& forall|p: IVec3| #[trigger]
        after.sent_chunks.has(p) <==> (before.counts_as_sent(ticket.map_entity, p)
            || push.sends@.contains(p)) && !chunk_in(p, push.unloads@, settings.column_heights@)
}

/// The map that is referred to.
pub open spec fn map_value(map: Option<&StreamedMap>) -> Option<StreamedMap> {
    match map {
        Some(map) => Some(*map),
        None => None,
    }
}

/// Sends a client the chunks that its player has come near, and has it unload the columns that its
/// player has left behind. Nothing is sent while the player's map is not there.
pub fn push_chunks_to_client(
    visibility: &mut ClientChunkVisibility,
    ticket: &ChunkTicket,
    map: Option<&StreamedMap>,
    settings: &StreamSettings,
    player: IVec2,
) -> (push: ChunkPush)
    requires
        settings.column_heights@.no_duplicates(),
    ensures
        pushes(push, *old(visibility), *final(visibility), *ticket, map_value(map), settings, player),
{
    let ghost streamed = map_value(map);
    visibility.track(ticket.map_entity);
    match map {
        Some(map) => {
            let current = compute_loaded_columns(
                ticket,
                map,
                settings.load_level_threshold,
                player,
            );
            let ghost sent = visibility.sent_chunks;
            let sends = send_unsent_chunks(
                &current,
                &settings.column_heights,
                &mut visibility.sent_chunks,
                &map.loaded_chunks,
                player,
            );
            let unloads = unload_stale_columns(
                &mut visibility.sent_chunks,
                &visibility.sent_columns,
                &current,
                &settings.column_heights,
            );
            visibility.sent_columns = current;
            let push = ChunkPush { sends, unloads };
            assert(streamed == Some(*map));
            assert(is_push(
                push,
                *ticket,
                &streamed->0,
                settings,
                player,
                sent,
                old(visibility).columns_on(ticket.map_entity),
                visibility.sent_columns@,
            ));
            push
        },
        None => ChunkPush { sends: Vec::new(), unloads: Vec::new() },
    }
}

/// A client, its player's ticket and column, and what it has been sent.
pub struct StreamingClient {
    pub client: Entity,
    pub ticket: ChunkTicket,
    pub player: IVec2,
    pub visibility: ClientChunkVisibility,
}

/// The map that a ticket is for, if it is there.
pub open spec fn ticket_map(ticket: ChunkTicket, maps: Map<u64, StreamedMap>) -> Option<StreamedMap> {
    if maps.dom().contains(ticket.map_entity.bits_spec()) {
        Some(maps[ticket.map_entity.bits_spec()])
    } else {
        None
    }
}

/// Whether `push` is what a client is due, and `after` the client once it has been sent.
pub open spec fn client_pushed(
    push: ChunkPush,
    before: StreamingClient,
    after: StreamingClient,
    maps: Map<u64, StreamedMap>,
    settings: &StreamSettings,
) -> bool {
    &&& after.client == before.client
    &&& after.ticket == before.ticket
    &&& after.player == before.player
    &&& pushes(
        push,
        before.visibility,
        after.visibility,
        before.ticket,
        ticket_map(before.ticket, maps),
        settings,
        before.player,
    )
}

/// Sends each client what it is due, in order.
pub fn push_chunks_to_clients(
    clients: &mut Vec<StreamingClient>,
    maps: &HashMap<u64, StreamedMap>,
    settings: &StreamSettings,
) -> (sent: Vec<ChunkPush>)
    requires
        settings.column_heights@.no_duplicates(),
    ensures
        final(clients)@.len() == old(clients)@.len(),
        sent@.len() == old(clients)@.len(),
        forall|i: int|
            0 <= i < sent@.len() ==> client_pushed(
                #[trigger] sent@[i],
                old(clients)@[i],
                final(clients)@[i],
                maps@,
                settings,
            ),
{
    let ghost before = clients@;
    let mut sent: Vec<ChunkPush> = Vec::new();
    let mut i: usize = 0;
    while i < clients.len()
        invariant
            i <= clients@.len(),
            before == old(clients)@,
            clients@.len() == before.len(),
            sent@.len() == i,
            settings.column_heights@.no_duplicates(),
            forall|k: int| i <= k < before.len() ==> #[trigger] clients@[k] == before[k],
            forall|k: int|
                0 <= k < i ==> client_pushed(
                    #[trigger] sent@[k],
                    before[k],
                    clients@[k],
                    maps@,
                    settings,
                ),
        decreases clients@.len() - i,
    {
        let ghost previous = clients@;
        let ghost earlier = sent@;
        assert(previous[i as int] == before[i as int]);
        let ticket: ChunkTicket = clients[i].ticket;
        let player: IVec2 = clients[i].player;
        let map = maps.get(&ticket.map_entity.to_bits());
        let push = push_chunks_to_client(&mut clients[i].visibility, &ticket, map, settings, player);
        assert(map_value(map) == ticket_map(ticket, maps@));
        assert(client_pushed(push, before[i as int], clients@[i as int], maps@, settings));
        sent.push(push);
        assert forall|k: int| 0 <= k < i + 1 implies client_pushed(
            #[trigger] sent@[k],
            before[k],
            clients@[k],
            maps@,
            settings,
        ) by {
            if k < i {
                assert(sent@[k] == earlier[k]);
                assert(clients@[k] == previous[k]);
            }
        }
        i = i + 1;
    }
    sent
}

/// Pushing chunks keeps the client's chunks within the columns that it believes to be loaded.
pub proof fn law_push_keeps_consistent(
    push: ChunkPush,
    before: ClientChunkVisibility,
    after: ClientChunkVisibility,
    ticket: ChunkTicket,
    map: Option<StreamedMap>,
    settings: &StreamSettings,
    player: IVec2,
)
    requires
        before.consistent(settings.column_heights@),
        pushes(push, before, after, ticket, map, settings, player),
    ensures
        after.consistent(settings.column_heights@),
{
    let heights = settings.column_heights@;
    let columns = before.columns_on(ticket.map_entity);
    let current = after.sent_columns@;
    let pred = |col: IVec2| !current.contains(col);
    if map is Some {
        let sent = choose|sent: ChunkSet|
            {
                &&& #[trigger] is_push(
                    push,
                    ticket,
                    &map->0,
                    settings,
                    player,
                    sent,
                    columns,
                    current,
                )
                &&& forall|p: IVec3| #[trigger]
                    sent.has(p) <==> before.counts_as_sent(ticket.map_entity, p)
            };
        assert forall|p: IVec3| #[trigger] after.sent_chunks.has(p) implies chunk_in(
            p,
            current,
            heights,
        ) by {
            if push.sends@.contains(p) {
                let i = choose|i: int| 0 <= i < push.sends@.len() && push.sends@[i] == p;
                assert(is_candidate(push.sends@[i], current, heights, sent, map->0.loaded_chunks));
            } else {
                assert(before.sent_chunks.has(p));
                assert(columns.contains(column_of(p)));
                if !current.contains(column_of(p)) {
                    let k = choose|k: int| 0 <= k < columns.len() && columns[k] == column_of(p);
                    columns.lemma_filter_contains(pred, k);
                    assert(push.unloads@.contains(column_of(p)));
                }
            }
        }
    }
}

/// A chunk that a client has is not sent to it again.
pub proof fn law_no_chunk_is_sent_twice(
    push: ChunkPush,
    before: ClientChunkVisibility,
    after: ClientChunkVisibility,
    ticket: ChunkTicket,
    map: Option<StreamedMap>,
    settings: &StreamSettings,
    player: IVec2,
    chunk: IVec3,
)
    requires
        pushes(push, before, after, ticket, map, settings, player),
        before.counts_as_sent(ticket.map_entity, chunk),
    ensures
        !push.sends@.contains(chunk),
{
    if push.sends@.contains(chunk) {
        let i = choose|i: int| 0 <= i < push.sends@.len() && push.sends@[i] == chunk;
        let sent = choose|sent: ChunkSet|
            {
                &&& #[trigger] is_push(
                    push,
                    ticket,
                    &map->0,
                    settings,
                    player,
                    sent,
                    before.columns_on(ticket.map_entity),
                    after.sent_columns@,
                )
                &&& forall|p: IVec3| #[trigger]
                    sent.has(p) <==> before.counts_as_sent(ticket.map_entity, p)
            };
        assert(is_candidate(
            push.sends@[i],
            after.sent_columns@,
            settings.column_heights@,
            sent,
            map->0.loaded_chunks,
        ));
    }
}

/// A client is told to unload only columns that it believes to be loaded, and none that its player
/// is still near.
pub proof fn law_unloads_are_stale(columns: Seq<IVec2>, current: Seq<IVec2>, col: IVec2)
    ensures
        stale_columns(columns, current).contains(col) <==> columns.contains(col)
            && !current.contains(col),
{
    let pred = |c: IVec2| !current.contains(c);
    let stale = stale_columns(columns, current);
    if stale.contains(col) {
        columns.lemma_filter_contains_rev(pred, col);
        let k = choose|k: int| 0 <= k < stale.len() && stale[k] == col;
        columns.lemma_filter_pred(pred, k);
    }
    if columns.contains(col) && pred(col) {
        let k = choose|k: int| 0 <= k < columns.len() && columns[k] == col;
        columns.lemma_filter_contains(pred, k);
    }
}

/// The distance between two columns is the greater of the two differences of their coordinates: it is
/// the same both ways, no difference exceeds it, it is one of the differences, and only a column
/// itself is at no distance.
pub proof fn law_column_distance(a: IVec2, b: IVec2)
    ensures
        column_distance(a, b) == column_distance(b, a),
        column_distance(a, b) == 0 <==> a == b,
        -column_distance(a, b) <= a.x - b.x <= column_distance(a, b),
        -column_distance(a, b) <= a.y - b.y <= column_distance(a, b),
        column_distance(a, b) == a.x - b.x || column_distance(a, b) == b.x - a.x || column_distance(
            a,
            b,
        ) == a.y - b.y || column_distance(a, b) == b.y - a.y,
{
}

/// Whether a column lies in the square that reaches `reach` columns from the player's in each
/// direction.
pub open spec fn in_square(col: IVec2, player: IVec2, reach: int) -> bool {
    &&& -reach <= col.x - player.x <= reach
    &&& -reach <= col.y - player.y <= reach
}

/// The columns that a player keeps loaded are those that have a level in the square around it: the
/// square reaches as far as the ticket does, and no further than the levels do.
pub proof fn law_loaded_columns_are_a_square(
    columns: Seq<IVec2>,
    ticket: ChunkTicket,
    map: &StreamedMap,
    threshold: u32,
    player: IVec2,
    col: IVec2,
)
    requires
        are_loaded_columns(columns, ticket, map, threshold, player),
    ensures
        columns.no_duplicates(),
        columns.contains(col) <==> map.leveled_columns@.contains(col) && in_square(
            col,
            player,
            ticket.radius as int,
        ) && in_square(col, player, threshold - ticket.base_level),
{
    law_column_distance(col, player);
    assert(columns.contains(col) <==> column_in_range(ticket, map, threshold, player, col));
}

/// What streaming asks of a chunk before it sends it, in terms of coordinates: its column has a level
/// and lies in the square around the player, its height is one of a column's, its data is there, and
/// the client, on this map, does not have it.
pub open spec fn is_wanted(
    chunk: IVec3,
    before: ClientChunkVisibility,
    ticket: ChunkTicket,
    map: StreamedMap,
    settings: &StreamSettings,
    player: IVec2,
) -> bool {
    let col = IVec2 { x: chunk.x, y: chunk.z };
    &&& map.leveled_columns@.contains(col)
    &&& in_square(col, player, ticket.radius as int)
    &&& in_square(col, player, settings.load_level_threshold - ticket.base_level)
    &&& settings.column_heights@.contains(chunk.y)
    &&& map.loaded_chunks.has(chunk)
    &&& !(before.tracked_map == Some(ticket.map_entity) && before.sent_chunks.has(chunk))
}

proof fn lemma_candidates_are_wanted(
    push: ChunkPush,
    before: ClientChunkVisibility,
    after: ClientChunkVisibility,
    ticket: ChunkTicket,
    map: StreamedMap,
    settings: &StreamSettings,
    player: IVec2,
) -> (sent: ChunkSet)
    requires
        pushes(push, before, after, ticket, Some(map), settings, player),
    ensures
        is_push(
            push,
            ticket,
            &map,
            settings,
            player,
            sent,
            before.columns_on(ticket.map_entity),
            after.sent_columns@,
        ),
        forall|p: IVec3| #[trigger]
            is_candidate(
                p,
                after.sent_columns@,
                settings.column_heights@,
                sent,
                map.loaded_chunks,
            ) <==> is_wanted(p, before, ticket, map, settings, player),
{
    let sent = choose|sent: ChunkSet|
        {
            &&& #[trigger] is_push(
                push,
                ticket,
                &map,
                settings,
                player,
                sent,
                before.columns_on(ticket.map_entity),
                after.sent_columns@,
            )
            &&& forall|p: IVec3| #[trigger]
                sent.has(p) <==> before.counts_as_sent(ticket.map_entity, p)
        };
    assert forall|p: IVec3| #[trigger]
        is_candidate(
            p,
            after.sent_columns@,
            settings.column_heights@,
            sent,
            map.loaded_chunks,
        ) <==> is_wanted(p, before, ticket, map, settings, player) by {
        law_loaded_columns_are_a_square(
            after.sent_columns@,
            ticket,
            &map,
            settings.load_level_threshold,
            player,
            column_of(p),
        );
        assert(sent.has(p) <==> before.counts_as_sent(ticket.map_entity, p));
    }
    sent
}

/// A client is sent chunks around its player and no others: each lies in the square around the player,
/// in a column that has a level, at a height of a column, is loaded, and is new to the client. At most
/// sixteen are sent, each once. Without the map nothing is sent.
pub proof fn law_sends_lie_around_the_player(
    push: ChunkPush,
    before: ClientChunkVisibility,
    after: ClientChunkVisibility,
    ticket: ChunkTicket,
    map: Option<StreamedMap>,
    settings: &StreamSettings,
    player: IVec2,
)
    requires
        pushes(push, before, after, ticket, map, settings, player),
    ensures
        push.sends@.len() <= 16,
        push.sends@.no_duplicates(),
        map is None ==> push.sends@.len() == 0 && push.unloads@.len() == 0,
        map matches Some(map) ==> forall|i: int|
            0 <= i < push.sends@.len() ==> is_wanted(
                #[trigger] push.sends@[i],
                before,
                ticket,
                map,
                settings,
                player,
            ),
{
    if let Some(map) = map {
        let sent = lemma_candidates_are_wanted(push, before, after, ticket, map, settings, player);
        assert forall|i: int| 0 <= i < push.sends@.len() implies is_wanted(
            #[trigger] push.sends@[i],
            before,
            ticket,
            map,
            settings,
            player,
        ) by {
            assert(is_candidate(
                push.sends@[i],
                after.sent_columns@,
                settings.column_heights@,
                sent,
                map.loaded_chunks,
            ));
        }
    }
}

/// No chunk around the player is forgotten: one that is wanted is sent, unless sixteen others are that
/// lie in every square around the player in which it lies.
pub proof fn law_wanted_chunks_are_sent(
    push: ChunkPush,
    before: ClientChunkVisibility,
    after: ClientChunkVisibility,
    ticket: ChunkTicket,
    map: StreamedMap,
    settings: &StreamSettings,
    player: IVec2,
    chunk: IVec3,
    reach: int,
)
    requires
        pushes(push, before, after, ticket, Some(map), settings, player),
        is_wanted(chunk, before, ticket, map, settings, player),
        in_square(IVec2 { x: chunk.x, y: chunk.z }, player, reach),
    ensures
        push.sends@.contains(chunk) || push.sends@.len() == 16 && forall|i: int|
            0 <= i < push.sends@.len() ==> in_square(
                (IVec2 { x: (#[trigger] push.sends@[i]).x, y: push.sends@[i].z }),
                player,
                reach,
            ),
{
    let sent = lemma_candidates_are_wanted(push, before, after, ticket, map, settings, player);
    assert(is_candidate(
        chunk,
        after.sent_columns@,
        settings.column_heights@,
        sent,
        map.loaded_chunks,
    ));
    law_column_distance(column_of(chunk), player);
    if !push.sends@.contains(chunk) {
        assert forall|i: int| 0 <= i < push.sends@.len() implies in_square(
            (IVec2 { x: (#[trigger] push.sends@[i]).x, y: push.sends@[i].z }),
            player,
            reach,
        ) by {
            assert(chunk_distance(push.sends@[i], player) <= chunk_distance(chunk, player));
            law_column_distance(column_of(push.sends@[i]), player);
        }
    }
}

/// Chunks are sent closest first: a chunk lies in every square around the player in which one lies
/// that is sent after it.
pub proof fn law_closest_chunks_come_first(
    push: ChunkPush,
    before: ClientChunkVisibility,
    after: ClientChunkVisibility,
    ticket: ChunkTicket,
    map: StreamedMap,
    settings: &StreamSettings,
    player: IVec2,
    i: int,
    j: int,
    reach: int,
)
    requires
        pushes(push, before, after, ticket, Some(map), settings, player),
        0 <= i < j < push.sends@.len(),
        in_square(IVec2 { x: push.sends@[j].x, y: push.sends@[j].z }, player, reach),
    ensures
        in_square(IVec2 { x: push.sends@[i].x, y: push.sends@[i].z }, player, reach),
{
    let sent = lemma_candidates_are_wanted(push, before, after, ticket, map, settings, player);
    assert(chunk_distance(push.sends@[i], player) <= chunk_distance(push.sends@[j], player));
    law_column_distance(column_of(push.sends@[i]), player);
    law_column_distance(column_of(push.sends@[j]), player);
}

/// A client is told to unload a column exactly if it has it, on this map, and the column has no level
/// any more or lies outside the square around the player; and the columns that it then has are those
/// around the player.
pub proof fn law_left_columns_are_unloaded(
    push: ChunkPush,
    before: ClientChunkVisibility,
    after: ClientChunkVisibility,
    ticket: ChunkTicket,
    map: StreamedMap,
    settings: &StreamSettings,
    player: IVec2,
    col: IVec2,
)
    requires
        pushes(push, before, after, ticket, Some(map), settings, player),
    ensures
        ({
            let near = map.leveled_columns@.contains(col) && in_square(
                col,
                player,
                ticket.radius as int,
            ) && in_square(col, player, settings.load_level_threshold - ticket.base_level);
            &&& after.sent_columns@.contains(col) <==> near
            &&& push.unloads@.contains(col) <==> before.tracked_map == Some(ticket.map_entity)
                && before.sent_columns@.contains(col) && !near
        }),
        after.tracked_map == Some(ticket.map_entity),
{
    let sent = lemma_candidates_are_wanted(push, before, after, ticket, map, settings, player);
    law_loaded_columns_are_a_square(
        after.sent_columns@,
        ticket,
        &map,
        settings.load_level_threshold,
        player,
        col,
    );
    law_unloads_are_stale(before.columns_on(ticket.map_entity), after.sent_columns@, col);
}

/// What a client has is what it had on this map and what it is sent, less the chunks of the columns
/// that it is told to unload.
pub proof fn law_chunks_are_kept_account_of(
    push: ChunkPush,
    before: ClientChunkVisibility,
    after: ClientChunkVisibility,
    ticket: ChunkTicket,
    map: Option<StreamedMap>,
    settings: &StreamSettings,
    player: IVec2,
    chunk: IVec3,
)
    requires
        pushes(push, before, after, ticket, map, settings, player),
    ensures
        after.sent_chunks.has(chunk) <==> (push.sends@.contains(chunk) || before.tracked_map
            == Some(ticket.map_entity) && before.sent_chunks.has(chunk)) && !(
        push.unloads@.contains(IVec2 { x: chunk.x, y: chunk.z })
            && settings.column_heights@.contains(chunk.y)),
{
}

/// Each client is sent chunks of the map that its own ticket is for, around its own player, and
/// nothing else of it changes.
pub proof fn law_clients_are_served_apart(
    push: ChunkPush,
    before: StreamingClient,
    after: StreamingClient,
    maps: Map<u64, StreamedMap>,
    settings: &StreamSettings,
)
    requires
        client_pushed(push, before, after, maps, settings),
    ensures
        after.client == before.client,
        after.ticket == before.ticket,
        after.player == before.player,
        maps.dom().contains(before.ticket.map_entity.bits_spec()) ==> pushes(
            push,
            before.visibility,
            after.visibility,
            before.ticket,
            Some(maps[before.ticket.map_entity.bits_spec()]),
            settings,
            before.player,
        ),
        !maps.dom().contains(before.ticket.map_entity.bits_spec()) ==> push.sends@.len() == 0
            && push.unloads@.len() == 0,
{
}

} // verus!
