use lightyear_arena::entity::Entity;
use lightyear_arena::geometry::{ChunkSet, IVec2, IVec3};
use lightyear_arena::map::broadcasts::{flush_voxel_broadcasts, BroadcastMessage, RoomClients};
use lightyear_arena::map::chunk_entities::{
    evict_chunk_entities, group_by_chunk, save_all_chunk_entities_on_exit, spawn_chunk_entities,
    ChunkEntityRow, LeveledColumns, PendingChunk, WorldObjectSpawn,
};
use lightyear_arena::map::client::{
    apply_push, attach_chunk_ticket_to_player, check_transition_chunks_loaded,
    handle_map_transition_end, handle_map_transition_start, spawn_map_instance,
    spawn_overworld as client_overworld, ClientMap, ClientMaps, ClientTransitionStep, ColumnLevel,
    NewTicket, TicketRow,
};
use lightyear_arena::map::edits::{
    handle_voxel_edit_requests, reject_edit, resolve_player_map, validate_voxel_edit,
    ControlledCharacter, EditMessage, EditResponse, PendingVoxelBroadcasts, PendingVoxelEdit,
    WorldDirtyState, MAX_DIRTY_NANOS, SAVE_DEBOUNCE_NANOS,
};
use lightyear_arena::map::persistence::{
    collect_saved_entities, load_map_entities, map_dir_name, spawn_overworld as server_overworld,
    spawn_points_on, RespawnRow, SaveRow, SavedStart, ServerMapConfig,
};
use lightyear_arena::map::prediction::{
    handle_voxel_input, RayHit, VoxelEdit, VoxelPrediction, VoxelPredictionState,
};
use lightyear_arena::map::rooms::{on_map_instance_id_added, RoomEvent, RoomTarget};
use lightyear_arena::map::saving::{
    enqueue_dirty_chunks, save_dirty_chunks_debounced, save_dirty_chunks_sync,
    save_world_on_shutdown, SaveOutcome, SavedMap,
};
use lightyear_arena::map::streaming::{
    compute_loaded_columns, push_chunks_to_client, push_chunks_to_clients, ChunkTicket,
    ClientChunkVisibility, StreamSettings, StreamedMap, StreamingClient, TicketKind,
    MAX_CHUNK_SENDS_PER_TICK,
};
use lightyear_arena::map::terrain::{
    apply_terrain_defs, build_terrain_generators, NewGenerator, TerrainApplication, TerrainRow,
};
use lightyear_arena::map::transition::{
    handle_map_switch_request, handle_map_switch_requests, handle_map_transition_ready,
    homebase_bounds, load_homebase_seed, resolve_switch_target, FreshHomebase, MapTransitionParams,
    PlayerSwitch, ServerTransition, SwitchDecision, SwitchRequest, SwitchingPlayer,
    TransitionStep, TransitioningPlayer,
};
use lightyear_arena::map::types::{
    terrain_def_name, ChunkDataSync, ChunkEntityRef, InstanceTable, MapInstanceId, MapRegistry,
    MapSwitchTarget, MapTransitionStart, PendingTransition, RoomRegistry, SavedEntityKind,
    UnloadColumn, VoxelEditAck, VoxelEditBroadcast, VoxelEditReject, VoxelEditRequest, VoxelType,
};
use lightyear_arena::names::NameMap;
use lightyear_arena::scalar::{Scalar, Vector};
use lightyear_arena::ui::{ClientState, MapTransitionState, UiState};
use std::collections::HashMap;

fn entity(bits: u64) -> Entity {
    Entity::try_from_bits(bits).expect("bits of an entity")
}

fn vector(x: f32, y: f32, z: f32) -> Vector {
    Vector { x: Scalar(x.to_bits()), y: Scalar(y.to_bits()), z: Scalar(z.to_bits()) }
}

fn homebase(owner: u64) -> MapInstanceId {
    MapInstanceId::Homebase { owner }
}

fn registry_with_overworld(map: Entity) -> MapRegistry {
    let mut registry = MapRegistry(InstanceTable::new());
    registry.insert(MapInstanceId::Overworld, map);
    registry
}

fn no_rooms() -> RoomRegistry {
    RoomRegistry(InstanceTable::new())
}

// Map instances.

#[test]
fn map_instance_id_equality() {
    assert_eq!(MapInstanceId::Overworld, MapInstanceId::Overworld);
    assert_ne!(MapInstanceId::Overworld, MapInstanceId::Homebase { owner: 0 });
}

#[test]
fn map_registry_insert_and_get() {
    let mut registry = MapRegistry(InstanceTable::new());
    let map = entity(42);
    registry.insert(MapInstanceId::Overworld, map);
    assert_eq!(registry.get(&MapInstanceId::Overworld), map);
    assert_eq!(registry.lookup(&homebase(1)), None);
    registry.insert(MapInstanceId::Overworld, entity(43));
    assert_eq!(registry.get(&MapInstanceId::Overworld), entity(43));
}

#[test]
fn terrain_definitions_are_named_after_maps() {
    assert_eq!(terrain_def_name(&MapInstanceId::Overworld), "overworld");
    assert_eq!(terrain_def_name(&homebase(3)), "homebase");
}

// Predictions.

fn prediction(sequence: u32, position: IVec3) -> VoxelPrediction {
    VoxelPrediction {
        sequence,
        position,
        old_voxel: VoxelType::Air,
        new_voxel: VoxelType::Solid(1),
    }
}

fn five_predictions() -> VoxelPredictionState {
    let mut state = VoxelPredictionState::default();
    for i in 0..5u32 {
        state.pending.push(prediction(i, IVec3::new(i as i32, 0, 0)));
    }
    state.next_sequence = 5;
    state
}

#[test]
fn prediction_state_sequence_increments() {
    let mut state = VoxelPredictionState::default();
    assert_eq!(state.next(), 0);
    assert_eq!(state.next(), 1);
    assert_eq!(state.next(), 2);
}

#[test]
fn ack_clears_predictions_up_to_sequence() {
    let mut state = five_predictions();
    state.handle_voxel_edit_ack(&VoxelEditAck { sequence: 2 });
    assert_eq!(state.pending.len(), 2);
    assert_eq!(state.pending[0].sequence, 3);
}

#[test]
fn broadcast_skipped_for_pending_prediction_position() {
    let mut state = VoxelPredictionState::default();
    state.pending.push(VoxelPrediction {
        sequence: 0,
        position: IVec3::new(5, 10, 15),
        old_voxel: VoxelType::Solid(1),
        new_voxel: VoxelType::Air,
    });
    assert!(state.is_pending(IVec3::new(5, 10, 15)));
    assert!(!state.is_pending(IVec3::new(1, 2, 3)));
    let told = vec![
        VoxelEditBroadcast { position: IVec3::new(5, 10, 15), voxel: VoxelType::Solid(4) },
        VoxelEditBroadcast { position: IVec3::new(1, 2, 3), voxel: VoxelType::Solid(4) },
    ];
    let kept = VoxelEdit { position: IVec3::new(1, 2, 3), voxel: VoxelType::Solid(4) };
    assert_eq!(state.handle_voxel_broadcasts(&told), vec![kept]);
    let changes = vec![
        (IVec3::new(5, 10, 15), VoxelType::Solid(4)),
        (IVec3::new(1, 2, 3), VoxelType::Solid(4)),
    ];
    assert_eq!(state.handle_section_blocks_update(&changes), vec![kept]);
}

#[test]
fn reject_removes_specific_prediction() {
    let mut state = five_predictions();
    let restored = state.handle_voxel_edit_reject(&VoxelEditReject {
        sequence: 2,
        position: IVec3::new(2, 0, 0),
        correct_voxel: VoxelType::Solid(9),
    });
    assert_eq!(restored, VoxelEdit { position: IVec3::new(2, 0, 0), voxel: VoxelType::Solid(9) });
    assert_eq!(state.pending.len(), 4);
    assert!(state.pending.iter().all(|p| p.sequence != 2));
    for kept in [0, 1, 3, 4] {
        assert!(state.pending.iter().any(|p| p.sequence == kept));
    }
}

#[test]
fn inputs_become_edits() {
    let hit = RayHit { position: IVec3::new(3, 4, 5), normal: Some(IVec3::new(0, 1, 0)) };
    assert_eq!(
        handle_voxel_input(true, true, &hit),
        Some(VoxelEdit { position: IVec3::new(3, 4, 5), voxel: VoxelType::Air })
    );
    assert_eq!(
        handle_voxel_input(false, true, &hit),
        Some(VoxelEdit { position: IVec3::new(3, 5, 5), voxel: VoxelType::Solid(0) })
    );
    assert_eq!(handle_voxel_input(false, false, &hit), None);
    let inside = RayHit { position: IVec3::new(3, 4, 5), normal: None };
    assert_eq!(handle_voxel_input(false, true, &inside), None);
}

#[test]
fn predicting_remembers_the_edit() {
    let mut state = VoxelPredictionState::default();
    let edit = VoxelEdit { position: IVec3::new(1, 1, 1), voxel: VoxelType::Air };
    let request = state.predict(&edit, VoxelType::Solid(7));
    assert_eq!(request.sequence, 0);
    assert_eq!(request.position, edit.position);
    assert_eq!(request.voxel, VoxelType::Air);
    assert_eq!(state.pending[0].old_voxel, VoxelType::Solid(7));
    assert_eq!(state.next(), 1);
}

// Edits and broadcasts.

fn make_edit(position: IVec3, voxel: VoxelType) -> PendingVoxelEdit {
    PendingVoxelEdit {
        position,
        voxel,
        originator: entity(99),
        map_id: MapInstanceId::Overworld,
    }
}

fn overworld_audience() -> (RoomRegistry, RoomClients) {
    let mut rooms = no_rooms();
    rooms.get_or_create(&MapInstanceId::Overworld, entity(50));
    let mut clients = HashMap::new();
    clients.insert(50, vec![entity(98), entity(99)]);
    (rooms, RoomClients { clients })
}

#[test]
fn single_change_takes_individual_broadcast_path() {
    let mut pending = PendingVoxelBroadcasts::new();
    let origin = IVec3::new(0, 0, 0);
    pending.push(origin, make_edit(IVec3::new(1, 2, 3), VoxelType::Solid(1)));
    assert_eq!(pending.per_chunk[0].edits.len(), 1);
    let (rooms, clients) = overworld_audience();
    let sent = flush_voxel_broadcasts(&mut pending, &rooms, &clients);
    assert_eq!(sent.len(), 1);
    assert_eq!(sent[0].targets, vec![entity(98)]);
    match &sent[0].message {
        BroadcastMessage::Edit(edit) => assert_eq!(
            *edit,
            VoxelEditBroadcast { position: IVec3::new(1, 2, 3), voxel: VoxelType::Solid(1) }
        ),
        other => panic!("single edit should take individual broadcast path, got {other:?}"),
    }
}

#[test]
fn multiple_changes_in_same_chunk_takes_batched_path() {
    let mut pending = PendingVoxelBroadcasts::new();
    let origin = IVec3::new(0, 0, 0);
    pending.push(origin, make_edit(IVec3::new(1, 2, 3), VoxelType::Solid(1)));
    pending.push(origin, make_edit(IVec3::new(4, 5, 6), VoxelType::Air));
    assert_eq!(pending.per_chunk[0].edits.len(), 2);
    let (rooms, clients) = overworld_audience();
    let sent = flush_voxel_broadcasts(&mut pending, &rooms, &clients);
    assert_eq!(sent.len(), 1);
    match &sent[0].message {
        BroadcastMessage::Section(update) => {
            assert_eq!(update.chunk_pos, origin);
            assert_eq!(
                update.changes,
                vec![
                    (IVec3::new(1, 2, 3), VoxelType::Solid(1)),
                    (IVec3::new(4, 5, 6), VoxelType::Air),
                ]
            );
        },
        other => panic!("multi-edit should take batched update path, got {other:?}"),
    }
}

#[test]
fn different_chunks_produce_separate_entries() {
    let mut pending = PendingVoxelBroadcasts::new();
    pending.push(IVec3::new(0, 0, 0), make_edit(IVec3::new(1, 2, 3), VoxelType::Solid(1)));
    pending.push(IVec3::new(1, 1, 1), make_edit(IVec3::new(17, 18, 19), VoxelType::Solid(2)));
    assert_eq!(pending.per_chunk.len(), 2);
    for chunk in &pending.per_chunk {
        assert_eq!(chunk.edits.len(), 1);
    }
}

#[test]
fn pending_cleared_after_drain() {
    let mut pending = PendingVoxelBroadcasts::new();
    pending.push(IVec3::new(0, 0, 0), make_edit(IVec3::new(1, 2, 3), VoxelType::Solid(1)));
    let (rooms, clients) = overworld_audience();
    flush_voxel_broadcasts(&mut pending, &rooms, &clients);
    assert!(pending.per_chunk.is_empty());
    assert!(flush_voxel_broadcasts(&mut pending, &rooms, &clients).is_empty());
}

#[test]
fn edits_are_told_on_their_own_map() {
    let home = homebase(7);
    let mut rooms = no_rooms();
    rooms.get_or_create(&MapInstanceId::Overworld, entity(50));
    rooms.get_or_create(&home, entity(51));
    let mut clients = HashMap::new();
    clients.insert(50, vec![entity(90), entity(91)]);
    clients.insert(51, vec![entity(80), entity(81)]);
    let clients = RoomClients { clients };
    let origin = IVec3::new(0, 0, 0);
    let outside = PendingVoxelEdit {
        position: IVec3::new(1, 1, 1),
        voxel: VoxelType::Solid(1),
        originator: entity(90),
        map_id: MapInstanceId::Overworld,
    };
    let inside = PendingVoxelEdit {
        position: IVec3::new(2, 2, 2),
        voxel: VoxelType::Solid(2),
        originator: entity(80),
        map_id: home,
    };
    let mut pending = PendingVoxelBroadcasts::new();
    pending.push(origin, outside);
    pending.push(origin, inside);
    assert_eq!(pending.per_chunk.len(), 2);
    let sent = flush_voxel_broadcasts(&mut pending, &rooms, &clients);
    assert_eq!(sent.len(), 2);
    for (edit, targets) in [(outside, vec![entity(91)]), (inside, vec![entity(81)])] {
        let told: Vec<&Vec<Entity>> = sent
            .iter()
            .filter(|broadcast| match &broadcast.message {
                BroadcastMessage::Edit(message) => message.position == edit.position,
                BroadcastMessage::Section(_) => false,
            })
            .map(|broadcast| &broadcast.targets)
            .collect();
        assert_eq!(told, vec![&targets]);
    }
}

#[test]
fn edits_without_a_room_are_told_to_nobody() {
    let mut pending = PendingVoxelBroadcasts::new();
    pending.push(IVec3::new(0, 0, 0), make_edit(IVec3::new(1, 2, 3), VoxelType::Solid(1)));
    let clients = RoomClients { clients: HashMap::new() };
    assert!(flush_voxel_broadcasts(&mut pending, &no_rooms(), &clients).is_empty());
    assert!(pending.per_chunk.is_empty());
}

#[test]
fn test_voxel_edit_ack_received() {
    let registry = registry_with_overworld(entity(7));
    let characters =
        vec![ControlledCharacter { owner: entity(3), map_id: MapInstanceId::Overworld }];
    let request =
        VoxelEditRequest { position: IVec3::new(5, 5, 5), voxel: VoxelType::Air, sequence: 0 };
    let messages =
        vec![EditMessage { client: entity(3), request, chunk_pos: IVec3::new(0, 0, 0) }];
    let mut dirty = WorldDirtyState::default();
    let mut pending = PendingVoxelBroadcasts::new();
    let responses = handle_voxel_edit_requests(
        &messages,
        &characters,
        &registry,
        &mut dirty,
        &mut pending,
        1_000,
    );
    assert_eq!(responses.len(), 1);
    assert_eq!(
        responses[0],
        EditResponse::Apply {
            client: entity(3),
            map_entity: entity(7),
            position: IVec3::new(5, 5, 5),
            voxel: VoxelType::Air,
            ack: VoxelEditAck { sequence: 0 },
        }
    );
    assert!(dirty.is_dirty);
    assert_eq!(dirty.last_edit_time, 1_000);
    assert_eq!(pending.per_chunk.len(), 1);
    assert_eq!(pending.per_chunk[0].edits[0].originator, entity(3));
}

#[test]
fn strangers_edit_nothing() {
    let registry = registry_with_overworld(entity(7));
    let characters =
        vec![ControlledCharacter { owner: entity(3), map_id: MapInstanceId::Overworld }];
    assert_eq!(
        resolve_player_map(entity(3), &characters, &registry),
        Some((entity(7), MapInstanceId::Overworld))
    );
    assert_eq!(resolve_player_map(entity(4), &characters, &registry), None);
    let request =
        VoxelEditRequest { position: IVec3::new(5, 5, 5), voxel: VoxelType::Air, sequence: 6 };
    let messages =
        vec![EditMessage { client: entity(4), request, chunk_pos: IVec3::new(0, 0, 0) }];
    let mut dirty = WorldDirtyState::default();
    let mut pending = PendingVoxelBroadcasts::new();
    let responses = handle_voxel_edit_requests(
        &messages,
        &characters,
        &registry,
        &mut dirty,
        &mut pending,
        1_000,
    );
    assert!(responses.is_empty());
    assert!(!dirty.is_dirty);
    assert!(pending.per_chunk.is_empty());
    assert!(validate_voxel_edit(&request));
    let reject = reject_edit(&request, VoxelType::Solid(3));
    assert_eq!(reject.sequence, 6);
    assert_eq!(reject.correct_voxel, VoxelType::Solid(3));
}

#[test]
fn saving_waits_for_quiet_but_not_forever() {
    let second = 1_000_000_000u64;
    assert_eq!((SAVE_DEBOUNCE_NANOS, MAX_DIRTY_NANOS), (second, 5 * second));
    let mut state = WorldDirtyState::default();
    assert!(!state.should_save(100 * second));
    state.mark_edited(10 * second);
    assert!(!state.should_save(10 * second + second - 1));
    assert!(state.should_save(11 * second));
    for step in 0..10u64 {
        state.mark_edited(10 * second + step * second / 2);
    }
    assert_eq!(state.first_dirty_time, Some(10 * second));
    assert!(!state.should_save(15 * second - 1));
    assert!(state.should_save(15 * second));
    state.mark_saved();
    assert!(!state.is_dirty);
    assert!(!state.should_save(100 * second));
}

// Streaming.

fn settings() -> StreamSettings {
    StreamSettings { load_level_threshold: 20, column_heights: vec![-1, 0, 1] }
}

fn origin_map() -> StreamedMap {
    let mut loaded_chunks = ChunkSet::new();
    loaded_chunks.insert(IVec3::new(0, 0, 0));
    StreamedMap { leveled_columns: vec![IVec2::new(0, 0)], loaded_chunks }
}

fn player_ticket() -> ChunkTicket {
    ChunkTicket { map_entity: entity(7), base_level: 0, radius: 10 }
}

#[test]
fn test_server_pushes_chunks_without_request() {
    let mut visibility = ClientChunkVisibility::default();
    let push = push_chunks_to_client(
        &mut visibility,
        &player_ticket(),
        Some(&origin_map()),
        &settings(),
        IVec2::new(0, 0),
    );
    assert_eq!(push.sends, vec![IVec3::new(0, 0, 0)]);
    assert!(push.unloads.is_empty());
    assert!(visibility.sent_chunks.contains(IVec3::new(0, 0, 0)));
    let again = push_chunks_to_client(
        &mut visibility,
        &player_ticket(),
        Some(&origin_map()),
        &settings(),
        IVec2::new(0, 0),
    );
    assert!(again.sends.is_empty());
}

#[test]
fn test_server_sends_unload_column_when_out_of_range() {
    let mut visibility = ClientChunkVisibility::default();
    push_chunks_to_client(
        &mut visibility,
        &player_ticket(),
        Some(&origin_map()),
        &settings(),
        IVec2::new(0, 0),
    );
    let push = push_chunks_to_client(
        &mut visibility,
        &player_ticket(),
        Some(&origin_map()),
        &settings(),
        IVec2::new(625, 625),
    );
    assert!(push.sends.is_empty());
    assert_eq!(push.unloads, vec![IVec2::new(0, 0)]);
    assert!(!visibility.sent_chunks.contains(IVec3::new(0, 0, 0)));
}

#[test]
fn changing_maps_starts_over() {
    let mut clients = vec![StreamingClient {
        client: entity(3),
        ticket: player_ticket(),
        player: IVec2::new(0, 0),
        visibility: ClientChunkVisibility::default(),
    }];
    let mut maps = HashMap::new();
    maps.insert(7u64, origin_map());
    maps.insert(8u64, origin_map());
    let sent = push_chunks_to_clients(&mut clients, &maps, &settings());
    assert_eq!(sent.len(), 1);
    assert_eq!(sent[0].sends.len(), 1);
    clients[0].ticket.map_entity = entity(8);
    let sent = push_chunks_to_clients(&mut clients, &maps, &settings());
    assert_eq!(sent[0].sends, vec![IVec3::new(0, 0, 0)]);
    assert!(sent[0].unloads.is_empty());
    assert_eq!(clients[0].visibility.tracked_map, Some(entity(8)));
    clients[0].ticket.map_entity = entity(9);
    let sent = push_chunks_to_clients(&mut clients, &maps, &settings());
    assert!(sent[0].sends.is_empty());
}

#[test]
fn few_chunks_are_sent_at_once_nearest_first() {
    let mut loaded_chunks = ChunkSet::new();
    let mut leveled_columns = Vec::new();
    for x in -5..=5 {
        for z in -5..=5 {
            leveled_columns.push(IVec2::new(x, z));
            loaded_chunks.insert(IVec3::new(x, 0, z));
        }
    }
    let map = StreamedMap { leveled_columns, loaded_chunks };
    let mut visibility = ClientChunkVisibility::default();
    let push = push_chunks_to_client(
        &mut visibility,
        &player_ticket(),
        Some(&map),
        &settings(),
        IVec2::new(0, 0),
    );
    assert_eq!(push.sends.len(), MAX_CHUNK_SENDS_PER_TICK);
    assert_eq!(push.sends[0], IVec3::new(0, 0, 0));
    let mut total = push.sends.len();
    loop {
        let push = push_chunks_to_client(
            &mut visibility,
            &player_ticket(),
            Some(&map),
            &settings(),
            IVec2::new(0, 0),
        );
        if push.sends.is_empty() {
            break;
        }
        total += push.sends.len();
    }
    assert_eq!(total, 121);
}

#[test]
fn columns_beyond_the_radius_are_not_loaded() {
    let map = StreamedMap {
        leveled_columns: vec![IVec2::new(0, 0), IVec2::new(2, 2), IVec2::new(3, 0)],
        loaded_chunks: ChunkSet::new(),
    };
    let ticket = ChunkTicket { map_entity: entity(7), base_level: 0, radius: 2 };
    let columns = compute_loaded_columns(&ticket, &map, 20, IVec2::new(0, 0));
    assert_eq!(columns.len(), 2);
    assert!(columns.contains(&IVec2::new(0, 0)));
    assert!(columns.contains(&IVec2::new(2, 2)));
}

// The client's maps.

const CHUNK_VOXELS: usize = 4096;

fn filled(voxel: VoxelType) -> Vec<VoxelType> {
    vec![voxel; CHUNK_VOXELS]
}

fn level(map: &ClientMap, column: IVec2) -> Option<u32> {
    map.levels.iter().find(|entry| entry.column == column).map(|entry| entry.level)
}

#[test]
fn chunk_data_stored_after_sync() {
    let mut map = ClientMap::default();
    let chunk_pos = IVec3::new(0, 0, 0);
    map.handle_chunk_data_sync(chunk_pos, filled(VoxelType::Solid(42)));
    assert!(
        map.chunks.get(chunk_pos).is_some(),
        "Chunk data must be stored after sync"
    );
    assert_eq!(
        map.chunks.get(chunk_pos),
        Some(&filled(VoxelType::Solid(42))),
        "Stored voxel data must match what was synced"
    );
    assert!(
        level(&map, IVec2::new(0, 0)).is_some(),
        "The synced column must have a level"
    );
    assert!(map.needing_remesh.contains(chunk_pos));
}

#[test]
fn chunk_levels_not_overwritten_by_second_sync_in_same_column() {
    let mut map = ClientMap::default();
    let pos_a = IVec3::new(0, 0, 0);
    let pos_b = IVec3::new(0, 1, 0);
    map.handle_chunk_data_sync(pos_a, filled(VoxelType::Solid(1)));
    map.handle_chunk_data_sync(pos_b, filled(VoxelType::Solid(2)));
    assert_eq!(
        map.chunks.get(pos_a),
        Some(&filled(VoxelType::Solid(1))),
        "First chunk in column must still exist"
    );
    assert_eq!(
        map.chunks.get(pos_b),
        Some(&filled(VoxelType::Solid(2))),
        "Second chunk in column must exist"
    );
    assert_eq!(level(&map, IVec2::new(0, 0)), Some(0), "The column must have its level");
    assert_eq!(map.levels.len(), 1);
}

#[test]
fn columns_keep_their_levels() {
    let mut map = ClientMap::default();
    map.levels.push(ColumnLevel { column: IVec2::new(4, 5), level: 7 });
    map.handle_chunk_data_sync(IVec3::new(4, -1, 5), filled(VoxelType::Solid(1)));
    map.handle_chunk_data_sync(IVec3::new(5, 0, 4), filled(VoxelType::Solid(2)));
    assert_eq!(level(&map, IVec2::new(4, 5)), Some(7));
    assert_eq!(level(&map, IVec2::new(5, 4)), Some(0));
    map.handle_chunk_data_sync(IVec3::new(4, -1, 5), filled(VoxelType::Air));
    assert_eq!(map.chunks.get(IVec3::new(4, -1, 5)), Some(&filled(VoxelType::Air)));
}

#[test]
fn unload_column_removes_data_and_levels() {
    let mut map = ClientMap::default();
    map.handle_chunk_data_sync(IVec3::new(0, 0, 0), filled(VoxelType::Solid(1)));
    map.handle_chunk_data_sync(IVec3::new(0, -1, 0), filled(VoxelType::Solid(2)));
    map.handle_chunk_data_sync(IVec3::new(1, 0, 0), filled(VoxelType::Solid(3)));
    map.handle_unload_column(IVec2::new(0, 0), &vec![-1, 0, 1]);
    assert!(map.chunks.get(IVec3::new(0, 0, 0)).is_none());
    assert!(map.chunks.get(IVec3::new(0, -1, 0)).is_none());
    assert_eq!(level(&map, IVec2::new(0, 0)), None);
    assert_eq!(map.chunks.get(IVec3::new(1, 0, 0)), Some(&filled(VoxelType::Solid(3))));
    assert_eq!(level(&map, IVec2::new(1, 0)), Some(0));
}

#[test]
fn client_propagator_does_not_remove_server_pushed_data() {
    let config = spawn_map_instance(&MapInstanceId::Overworld, 0, None);
    assert!(!config.generates_chunks);
    let mut map = ClientMap::default();
    let far_pos = IVec3::new(100, 0, 100);
    map.handle_chunk_data_sync(far_pos, filled(VoxelType::Solid(1)));
    for x in 0..10 {
        map.handle_chunk_data_sync(IVec3::new(x, 0, 0), filled(VoxelType::Air));
    }
    assert_eq!(map.chunks.get(far_pos), Some(&filled(VoxelType::Solid(1))));
    assert!(level(&map, IVec2::new(100, 100)).is_some());
}

#[test]
fn chunks_go_to_the_map_they_are_of() {
    let registry = registry_with_overworld(entity(7));
    let mut maps = ClientMaps::default();
    maps.maps.insert(7, ClientMap::default());
    maps.maps.insert(8, ClientMap::default());
    let chunk_pos = IVec3::new(1, 2, 3);
    let of_map = |map_id| ChunkDataSync { map_id, chunk_pos, data: filled(VoxelType::Solid(5)) };
    maps.handle_chunk_data_sync(&registry, of_map(homebase(1)));
    assert!(maps.maps.values().all(|map| map.levels.is_empty()));
    assert!(maps.maps.values().all(|map| !map.chunks.contains(chunk_pos)));
    maps.handle_chunk_data_sync(&registry, of_map(MapInstanceId::Overworld));
    assert_eq!(maps.maps[&7].chunks.get(chunk_pos), Some(&filled(VoxelType::Solid(5))));
    assert_eq!(level(&maps.maps[&7], IVec2::new(1, 3)), Some(0));
    assert!(!maps.maps[&8].chunks.contains(chunk_pos));

    let heights = settings().column_heights;
    let column = IVec2::new(1, 3);
    let unload = UnloadColumn { map_id: homebase(1), column };
    maps.handle_unload_column(&registry, &unload, &vec![2]);
    assert!(maps.maps[&7].chunks.contains(chunk_pos));
    let unload = UnloadColumn { map_id: MapInstanceId::Overworld, column };
    maps.handle_unload_column(&registry, &unload, &heights);
    assert!(maps.maps[&7].chunks.contains(chunk_pos));
    assert_eq!(level(&maps.maps[&7], column), None);
    maps.handle_unload_column(&registry, &unload, &vec![2]);
    assert!(!maps.maps[&7].chunks.contains(chunk_pos));
}

#[test]
fn client_follows_the_server() {
    let mut visibility = ClientChunkVisibility::default();
    let mut client = ClientMap::default();
    for player in [IVec2::new(0, 0), IVec2::new(625, 625), IVec2::new(0, 0)] {
        let push = push_chunks_to_client(
            &mut visibility,
            &player_ticket(),
            Some(&origin_map()),
            &settings(),
            player,
        );
        let voxels = vec![filled(VoxelType::Solid(6)); push.sends.len()];
        apply_push(&mut client, &push, &voxels, &settings().column_heights);
        assert_eq!(
            client.chunks.contains(IVec3::new(0, 0, 0)),
            visibility.sent_chunks.contains(IVec3::new(0, 0, 0))
        );
    }
    assert_eq!(client.chunks.get(IVec3::new(0, 0, 0)), Some(&filled(VoxelType::Solid(6))));
}

// Transitions.

fn character(client: Entity, transitioning: bool) -> SwitchingPlayer {
    SwitchingPlayer {
        entity: entity(11),
        owner: client,
        map_id: MapInstanceId::Overworld,
        transitioning,
    }
}

fn to_homebase(client: Entity) -> SwitchRequest {
    SwitchRequest { client, client_id_bits: 42, target: MapSwitchTarget::Homebase }
}

fn transition(switch: &PlayerSwitch) -> ServerTransition {
    ServerTransition {
        player: switch.player,
        client: switch.client,
        current: switch.current,
        target: switch.target,
        fresh_old_room: entity(60),
        fresh_new_room: entity(61),
        existing: None,
        fresh: Some(FreshHomebase {
            entity: entity(62),
            saved_seed: None,
            derived_seed: 4242,
            generation_version: 0,
        }),
    }
}

#[test]
fn map_switch_request_triggers_transition_start() {
    let client = entity(3);
    let switches =
        handle_map_switch_requests(&vec![to_homebase(client)], &vec![character(client, false)]);
    assert_eq!(switches.len(), 1);
    let mut registry = registry_with_overworld(entity(7));
    let mut rooms = no_rooms();
    let steps =
        transition(&switches[0]).execute_server_transition(&mut registry, &mut rooms);
    assert!(steps.contains(&TransitionStep::Freeze {
        player: entity(11),
        pending: PendingTransition(homebase(42)),
    }));
    let starts: Vec<&MapTransitionStart> = steps
        .iter()
        .filter_map(|step| match step {
            TransitionStep::SendStart { client: told, start } if *told == client => Some(start),
            _ => None,
        })
        .collect();
    assert_eq!(starts.len(), 1);
    assert!(matches!(starts[0].target, MapInstanceId::Homebase { .. }));
    assert_eq!(starts[0].spawn_position, vector(0.0, 5.0, 0.0));
    assert!(steps.contains(&TransitionStep::Place {
        player: entity(11),
        position: vector(0.0, 5.0, 0.0),
    }));
    assert_eq!(registry.get(&homebase(42)), entity(62));
    assert_eq!(rooms.lookup(&MapInstanceId::Overworld), Some(entity(60)));
    assert_eq!(rooms.lookup(&homebase(42)), Some(entity(61)));
}

#[test]
fn duplicate_switch_request_ignored() {
    let client = entity(3);
    let switches =
        handle_map_switch_requests(&vec![to_homebase(client)], &vec![character(client, true)]);
    assert!(switches.is_empty());
    assert_eq!(
        handle_map_switch_request(&character(client, true), &MapSwitchTarget::Homebase, 42),
        SwitchDecision::AlreadyTransitioning
    );
    assert_eq!(
        handle_map_switch_request(&character(client, false), &MapSwitchTarget::Overworld, 42),
        SwitchDecision::AlreadyThere
    );
    assert_eq!(
        handle_map_switch_request(&character(client, false), &MapSwitchTarget::Homebase, 42),
        SwitchDecision::Transition(homebase(42))
    );
}

#[test]
fn server_and_client_spawn_matching_homebase_configs() {
    let client = entity(3);
    let switches =
        handle_map_switch_requests(&vec![to_homebase(client)], &vec![character(client, false)]);
    let mut registry = registry_with_overworld(entity(7));
    let mut rooms = no_rooms();
    let steps =
        transition(&switches[0]).execute_server_transition(&mut registry, &mut rooms);
    let (params, tree_height): (MapTransitionParams, u32) = steps
        .iter()
        .find_map(|step| match step {
            TransitionStep::SpawnHomebase { params, tree_height, .. } => {
                Some((*params, *tree_height))
            },
            _ => None,
        })
        .expect("Server must have spawned homebase");
    let start = steps
        .iter()
        .find_map(|step| match step {
            TransitionStep::SendStart { start, .. } => Some(*start),
            _ => None,
        })
        .expect("Client must be told to begin");

    let mut client_registry = registry_with_overworld(entity(70));
    let client_steps =
        handle_map_transition_start(&mut client_registry, entity(71), &start, entity(72));
    let config = client_steps
        .iter()
        .find_map(|step| match step {
            ClientTransitionStep::SpawnMap { config, .. } => Some(*config),
            _ => None,
        })
        .expect("Client must have spawned homebase");
    assert_eq!(params.seed, config.seed, "seed must match");
    assert_eq!(params.bounds, config.bounds, "bounds must match");
    assert_eq!(params.bounds, Some(homebase_bounds()));
    assert_eq!(tree_height, config.tree_height, "tree_height must match");
    assert_eq!(tree_height, 3);
    assert_eq!(client_registry.lookup(&MapInstanceId::Overworld), None);
    assert_eq!(client_registry.get(&homebase(42)), entity(72));
    assert!(client_steps.contains(&ClientTransitionStep::DespawnMap(entity(70))));
    assert_eq!(
        client_steps.last(),
        Some(&ClientTransitionStep::SetTicket {
            player: entity(71),
            map_entity: entity(72),
            kind: TicketKind::MapTransition,
        })
    );
    assert!(steps.contains(&TransitionStep::SetTicket {
        player: entity(11),
        map_entity: entity(62),
        kind: TicketKind::Player,
    }));
}

#[test]
fn homebases_are_spawned_once() {
    let client = entity(3);
    let switches =
        handle_map_switch_requests(&vec![to_homebase(client)], &vec![character(client, false)]);
    let mut registry = registry_with_overworld(entity(7));
    let mut rooms = no_rooms();
    transition(&switches[0]).execute_server_transition(&mut registry, &mut rooms);
    let mut again = transition(&switches[0]);
    again.existing =
        Some(MapTransitionParams { seed: 9, generation_version: 1, bounds: None });
    let steps = again.execute_server_transition(&mut registry, &mut rooms);
    assert!(steps.iter().all(|step| !matches!(step, TransitionStep::SpawnHomebase { .. })));
    assert!(matches!(
        steps.last(),
        Some(TransitionStep::SendStart { start, .. }) if start.seed == 9
    ));
}

#[test]
fn switch_targets_and_seeds() {
    assert_eq!(resolve_switch_target(&MapSwitchTarget::Overworld, 5), MapInstanceId::Overworld);
    assert_eq!(resolve_switch_target(&MapSwitchTarget::Homebase, 5), homebase(5));
    assert_eq!(load_homebase_seed(Some(3), 8), 3);
    assert_eq!(load_homebase_seed(None, 8), 8);
}

#[test]
fn readiness_ends_the_transition_of_its_player() {
    let players = vec![
        TransitioningPlayer { entity: entity(11), owner: entity(3) },
        TransitioningPlayer { entity: entity(12), owner: entity(4) },
    ];
    assert_eq!(handle_map_transition_ready(entity(4), &players), Some(entity(12)));
    assert_eq!(handle_map_transition_ready(entity(5), &players), None);
}

fn transitioning_ui() -> UiState {
    let mut ui = UiState::new();
    ui.on_client_connected();
    ui.update();
    ui.set_transition(MapTransitionState::Transitioning);
    ui.update();
    ui
}

#[test]
fn stays_transitioning_while_chunks_loading() {
    let mut ui = transitioning_ui();
    let map = ClientMap::default();
    for _ in 0..5 {
        assert!(!check_transition_chunks_loaded(false, Some(&map)));
        ui.update();
    }
    assert_eq!(ui.transition, Some(MapTransitionState::Transitioning));
}

#[test]
fn transitions_to_playing_after_chunks_load() {
    let mut ui = transitioning_ui();
    let mut map = ClientMap::default();
    map.handle_chunk_data_sync(IVec3::new(0, 0, 0), filled(VoxelType::Air));
    assert!(check_transition_chunks_loaded(false, Some(&map)));
    assert!(!check_transition_chunks_loaded(true, Some(&map)));
    assert!(!check_transition_chunks_loaded(false, None));

    let client = entity(3);
    let players = vec![TransitioningPlayer { entity: entity(11), owner: client }];
    assert_eq!(handle_map_transition_ready(client, &players), Some(entity(11)));

    let steps = handle_map_transition_end(&mut ui, &vec![entity(71)]);
    ui.update();
    assert_eq!(ui.client, ClientState::InGame);
    assert_eq!(ui.transition, Some(MapTransitionState::Playing));
    assert_eq!(steps, vec![ClientTransitionStep::Unfreeze(entity(71))]);
}

// Rooms.

#[test]
fn registry_creates_room_on_first_access() {
    let mut rooms = no_rooms();
    let room = rooms.get_or_create(&MapInstanceId::Overworld, entity(5));
    assert_eq!(room, entity(5));
    assert_eq!(rooms.lookup(&MapInstanceId::Overworld), Some(entity(5)));
}

#[test]
fn registry_reuses_existing_room() {
    let mut rooms = no_rooms();
    let first = rooms.get_or_create(&MapInstanceId::Overworld, entity(5));
    let second = rooms.get_or_create(&MapInstanceId::Overworld, entity(6));
    assert_eq!(first, second, "Same MapInstanceId must return same entity");
}

#[test]
fn registry_creates_separate_rooms_per_map() {
    let mut rooms = no_rooms();
    let overworld = rooms.get_or_create(&MapInstanceId::Overworld, entity(5));
    let home = rooms.get_or_create(&homebase(42), entity(6));
    assert_ne!(overworld, home, "Different maps must produce different rooms");
}

#[test]
fn registry_distinguishes_homebase_owners() {
    let mut rooms = no_rooms();
    let a = rooms.get_or_create(&homebase(1), entity(5));
    let b = rooms.get_or_create(&homebase(2), entity(6));
    assert_ne!(a, b, "Homebases with different owners must be separate rooms");
}

#[test]
fn room_registry_creates_separate_rooms_for_different_maps() {
    let mut rooms = no_rooms();
    let overworld = rooms.get_or_create(&MapInstanceId::Overworld, entity(5));
    let home = rooms.get_or_create(&homebase(42), entity(6));
    assert_ne!(overworld, home, "Different maps should have different rooms");
    let again = rooms.get_or_create(&MapInstanceId::Overworld, entity(7));
    assert_eq!(overworld, again, "Same map should return same room");
    let other = rooms.get_or_create(&homebase(43), entity(7));
    assert_eq!(rooms.lookup(&MapInstanceId::Overworld), Some(overworld));
    assert_eq!(rooms.lookup(&homebase(42)), Some(home));
    assert!(other != overworld && other != home);
}

#[test]
fn observer_adds_entity_to_room() {
    let mut rooms = no_rooms();
    let event =
        on_map_instance_id_added(&mut rooms, &MapInstanceId::Overworld, entity(20), entity(5));
    let room = rooms.lookup(&MapInstanceId::Overworld).expect("room of the overworld");
    assert_eq!(event, RoomEvent { room, target: RoomTarget::AddEntity(entity(20)) });
}

#[test]
fn observer_routes_entities_to_correct_rooms() {
    let mut rooms = no_rooms();
    let first =
        on_map_instance_id_added(&mut rooms, &MapInstanceId::Overworld, entity(20), entity(5));
    let second = on_map_instance_id_added(&mut rooms, &homebase(99), entity(21), entity(6));
    assert_eq!(Some(first.room), rooms.lookup(&MapInstanceId::Overworld));
    assert_eq!(Some(second.room), rooms.lookup(&homebase(99)));
    assert_ne!(first.room, second.room);
    assert_eq!(first.target, RoomTarget::AddEntity(entity(20)));
    assert_eq!(second.target, RoomTarget::AddEntity(entity(21)));
}

// Saving.

fn saved_map(map_id: MapInstanceId, dirty: Vec<IVec3>, at_hand: &[IVec3]) -> SavedMap {
    let mut loaded = ChunkSet::new();
    for chunk in at_hand {
        loaded.insert(*chunk);
    }
    SavedMap {
        map_id,
        seed: 999,
        generation_version: 0,
        has_save_dir: true,
        dirty_chunks: dirty,
        loaded,
    }
}

#[test]
fn dirty_chunks_saved_on_debounce() {
    let chunk = IVec3::new(1, 0, 0);
    let mut map = saved_map(MapInstanceId::Overworld, vec![chunk], &[chunk]);
    let written = enqueue_dirty_chunks(&mut map);
    assert_eq!(written, vec![chunk]);
    save_dirty_chunks_sync(&mut map, &vec![SaveOutcome { chunk, saved: true }]);
    assert!(map.dirty_chunks.is_empty());
}

#[test]
fn clean_chunks_not_saved() {
    let chunk = IVec3::new(0, 0, 0);
    let mut map = saved_map(MapInstanceId::Overworld, vec![], &[chunk]);
    assert!(enqueue_dirty_chunks(&mut map).is_empty());
}

#[test]
fn failed_saves_are_tried_again() {
    let chunk = IVec3::new(1, 0, 0);
    let gone = IVec3::new(2, 0, 0);
    let mut map = saved_map(MapInstanceId::Overworld, vec![gone, chunk], &[chunk]);
    assert_eq!(enqueue_dirty_chunks(&mut map), vec![chunk]);
    assert!(map.dirty_chunks.is_empty());
    save_dirty_chunks_sync(&mut map, &vec![SaveOutcome { chunk, saved: false }]);
    assert_eq!(map.dirty_chunks, vec![chunk]);
}

#[test]
fn chunks_that_fail_twice_are_dirty_once() {
    let chunk = IVec3::new(1, 0, 0);
    let other = IVec3::new(2, 0, 0);
    let mut map = saved_map(MapInstanceId::Overworld, vec![chunk], &[chunk, other]);
    assert_eq!(enqueue_dirty_chunks(&mut map), vec![chunk]);
    map.dirty_chunks.push(chunk);
    let failed = vec![
        SaveOutcome { chunk, saved: false },
        SaveOutcome { chunk: other, saved: false },
        SaveOutcome { chunk: other, saved: false },
    ];
    save_dirty_chunks_sync(&mut map, &failed);
    assert_eq!(map.dirty_chunks, vec![chunk, other]);
    assert_eq!(enqueue_dirty_chunks(&mut map), vec![chunk, other]);
    assert!(map.dirty_chunks.is_empty());
}

#[test]
fn the_world_is_saved_when_edits_settle() {
    let chunk = IVec3::new(0, 1, 0);
    let mut unsaved = saved_map(homebase(3), vec![chunk], &[chunk]);
    unsaved.has_save_dir = false;
    let mut maps = vec![saved_map(MapInstanceId::Overworld, vec![chunk], &[chunk]), unsaved];
    let respawns =
        vec![RespawnRow { position: vector(2.0, 0.0, 0.0), map_id: MapInstanceId::Overworld }];
    let entities = vec![SaveRow {
        map_id: homebase(3),
        position: vector(4.0, 5.0, 6.0),
        is_respawn_point: true,
    }];
    let mut state = WorldDirtyState::default();
    state.mark_edited(1_000);
    let early = save_dirty_chunks_debounced(&mut state, 999_999_999, &mut maps, &entities, &respawns);
    assert!(early.is_none());
    assert_eq!(maps[0].dirty_chunks, vec![chunk]);

    let save = save_dirty_chunks_debounced(&mut state, 1_000_001_000, &mut maps, &entities, &respawns)
        .expect("the world is due");
    assert_eq!(save.maps.len(), 1);
    assert_eq!(save.maps[0].map_id, MapInstanceId::Overworld);
    assert_eq!(save.maps[0].chunks, vec![chunk]);
    assert_eq!(save.maps[0].meta.version, 1);
    assert_eq!(save.maps[0].meta.seed, 999);
    assert_eq!(save.maps[0].meta.spawn_points, vec![vector(2.0, 0.0, 0.0)]);
    assert_eq!(save.entities.len(), 1);
    assert_eq!(save.entities[0].map_id, homebase(3));
    assert!(!state.is_dirty);
    assert!(maps[0].dirty_chunks.is_empty());
    assert_eq!(maps[1].dirty_chunks, vec![chunk]);
}

#[test]
fn a_dirty_world_is_saved_on_shutdown() {
    let chunk = IVec3::new(0, 0, 0);
    let mut maps = vec![saved_map(MapInstanceId::Overworld, vec![chunk], &[chunk])];
    let mut state = WorldDirtyState::default();
    assert!(save_world_on_shutdown(true, &state, &mut maps, &vec![], &vec![]).is_none());
    state.mark_edited(0);
    assert!(save_world_on_shutdown(false, &state, &mut maps, &vec![], &vec![]).is_none());
    assert_eq!(maps[0].dirty_chunks, vec![chunk]);
    let save = save_world_on_shutdown(true, &state, &mut maps, &vec![], &vec![])
        .expect("there are changes");
    assert_eq!(save.maps[0].chunks, vec![chunk]);
    assert!(save.entities.is_empty());
}

#[test]
fn saved_entities_come_back() {
    let rows = vec![
        SaveRow { map_id: homebase(1), position: vector(4.0, 5.0, 6.0), is_respawn_point: true },
        SaveRow {
            map_id: MapInstanceId::Overworld,
            position: vector(7.0, 8.0, 9.0),
            is_respawn_point: true,
        },
    ];
    let groups = collect_saved_entities(&rows);
    let restored = load_map_entities(&groups[0].entities, groups[0].map_id);
    assert_eq!(
        restored,
        vec![RespawnRow { position: vector(4.0, 5.0, 6.0), map_id: homebase(1) }]
    );
}

#[test]
fn map_save_dir_routes_correctly() {
    let base = std::path::Path::new("/tmp/test_worlds");
    assert_eq!(
        base.join(map_dir_name(&MapInstanceId::Overworld)),
        std::path::PathBuf::from("/tmp/test_worlds/overworld")
    );
    assert_eq!(
        base.join(map_dir_name(&MapInstanceId::Homebase { owner: 42 })),
        std::path::PathBuf::from("/tmp/test_worlds/homebase-42")
    );
    assert_eq!(map_dir_name(&homebase(u64::MAX)), "homebase-18446744073709551615");
    assert_eq!(map_dir_name(&homebase(0)), "homebase-0");
}

#[test]
fn entities_are_saved_with_their_maps() {
    let rows = vec![
        SaveRow {
            map_id: MapInstanceId::Overworld,
            position: vector(1.0, 2.0, 3.0),
            is_respawn_point: true,
        },
        SaveRow {
            map_id: homebase(1),
            position: vector(4.0, 5.0, 6.0),
            is_respawn_point: true,
        },
        SaveRow {
            map_id: MapInstanceId::Overworld,
            position: vector(7.0, 8.0, 9.0),
            is_respawn_point: true,
        },
        SaveRow {
            map_id: homebase(2),
            position: vector(0.0, 0.0, 0.0),
            is_respawn_point: false,
        },
    ];
    let groups = collect_saved_entities(&rows);
    assert_eq!(groups.len(), 2);
    assert_eq!(groups[0].map_id, MapInstanceId::Overworld);
    assert_eq!(groups[0].entities.len(), 2);
    assert_eq!(groups[0].entities[1].position, vector(7.0, 8.0, 9.0));
    assert_eq!(groups[1].entities[0].kind, SavedEntityKind::RespawnPoint);
}

#[test]
fn respawn_points_and_starts() {
    let rows = vec![
        RespawnRow { position: vector(1.0, 0.0, 0.0), map_id: homebase(1) },
        RespawnRow { position: vector(2.0, 0.0, 0.0), map_id: MapInstanceId::Overworld },
    ];
    assert_eq!(spawn_points_on(&rows, MapInstanceId::Overworld), vec![vector(2.0, 0.0, 0.0)]);
}

#[test]
fn the_overworld_starts_as_it_was_saved() {
    let mut registry = MapRegistry::default();
    let config = server_overworld(None, &mut registry, entity(3));
    assert_eq!(
        config,
        ServerMapConfig {
            seed: 999,
            generation_version: 0,
            spawning_distance: 2,
            bounds: None,
            tree_height: 5,
        }
    );
    assert_eq!(registry.get(&MapInstanceId::Overworld), entity(3));
    let saved = SavedStart { seed: 5, generation_version: 2 };
    let config = server_overworld(Some(saved), &mut registry, entity(3));
    assert_eq!((config.seed, config.generation_version), (5, 2));

    let mut registry = MapRegistry::default();
    let config = client_overworld(&mut registry, entity(4));
    assert_eq!((config.seed, config.spawning_distance, config.tree_height), (0, 2, 5));
    assert!(!config.generates_chunks);
    assert_eq!(registry.get(&MapInstanceId::Overworld), entity(4));
}

#[test]
fn predicted_characters_get_tickets() {
    let mut registry = MapRegistry::default();
    registry.insert(MapInstanceId::Overworld, entity(4));
    let rows = vec![
        TicketRow { player: entity(1), map_id: MapInstanceId::Overworld, has_ticket: false },
        TicketRow { player: entity(2), map_id: homebase(9), has_ticket: true },
    ];
    assert_eq!(
        attach_chunk_ticket_to_player(&rows, &registry),
        vec![NewTicket {
            player: entity(1),
            map_entity: entity(4),
            kind: TicketKind::Player,
        }]
    );
}

#[test]
fn terrain_is_applied_before_generators_are_built() {
    let mut definitions = NameMap::new();
    definitions.insert("overworld".to_string(), 7);
    let row = TerrainRow {
        map_entity: entity(1),
        map_id: MapInstanceId::Overworld,
        seed: 5,
        applied: false,
        has_generator: false,
    };
    let home = TerrainRow { map_entity: entity(2), map_id: homebase(1), ..row };
    let done = TerrainRow { map_entity: entity(3), applied: true, ..row };
    assert_eq!(
        apply_terrain_defs(&vec![row, home, done], &definitions),
        vec![
            TerrainApplication { map_entity: entity(1), definition: Some(7) },
            TerrainApplication { map_entity: entity(2), definition: None },
        ]
    );
    assert_eq!(
        build_terrain_generators(&vec![row, done, TerrainRow { has_generator: true, ..done }]),
        vec![NewGenerator { map_entity: entity(3), seed: 5 }]
    );
}

// World objects.

fn object(bits: u64, chunk_pos: IVec3, id: &str) -> ChunkEntityRow {
    ChunkEntityRow {
        entity: entity(bits),
        chunk_ref: ChunkEntityRef { chunk_pos, map_entity: entity(7) },
        object_id: id.to_string(),
        position: vector(bits as f32, 0.0, 0.0),
    }
}

#[test]
fn objects_leave_with_their_columns() {
    let rows = vec![
        object(20, IVec3::new(0, 0, 0), "tree"),
        object(21, IVec3::new(5, 0, 5), "rock"),
        object(22, IVec3::new(5, 0, 5), "tree"),
        object(23, IVec3::new(5, 1, 5), "rock"),
    ];
    let mut maps = HashMap::new();
    maps.insert(7u64, vec![IVec2::new(0, 0)]);
    let groups = evict_chunk_entities(&rows, &LeveledColumns { maps });
    assert_eq!(groups.len(), 2);
    assert_eq!(groups[0].entities, vec![entity(21), entity(22)]);
    assert_eq!(groups[0].spawns[1].object_id, "tree");
    assert_eq!(groups[1].entities, vec![entity(23)]);
    assert_eq!(group_by_chunk(&rows).len(), 3);
    let nowhere = LeveledColumns { maps: HashMap::new() };
    assert!(evict_chunk_entities(&rows, &nowhere).is_empty());
}

#[test]
fn destroyed_objects_are_not_saved() {
    let rows = vec![
        object(20, IVec3::new(0, 0, 0), "tree"),
        object(21, IVec3::new(5, 0, 5), "rock"),
    ];
    let bare = ChunkEntityRef { chunk_pos: IVec3::new(9, 0, 9), map_entity: entity(7) };
    let loaded = vec![bare, rows[0].chunk_ref, bare];
    let groups = save_all_chunk_entities_on_exit(true, &loaded, &rows);
    assert_eq!(groups.len(), 3);
    assert_eq!(groups[0].chunk_ref, bare);
    assert!(groups[0].spawns.is_empty());
    assert_eq!(groups[1].entities, vec![entity(20)]);
    assert_eq!(groups[2].entities, vec![entity(21)]);
    assert_eq!(groups[2].spawns[0].object_id, "rock");
    assert!(save_all_chunk_entities_on_exit(false, &loaded, &rows).is_empty());
}

#[test]
fn generated_objects_are_spawned_if_known() {
    let mut definitions = NameMap::new();
    definitions.insert("tree".to_string(), 4u64);
    let chunk_pos = IVec3::new(1, 2, 3);
    let pending = PendingChunk {
        chunk_pos,
        spawns: vec![
            WorldObjectSpawn { object_id: "tree".to_string(), position: vector(1.0, 0.0, 0.0) },
            WorldObjectSpawn { object_id: "ghost".to_string(), position: vector(2.0, 0.0, 0.0) },
        ],
    };
    let placed = spawn_chunk_entities(entity(7), &pending, &definitions).expect("something to do");
    assert_eq!(placed.len(), 1);
    assert_eq!(placed[0].definition, 4);
    assert_eq!(placed[0].chunk_ref, ChunkEntityRef { chunk_pos, map_entity: entity(7) });
    let empty = PendingChunk { chunk_pos, spawns: vec![] };
    assert!(spawn_chunk_entities(entity(7), &empty, &definitions).is_none());
}

#[test]
fn test_voxel_messages_registered() {
    let request = VoxelEditRequest {
        position: IVec3::new(1, 2, 3),
        voxel: VoxelType::Solid(42),
        sequence: 0,
    };
    assert_eq!(request.position, IVec3::new(1, 2, 3));
    assert_eq!(request.voxel, VoxelType::Solid(42));
    assert_eq!(request.sequence, 0);
    assert!(validate_voxel_edit(&request));
}
