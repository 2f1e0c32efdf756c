use lightyear_arena::diagnostics::{input_buffer_status, BufferStatus, RollbackMetrics};
use lightyear_arena::entity::{Entity, EntitySet};
use lightyear_arena::gameplay::{
    character_color, check_death_and_respawn, default_spawn_pos, expire_invulnerability,
    handle_connected, handle_new_character, nearest_respawn_pos, respawn_points, CharacterColor,
    CharacterSetup, DeathRow, InvulnerableRow, ReplicatedCharacter, RespawnCandidate,
};
use lightyear_arena::geometry::{has_column, ChunkSet, IVec2, IVec3};
use lightyear_arena::health_bar::{
    on_invulnerable_added, on_invulnerable_removed, set_fg_color, BarColor, BarPaint,
    HealthBars,
};
use lightyear_arena::hierarchy::{
    on_respawn_timer_added, on_respawn_timer_removed, EntityTree, PresenceCommand, Visibility,
};
use lightyear_arena::map::persistence::RespawnRow;
use lightyear_arena::map::types::{InstanceTable, MapInstanceId, MapRegistry, RoomRegistry};
use lightyear_arena::network::{
    start_server, Channel, Delivery, Direction, ListenAddress, MessageKind, ServerIdentity,
    ServerNetworkConfig, ServerTransport, UiClientConfig,
};
use lightyear_arena::physics::{
    attach_chunk_collider, character_collision_layers, damageable_collision_layers, filter_pairs,
    hitbox_collision_layers, may_collide, projectile_collision_layers, terrain_collision_layers,
    GameLayer,
};
use lightyear_arena::player::{
    input_bindings, ActionState, Binding, InputControlKind, InputSource, PlayerActions, PlayerId,
};
use lightyear_arena::scalar::{Scalar, Vector};
use lightyear_arena::tick::{to_signed, to_unsigned, Tick};
use std::collections::HashSet;

fn scalar(value: f32) -> Scalar {
    Scalar(value.to_bits())
}

fn vector(x: f32, y: f32, z: f32) -> Vector {
    Vector { x: scalar(x), y: scalar(y), z: scalar(z) }
}

fn entity(bits: u64) -> Entity {
    Entity::try_from_bits(bits).expect("bits of an entity")
}

// Dying and coming back.

fn candidate(x: f32, distance: f32) -> RespawnCandidate {
    RespawnCandidate { position: vector(x, 0.0, 0.0), distance: scalar(distance) }
}

#[test]
fn the_default_spawn_is_above_the_origin() {
    assert_eq!(default_spawn_pos(), vector(0.0, 5.0, 0.0));
    assert_eq!(respawn_points(None), vec![vector(0.0, 5.0, 0.0)]);
    assert_eq!(respawn_points(Some(vec![])), vec![vector(0.0, 5.0, 0.0)]);
    assert_eq!(respawn_points(Some(vec![vector(1.0, 2.0, 3.0)])), vec![vector(1.0, 2.0, 3.0)]);
}

#[test]
fn the_nearest_point_is_chosen() {
    assert_eq!(nearest_respawn_pos(&vec![]), vector(0.0, 5.0, 0.0));
    let points = vec![candidate(1.0, 9.0), candidate(2.0, 4.0), candidate(3.0, 4.0)];
    assert_eq!(nearest_respawn_pos(&points), vector(2.0, 0.0, 0.0));
    let unclear = vec![candidate(1.0, f32::NAN), candidate(2.0, 4.0)];
    assert_eq!(nearest_respawn_pos(&unclear), vector(1.0, 0.0, 0.0));
}

#[test]
fn the_dead_come_back_protected() {
    let rows = vec![
        DeathRow { entity: entity(1), dead: false, candidates: vec![candidate(1.0, 1.0)] },
        DeathRow {
            entity: entity(2),
            dead: true,
            candidates: vec![candidate(1.0, 8.0), candidate(2.0, 3.0)],
        },
    ];
    let respawns = check_death_and_respawn(&rows, Tick(65500));
    assert_eq!(respawns.len(), 1);
    assert_eq!(respawns[0].entity, entity(2));
    assert_eq!(respawns[0].position, vector(2.0, 0.0, 0.0));
    assert_eq!(respawns[0].invulnerable_until, Tick(92));
    let row = InvulnerableRow { entity: entity(2), expires_at: respawns[0].invulnerable_until };
    assert!(expire_invulnerability(&vec![row], Tick(65535)).is_empty());
    assert!(expire_invulnerability(&vec![row], Tick(91)).is_empty());
    assert_eq!(expire_invulnerability(&vec![row], Tick(92)), vec![entity(2)]);
    assert_eq!(expire_invulnerability(&vec![row], Tick(93)), vec![entity(2)]);
}

// Joining.

#[test]
fn colours_are_given_out_in_turn() {
    assert_eq!(character_color(0), CharacterColor::LimeGreen);
    assert_eq!(character_color(1), CharacterColor::Pink);
    assert_eq!(character_color(2), CharacterColor::Yellow);
    assert_eq!(character_color(3), CharacterColor::Aqua);
    assert_eq!(character_color(4), CharacterColor::Crimson);
    assert_eq!(character_color(5), CharacterColor::LimeGreen);
}

#[test]
fn clients_join_on_the_overworld() {
    let mut registry = MapRegistry(InstanceTable::new());
    registry.insert(MapInstanceId::Overworld, entity(7));
    let mut rooms = RoomRegistry(InstanceTable::new());
    let points = vec![
        RespawnRow { position: vector(1.0, 0.0, 0.0), map_id: MapInstanceId::Homebase { owner: 1 } },
        RespawnRow { position: vector(2.0, 0.0, 0.0), map_id: MapInstanceId::Overworld },
        RespawnRow { position: vector(3.0, 0.0, 0.0), map_id: MapInstanceId::Overworld },
    ];
    let first = handle_connected(
        entity(3),
        PlayerId(42),
        6,
        &points,
        &registry,
        &mut rooms,
        entity(50),
    );
    assert_eq!(first.player, PlayerId(42));
    assert_eq!(first.owner, entity(3));
    assert_eq!(first.color, CharacterColor::Pink);
    assert_eq!(first.spawn_point, vector(2.0, 0.0, 0.0));
    assert_eq!(first.map_id, MapInstanceId::Overworld);
    assert_eq!(first.map_entity, entity(7));
    assert_eq!(first.chunk_radius, 4);
    assert_eq!(first.room, entity(50));
    let second = handle_connected(
        entity(4),
        PlayerId(43),
        7,
        &vec![],
        &registry,
        &mut rooms,
        entity(51),
    );
    assert_eq!(second.room, entity(50));
    assert_eq!(second.spawn_point, vector(0.0, 5.0, 0.0));
}

// Collisions.

#[test]
fn baseline_collision_works() {
    assert!(may_collide(None, None), "two overlapping bodies without a map should collide");
}

#[test]
fn same_map_entities_collide() {
    let overworld = Some(MapInstanceId::Overworld);
    assert!(filter_pairs(overworld, overworld));
    assert!(may_collide(overworld, overworld));
}

#[test]
fn different_map_entities_do_not_collide() {
    let overworld = Some(MapInstanceId::Overworld);
    let home = Some(MapInstanceId::Homebase { owner: 0 });
    assert!(!filter_pairs(overworld, home));
    assert!(!may_collide(home, overworld));
    assert!(!filter_pairs(home, Some(MapInstanceId::Homebase { owner: 1 })));
}

#[test]
fn chunk_colliders_inherit_map_instance_id() {
    let parent = Some(MapInstanceId::Homebase { owner: 5 });
    let collider = attach_chunk_collider(true, true, parent).expect("a collider");
    assert_eq!(Some(collider.map_id), parent);
    assert!(collider.replaces);
    assert_eq!(collider.layers.membership, GameLayer::Terrain);
    assert!(attach_chunk_collider(false, true, None).is_none());
}

#[test]
fn layers_look_for_each_other() {
    let all = [
        character_collision_layers(),
        terrain_collision_layers(),
        projectile_collision_layers(),
        hitbox_collision_layers(),
        damageable_collision_layers(),
    ];
    for a in &all {
        for b in &all {
            assert_eq!(
                a.filters.contains(&b.membership),
                b.filters.contains(&a.membership),
                "{:?} and {:?}",
                a.membership,
                b.membership
            );
        }
    }
    assert_eq!(all[1].filters, vec![GameLayer::Character]);
}

// The server's network.

#[test]
fn test_plugin_transport_configuration() {
    let config = ServerNetworkConfig {
        transports: vec![
            ServerTransport::Udp { port: 6600 },
            ServerTransport::WebTransport { port: 6601 },
        ],
        ..Default::default()
    };
    assert_eq!(config.transports.len(), 2);
    let servers = start_server(&config);
    assert_eq!(servers.len(), 2);
    assert_eq!(servers[0].name, "UDP Server");
    assert_eq!(servers[0].address, Some(ListenAddress { octets: [0, 0, 0, 0], port: 6600 }));
    assert_eq!(servers[0].identity, ServerIdentity::Unproven);
    assert_eq!(servers[1].name, "WebTransport Server");
    assert_eq!(servers[1].identity, ServerIdentity::Certificate);
}

#[test]
fn every_transport_gets_a_server() {
    let config = ServerNetworkConfig {
        transports: vec![ServerTransport::WebSocket { port: 9 }, ServerTransport::Crossbeam],
        bind_addr: [127, 0, 0, 1],
        ..Default::default()
    };
    let servers = start_server(&config);
    assert_eq!(servers[0].name, "WebSocket Server");
    assert_eq!(servers[0].identity, ServerIdentity::SelfSigned);
    assert_eq!(servers[0].identity.hosts(), vec!["localhost", "127.0.0.1"]);
    assert!(ServerIdentity::Certificate.hosts().is_empty());
    assert_eq!(servers[0].address, Some(ListenAddress { octets: [127, 0, 0, 1], port: 9 }));
    assert_eq!(servers[1].name, "Crossbeam Server");
    assert_eq!(servers[1].address, None);
}

#[test]
fn servers_listen_in_three_ways_by_default() {
    let config = ServerNetworkConfig::default();
    assert_eq!(
        config.transports,
        vec![
            ServerTransport::Udp { port: 5000 },
            ServerTransport::WebTransport { port: 5001 },
            ServerTransport::WebSocket { port: 5002 },
        ]
    );
    assert_eq!(config.bind_addr, [0, 0, 0, 0]);
    assert_eq!(config.private_key, [0; 32]);
    assert_eq!(config.replication_interval_millis, 100);
}

#[test]
fn default_clients_reach_default_servers() {
    let client = UiClientConfig::default();
    assert_eq!(client.server_addr, ListenAddress { octets: [127, 0, 0, 1], port: 5001 });
    let servers = start_server(&ServerNetworkConfig::default());
    assert_eq!(servers[1].name, "WebTransport Server");
    assert_eq!(servers[1].address.map(|address| address.port), Some(client.server_addr.port));
    assert_eq!(servers[1].protocol_id, client.protocol_id);
    assert_eq!(servers[1].private_key, client.private_key);
}

#[test]
fn messages_have_their_channels() {
    assert_eq!(MessageKind::VoxelEditRequest.channel(), Channel::VoxelChannel);
    assert_eq!(MessageKind::VoxelEditRequest.direction(), Direction::ClientToServer);
    assert_eq!(MessageKind::UnloadColumn.channel(), Channel::ChunkChannel);
    assert_eq!(MessageKind::UnloadColumn.direction(), Direction::ServerToClient);
    assert_eq!(MessageKind::MapTransitionReady.channel(), Channel::MapChannel);
    assert_eq!(MessageKind::MapTransitionReady.direction(), Direction::ClientToServer);
    assert_eq!(MessageKind::MapTransitionEnd.direction(), Direction::ServerToClient);
    assert_eq!(Channel::ChunkChannel.delivery(), Delivery::Unordered);
    assert_eq!(Channel::ChunkChannel.direction(), Direction::ServerToClient);
    assert_eq!(Channel::MapChannel.delivery(), Delivery::Ordered);
    assert_eq!(Channel::VoxelChannel.direction(), Direction::Bidirectional);
}

#[test]
fn digits_are_bound_to_abilities() {
    let bindings = input_bindings();
    assert_eq!(bindings.len(), 10);
    for (digit, action) in [
        (1, PlayerActions::Ability1),
        (2, PlayerActions::Ability2),
        (3, PlayerActions::Ability3),
        (4, PlayerActions::Ability4),
    ] {
        assert!(bindings.contains(&Binding { action, source: InputSource::Digit(digit) }));
    }
    assert!(bindings.iter().all(|binding| binding.action != PlayerActions::CameraYaw));
}

#[test]
fn only_own_characters_take_input() {
    let replicated = vec![
        ReplicatedCharacter { entity: entity(1), controlled: false },
        ReplicatedCharacter { entity: entity(2), controlled: true },
    ];
    assert_eq!(
        handle_new_character(&replicated, &vec![entity(3)]),
        vec![
            CharacterSetup::BindInput(entity(2)),
            CharacterSetup::AddPhysics { entity: entity(3), map_id: MapInstanceId::Overworld },
        ]
    );
}

// Diagnostics.

#[test]
fn rollbacks_are_counted_per_frame() {
    let mut seen = RollbackMetrics::default();
    let added = seen.advance(RollbackMetrics { rollbacks: 3, rollback_ticks: 12 });
    assert_eq!(added, RollbackMetrics { rollbacks: 3, rollback_ticks: 12 });
    let added = seen.advance(RollbackMetrics { rollbacks: 5, rollback_ticks: 10 });
    assert_eq!(added, RollbackMetrics { rollbacks: 2, rollback_ticks: 0 });
    assert_eq!(seen, RollbackMetrics { rollbacks: 5, rollback_ticks: 10 });
}

#[test]
fn buffers_are_compared_with_the_tick() {
    assert_eq!(
        input_buffer_status(Tick(2), Tick(65530), 20),
        BufferStatus { ahead: 8, past_end: -12 }
    );
}

// Who belongs to whom.

#[test]
fn descendants_are_hidden_and_shown() {
    let leaf = |bits| EntityTree { entity: entity(bits), children: vec![] };
    let tree = EntityTree {
        entity: entity(1),
        children: vec![
            EntityTree { entity: entity(2), children: vec![leaf(3), leaf(4)] },
            leaf(5),
        ],
    };
    let hidden = on_respawn_timer_added(&tree);
    assert_eq!(hidden.len(), 6);
    assert_eq!(
        hidden[0],
        PresenceCommand::SetSimulated { entity: entity(1), simulated: false }
    );
    let order: Vec<Entity> = hidden
        .iter()
        .filter_map(|command| match command {
            PresenceCommand::SetVisibility { entity, visibility: Visibility::Hidden } => {
                Some(*entity)
            },
            _ => None,
        })
        .collect();
    assert_eq!(order, vec![entity(1), entity(2), entity(3), entity(4), entity(5)]);
    let shown = on_respawn_timer_removed(&tree);
    assert_eq!(shown[0], PresenceCommand::SetSimulated { entity: entity(1), simulated: true });
    assert_eq!(
        shown[5],
        PresenceCommand::SetVisibility { entity: entity(5), visibility: Visibility::Inherited }
    );
}

#[test]
fn invulnerable_characters_have_other_bars() {
    let leaf = |bits| EntityTree { entity: entity(bits), children: vec![] };
    let character = EntityTree {
        entity: entity(1),
        children: vec![
            EntityTree { entity: entity(2), children: vec![leaf(3), leaf(4)] },
            leaf(5),
            EntityTree {
                entity: entity(6),
                children: vec![
                    leaf(7),
                    EntityTree { entity: entity(8), children: vec![leaf(9)] },
                ],
            },
            EntityTree { entity: entity(11), children: vec![leaf(10)] },
        ],
    };
    let bars = HealthBars {
        roots: [2, 6].into_iter().collect(),
        foregrounds: [4, 5, 7, 9, 10].into_iter().collect(),
    };
    let paint = |bits, color| BarPaint { entity: entity(bits), color };
    assert_eq!(
        on_invulnerable_added(&character, &bars),
        vec![paint(4, BarColor::Invulnerable), paint(7, BarColor::Invulnerable)]
    );
    assert_eq!(
        on_invulnerable_removed(&character, &bars),
        vec![paint(4, BarColor::Normal), paint(7, BarColor::Normal)]
    );
    assert_eq!(set_fg_color(&leaf(4), &bars, BarColor::Normal), vec![]);
}

// Basics.

#[test]
fn ticks_wrap_around() {
    assert_eq!(Tick(5).since(Tick(65530)), 11);
    assert_eq!(Tick(65530).since(Tick(5)), -11);
    assert_eq!(Tick(65530).offset(11), Tick(5));
    assert_eq!(Tick(5).offset(-11), Tick(65530));
    assert!(Tick(5).reached(Tick(65530)));
    assert!(!Tick(65530).reached(Tick(5)));
    assert!(Tick(5).reached(Tick(5)));
    assert_eq!(to_signed(0xffff), -1);
    assert_eq!(to_unsigned(-1), 0xffff);
    assert_eq!(to_signed(0x8000), -32768);
}

#[test]
fn scalars_compare_like_numbers() {
    let samples = [
        f32::NEG_INFINITY,
        -2.5,
        -1.0e-40,
        -0.0,
        0.0,
        1.0e-40,
        0.1,
        3.0e38,
        f32::INFINITY,
        f32::NAN,
        -f32::NAN,
    ];
    for a in samples {
        for b in samples {
            assert_eq!(scalar(a).at_least(scalar(b)), a >= b, "{a} >= {b}");
            assert_eq!(scalar(a).exceeds(scalar(b)), a > b, "{a} > {b}");
        }
        assert_eq!(scalar(a).is_nan(), a.is_nan());
    }
}

#[test]
fn entities_have_a_row() {
    assert!(Entity::try_from_bits(0).is_none());
    assert!(Entity::try_from_bits(0x7_0000_0000).is_none());
    let generation_two = entity(0x2_0000_0001);
    assert_eq!(generation_two.to_bits(), 0x2_0000_0001);
    assert_eq!(Entity::from_bits(9), entity(9));
}

#[test]
fn entity_sets_remember_members() {
    let mut set = EntitySet::new();
    assert!(!set.contains(entity(1)));
    assert!(set.insert(entity(1)));
    assert!(!set.insert(entity(1)));
    assert!(set.insert(entity(0x1_0000_0001)));
    assert!(set.contains(entity(1)));
    assert!(set.contains(entity(0x1_0000_0001)));
    assert!(!set.contains(entity(2)));
}

#[test]
fn chunk_sets_and_columns() {
    let mut set = ChunkSet::new();
    set.insert(IVec3::new(-1, 2, 3));
    assert!(set.contains(IVec3::new(-1, 2, 3)));
    assert!(!set.contains(IVec3::new(3, 2, -1)));
    set.remove(IVec3::new(-1, 2, 3));
    assert!(!set.contains(IVec3::new(-1, 2, 3)));
    set.insert(IVec3::new(i32::MIN, i32::MAX, 0));
    set.clear();
    assert!(!set.contains(IVec3::new(i32::MIN, i32::MAX, 0)));
    assert!(has_column(&vec![IVec2::new(1, 2)], IVec2::new(1, 2)));
    assert!(!has_column(&vec![IVec2::new(1, 2)], IVec2::new(2, 1)));
    assert_eq!(IVec3::new(4, 9, -3).max_element(), 9);
}

#[test]
fn actions_have_kinds() {
    assert_eq!(PlayerActions::Move.input_control_kind(), InputControlKind::DualAxis);
    assert_eq!(PlayerActions::CameraYaw.input_control_kind(), InputControlKind::Axis);
    assert_eq!(PlayerActions::Ability3.input_control_kind(), InputControlKind::Button);
    let state = ActionState { pressed: vec![PlayerActions::Jump] };
    assert!(state.just_pressed(PlayerActions::Jump));
    assert!(!state.just_pressed(PlayerActions::Move));
}
