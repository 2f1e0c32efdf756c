//! Moving players between maps, on the server.
use crate::entity::Entity;
use crate::gameplay::{default_spawn, default_spawn_pos};
use crate::geometry::IVec3;
use crate::map::streaming::TicketKind;
use crate::map::types::{
    can_be_room, MapInstanceId, MapRegistry, MapSwitchTarget, MapTransitionStart, PendingTransition,
    RoomRegistry, HOMEBASE_TREE_HEIGHT,
};
use crate::scalar::{Scalar, Vector};
use crate::seqs::{
    filter_map, lemma_filter_map_picks, lemma_filter_map_step, lemma_picks_same, picks,
};
use vstd::prelude::*;

verus! {

/// The extent of a homebase, in chunks.
pub open spec fn homebase_bounds_spec() -> IVec3 {
    IVec3 { x: 4, y: 4, z: 4 }
}

pub fn homebase_bounds() -> (bounds: IVec3)
    ensures
        bounds == homebase_bounds_spec(),
{
    IVec3 { x: 4, y: 4, z: 4 }
}

/// The map that a player with the given identity asks for.
pub open spec fn switch_target(target: MapSwitchTarget, client_id_bits: u64) -> MapInstanceId {
    match target {
        MapSwitchTarget::Overworld => MapInstanceId::Overworld,
        MapSwitchTarget::Homebase => MapInstanceId::Homebase { owner: client_id_bits },
    }
}

pub fn resolve_switch_target(target: &MapSwitchTarget, client_id_bits: u64) -> (map_id: MapInstanceId)
    ensures
        map_id == switch_target(*target, client_id_bits),
{
    match target {
        MapSwitchTarget::Overworld => MapInstanceId::Overworld,
        MapSwitchTarget::Homebase => MapInstanceId::Homebase { owner: client_id_bits },
    }
}

/// A player's character, and the client that controls it.
#[derive(Clone, Copy, Debug, PartialEq, Eq, Structural)]
pub struct SwitchingPlayer {
    pub entity: Entity,
    pub owner: Entity,
    pub map_id: MapInstanceId,
    /// Whether the player is on its way to a map already.
    pub transitioning: bool,
}

/// What comes of a player's request to switch maps.
#[derive(Clone, Copy, Debug, PartialEq, Eq, Structural)]
pub enum SwitchDecision {
    /// The player is on its way to a map already.
    AlreadyTransitioning,
    /// The player is where it asks to go.
    AlreadyThere,
    /// The player goes to a map.
    Transition(MapInstanceId),
}

/// A request is granted unless the player is on its way, or is there.
pub open spec fn switch_decision(
    player: SwitchingPlayer,
    target: MapSwitchTarget,
    client_id_bits: u64,
) -> SwitchDecision {
    if player.transitioning {
        SwitchDecision::AlreadyTransitioning
    } else if player.map_id == switch_target(target, client_id_bits) {
        SwitchDecision::AlreadyThere
    } else {
        SwitchDecision::Transition(switch_target(target, client_id_bits))
    }
}

/// Decides what comes of a player's request to switch maps.
pub fn handle_map_switch_request(
    player: &SwitchingPlayer,
    target: &MapSwitchTarget,
    client_id_bits: u64,
) -> (decision: SwitchDecision)
    ensures
        decision == switch_decision(*player, *target, client_id_bits),
{
    if player.transitioning {
        return SwitchDecision::AlreadyTransitioning;
    }
    let target_id = resolve_switch_target(target, client_id_bits);
    if player.map_id == target_id {
        SwitchDecision::AlreadyThere
    } else {
        SwitchDecision::Transition(target_id)
    }
}

/// A client's request to switch maps. `client_id_bits` is the client's network identity.
#[derive(Clone, Copy, Debug, PartialEq, Eq, Structural)]
pub struct SwitchRequest {
    pub client: Entity,
    pub client_id_bits: u64,
    pub target: MapSwitchTarget,
}

/// A switch that is granted.
#[derive(Clone, Copy, Debug, PartialEq, Eq, Structural)]
pub struct PlayerSwitch {
    pub player: Entity,
    pub client: Entity,
    pub current: MapInstanceId,
    pub target: MapInstanceId,
}

/// The first character that `client` controls.
pub open spec fn character_of(client: Entity, players: Seq<SwitchingPlayer>) -> Option<SwitchingPlayer>
    decreases players.len(),
{
    if players.len() == 0 {
        None
    } else if players.first().owner == client {
        Some(players.first())
    } else {
        character_of(client, players.drop_first())
    }
}

fn find_character(client: Entity, players: &Vec<SwitchingPlayer>) -> (player: Option<SwitchingPlayer>)
    ensures
        player == character_of(client, players@),
{
    let mut i: usize = 0;
    assert(players@.skip(0) =~= players@);
    while i < players.len()
        invariant
            i <= players@.len(),
            character_of(client, players@) == character_of(client, players@.skip(i as int)),
        decreases players@.len() - i,
    {
        assert(players@.skip(i as int).first() == players@[i as int]);
        assert(players@.skip(i as int).drop_first() =~= players@.skip(i + 1));
        if players[i].owner == client {
            return Some(players[i]);
        }
        i = i + 1;
    }
    None
}

/// The switch that a request brings about, if it is granted.
pub open spec fn granted(request: SwitchRequest, players: Seq<SwitchingPlayer>) -> Option<PlayerSwitch> {
    match character_of(request.client, players) {
        Some(player) => match switch_decision(player, request.target, request.client_id_bits) {
            SwitchDecision::Transition(target) => Some(
                PlayerSwitch {
                    player: player.entity,
                    client: request.client,
                    current: player.map_id,
                    target,
                },
            ),
            _ => None,
        },
        None => None,
    }
}

/// The switches that a tick's requests bring about. Each is decided by where the players were when
/// the tick began; a client that asks has a character.
pub fn handle_map_switch_requests(
    requests: &Vec<SwitchRequest>,
    players: &Vec<SwitchingPlayer>,
) -> (switches: Vec<PlayerSwitch>)
    requires
        forall|i: int|
            0 <= i < requests@.len() ==> character_of((#[trigger] requests@[i]).client, players@) is Some,
    ensures
        switches@ == filter_map(requests@, |request: SwitchRequest| granted(request, players@)),
{
    let mut switches: Vec<PlayerSwitch> = Vec::new();
    let mut i: usize = 0;
    let ghost f = |request: SwitchRequest| granted(request, players@);
    assert(requests@.take(0) =~= Seq::empty());
    while i < requests.len()
        invariant
            i <= requests@.len(),
            f == (|request: SwitchRequest| granted(request, players@)),
            switches@ == filter_map(requests@.take(i as int), f),
        decreases requests@.len() - i,
    {
        proof {
            lemma_filter_map_step(requests@, i as int, f);
        }
        let request: SwitchRequest = requests[i];
        if let Some(player) = find_character(request.client, players) {
            if let SwitchDecision::Transition(target) = handle_map_switch_request(
                &player,
                &request.target,
                request.client_id_bits,
            ) {
                switches.push(
                    PlayerSwitch {
                        player: player.entity,
                        client: request.client,
                        current: player.map_id,
                        target,
                    },
                );
            }
        }
        i = i + 1;
    }
    assert(requests@.take(i as int) =~= requests@);
    switches
}

/// Whoever is on the way to a map stays on that way: no request of theirs is granted.
pub proof fn law_travellers_are_not_diverted(request: SwitchRequest, players: Seq<SwitchingPlayer>)
    requires
        character_of(request.client, players) is Some,
        character_of(request.client, players)->0.transitioning,
    ensures
        granted(request, players) is None,
{
}

/// What a client needs to know of a map that it goes to.
#[derive(Clone, Copy, Debug, PartialEq, Eq, Structural)]
pub struct MapTransitionParams {
    pub seed: u64,
    pub generation_version: u32,
    pub bounds: Option<IVec3>,
}

/// What is known of a homebase that has no map entity yet.
#[derive(Clone, Copy, Debug, PartialEq, Eq, Structural)]
pub struct FreshHomebase {
    /// The entity that becomes its map.
    pub entity: Entity,
    /// The seed that was saved for it, if any was.
    pub saved_seed: Option<u64>,
    /// The seed that follows from its owner.
    pub derived_seed: u64,
    pub generation_version: u32,
}

/// The seed of a homebase: the saved one, or else the one that follows from its owner.
pub open spec fn homebase_seed(saved: Option<u64>, derived: u64) -> u64 {
    match saved {
        Some(seed) => seed,
        None => derived,
    }
}

pub fn load_homebase_seed(saved: Option<u64>, derived: u64) -> (seed: u64)
    ensures
        seed == homebase_seed(saved, derived),
{
    match saved {
        Some(seed) => seed,
        None => derived,
    }
}

/// A step of a transition. Steps are taken in order.
#[derive(Clone, Copy, Debug, PartialEq, Eq, Structural)]
pub enum TransitionStep {
    /// Takes a player out of the simulation until its client is ready.
    Freeze { player: Entity, pending: PendingTransition },
    /// Takes a player and its client out of a room.
    LeaveRoom { room: Entity, player: Entity, client: Entity },
    /// Puts a player and its client into a room.
    JoinRoom { room: Entity, player: Entity, client: Entity },
    /// Notes the map that a player is on.
    SetMap { player: Entity, map_id: MapInstanceId },
    /// Makes an entity the map of a homebase, with the entities that were saved with it.
    SpawnHomebase { map_entity: Entity, owner: u64, params: MapTransitionParams, tree_height: u32 },
    /// Has chunks loaded around a player.
    SetTicket { player: Entity, map_entity: Entity, kind: TicketKind },
    /// Puts a player at a position, at rest.
    Place { player: Entity, position: Vector },
    /// Tells a client to begin.
    SendStart { client: Entity, start: MapTransitionStart },
}

/// A player's move to another map, and what is needed to carry it out.
#[derive(Clone, Copy, Debug, PartialEq, Eq, Structural)]
pub struct ServerTransition {
    pub player: Entity,
    pub client: Entity,
    pub current: MapInstanceId,
    pub target: MapInstanceId,
    /// The entity that becomes the current map's room if it has none.
    pub fresh_old_room: Entity,
    /// The entity that becomes the target's room if it has none.
    pub fresh_new_room: Entity,
    /// What the target's map entity says of it, if it has one.
    pub existing: Option<MapTransitionParams>,
    /// What is known of the target if it has no map entity.
    pub fresh: Option<FreshHomebase>,
}

impl ServerTransition {
    /// Everything that the move needs is there: a map that is registered says what it is, and one
    /// that is not is a homebase.
    pub open spec fn can_start(&self, registry: &MapRegistry) -> bool {
        if registry.view().dom().contains(self.target) {
            self.existing is Some
        } else {
            self.target is Homebase && self.fresh is Some
        }
    }

    /// The target's map entity.
    pub open spec fn map_entity(&self, registry: &MapRegistry) -> Entity {
        if registry.view().dom().contains(self.target) {
            registry.view()[self.target]
        } else {
            self.fresh->0.entity
        }
    }

    /// What the client needs to know of the target.
    pub open spec fn params(&self, registry: &MapRegistry) -> MapTransitionParams {
        if registry.view().dom().contains(self.target) {
            self.existing->0
        } else {
            MapTransitionParams {
                seed: homebase_seed(self.fresh->0.saved_seed, self.fresh->0.derived_seed),
                generation_version: self.fresh->0.generation_version,
                bounds: Some(homebase_bounds_spec()),
            }
        }
    }

    /// The room of the map that the player leaves.
    pub open spec fn old_room(&self, rooms: &RoomRegistry) -> Entity {
        if rooms.view().dom().contains(self.current) {
            rooms.view()[self.current]
        } else {
            self.fresh_old_room
        }
    }

    /// The room of the map that the player goes to.
    pub open spec fn new_room(&self, rooms: &RoomRegistry) -> Entity {
        if rooms.view().dom().contains(self.target) {
            rooms.view()[self.target]
        } else if self.target == self.current {
            self.old_room(rooms)
        } else {
            self.fresh_new_room
        }
    }

    /// The rooms that the move would make are new: they are no rooms yet, and they are two.
    pub open spec fn rooms_are_new(&self, rooms: &RoomRegistry) -> bool {
        &&& can_be_room(rooms.view(), self.current, self.fresh_old_room)
        &&& can_be_room(
            rooms.view().insert(self.current, self.old_room(rooms)),
            self.target,
            self.fresh_new_room,
        )
    }

    /// The steps of the move.
    pub open spec fn steps(&self, registry: &MapRegistry, rooms: &RoomRegistry) -> Seq<TransitionStep> {
        let player = self.player;
        let client = self.client;
        let params = self.params(registry);
        let map_entity = self.map_entity(registry);
        let before = seq![
            TransitionStep::Freeze { player, pending: PendingTransition(self.target) },
            TransitionStep::LeaveRoom { room: self.old_room(rooms), player, client },
            TransitionStep::JoinRoom { room: self.new_room(rooms), player, client },
            TransitionStep::SetMap { player, map_id: self.target },
        ];
        let spawn = if registry.view().dom().contains(self.target) {
            Seq::<TransitionStep>::empty()
        } else {
            seq![
                TransitionStep::SpawnHomebase {
                    map_entity,
                    owner: self.target->owner,
                    params,
                    tree_height: HOMEBASE_TREE_HEIGHT,
                },
            ]
        };
        let after = seq![
            TransitionStep::SetTicket { player, map_entity, kind: TicketKind::Player },
            TransitionStep::Place { player, position: default_spawn() },
            TransitionStep::SendStart {
                client,
                start: MapTransitionStart {
                    target: self.target,
                    seed: params.seed,
                    generation_version: params.generation_version,
                    bounds: params.bounds,
                    spawn_position: default_spawn(),
                },
            },
        ];
        before + spawn + after
    }

    /// The map entity and parameters of the target; a homebase without a map is registered.
    fn ensure_map_exists(&self, registry: &mut MapRegistry) -> (found: (Entity, MapTransitionParams))
        requires
            old(registry).wf(),
            self.can_start(old(registry)),
        ensures
            final(registry).wf(),
            final(registry).view() == old(registry).view().insert(
                self.target,
                self.map_entity(old(registry)),
            ),
            found == (self.map_entity(old(registry)), self.params(old(registry))),
    {
        let ghost before = registry.view();
        match registry.lookup(&self.target) {
            Some(entity) => {
                assert(registry.view() =~= before.insert(self.target, entity));
                match self.existing {
                    Some(params) => (entity, params),
                    None => vstd::pervasive::unreached(),
                }
            },
            None => {
                match self.fresh {
                    Some(fresh) => {
                        let params = MapTransitionParams {
                            seed: load_homebase_seed(fresh.saved_seed, fresh.derived_seed),
                            generation_version: fresh.generation_version,
                            bounds: Some(homebase_bounds()),
                        };
                        registry.insert(self.target, fresh.entity);
                        (fresh.entity, params)
                    },
                    None => vstd::pervasive::unreached(),
                }
            },
        }
    }

    /// Carries out the move: registers what was missing, and gives the steps to take.
    pub fn execute_server_transition(
        &self,
        registry: &mut MapRegistry,
        rooms: &mut RoomRegistry,
    ) -> (steps: Vec<TransitionStep>)
        requires
            old(registry).wf(),
            old(rooms).wf(),
            self.can_start(old(registry)),
            self.rooms_are_new(old(rooms)),
        ensures
            steps@ == self.steps(old(registry), old(rooms)),
            final(registry).wf(),
            final(registry).view() == old(registry).view().insert(
                self.target,
                self.map_entity(old(registry)),
            ),
            final(rooms).wf(),
            final(rooms).view() == old(rooms).view().insert(
                self.current,
                self.old_room(old(rooms)),
            ).insert(self.target, self.new_room(old(rooms))),
    {
        let ghost rooms_before = *rooms;
        let ghost registry_before = *registry;
        let player = self.player;
        let client = self.client;
        let mut steps: Vec<TransitionStep> = Vec::new();
        steps.push(TransitionStep::Freeze { player, pending: PendingTransition(self.target) });
        let old_room = rooms.get_or_create(&self.current, self.fresh_old_room);
        assert(rooms.view() =~= rooms_before.view().insert(
            self.current,
            self.old_room(&rooms_before),
        ));
        let new_room = rooms.get_or_create(&self.target, self.fresh_new_room);
        assert(rooms.view() =~= rooms_before.view().insert(
            self.current,
            self.old_room(&rooms_before),
        ).insert(self.target, self.new_room(&rooms_before)));
        steps.push(TransitionStep::LeaveRoom { room: old_room, player, client });
        steps.push(TransitionStep::JoinRoom { room: new_room, player, client });
        steps.push(TransitionStep::SetMap { player, map_id: self.target });
        let known = registry.lookup(&self.target).is_some();
        let (map_entity, params) = self.ensure_map_exists(registry);
        if !known {
            if let MapInstanceId::Homebase { owner } = self.target {
                steps.push(
                    TransitionStep::SpawnHomebase {
                        map_entity,
                        owner,
                        params,
                        tree_height: HOMEBASE_TREE_HEIGHT,
                    },
                );
            }
        }
        steps.push(
            TransitionStep::SetTicket { player, map_entity, kind: TicketKind::Player },
        );
        let spawn_position = default_spawn_pos();
        steps.push(TransitionStep::Place { player, position: spawn_position });
        steps.push(
            TransitionStep::SendStart {
                client,
                start: MapTransitionStart {
                    target: self.target,
                    seed: params.seed,
                    generation_version: params.generation_version,
                    bounds: params.bounds,
                    spawn_position,
                },
            },
        );
        assert(steps@ =~= self.steps(&registry_before, &rooms_before));
        steps
    }
}

/// A player on its way to a map, and the client that controls it.
#[derive(Clone, Copy, Debug, PartialEq, Eq, Structural)]
pub struct TransitioningPlayer {
    pub entity: Entity,
    pub owner: Entity,
}

/// The first player on its way to a map that `client` controls.
pub open spec fn transitioning_player(client: Entity, players: Seq<TransitioningPlayer>) -> Option<
    Entity,
>
    decreases players.len(),
{
    if players.len() == 0 {
        None
    } else if players.first().owner == client {
        Some(players.first().entity)
    } else {
        transitioning_player(client, players.drop_first())
    }
}

/// The player that a client's readiness concerns: it goes back into the simulation, and its client
/// is told that the transition is over. There is none if the client's player is not on its way.
pub fn handle_map_transition_ready(
    client: Entity,
    players: &Vec<TransitioningPlayer>,
) -> (player: Option<Entity>)
    ensures
        player == transitioning_player(client, players@),
{
    let mut i: usize = 0;
    assert(players@.skip(0) =~= players@);
    while i < players.len()
        invariant
            i <= players@.len(),
            transitioning_player(client, players@) == transitioning_player(
                client,
                players@.skip(i as int),
            ),
        decreases players@.len() - i,
    {
        assert(players@.skip(i as int).first() == players@[i as int]);
        assert(players@.skip(i as int).drop_first() =~= players@.skip(i + 1));
        if players[i].owner == client {
            return Some(players[i].entity);
        }
        i = i + 1;
    }
    None
}

/// A player that goes to a map ends up registered with it: the map has an entity, both maps have
/// rooms, and what the client is told of a map that was there is what the map says of itself.
pub proof fn law_transition_is_registered(
    transition: ServerTransition,
    registry: &MapRegistry,
    rooms: &RoomRegistry,
    registry_after: &MapRegistry,
    rooms_after: &RoomRegistry,
)
    requires
        transition.can_start(registry),
        registry_after.view() == registry.view().insert(
            transition.target,
            transition.map_entity(registry),
        ),
        rooms_after.view() == rooms.view().insert(
            transition.current,
            transition.old_room(rooms),
        ).insert(transition.target, transition.new_room(rooms)),
    ensures
        ({
            let steps = transition.steps(registry, rooms);
            let map_entity = registry_after.view()[transition.target];
            &&& registry_after.view().dom().contains(transition.target)
            &&& steps.contains(
                TransitionStep::SetTicket {
                    player: transition.player,
                    map_entity,
                    kind: TicketKind::Player,
                },
            )
            &&& steps.contains(
                TransitionStep::LeaveRoom {
                    room: rooms_after.view()[transition.current],
                    player: transition.player,
                    client: transition.client,
                },
            )
            &&& steps.contains(
                TransitionStep::JoinRoom {
                    room: rooms_after.view()[transition.target],
                    player: transition.player,
                    client: transition.client,
                },
            )
            &&& steps.last() matches TransitionStep::SendStart { client, start }
            &&& client == transition.client
            &&& start.target == transition.target
            &&& transition.existing is Some && registry.view().dom().contains(transition.target)
                ==> MapTransitionParams {
                seed: start.seed,
                generation_version: start.generation_version,
                bounds: start.bounds,
            } == transition.existing->0
        }),
{
    let steps = transition.steps(registry, rooms);
    assert(steps[1] == TransitionStep::LeaveRoom {
        room: transition.old_room(rooms),
        player: transition.player,
        client: transition.client,
    });
    assert(steps[2] == TransitionStep::JoinRoom {
        room: transition.new_room(rooms),
        player: transition.player,
        client: transition.client,
    });
    assert(steps[steps.len() - 3] == TransitionStep::SetTicket {
        player: transition.player,
        map_entity: transition.map_entity(registry),
        kind: TicketKind::Player,
    });
}

/// A homebase gets its map once: going there again finds the map that was registered.
pub proof fn law_homebase_is_spawned_once(
    first: ServerTransition,
    registry: &MapRegistry,
    registry_after: &MapRegistry,
    second: ServerTransition,
    rooms: &RoomRegistry,
)
    requires
        first.can_start(registry),
        registry_after.view() == registry.view().insert(first.target, first.map_entity(registry)),
        second.target == first.target,
        second.can_start(registry_after),
    ensures
        second.map_entity(registry_after) == first.map_entity(registry),
        forall|i: int|
            0 <= i < second.steps(registry_after, rooms).len() ==> !(#[trigger] second.steps(
                registry_after,
                rooms,
            )[i] is SpawnHomebase),
{
}

/// Whether `step` is the only step of its kind, and is taken.
pub open spec fn is_taken_once(
    steps: Seq<TransitionStep>,
    step: TransitionStep,
    same_kind: spec_fn(TransitionStep) -> bool,
) -> bool {
    exists|i: int| 0 <= i < steps.len() && #[trigger] steps[i] == step && forall|j: int|
        0 <= j < steps.len() && same_kind(#[trigger] steps[j]) ==> j == i
}

/// A move notes the target as the player's map, and no other map; it freezes the player first, puts it
/// five units above the origin of the target, and tells the client last.
pub proof fn law_player_is_moved_to_the_target(
    transition: ServerTransition,
    registry: &MapRegistry,
    rooms: &RoomRegistry,
)
    requires
        transition.can_start(registry),
    ensures
        ({
            let steps = transition.steps(registry, rooms);
            let player = transition.player;
            let target = transition.target;
            let place = Vector { x: Scalar(0), y: Scalar(0x40a0_0000), z: Scalar(0) };
            &&& steps.first() == TransitionStep::Freeze {
                player,
                pending: PendingTransition(target),
            }
            &&& is_taken_once(
                steps,
                TransitionStep::SetMap { player, map_id: target },
                |s: TransitionStep| s is SetMap,
            )
            &&& is_taken_once(
                steps,
                TransitionStep::Place { player, position: place },
                |s: TransitionStep| s is Place,
            )
            &&& is_taken_once(steps, steps.first(), |s: TransitionStep| s is Freeze)
            &&& is_taken_once(steps, steps.last(), |s: TransitionStep| s is SendStart)
            &&& steps.last() matches TransitionStep::SendStart { client, start }
            &&& client == transition.client
            &&& start.target == target
            &&& start.spawn_position == place
        }),
{
    let steps = transition.steps(registry, rooms);
    let n = steps.len() as int;
    assert(steps[3] == TransitionStep::SetMap {
        player: transition.player,
        map_id: transition.target,
    });
    assert(steps[n - 2] is Place);
    assert(steps[n - 1] is SendStart);
    assert(steps[0] is Freeze);
}

/// A move takes the player and its client out of the room of the map that they leave and into that of
/// the target: the rooms that there are, or else the new ones. No other room is left or joined.
pub proof fn law_rooms_change_with_the_map(
    transition: ServerTransition,
    registry: &MapRegistry,
    rooms: &RoomRegistry,
)
    requires
        transition.can_start(registry),
        transition.current != transition.target,
    ensures
        ({
            let steps = transition.steps(registry, rooms);
            let (player, client) = (transition.player, transition.client);
            let left = if rooms.view().dom().contains(transition.current) {
                rooms.view()[transition.current]
            } else {
                transition.fresh_old_room
            };
            let joined = if rooms.view().dom().contains(transition.target) {
                rooms.view()[transition.target]
            } else {
                transition.fresh_new_room
            };
            &&& is_taken_once(
                steps,
                TransitionStep::LeaveRoom { room: left, player, client },
                |s: TransitionStep| s is LeaveRoom,
            )
            &&& is_taken_once(
                steps,
                TransitionStep::JoinRoom { room: joined, player, client },
                |s: TransitionStep| s is JoinRoom,
            )
        }),
{
    let steps = transition.steps(registry, rooms);
    assert(steps[1] is LeaveRoom);
    assert(steps[2] is JoinRoom);
}

/// A player gets chunks of the target's map, and the client is told what that map is. A map that is
/// registered says what it is; a homebase that is not is spawned, once, with the seed that was saved or
/// else follows from its owner, four chunks in each direction.
pub proof fn law_target_is_described(
    transition: ServerTransition,
    registry: &MapRegistry,
    rooms: &RoomRegistry,
)
    requires
        transition.can_start(registry),
    ensures
        ({
            let steps = transition.steps(registry, rooms);
            let player = transition.player;
            let known = registry.view().dom().contains(transition.target);
            let map_entity = if known {
                registry.view()[transition.target]
            } else {
                transition.fresh->0.entity
            };
            &&& is_taken_once(
                steps,
                TransitionStep::SetTicket { player, map_entity, kind: TicketKind::Player },
                |s: TransitionStep| s is SetTicket,
            )
            &&& known ==> forall|i: int|
                0 <= i < steps.len() ==> !((#[trigger] steps[i]) is SpawnHomebase)
            &&& steps.last() matches TransitionStep::SendStart { client, start }
            &&& known ==> transition.existing == Some(
                MapTransitionParams {
                    seed: start.seed,
                    generation_version: start.generation_version,
                    bounds: start.bounds,
                },
            )
            &&& !known ==> {
                &&& start.seed == (if transition.fresh->0.saved_seed is Some {
                    transition.fresh->0.saved_seed->0
                } else {
                    transition.fresh->0.derived_seed
                })
                &&& start.generation_version == transition.fresh->0.generation_version
                &&& start.bounds == Some(IVec3 { x: 4, y: 4, z: 4 })
                &&& is_taken_once(
                    steps,
                    TransitionStep::SpawnHomebase {
                        map_entity,
                        owner: transition.target->owner,
                        params: MapTransitionParams {
                            seed: start.seed,
                            generation_version: start.generation_version,
                            bounds: start.bounds,
                        },
                        tree_height: 3,
                    },
                    |s: TransitionStep| s is SpawnHomebase,
                )
            }
        }),
{
    let steps = transition.steps(registry, rooms);
    let n = steps.len() as int;
    assert(steps[n - 1] is SendStart);
    assert(steps[n - 3] is SetTicket);
    if !registry.view().dom().contains(transition.target) {
        assert(steps[4] is SpawnHomebase);
    }
}

/// A request to go somewhere is granted to whoever is not there and not on the way: a player is in the
/// overworld or in its own homebase, and goes to the one it asks for.
pub proof fn law_requests_to_go_elsewhere_are_granted(player: SwitchingPlayer, client_id_bits: u64)
    ensures
        player.transitioning ==> forall|target: MapSwitchTarget| #[trigger]
            switch_decision(player, target, client_id_bits) == SwitchDecision::AlreadyTransitioning,
        !player.transitioning ==> {
            let home = MapInstanceId::Homebase { owner: client_id_bits };
            &&& switch_decision(player, MapSwitchTarget::Overworld, client_id_bits)
                == if player.map_id == MapInstanceId::Overworld {
                SwitchDecision::AlreadyThere
            } else {
                SwitchDecision::Transition(MapInstanceId::Overworld)
            }
            &&& switch_decision(player, MapSwitchTarget::Homebase, client_id_bits)
                == if player.map_id == home {
                SwitchDecision::AlreadyThere
            } else {
                SwitchDecision::Transition(home)
            }
        },
{
}

/// Whoever has been moved is there: the same request again finds the player where it asks to go, and a
/// request for the map that it left is granted.
pub proof fn law_moved_players_can_return(
    transition: ServerTransition,
    registry: &MapRegistry,
    rooms: &RoomRegistry,
    noted: MapInstanceId,
    player: SwitchingPlayer,
    there: MapSwitchTarget,
    back: MapSwitchTarget,
    client_id_bits: u64,
)
    requires
        transition.can_start(registry),
        transition.steps(registry, rooms).contains(
            TransitionStep::SetMap { player: transition.player, map_id: noted },
        ),
        player.map_id == noted,
        !player.transitioning,
        switch_decision(
            SwitchingPlayer { map_id: transition.current, transitioning: false, ..player },
            there,
            client_id_bits,
        ) == SwitchDecision::Transition(transition.target),
        switch_decision(
            SwitchingPlayer { map_id: transition.current, transitioning: false, ..player },
            back,
            client_id_bits,
        ) == SwitchDecision::AlreadyThere,
    ensures
        switch_decision(player, there, client_id_bits) == SwitchDecision::AlreadyThere,
        switch_decision(player, back, client_id_bits) == SwitchDecision::Transition(
            transition.current,
        ),
{
    law_player_is_moved_to_the_target(transition, registry, rooms);
}

proof fn lemma_first_character(client: Entity, players: Seq<SwitchingPlayer>, p: int)
    requires
        0 <= p < players.len(),
        players[p].owner == client,
        forall|q: int| 0 <= q < p ==> (#[trigger] players[q]).owner != client,
    ensures
        character_of(client, players) == Some(players[p]),
    decreases players.len(),
{
    if p > 0 {
        assert(players[0].owner != client);
        let rest = players.drop_first();
        assert forall|q: int| 0 <= q < p - 1 implies (#[trigger] rest[q]).owner != client by {
            assert(players[q + 1].owner != client);
        }
        assert(rest[p - 1] == players[p]);
        lemma_first_character(client, rest, p - 1);
    }
}

/// A request is decided by the first character that the client controls: if it is not on the way and
/// not where it asks to go, it goes there from where it is.
pub proof fn law_switch_moves_the_clients_character(
    request: SwitchRequest,
    players: Seq<SwitchingPlayer>,
    p: int,
)
    requires
        0 <= p < players.len(),
        players[p].owner == request.client,
        forall|q: int| 0 <= q < p ==> (#[trigger] players[q]).owner != request.client,
    ensures
        ({
            let target = if request.target == MapSwitchTarget::Overworld {
                MapInstanceId::Overworld
            } else {
                MapInstanceId::Homebase { owner: request.client_id_bits }
            };
            granted(request, players) == if players[p].transitioning || players[p].map_id == target {
                None
            } else {
                Some(
                    PlayerSwitch {
                        player: players[p].entity,
                        client: request.client,
                        current: players[p].map_id,
                        target,
                    },
                )
            }
        }),
{
    lemma_first_character(request.client, players, p);
}

/// The switches of a tick are those of the requests that are granted, in the order of the requests.
/// Gives the request that each switch comes of.
pub proof fn law_every_granted_request_is_carried_out(
    requests: Seq<SwitchRequest>,
    players: Seq<SwitchingPlayer>,
    switches: Seq<PlayerSwitch>,
) -> (at: Seq<int>)
    requires
        switches == filter_map(requests, |request: SwitchRequest| granted(request, players)),
    ensures
        at.len() == switches.len(),
        picks(at, requests.len() as int, |i: int| granted(requests[i], players) is Some),
        forall|k: int|
            0 <= k < at.len() ==> granted(requests[#[trigger] at[k]], players) == Some(switches[k]),
{
    let f = |request: SwitchRequest| granted(request, players);
    let at = lemma_filter_map_picks(requests, f);
    lemma_picks_same(
        at,
        requests.len() as int,
        |i: int| f(requests[i]) is Some,
        |i: int| granted(requests[i], players) is Some,
    );
    at
}

/// A client's readiness ends the transition of the first player on its way that the client controls,
/// and of no other.
pub proof fn law_readiness_is_the_clients_own(
    client: Entity,
    players: Seq<TransitioningPlayer>,
    p: int,
)
    requires
        0 <= p <= players.len(),
        forall|q: int| 0 <= q < p ==> (#[trigger] players[q]).owner != client,
    ensures
        p < players.len() && players[p].owner == client ==> transitioning_player(client, players)
            == Some(players[p].entity),
        p == players.len() ==> transitioning_player(client, players) is None,
    decreases players.len(),
{
    if p > 0 {
        assert(players[0].owner != client);
        let rest = players.drop_first();
        assert forall|q: int| 0 <= q < p - 1 implies (#[trigger] rest[q]).owner != client by {
            assert(players[q + 1].owner != client);
        }
        if p < players.len() {
            assert(rest[p - 1] == players[p]);
        }
        law_readiness_is_the_clients_own(client, rest, p - 1);
    }
}

} // verus!
