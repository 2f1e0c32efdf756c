//! Rooms: who is told of what happens on a map.
use crate::entity::Entity;
use crate::map::types::{can_be_room, rooms_distinct, MapInstanceId, RoomRegistry};
use vstd::prelude::*;

verus! {

/// Who enters or leaves a room: an entity that others see there, or a client that listens.
#[derive(Clone, Copy, Debug, PartialEq, Eq, Structural)]
pub enum RoomTarget {
    AddEntity(Entity),
    RemoveEntity(Entity),
    AddSender(Entity),
    RemoveSender(Entity),
}

/// Someone enters or leaves a room.
#[derive(Clone, Copy, Debug, PartialEq, Eq, Structural)]
pub struct RoomEvent {
    pub room: Entity,
    pub target: RoomTarget,
}

/// The room of a map, where `fresh` is the one that it gets if it has none.
pub open spec fn room_of(
    rooms: Map<MapInstanceId, Entity>,
    map_id: MapInstanceId,
    fresh: Entity,
) -> Entity {
    if rooms.dom().contains(map_id) {
        rooms[map_id]
    } else {
        fresh
    }
}

/// An entity came to a map: it enters the map's room. `fresh` becomes that room if there is none.
pub fn on_map_instance_id_added(
    rooms: &mut RoomRegistry,
    map_id: &MapInstanceId,
    entity: Entity,
    fresh: Entity,
) -> (event: RoomEvent)
    requires
        old(rooms).wf(),
        can_be_room(old(rooms).view(), *map_id, fresh),
    ensures
        final(rooms).wf(),
        final(rooms).view() == old(rooms).view().insert(
            *map_id,
            room_of(old(rooms).view(), *map_id, fresh),
        ),
        event == (RoomEvent {
            room: room_of(old(rooms).view(), *map_id, fresh),
            target: RoomTarget::AddEntity(entity),
        }),
{
    let ghost before = rooms.view();
    let room: Entity = rooms.get_or_create(map_id, fresh);
    assert(rooms.view() =~= before.insert(*map_id, room));
    RoomEvent { room, target: RoomTarget::AddEntity(entity) }
}

/// The rooms once a map has one: `fresh`, unless it had one before.
pub open spec fn with_room(
    rooms: Map<MapInstanceId, Entity>,
    map_id: MapInstanceId,
    fresh: Entity,
) -> Map<MapInstanceId, Entity> {
    rooms.insert(map_id, room_of(rooms, map_id, fresh))
}

/// A map keeps its room: asking again gives the same one, makes none, and changes nothing.
pub proof fn law_room_is_kept(
    rooms: Map<MapInstanceId, Entity>,
    map_id: MapInstanceId,
    first: Entity,
    second: Entity,
)
    ensures
        room_of(with_room(rooms, map_id, first), map_id, second) == room_of(rooms, map_id, first),
        with_room(with_room(rooms, map_id, first), map_id, second) == with_room(
            rooms,
            map_id,
            first,
        ),
{
    assert(with_room(with_room(rooms, map_id, first), map_id, second) =~= with_room(
        rooms,
        map_id,
        first,
    ));
}

/// Rooms stay apart: where no two maps share a room, none do once a map has been given one, and the
/// other maps keep theirs.
pub proof fn law_rooms_stay_distinct(
    rooms: Map<MapInstanceId, Entity>,
    map_id: MapInstanceId,
    fresh: Entity,
)
    requires
        rooms_distinct(rooms),
        can_be_room(rooms, map_id, fresh),
    ensures
        rooms_distinct(with_room(rooms, map_id, fresh)),
        forall|other: MapInstanceId|
            other != map_id && rooms.dom().contains(other) ==> #[trigger] with_room(
                rooms,
                map_id,
                fresh,
            )[other] == rooms[other],
{
    let after = with_room(rooms, map_id, fresh);
    assert forall|a: MapInstanceId, b: MapInstanceId|
        after.dom().contains(a) && after.dom().contains(b) && #[trigger] after[a]
            == #[trigger] after[b] implies a == b by {
        if rooms.dom().contains(a) {
            assert(rooms.contains_value(rooms[a]));
        }
        if rooms.dom().contains(b) {
            assert(rooms.contains_value(rooms[b]));
        }
    }
}

/// Entities that come to the same map meet in one room, and entities that come to different maps do
/// not.
pub proof fn law_rooms_follow_maps(
    rooms: Map<MapInstanceId, Entity>,
    first: MapInstanceId,
    second: MapInstanceId,
    fresh_first: Entity,
    fresh_second: Entity,
)
    requires
        rooms_distinct(rooms),
        can_be_room(rooms, first, fresh_first),
        can_be_room(with_room(rooms, first, fresh_first), second, fresh_second),
    ensures
        room_of(rooms, first, fresh_first) == room_of(
            with_room(rooms, first, fresh_first),
            second,
            fresh_second,
        ) <==> first == second,
{
    let after = with_room(rooms, first, fresh_first);
    law_rooms_stay_distinct(rooms, first, fresh_first);
    assert(after.dom().contains(first));
    assert(after.contains_value(after[first]));
}

/// A map's own room is the one that is entered; only a map without one gets a new one, and no other
/// map's room changes.
pub proof fn law_maps_own_room_is_entered(
    rooms: Map<MapInstanceId, Entity>,
    map_id: MapInstanceId,
    fresh: Entity,
)
    ensures
        rooms.dom().contains(map_id) ==> room_of(rooms, map_id, fresh) == rooms[map_id],
        !rooms.dom().contains(map_id) ==> room_of(rooms, map_id, fresh) == fresh,
        rooms.dom().contains(map_id) ==> with_room(rooms, map_id, fresh) == rooms,
        !rooms.dom().contains(map_id) ==> with_room(rooms, map_id, fresh) == rooms.insert(
            map_id,
            fresh,
        ),
{
    if rooms.dom().contains(map_id) {
        assert(with_room(rooms, map_id, fresh) =~= rooms);
    }
}

} // verus!
