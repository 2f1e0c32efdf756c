//! What ability systems read of the world around an ability.
use crate::ability::types::{
    phases_in, AbilityAsset, AbilityComponent, AbilityDefs, AbilityId, AbilityPhases,
};
use crate::entity::Entity;
use crate::map::types::MapInstanceId;
use crate::player::PlayerId;
use std::collections::{HashMap, HashSet};
use vstd::prelude::*;

verus! {

broadcast use vstd::std_specs::hash::group_hash_axioms;

/// Which spatial components an entity has.
#[derive(Clone, Copy, Debug, PartialEq, Eq, Structural)]
pub struct Body {
    pub position: bool,
    pub rotation: bool,
    pub velocity: bool,
    pub map: Option<MapInstanceId>,
}

/// The components and assets that ability systems look up, keyed by entity bits and asset handles.
pub struct AbilityWorld {
    pub defs: AbilityDefs,
    /// Loaded assets, by handle.
    pub assets: HashMap<u64, AbilityAsset>,
    pub players: HashMap<u64, PlayerId>,
    /// Entities that a client controls; only the server has any.
    pub controlled: HashSet<u64>,
    pub bodies: HashMap<u64, Body>,
}

impl AbilityWorld {
    pub open spec fn wf(&self) -> bool {
        self.defs.wf()
    }

    /// The handle of an ability whose asset is loaded.
    pub open spec fn loaded_handle(&self, id: AbilityId) -> Option<u64> {
        match self.defs.handle_of(id) {
            Some(handle) if self.assets@.dom().contains(handle) => Some(handle),
            _ => None,
        }
    }

    /// The phases of an ability whose asset is loaded and holds them.
    pub open spec fn loaded_phases(&self, id: AbilityId) -> Option<AbilityPhases> {
        match self.loaded_handle(id) {
            Some(handle) => phases_in(self.assets@[handle].components@),
            None => None,
        }
    }

    pub open spec fn player_of(&self, entity: Entity) -> Option<PlayerId> {
        if self.players@.dom().contains(entity.bits_spec()) {
            Some(self.players@[entity.bits_spec()])
        } else {
            None
        }
    }

    pub open spec fn is_controlled_spec(&self, entity: Entity) -> bool {
        self.controlled@.contains(entity.bits_spec())
    }

    pub open spec fn body_of(&self, entity: Entity) -> Option<Body> {
        if self.bodies@.dom().contains(entity.bits_spec()) {
            Some(self.bodies@[entity.bits_spec()])
        } else {
            None
        }
    }

    /// The map of an entity that has a position and a rotation on one.
    pub open spec fn placed_on(&self, entity: Entity) -> Option<MapInstanceId> {
        match self.body_of(entity) {
            Some(body) if body.position && body.rotation => body.map,
            _ => None,
        }
    }

    /// Whether an entity has a rotation and a velocity.
    pub open spec fn can_be_driven(&self, entity: Entity) -> bool {
        match self.body_of(entity) {
            Some(body) => body.rotation && body.velocity,
            None => false,
        }
    }

    /// Whether an entity has a position, a rotation and a velocity.
    pub open spec fn is_mobile_spec(&self, entity: Entity) -> bool {
        match self.body_of(entity) {
            Some(body) => body.position && body.rotation && body.velocity,
            None => false,
        }
    }

    /// The handle of an ability whose asset is loaded, and that asset.
    pub fn asset(&self, id: &AbilityId) -> (found: Option<(u64, &AbilityAsset)>)
        requires
            self.wf(),
        ensures
            found is Some <==> self.loaded_handle(*id) is Some,
            found matches Some((handle, asset)) ==> self.loaded_handle(*id) == Some(handle)
                && *asset == self.assets@[handle],
    {
        match self.defs.get(id) {
            Some(handle) => {
                match self.assets.get(&handle) {
                    Some(asset) => Some((handle, asset)),
                    None => None,
                }
            },
            None => None,
        }
    }

    pub fn player(&self, entity: Entity) -> (player: Option<PlayerId>)
        ensures
            player == self.player_of(entity),
    {
        match self.players.get(&entity.to_bits()) {
            Some(player) => Some(*player),
            None => None,
        }
    }

    pub fn is_controlled(&self, entity: Entity) -> (controlled: bool)
        ensures
            controlled == self.is_controlled_spec(entity),
    {
        self.controlled.contains(&entity.to_bits())
    }

    fn body(&self, entity: Entity) -> (body: Option<Body>)
        ensures
            body == self.body_of(entity),
    {
        match self.bodies.get(&entity.to_bits()) {
            Some(body) => Some(*body),
            None => None,
        }
    }

    pub fn map_of_placed(&self, entity: Entity) -> (map: Option<MapInstanceId>)
        ensures
            map == self.placed_on(entity),
    {
        match self.body(entity) {
            Some(body) => {
                if body.position && body.rotation {
                    body.map
                } else {
                    None
                }
            },
            None => None,
        }
    }

    pub fn is_drivable(&self, entity: Entity) -> (drivable: bool)
        ensures
            drivable == self.can_be_driven(entity),
    {
        match self.body(entity) {
            Some(body) => body.rotation && body.velocity,
            None => false,
        }
    }

    pub fn is_mobile(&self, entity: Entity) -> (mobile: bool)
        ensures
            mobile == self.is_mobile_spec(entity),
    {
        match self.body(entity) {
            Some(body) => body.position && body.rotation && body.velocity,
            None => false,
        }
    }
}

/// An entity is placed if it has a position, a rotation and a map; it can be driven if it has a rotation
/// and a velocity, and is mobile if it has a position too.
pub proof fn law_bodies_are_what_they_have(world: &AbilityWorld, entity: Entity)
    ensures
        ({
            let known = world.bodies@.dom().contains(entity.bits_spec());
            let body = world.bodies@[entity.bits_spec()];
            &&& world.placed_on(entity) == if known && body.position && body.rotation {
                body.map
            } else {
                None
            }
            &&& world.can_be_driven(entity) <==> known && body.rotation && body.velocity
            &&& world.is_mobile_spec(entity) <==> known && body.position && body.rotation
                && body.velocity
        }),
        world.is_controlled_spec(entity) <==> world.controlled@.contains(entity.bits_spec()),
{
}

/// An ability is loaded if its name has a handle and the handle an asset; its phases are the first that
/// the asset holds.
pub proof fn law_loaded_abilities_have_assets(world: &AbilityWorld, id: AbilityId, i: int)
    ensures
        ({
            let names = world.defs.abilities.view();
            let loaded = names.dom().contains(id.0@) && world.assets@.dom().contains(names[id.0@]);
            let parts = world.assets@[names[id.0@]].components@;
            &&& world.loaded_handle(id) == if loaded {
                Some(names[id.0@])
            } else {
                None
            }
            &&& !loaded ==> world.loaded_phases(id) is None
            &&& loaded && 0 <= i <= parts.len() && (forall|j: int|
                0 <= j < i ==> !((#[trigger] parts[j]) is Phases)) ==> {
                &&& i == parts.len() ==> world.loaded_phases(id) is None
                &&& i < parts.len() && parts[i] is Phases ==> world.loaded_phases(id) == Some(
                    parts[i]->Phases_0,
                )
            }
        }),
{
    let names = world.defs.abilities.view();
    if names.dom().contains(id.0@) && world.assets@.dom().contains(names[id.0@]) {
        let parts = world.assets@[names[id.0@]].components@;
        if 0 <= i <= parts.len() && (forall|j: int|
            0 <= j < i ==> !((#[trigger] parts[j]) is Phases)) {
            lemma_first_phases(parts, i);
        }
    }
}

proof fn lemma_first_phases(parts: Seq<AbilityComponent>, i: int)
    requires
        0 <= i <= parts.len(),
        forall|j: int| 0 <= j < i ==> !((#[trigger] parts[j]) is Phases),
    ensures
        i == parts.len() ==> phases_in(parts) is None,
        i < parts.len() && parts[i] is Phases ==> phases_in(parts) == Some(parts[i]->Phases_0),
    decreases parts.len(),
{
    if i > 0 {
        assert(!(parts[0] is Phases));
        let rest = parts.drop_first();
        assert forall|j: int| 0 <= j < i - 1 implies !((#[trigger] rest[j]) is Phases) by {
            assert(rest[j] == parts[j + 1]);
        }
        if i < parts.len() {
            assert(rest[i - 1] == parts[i]);
        }
        lemma_first_phases(rest, i - 1);
    }
}

} // verus!
