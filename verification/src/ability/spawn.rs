//! Abilities that start other abilities, and the salts that tell predicted spawns apart.
use crate::ability::types::{AbilityId, AbilityPhase, ActiveAbility};
use crate::ability::world::AbilityWorld;
use crate::entity::Entity;
use crate::player::PlayerId;
use crate::tick::Tick;
use std::collections::hash_map::DefaultHasher;
use std::hash::Hasher;
use vstd::prelude::*;
use vstd::std_specs::hash::DefaultHasherAdditionalSpecFns;
use vstd::utf8::encode_utf8;

verus! {

/// The deepest level at which one ability starts another.
pub const MAX_SUB_ABILITY_DEPTH: u8 = 4;

/// What the salt of a predicted ability is made of.
#[derive(Clone, Copy, Debug, PartialEq, Eq, Structural)]
pub enum SpawnSalt {
    /// An ability that a player activated from a slot.
    Activation { player: PlayerId, slot: u8 },
    /// An ability that another one started, in the name of a player.
    SubAbility { player: PlayerId },
}

/// An ability to be spawned, with the components of an asset.
#[derive(Debug)]
pub struct AbilitySpawn {
    pub ability: ActiveAbility,
    pub salt: SpawnSalt,
    /// The asset whose components the ability gets.
    pub asset: u64,
    /// Whether the ability is replicated to clients, under the control of its original caster's
    /// client.
    pub replicated: bool,
}

/// Whether `bytes` are the bytes of `n`, in either order.
pub open spec fn is_native_bytes(n: u64, bytes: Seq<u8>) -> bool {
    ||| bytes == vstd::bytes::spec_u64_to_le_bytes(n)
    ||| bytes == vstd::bytes::spec_u64_to_le_bytes(n).reverse()
}

/// `u64::to_ne_bytes`: the bytes of `n` in the order of the machine.
#[verifier::external_body]
fn native_bytes(n: u64) -> (bytes: [u8; 8])
    ensures
        is_native_bytes(n, bytes@),
{
    n.to_ne_bytes()
}

/// What is hashed for the salt of a sub-ability, given the bytes of its player.
pub open spec fn sub_ability_salt_writes(player: Seq<u8>, slot: u8, depth: u8, id: Seq<u8>) -> Seq<
    Seq<u8>,
> {
    seq![player, seq![slot], seq![depth], id, seq![0xffu8]]
}

/// The salt of a sub-ability: a hash of its player, slot, depth and name.
pub fn compute_sub_ability_salt(player_id: PlayerId, slot: u8, depth: u8, id: &str) -> (salt: u64)
    ensures
        exists|player: Seq<u8>| #[trigger]
            is_native_bytes(player_id.0, player) && salt == DefaultHasher::spec_finish(
                sub_ability_salt_writes(player, slot, depth, encode_utf8(id@)),
            ),
{
    let mut hasher = DefaultHasher::new();
    let player = native_bytes(player_id.0);
    let slot_bytes: [u8; 1] = [slot];
    let depth_bytes: [u8; 1] = [depth];
    let end: [u8; 1] = [0xff];
    hasher.write(&player);
    hasher.write(&slot_bytes);
    hasher.write(&depth_bytes);
    hasher.write(id.as_bytes());
    hasher.write(&end);
    proof {
        assert(slot_bytes@ =~= seq![slot]);
        assert(depth_bytes@ =~= seq![depth]);
        assert(end@ =~= seq![0xffu8]);
        assert(hasher@ =~= sub_ability_salt_writes(player@, slot, depth, encode_utf8(id@)));
        assert(is_native_bytes(player_id.0, player@));
    }
    hasher.finish()
}

/// The ability that `id` starts for `target` in the name of `original_caster`, if it may start.
pub open spec fn sub_ability_spawn(
    world: &AbilityWorld,
    id: String,
    target: Entity,
    original_caster: Entity,
    parent_slot: u8,
    parent_depth: u8,
    tick: Tick,
) -> Option<AbilitySpawn> {
    if parent_depth >= MAX_SUB_ABILITY_DEPTH {
        None
    } else {
        match (world.loaded_handle(AbilityId(id)), world.player_of(original_caster)) {
            (Some(asset), Some(player)) => Some(
                AbilitySpawn {
                    ability: ActiveAbility {
                        def_id: AbilityId(id),
                        caster: target,
                        original_caster,
                        target,
                        phase: AbilityPhase::Startup,
                        phase_start_tick: tick,
                        ability_slot: parent_slot,
                        depth: (parent_depth + 1) as u8,
                    },
                    salt: SpawnSalt::SubAbility { player },
                    asset,
                    replicated: world.is_controlled_spec(original_caster),
                },
            ),
            _ => None,
        }
    }
}

/// Starts an ability from another one, at most [`MAX_SUB_ABILITY_DEPTH`] levels deep.
pub fn spawn_sub_ability(
    world: &AbilityWorld,
    id: &String,
    target_entity: Entity,
    original_caster: Entity,
    parent_slot: u8,
    parent_depth: u8,
    tick: Tick,
) -> (spawn: Option<AbilitySpawn>)
    requires
        world.wf(),
    ensures
        spawn == sub_ability_spawn(
            world,
            *id,
            target_entity,
            original_caster,
            parent_slot,
            parent_depth,
            tick,
        ),
{
    if parent_depth >= MAX_SUB_ABILITY_DEPTH {
        return None;
    }
    let def_id = AbilityId(id.clone());
    let asset: u64 = match world.asset(&def_id) {
        Some((handle, _)) => handle,
        None => {
            return None;
        },
    };
    let player = match world.player(original_caster) {
        Some(player) => player,
        None => {
            return None;
        },
    };
    let depth: u8 = parent_depth + 1;
    Some(
        AbilitySpawn {
            ability: ActiveAbility {
                def_id,
                caster: target_entity,
                original_caster,
                target: target_entity,
                phase: AbilityPhase::Startup,
                phase_start_tick: tick,
                ability_slot: parent_slot,
                depth,
            },
            salt: SpawnSalt::SubAbility { player },
            asset,
            replicated: world.is_controlled(original_caster),
        },
    )
}

/// The salt of an activated ability: the low half of the player's bits over the slot.
pub open spec fn activation_salt_spec(player: PlayerId, slot: u8) -> int {
    (player.0 as int % 0x1_0000_0000) * 0x1_0000_0000 + slot * 0x1_0000
}

pub fn activation_salt(player_id: PlayerId, slot: u8) -> (salt: u64)
    ensures
        salt == activation_salt_spec(player_id, slot),
{
    let bits: u64 = player_id.0;
    let index: u64 = slot as u64;
    let salt: u64 = bits << 32 | index << 16;
    assert(salt == (bits % 0x1_0000_0000) * 0x1_0000_0000 + index * 0x1_0000) by (bit_vector)
        requires
            salt == bits << 32 | index << 16,
            index < 0x100,
    ;
    salt
}

/// The salt of a projectile: the slot over the depth of the ability that fires it.
pub fn projectile_salt(slot: u8, depth: u8) -> (salt: u64)
    ensures
        salt == slot * 0x100 + depth,
{
    let high: u64 = slot as u64;
    let low: u64 = depth as u64;
    let salt: u64 = high << 8 | low;
    assert(salt == high * 0x100 + low) by (bit_vector)
        requires
            salt == high << 8 | low,
            high < 0x100,
            low < 0x100,
    ;
    salt
}

impl AbilitySpawn {
    /// The salt under which the ability is predicted.
    pub fn salt_value(&self) -> (salt: u64)
        ensures
            match self.salt {
                SpawnSalt::Activation { player, slot } => salt == activation_salt_spec(player, slot),
                SpawnSalt::SubAbility { player } => exists|bytes: Seq<u8>| #[trigger]
                    is_native_bytes(player.0, bytes) && salt == DefaultHasher::spec_finish(
                        sub_ability_salt_writes(
                            bytes,
                            self.ability.ability_slot,
                            self.ability.depth,
                            encode_utf8(self.ability.def_id.0@),
                        ),
                    ),
            },
    {
        match self.salt {
            SpawnSalt::Activation { player, slot } => activation_salt(player, slot),
            SpawnSalt::SubAbility { player } => {
                compute_sub_ability_salt(
                    player,
                    self.ability.ability_slot,
                    self.ability.depth,
                    self.ability.def_id.0.as_str(),
                )
            },
        }
    }
}

/// An ability starts another one exactly if it is less than four levels deep, the other is loaded, and
/// the one that it acts for is a player's. The new one begins its Startup with the one that gets it as
/// its caster, acts for the same entity, keeps the slot, and is one level deeper.
pub proof fn law_sub_abilities_start(
    world: &AbilityWorld,
    id: String,
    target: Entity,
    original_caster: Entity,
    parent_slot: u8,
    parent_depth: u8,
    tick: Tick,
)
    ensures
        ({
            let spawn = sub_ability_spawn(
                world,
                id,
                target,
                original_caster,
                parent_slot,
                parent_depth,
                tick,
            );
            let names = world.defs.abilities.view();
            let loaded = names.dom().contains(id@) && world.assets@.dom().contains(names[id@]);
            let played = world.players@.dom().contains(original_caster.bits_spec());
            &&& spawn is Some <==> parent_depth < 4 && loaded && played
            &&& spawn matches Some(spawn) ==> {
                &&& spawn.ability.def_id.0 == id
                &&& spawn.ability.caster == target
                &&& spawn.ability.target == target
                &&& spawn.ability.original_caster == original_caster
                &&& spawn.ability.phase == AbilityPhase::Startup
                &&& spawn.ability.phase_start_tick == tick
                &&& spawn.ability.ability_slot == parent_slot
                &&& spawn.ability.depth == parent_depth + 1
                &&& spawn.asset == names[id@]
                &&& spawn.salt == SpawnSalt::SubAbility {
                    player: world.players@[original_caster.bits_spec()],
                }
                &&& spawn.replicated == world.controlled@.contains(original_caster.bits_spec())
            }
        }),
{
}

/// The salts of activated abilities tell players apart, as far as the low halves of their bits do, and
/// slots.
pub proof fn law_activation_salts_differ(a: PlayerId, b: PlayerId, slot: u8, other: u8)
    ensures
        activation_salt_spec(a, slot) == activation_salt_spec(b, other) <==> a.0 as int
            % 0x1_0000_0000 == b.0 as int % 0x1_0000_0000 && slot == other,
        0 <= activation_salt_spec(a, slot) <= u64::MAX,
        activation_salt_spec(a, slot) as int % 0x1_0000 == 0,
{
}

/// What is hashed for the salt of a sub-ability tells players, slots, depths and names apart.
pub proof fn law_sub_ability_salts_differ(
    player: Seq<u8>,
    slot: u8,
    depth: u8,
    id: Seq<u8>,
    other_player: Seq<u8>,
    other_slot: u8,
    other_depth: u8,
    other_id: Seq<u8>,
)
    requires
        sub_ability_salt_writes(player, slot, depth, id) == sub_ability_salt_writes(
            other_player,
            other_slot,
            other_depth,
            other_id,
        ),
    ensures
        player == other_player,
        slot == other_slot,
        depth == other_depth,
        id == other_id,
{
    let a = sub_ability_salt_writes(player, slot, depth, id);
    let b = sub_ability_salt_writes(other_player, other_slot, other_depth, other_id);
    assert(a[0] == b[0] && a[1][0] == b[1][0] && a[2][0] == b[2][0] && a[3] == b[3]);
}

} // verus!
