//! Activating abilities from the slots of a character.
use crate::ability::spawn::{AbilitySpawn, SpawnSalt};
use crate::ability::types::{
    cooling_down, extract_phases, tick_distance, AbilityCooldowns, AbilityId, AbilityPhase,
    AbilitySlots, ActiveAbility, DefaultAbilitySlots, SLOT_COUNT,
};
use crate::ability::world::AbilityWorld;
use crate::entity::Entity;
use crate::player::{
    bindings, is_bound, ActionState, Binding, InputSource, PlayerActions, PlayerId,
};
use crate::seqs::{
    cuts, filter_map, flat_map, lemma_filter_map_picks, lemma_flat_map_cuts, lemma_picks_same, picks,
};
use crate::tick::Tick;
use vstd::prelude::*;

verus! {

/// The action that activates a slot.
pub open spec fn action_of_slot(slot: int) -> Option<PlayerActions> {
    if slot == 0 {
        Some(PlayerActions::Ability1)
    } else if slot == 1 {
        Some(PlayerActions::Ability2)
    } else if slot == 2 {
        Some(PlayerActions::Ability3)
    } else if slot == 3 {
        Some(PlayerActions::Ability4)
    } else {
        None
    }
}

/// The slot that an action activates, if it activates one.
pub fn ability_action_to_slot(action: &PlayerActions) -> (slot: Option<usize>)
    ensures
        match slot {
            Some(slot) => action_of_slot(slot as int) == Some(*action),
            None => forall|s: int| action_of_slot(s) != Some(*action),
        },
{
    match action {
        PlayerActions::Ability1 => {
            assert(action_of_slot(0) == Some(*action));
            Some(0)
        },
        PlayerActions::Ability2 => {
            assert(action_of_slot(1) == Some(*action));
            Some(1)
        },
        PlayerActions::Ability3 => {
            assert(action_of_slot(2) == Some(*action));
            Some(2)
        },
        PlayerActions::Ability4 => {
            assert(action_of_slot(3) == Some(*action));
            Some(3)
        },
        _ => None,
    }
}

/// The action that activates a slot, if there is such a slot.
pub fn slot_to_ability_action(slot: usize) -> (action: Option<PlayerActions>)
    ensures
        action == action_of_slot(slot as int),
{
    if slot == 0 {
        Some(PlayerActions::Ability1)
    } else if slot == 1 {
        Some(PlayerActions::Ability2)
    } else if slot == 2 {
        Some(PlayerActions::Ability3)
    } else if slot == 3 {
        Some(PlayerActions::Ability4)
    } else {
        None
    }
}

/// The digit keys from one on reach the slots, in order.
pub proof fn law_digit_keys_reach_slots(slot: int)
    requires
        0 <= slot < SLOT_COUNT,
    ensures
        action_of_slot(slot) is Some,
        is_bound(action_of_slot(slot)->0, InputSource::Digit((slot + 1) as u8)),
{
    assert(bindings()[6 + slot] == (Binding {
        action: action_of_slot(slot)->0,
        source: InputSource::Digit((slot + 1) as u8),
    }));
}

/// Each slot has an action of its own.
pub proof fn law_slots_have_distinct_actions(a: int, b: int)
    requires
        action_of_slot(a) is Some,
        action_of_slot(a) == action_of_slot(b),
    ensures
        a == b,
        0 <= a < SLOT_COUNT,
{
}

/// A character that may activate abilities.
pub struct ActivationRow<'a> {
    pub entity: Entity,
    pub actions: &'a ActionState,
    /// Its own slots, if it has any.
    pub slots: Option<&'a AbilitySlots>,
    pub cooldowns: AbilityCooldowns,
    pub player_id: PlayerId,
}

/// The slots that a character uses.
pub open spec fn slots_in_use<'a>(
    slots: Option<&'a AbilitySlots>,
    default_slots: &'a DefaultAbilitySlots,
) -> &'a AbilitySlots {
    match slots {
        Some(slots) => slots,
        None => &default_slots.0,
    }
}

/// The ability that a slot of a character activates on this tick, if it activates one: its action
/// is pressed, it holds an ability that is loaded with its phases, and it is not cooling down.
pub open spec fn slot_activation<'a>(
    world: &AbilityWorld,
    default_slots: &'a DefaultAbilitySlots,
    tick: Tick,
    row: ActivationRow<'a>,
    slot: int,
) -> Option<AbilitySpawn> {
    match slots_in_use(row.slots, default_slots).0@[slot] {
        Some(id) => match world.loaded_phases(id) {
            Some(phases) => if action_of_slot(slot) is Some && row.actions.just_pressed_spec(
                action_of_slot(slot)->0,
            ) && !cooling_down(row.cooldowns.last_used@[slot], tick, phases.cooldown) {
                Some(
                    AbilitySpawn {
                        ability: ActiveAbility {
                            def_id: id,
                            caster: row.entity,
                            original_caster: row.entity,
                            target: row.entity,
                            phase: AbilityPhase::Startup,
                            phase_start_tick: tick,
                            ability_slot: slot as u8,
                            depth: 0,
                        },
                        salt: SpawnSalt::Activation { player: row.player_id, slot: slot as u8 },
                        asset: world.loaded_handle(id)->0,
                        replicated: world.is_controlled_spec(row.entity),
                    },
                )
            } else {
                None
            },
            None => None,
        },
        None => None,
    }
}

/// The abilities that a character activates on this tick.
pub open spec fn row_activations<'a>(
    world: &AbilityWorld,
    default_slots: &'a DefaultAbilitySlots,
    tick: Tick,
    row: ActivationRow<'a>,
) -> Seq<AbilitySpawn> {
    filter_map(
        Seq::new(SLOT_COUNT as nat, |i: int| i),
        |slot: int| slot_activation(world, default_slots, tick, row, slot),
    )
}

/// A slot counts as used on this tick if it activates an ability, and keeps its last use otherwise.
pub open spec fn last_used_after<'a>(
    world: &AbilityWorld,
    default_slots: &'a DefaultAbilitySlots,
    tick: Tick,
    row: ActivationRow<'a>,
    slot: int,
) -> Option<Tick> {
    if slot_activation(world, default_slots, tick, row, slot) is Some {
        Some(tick)
    } else {
        row.cooldowns.last_used@[slot]
    }
}

/// Whether `after` is `row` once this tick's activations are made.
pub open spec fn is_row_after_activation<'a>(
    world: &AbilityWorld,
    default_slots: &'a DefaultAbilitySlots,
    tick: Tick,
    row: ActivationRow<'a>,
    after: ActivationRow<'a>,
) -> bool {
    &&& after.entity == row.entity
    &&& after.actions == row.actions
    &&& after.slots == row.slots
    &&& after.player_id == row.player_id
    &&& forall|slot: int|
        0 <= slot < SLOT_COUNT ==> #[trigger] after.cooldowns.last_used@[slot] == last_used_after(
            world,
            default_slots,
            tick,
            row,
            slot,
        )
}

fn activate_slot<'a>(
    world: &AbilityWorld,
    default_slots: &'a DefaultAbilitySlots,
    tick: Tick,
    row: &ActivationRow<'a>,
    slot: usize,
) -> (spawn: Option<AbilitySpawn>)
    requires
        world.wf(),
        slot < SLOT_COUNT,
    ensures
        spawn == slot_activation(world, default_slots, tick, *row, slot as int),
{
    match slot_to_ability_action(slot) {
        Some(action) => {
            if !row.actions.just_pressed(action) {
                return None;
            }
        },
        None => {
            return None;
        },
    }
    let slots: &AbilitySlots = match row.slots {
        Some(slots) => slots,
        None => &default_slots.0,
    };
    let id: &AbilityId = match &slots.0[slot] {
        Some(id) => id,
        None => {
            return None;
        },
    };
    match world.asset(id) {
        Some((handle, asset)) => {
            match extract_phases(asset) {
                Some(phases) => {
                    if row.cooldowns.is_on_cooldown(slot, tick, phases.cooldown) {
                        return None;
                    }
                    Some(
                        AbilitySpawn {
                            ability: ActiveAbility {
                                def_id: id.clone(),
                                caster: row.entity,
                                original_caster: row.entity,
                                target: row.entity,
                                phase: AbilityPhase::Startup,
                                phase_start_tick: tick,
                                ability_slot: slot as u8,
                                depth: 0,
                            },
                            salt: SpawnSalt::Activation {
                                player: row.player_id,
                                slot: slot as u8,
                            },
                            asset: handle,
                            replicated: world.is_controlled(row.entity),
                        },
                    )
                },
                None => None,
            }
        },
        None => None,
    }
}

fn activate_row<'a>(
    world: &AbilityWorld,
    default_slots: &'a DefaultAbilitySlots,
    tick: Tick,
    row: &mut ActivationRow<'a>,
    spawns: &mut Vec<AbilitySpawn>,
)
    requires
        world.wf(),
    ensures
        is_row_after_activation(world, default_slots, tick, *old(row), *final(row)),
        final(spawns)@ == old(spawns)@ + row_activations(world, default_slots, tick, *old(row)),
{
    let ghost before = *row;
    let ghost slots = Seq::new(SLOT_COUNT as nat, |i: int| i);
    let ghost f = |slot: int| slot_activation(world, default_slots, tick, before, slot);
    let ghost done = spawns@;
    let mut slot: usize = 0;
    assert(slots.take(0) =~= Seq::empty());
    while slot < SLOT_COUNT
        invariant
            slot <= SLOT_COUNT,
            world.wf(),
            slots == Seq::new(SLOT_COUNT as nat, |i: int| i),
            f == (|slot: int| slot_activation(world, default_slots, tick, before, slot)),
            row.entity == before.entity,
            row.actions == before.actions,
            row.slots == before.slots,
            row.player_id == before.player_id,
            forall|s: int|
                0 <= s < slot ==> #[trigger] row.cooldowns.last_used@[s] == last_used_after(
                    world,
                    default_slots,
                    tick,
                    before,
                    s,
                ),
            forall|s: int|
                slot <= s < SLOT_COUNT ==> #[trigger] row.cooldowns.last_used@[s]
                    == before.cooldowns.last_used@[s],
            spawns@ == done + filter_map(slots.take(slot as int), f),
        decreases SLOT_COUNT - slot,
    {
        proof {
            crate::seqs::lemma_filter_map_step(slots, slot as int, f);
        }
        let spawn = activate_slot(world, default_slots, tick, row, slot);
        assert(spawn == slot_activation(world, default_slots, tick, before, slot as int));
        if let Some(spawn) = spawn {
            row.cooldowns.last_used[slot] = Some(tick);
            spawns.push(spawn);
        }
        slot = slot + 1;
    }
    assert(slots.take(slot as int) =~= slots);
}

/// The abilities that all characters activate on this tick.
pub open spec fn activations<'a>(
    world: &AbilityWorld,
    default_slots: &'a DefaultAbilitySlots,
    tick: Tick,
    rows: Seq<ActivationRow<'a>>,
) -> Seq<AbilitySpawn> {
    flat_map(rows, |row: ActivationRow<'a>| row_activations(world, default_slots, tick, row))
}

/// Activates the abilities whose keys were pressed, and starts their cooldowns.
pub fn ability_activation<'a>(
    world: &AbilityWorld,
    default_slots: &'a DefaultAbilitySlots,
    tick: Tick,
    rows: &mut Vec<ActivationRow<'a>>,
) -> (spawns: Vec<AbilitySpawn>)
    requires
        world.wf(),
    ensures
        spawns@ == activations(world, default_slots, tick, old(rows)@),
        final(rows)@.len() == old(rows)@.len(),
        forall|i: int|
            0 <= i < old(rows)@.len() ==> is_row_after_activation(
                world,
                default_slots,
                tick,
                old(rows)@[i],
                #[trigger] final(rows)@[i],
            ),
{
    let mut spawns: Vec<AbilitySpawn> = Vec::new();
    let mut i: usize = 0;
    let ghost f = |row: ActivationRow<'a>| row_activations(world, default_slots, tick, row);
    assert(old(rows)@.take(0) =~= Seq::empty());
    while i < rows.len()
        invariant
            i <= rows@.len(),
            rows@.len() == old(rows)@.len(),
            world.wf(),
            f == (|row: ActivationRow<'a>| row_activations(world, default_slots, tick, row)),
            spawns@ == flat_map(old(rows)@.take(i as int), f),
            forall|j: int|
                0 <= j < i ==> is_row_after_activation(
                    world,
                    default_slots,
                    tick,
                    old(rows)@[j],
                    #[trigger] rows@[j],
                ),
            forall|j: int| i <= j < rows@.len() ==> #[trigger] rows@[j] == old(rows)@[j],
        decreases rows@.len() - i,
    {
        proof {
            crate::seqs::lemma_flat_map_step(old(rows)@, i as int, f);
        }
        let row = &mut rows[i];
        activate_row(world, default_slots, tick, row, &mut spawns);
        i = i + 1;
    }
    assert(old(rows)@.take(i as int) =~= old(rows)@);
    spawns
}

/// A slot that was used activates nothing until more than its cooldown has gone by, and is free
/// from the tick after, as long as ticks can tell the two apart.
pub proof fn law_cooldown_blocks_reuse(last: Tick, cooldown: u16, n: int)
    requires
        0 <= n < 0x8000,
    ensures
        cooling_down(Some(last), last.offset_spec(n), cooldown) <==> n <= cooldown,
{
    assert(last.offset_spec(n).since_spec(last) == n);
}

/// Activating a second time on one tick activates nothing: a slot that was used cools down, and one
/// that was not used has no more reason to be.
pub proof fn law_slot_activates_once<'a>(
    world: &AbilityWorld,
    default_slots: &'a DefaultAbilitySlots,
    tick: Tick,
    row: ActivationRow<'a>,
    after: ActivationRow<'a>,
    slot: int,
)
    requires
        0 <= slot < SLOT_COUNT,
        is_row_after_activation(world, default_slots, tick, row, after),
    ensures
        slot_activation(world, default_slots, tick, after, slot) is None,
{
    assert(after.cooldowns.last_used@[slot] == last_used_after(
        world,
        default_slots,
        tick,
        row,
        slot,
    ));
    assert(tick_distance(tick, tick) == 0);
}

/// The four slots are activated by the four ability actions, in their order, and by nothing else.
pub proof fn law_slots_go_by_their_number(slot: int)
    ensures
        action_of_slot(0) == Some(PlayerActions::Ability1),
        action_of_slot(1) == Some(PlayerActions::Ability2),
        action_of_slot(2) == Some(PlayerActions::Ability3),
        action_of_slot(3) == Some(PlayerActions::Ability4),
        !(0 <= slot < 4) ==> action_of_slot(slot) is None,
{
}

/// A slot activates its ability exactly if its action is pressed, it holds an ability, of the
/// character's own slots or else of the default ones, that is loaded with its phases, and it was never
/// used or was used longer ago than the cooldown says. The ability begins its Startup, cast by the
/// character on itself, at no depth, and the slot is used from then on.
pub proof fn law_pressed_slots_activate<'a>(
    world: &AbilityWorld,
    default_slots: &'a DefaultAbilitySlots,
    tick: Tick,
    row: ActivationRow<'a>,
    slot: int,
)
    requires
        0 <= slot < 4,
    ensures
        ({
            let held = if row.slots is Some {
                (row.slots->0).0@[slot]
            } else {
                (default_slots.0).0@[slot]
            };
            let last = row.cooldowns.last_used@[slot];
            let spawn = slot_activation(world, default_slots, tick, row, slot);
            &&& spawn is Some <==> row.actions.pressed@.contains(action_of_slot(slot)->0) && held
                is Some && world.loaded_phases(held->0) is Some && (last is None
                || tick.since_spec(last->0) > world.loaded_phases(held->0)->0.cooldown
                || -tick.since_spec(last->0) > world.loaded_phases(held->0)->0.cooldown)
            &&& last_used_after(world, default_slots, tick, row, slot) == if spawn is Some {
                Some(tick)
            } else {
                last
            }
            &&& spawn matches Some(spawn) ==> {
                &&& Some(spawn.ability.def_id) == held
                &&& spawn.ability.caster == row.entity
                &&& spawn.ability.original_caster == row.entity
                &&& spawn.ability.target == row.entity
                &&& spawn.ability.phase == AbilityPhase::Startup
                &&& spawn.ability.phase_start_tick == tick
                &&& spawn.ability.ability_slot == slot
                &&& spawn.ability.depth == 0
                &&& spawn.salt == SpawnSalt::Activation { player: row.player_id, slot: slot as u8 }
                &&& Some(spawn.asset) == world.loaded_handle(held->0)
                &&& spawn.replicated == world.controlled@.contains(row.entity.bits_spec())
            }
        }),
{
}

/// A character activates each slot that it can, in the order of the slots. Gives the slot that each
/// ability comes of.
pub proof fn law_every_slot_gets_its_turn<'a>(
    world: &AbilityWorld,
    default_slots: &'a DefaultAbilitySlots,
    tick: Tick,
    row: ActivationRow<'a>,
) -> (at: Seq<int>)
    ensures
        at.len() == row_activations(world, default_slots, tick, row).len(),
        picks(at, 4, |slot: int| slot_activation(world, default_slots, tick, row, slot) is Some),
        forall|k: int|
            0 <= k < at.len() ==> slot_activation(
                world,
                default_slots,
                tick,
                row,
                #[trigger] at[k],
            ) == Some(row_activations(world, default_slots, tick, row)[k]),
{
    let slots = Seq::new(SLOT_COUNT as nat, |i: int| i);
    let f = |slot: int| slot_activation(world, default_slots, tick, row, slot);
    let at = lemma_filter_map_picks(slots, f);
    lemma_picks_same(
        at,
        4,
        |i: int| f(slots[i]) is Some,
        |slot: int| slot_activation(world, default_slots, tick, row, slot) is Some,
    );
    assert forall|k: int| 0 <= k < at.len() implies slot_activation(
        world,
        default_slots,
        tick,
        row,
        #[trigger] at[k],
    ) == Some(row_activations(world, default_slots, tick, row)[k]) by {
        assert(f(slots[at[k]]) == Some(filter_map(slots, f)[k]));
    }
    at
}

/// Characters activate their abilities one after the other. Gives where the abilities of each start.
pub proof fn law_characters_activate_in_turn<'a>(
    world: &AbilityWorld,
    default_slots: &'a DefaultAbilitySlots,
    tick: Tick,
    rows: Seq<ActivationRow<'a>>,
) -> (starts: Seq<int>)
    ensures
        cuts(
            starts,
            rows.len() as int,
            activations(world, default_slots, tick, rows).len() as int,
        ),
        forall|i: int|
            0 <= i < rows.len() ==> row_activations(world, default_slots, tick, #[trigger] rows[i])
                == activations(world, default_slots, tick, rows).subrange(starts[i], starts[i + 1]),
{
    let f = |row: ActivationRow<'a>| row_activations(world, default_slots, tick, row);
    let starts = lemma_flat_map_cuts(rows, f);
    assert forall|i: int| 0 <= i < rows.len() implies row_activations(
        world,
        default_slots,
        tick,
        #[trigger] rows[i],
    ) == activations(world, default_slots, tick, rows).subrange(starts[i], starts[i + 1]) by {
        assert(f(rows[i]) == row_activations(world, default_slots, tick, rows[i]));
    }
    starts
}

/// A character keeps what it is, and each of its slots is used when it activates an ability.
pub proof fn law_activation_is_noted<'a>(
    world: &AbilityWorld,
    default_slots: &'a DefaultAbilitySlots,
    tick: Tick,
    row: ActivationRow<'a>,
    after: ActivationRow<'a>,
    slot: int,
)
    requires
        is_row_after_activation(world, default_slots, tick, row, after),
        0 <= slot < 4,
    ensures
        after.entity == row.entity,
        after.actions == row.actions,
        after.slots == row.slots,
        after.player_id == row.player_id,
        after.cooldowns.last_used@[slot] == if slot_activation(
            world,
            default_slots,
            tick,
            row,
            slot,
        ) is Some {
            Some(tick)
        } else {
            row.cooldowns.last_used@[slot]
        },
{
    assert(after.cooldowns.last_used@[slot] == last_used_after(
        world,
        default_slots,
        tick,
        row,
        slot,
    ));
}

} // verus!
