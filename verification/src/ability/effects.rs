//! What the effects of abilities in flight do in a tick.
use crate::ability::spawn::{
    spawn_sub_ability, sub_ability_spawn, AbilitySpawn, MAX_SUB_ABILITY_DEPTH,
};
use crate::ability::types::{
    AbilityEffect, AbilityPhase, ActiveAbility, ActiveBuff, ActiveShield, AoEHitbox, EffectTarget,
    InputEffect, OnEndEffects, OnHitEffects, OnInputEffects, OnTickEffects, ProjectileSpawnEffect,
    TickEffect, WhileActiveEffects,
};
use crate::ability::world::AbilityWorld;
use crate::entity::Entity;
use crate::map::types::MapInstanceId;
use crate::player::ActionState;
use crate::scalar::Scalar;
use crate::seqs::{
    cuts, filter_map, flat_map, lemma_filter_map_picks, lemma_flat_map_cuts, lemma_picks_same, picks,
};
use crate::tick::{signed16, to_signed, to_unsigned, Tick};
use vstd::prelude::*;

verus! {

/// A change to the world that an effect asks for. Changes are made in the order they are given.
#[derive(Debug)]
pub enum AbilityCommand<'a> {
    SpawnAbility(AbilitySpawn),
    /// A hitbox in front of the caster, which follows it.
    SpawnMeleeHitbox {
        ability: Entity,
        caster: Entity,
        map: MapInstanceId,
        on_hit: Option<&'a OnHitEffects>,
    },
    /// A spherical hitbox where the caster stands.
    SpawnAoEHitbox {
        ability: Entity,
        caster: Entity,
        map: MapInstanceId,
        on_hit: Option<&'a OnHitEffects>,
        radius: Scalar,
        hitbox: AoEHitbox,
    },
    InsertProjectileSpawn { ability: Entity, effect: ProjectileSpawnEffect },
    /// Moves an entity forward.
    Teleport { entity: Entity, distance: Scalar },
    InsertShield { entity: Entity, shield: ActiveShield },
    /// Makes `buff` the only buff of an entity.
    InsertBuff { entity: Entity, buff: ActiveBuff },
    /// Sets the horizontal velocity of an entity along the direction it faces.
    SetVelocity { entity: Entity, speed: Scalar },
}

/// An ability in flight, with the effects of one trigger.
pub struct OnTickRow<'a> {
    pub entity: Entity,
    pub effects: &'a OnTickEffects,
    pub active: &'a ActiveAbility,
    pub on_hit: Option<&'a OnHitEffects>,
}

pub struct WhileActiveRow<'a> {
    pub effects: &'a WhileActiveEffects,
    pub active: &'a ActiveAbility,
}

pub struct OnEndRow<'a> {
    pub effects: &'a OnEndEffects,
    pub active: &'a ActiveAbility,
}

pub struct OnInputRow<'a> {
    pub effects: &'a OnInputEffects,
    pub active: &'a ActiveAbility,
    /// The inputs of the caster, if it has any.
    pub actions: Option<&'a ActionState>,
}

/// Who receives an effect outside a hit: there is no victim, so the caster stands in for it.
pub open spec fn caster_target(target: EffectTarget, active: &ActiveAbility) -> Entity {
    if target == EffectTarget::OriginalCaster {
        active.original_caster
    } else {
        active.caster
    }
}

fn resolve_caster_target(target: &EffectTarget, active: &ActiveAbility) -> (entity: Entity)
    ensures
        entity == caster_target(*target, active),
{
    match target {
        EffectTarget::Caster => active.caster,
        EffectTarget::OriginalCaster => active.original_caster,
        EffectTarget::Victim => active.caster,
    }
}

/// The buff that an effect gives: it expires `duration` ticks from now.
pub open spec fn buff_of(stat: String, multiplier: Scalar, duration: u16, tick: Tick) -> ActiveBuff {
    ActiveBuff { stat, multiplier, expires_tick: tick.offset_spec(signed16(duration as int)) }
}

fn apply_buff(stat: &String, multiplier: Scalar, duration_ticks: u16, tick: Tick) -> (buff: ActiveBuff)
    ensures
        buff == buff_of(*stat, multiplier, duration_ticks, tick),
{
    ActiveBuff {
        stat: stat.clone(),
        multiplier,
        expires_tick: tick.offset(to_signed(duration_ticks)),
    }
}

/// The command that starts the ability `id`, if it may start.
pub open spec fn sub_ability_command<'a>(
    world: &AbilityWorld,
    id: String,
    target: EffectTarget,
    active: &ActiveAbility,
    tick: Tick,
) -> Option<AbilityCommand<'a>> {
    match sub_ability_spawn(
        world,
        id,
        caster_target(target, active),
        active.original_caster,
        active.ability_slot,
        active.depth,
        tick,
    ) {
        Some(spawn) => Some(AbilityCommand::SpawnAbility(spawn)),
        None => None,
    }
}

fn start_sub_ability<'a>(
    world: &AbilityWorld,
    id: &String,
    target: &EffectTarget,
    active: &ActiveAbility,
    tick: Tick,
) -> (command: Option<AbilityCommand<'a>>)
    requires
        world.wf(),
    ensures
        command == sub_ability_command(world, *id, *target, active, tick),
{
    let target_entity = resolve_caster_target(target, active);
    match spawn_sub_ability(
        world,
        id,
        target_entity,
        active.original_caster,
        active.ability_slot,
        active.depth,
        tick,
    ) {
        Some(spawn) => Some(AbilityCommand::SpawnAbility(spawn)),
        None => None,
    }
}

/// How many ticks of its phase an ability has behind it, as an unsigned number.
pub open spec fn phase_offset(active: &ActiveAbility, tick: Tick) -> int {
    active_offset(active.phase_start_tick, tick)
}

/// The ticks from `start` to `tick`, going forward.
pub open spec fn active_offset(start: Tick, tick: Tick) -> int {
    (tick.0 - start.0) % 0x1_0000
}

/// What an effect that fires on this tick does.
pub open spec fn on_tick_effect_command<'a>(
    world: &AbilityWorld,
    tick: Tick,
    row: OnTickRow<'a>,
    effect: AbilityEffect,
) -> Option<AbilityCommand<'a>> {
    let active = row.active;
    match effect {
        AbilityEffect::Melee { .. } => match world.placed_on(active.caster) {
            Some(map) => Some(
                AbilityCommand::SpawnMeleeHitbox {
                    ability: row.entity,
                    caster: active.caster,
                    map,
                    on_hit: row.on_hit,
                },
            ),
            None => None,
        },
        AbilityEffect::AreaOfEffect { radius, duration_ticks, .. } => match world.placed_on(
            active.caster,
        ) {
            Some(map) => Some(
                AbilityCommand::SpawnAoEHitbox {
                    ability: row.entity,
                    caster: active.caster,
                    map,
                    on_hit: row.on_hit,
                    radius,
                    hitbox: AoEHitbox {
                        spawn_tick: tick,
                        duration_ticks: match duration_ticks {
                            Some(ticks) => ticks,
                            None => 1,
                        },
                    },
                },
            ),
            None => None,
        },
        AbilityEffect::Projectile { speed, lifetime_ticks, .. } => Some(
            AbilityCommand::InsertProjectileSpawn {
                ability: row.entity,
                effect: ProjectileSpawnEffect { speed, lifetime_ticks },
            },
        ),
        AbilityEffect::Ability { id, target } => sub_ability_command(
            world,
            id,
            target,
            active,
            tick,
        ),
        AbilityEffect::Teleport { distance } => if world.placed_on(active.caster) is Some {
            Some(AbilityCommand::Teleport { entity: active.caster, distance })
        } else {
            None
        },
        AbilityEffect::Shield { absorb } => Some(
            AbilityCommand::InsertShield {
                entity: active.caster,
                shield: ActiveShield { remaining: absorb },
            },
        ),
        AbilityEffect::Buff { stat, multiplier, duration_ticks, target } => Some(
            AbilityCommand::InsertBuff {
                entity: caster_target(target, active),
                buff: buff_of(stat, multiplier, duration_ticks, tick),
            },
        ),
        _ => None,
    }
}

/// What the effects of one ability that are due on this tick do.
pub open spec fn on_tick_row_commands<'a>(
    world: &AbilityWorld,
    tick: Tick,
    row: OnTickRow<'a>,
) -> Seq<AbilityCommand<'a>> {
    if row.active.phase == AbilityPhase::Active {
        filter_map(
            row.effects.0@,
            |e: TickEffect|
                if e.tick == phase_offset(row.active, tick) {
                    on_tick_effect_command(world, tick, row, e.effect)
                } else {
                    None
                },
        )
    } else {
        Seq::empty()
    }
}

/// What all effects that are due on this tick do.
pub open spec fn on_tick_commands<'a>(
    world: &AbilityWorld,
    tick: Tick,
    rows: Seq<OnTickRow<'a>>,
) -> Seq<AbilityCommand<'a>> {
    flat_map(rows, |row: OnTickRow<'a>| on_tick_row_commands(world, tick, row))
}

fn on_tick_effect<'a>(
    world: &AbilityWorld,
    tick: Tick,
    row: &OnTickRow<'a>,
    effect: &AbilityEffect,
) -> (command: Option<AbilityCommand<'a>>)
    requires
        world.wf(),
    ensures
        command == on_tick_effect_command(world, tick, *row, *effect),
{
    let active = row.active;
    match effect {
        AbilityEffect::Melee { .. } => {
            match world.map_of_placed(active.caster) {
                Some(map) => Some(
                    AbilityCommand::SpawnMeleeHitbox {
                        ability: row.entity,
                        caster: active.caster,
                        map,
                        on_hit: row.on_hit,
                    },
                ),
                None => None,
            }
        },
        AbilityEffect::AreaOfEffect { radius, duration_ticks, .. } => {
            let duration: u16 = match duration_ticks {
                Some(ticks) => *ticks,
                None => 1,
            };
            match world.map_of_placed(active.caster) {
                Some(map) => Some(
                    AbilityCommand::SpawnAoEHitbox {
                        ability: row.entity,
                        caster: active.caster,
                        map,
                        on_hit: row.on_hit,
                        radius: *radius,
                        hitbox: AoEHitbox { spawn_tick: tick, duration_ticks: duration },
                    },
                ),
                None => None,
            }
        },
        AbilityEffect::Projectile { speed, lifetime_ticks, .. } => Some(
            AbilityCommand::InsertProjectileSpawn {
                ability: row.entity,
                effect: ProjectileSpawnEffect { speed: *speed, lifetime_ticks: *lifetime_ticks },
            },
        ),
        AbilityEffect::Ability { id, target } => start_sub_ability(world, id, target, active, tick),
        AbilityEffect::Teleport { distance } => {
            if world.map_of_placed(active.caster).is_some() {
                Some(AbilityCommand::Teleport { entity: active.caster, distance: *distance })
            } else {
                None
            }
        },
        AbilityEffect::Shield { absorb } => Some(
            AbilityCommand::InsertShield {
                entity: active.caster,
                shield: ActiveShield { remaining: *absorb },
            },
        ),
        AbilityEffect::Buff { stat, multiplier, duration_ticks, target } => Some(
            AbilityCommand::InsertBuff {
                entity: resolve_caster_target(target, active),
                buff: apply_buff(stat, *multiplier, *duration_ticks, tick),
            },
        ),
        _ => None,
    }
}

/// The tick of its Active phase that an ability is on.
pub fn current_offset(active: &ActiveAbility, tick: Tick) -> (offset: u16)
    ensures
        offset == phase_offset(active, tick),
{
    let since: i16 = tick.since(active.phase_start_tick);
    to_unsigned(since)
}

/// Fires the on-tick effects that are due: hitboxes, projectiles, sub-abilities, teleports,
/// shields and buffs.
pub fn apply_on_tick_effects<'a>(
    world: &AbilityWorld,
    tick: Tick,
    rows: &Vec<OnTickRow<'a>>,
) -> (commands: Vec<AbilityCommand<'a>>)
    requires
        world.wf(),
    ensures
        commands@ == on_tick_commands(world, tick, rows@),
{
    let mut commands: Vec<AbilityCommand<'a>> = Vec::new();
    let mut i: usize = 0;
    assert(rows@.take(0) =~= Seq::empty());
    while i < rows.len()
        invariant
            i <= rows@.len(),
            world.wf(),
            commands@ == on_tick_commands(world, tick, rows@.take(i as int)),
        decreases rows@.len() - i,
    {
        let row = &rows[i];
        let ghost done = commands@;
        let ghost f = |row: OnTickRow<'a>| on_tick_row_commands(world, tick, row);
        proof {
            crate::seqs::lemma_flat_map_step(rows@, i as int, f);
        }
        if row.active.phase == AbilityPhase::Active {
            let offset: u16 = current_offset(row.active, tick);
            let ghost g = |e: TickEffect|
                if e.tick == phase_offset(row.active, tick) {
                    on_tick_effect_command(world, tick, *row, e.effect)
                } else {
                    None
                };
            let mut j: usize = 0;
            assert(row.effects.0@.take(0) =~= Seq::empty());
            while j < row.effects.0.len()
                invariant
                    j <= row.effects.0@.len(),
                    world.wf(),
                    offset == phase_offset(row.active, tick),
                    g == (|e: TickEffect|
                        if e.tick == phase_offset(row.active, tick) {
                            on_tick_effect_command(world, tick, *row, e.effect)
                        } else {
                            None
                        }),
                    commands@ == done + filter_map(row.effects.0@.take(j as int), g),
                decreases row.effects.0@.len() - j,
            {
                let tick_effect = &row.effects.0[j];
                proof {
                    crate::seqs::lemma_filter_map_step(row.effects.0@, j as int, g);
                }
                if tick_effect.tick == offset {
                    if let Some(command) = on_tick_effect(world, tick, row, &tick_effect.effect) {
                        commands.push(command);
                    }
                }
                j = j + 1;
            }
            assert(row.effects.0@.take(j as int) =~= row.effects.0@);
        }
        assert(commands@ =~= done + f(rows@[i as int]));
        i = i + 1;
    }
    assert(rows@.take(i as int) =~= rows@);
    commands
}

/// What an effect of the Active phase does on each tick.
pub open spec fn while_active_effect_command<'a>(
    world: &AbilityWorld,
    active: &ActiveAbility,
    effect: AbilityEffect,
) -> Option<AbilityCommand<'a>> {
    match effect {
        AbilityEffect::SetVelocity { speed, target } => if world.can_be_driven(
            caster_target(target, active),
        ) {
            Some(AbilityCommand::SetVelocity { entity: caster_target(target, active), speed })
        } else {
            None
        },
        _ => None,
    }
}

pub open spec fn while_active_row_commands<'a>(world: &AbilityWorld, row: WhileActiveRow<'a>) -> Seq<
    AbilityCommand<'a>,
> {
    if row.active.phase == AbilityPhase::Active {
        filter_map(
            row.effects.0@,
            |e: AbilityEffect| while_active_effect_command(world, row.active, e),
        )
    } else {
        Seq::empty()
    }
}

pub open spec fn while_active_commands<'a>(world: &AbilityWorld, rows: Seq<WhileActiveRow<'a>>) -> Seq<
    AbilityCommand<'a>,
> {
    flat_map(rows, |row: WhileActiveRow<'a>| while_active_row_commands(world, row))
}

/// Fires the effects that last through the Active phase.
pub fn apply_while_active_effects<'a>(
    world: &AbilityWorld,
    rows: &Vec<WhileActiveRow<'a>>,
) -> (commands: Vec<AbilityCommand<'a>>)
    ensures
        commands@ == while_active_commands(world, rows@),
{
    let mut commands: Vec<AbilityCommand<'a>> = Vec::new();
    let mut i: usize = 0;
    assert(rows@.take(0) =~= Seq::empty());
    while i < rows.len()
        invariant
            i <= rows@.len(),
            commands@ == while_active_commands(world, rows@.take(i as int)),
        decreases rows@.len() - i,
    {
        let row = &rows[i];
        let ghost done = commands@;
        let ghost f = |row: WhileActiveRow<'a>| while_active_row_commands(world, row);
        proof {
            crate::seqs::lemma_flat_map_step(rows@, i as int, f);
        }
        if row.active.phase == AbilityPhase::Active {
            let ghost g = |e: AbilityEffect| while_active_effect_command(world, row.active, e);
            let mut j: usize = 0;
            assert(row.effects.0@.take(0) =~= Seq::empty());
            while j < row.effects.0.len()
                invariant
                    j <= row.effects.0@.len(),
                    g == (|e: AbilityEffect| while_active_effect_command(world, row.active, e)),
                    commands@ == done + filter_map(row.effects.0@.take(j as int), g),
                decreases row.effects.0@.len() - j,
            {
                proof {
                    crate::seqs::lemma_filter_map_step(row.effects.0@, j as int, g);
                }
                if let AbilityEffect::SetVelocity { speed, target } = &row.effects.0[j] {
                    let entity = resolve_caster_target(target, row.active);
                    if world.is_drivable(entity) {
                        commands.push(AbilityCommand::SetVelocity { entity, speed: *speed });
                    }
                }
                j = j + 1;
            }
            assert(row.effects.0@.take(j as int) =~= row.effects.0@);
        }
        assert(commands@ =~= done + f(rows@[i as int]));
        i = i + 1;
    }
    assert(rows@.take(i as int) =~= rows@);
    commands
}

/// What an effect does when the ability leaves its Active phase.
pub open spec fn on_end_effect_command<'a>(
    world: &AbilityWorld,
    tick: Tick,
    active: &ActiveAbility,
    effect: AbilityEffect,
) -> Option<AbilityCommand<'a>> {
    match effect {
        AbilityEffect::SetVelocity { speed, target } => if world.is_mobile_spec(
            caster_target(target, active),
        ) {
            Some(AbilityCommand::SetVelocity { entity: caster_target(target, active), speed })
        } else {
            None
        },
        AbilityEffect::Ability { id, target } => sub_ability_command(
            world,
            id,
            target,
            active,
            tick,
        ),
        AbilityEffect::Teleport { distance } => if world.is_mobile_spec(active.caster) {
            Some(AbilityCommand::Teleport { entity: active.caster, distance })
        } else {
            None
        },
        AbilityEffect::Shield { absorb } => Some(
            AbilityCommand::InsertShield {
                entity: active.caster,
                shield: ActiveShield { remaining: absorb },
            },
        ),
        AbilityEffect::Buff { stat, multiplier, duration_ticks, target } => Some(
            AbilityCommand::InsertBuff {
                entity: caster_target(target, active),
                buff: buff_of(stat, multiplier, duration_ticks, tick),
            },
        ),
        _ => None,
    }
}

/// Whether an ability has left its Active phase on this very tick.
pub open spec fn just_ended(active: &ActiveAbility, tick: Tick) -> bool {
    active.phase == AbilityPhase::Recovery && active.phase_start_tick == tick
}

pub open spec fn on_end_row_commands<'a>(
    world: &AbilityWorld,
    tick: Tick,
    row: OnEndRow<'a>,
) -> Seq<AbilityCommand<'a>> {
    if just_ended(row.active, tick) {
        filter_map(
            row.effects.0@,
            |e: AbilityEffect| on_end_effect_command(world, tick, row.active, e),
        )
    } else {
        Seq::empty()
    }
}

pub open spec fn on_end_commands<'a>(
    world: &AbilityWorld,
    tick: Tick,
    rows: Seq<OnEndRow<'a>>,
) -> Seq<AbilityCommand<'a>> {
    flat_map(rows, |row: OnEndRow<'a>| on_end_row_commands(world, tick, row))
}

fn on_end_effect<'a>(
    world: &AbilityWorld,
    tick: Tick,
    active: &ActiveAbility,
    effect: &AbilityEffect,
) -> (command: Option<AbilityCommand<'a>>)
    requires
        world.wf(),
    ensures
        command == on_end_effect_command(world, tick, active, *effect),
{
    match effect {
        AbilityEffect::SetVelocity { speed, target } => {
            let entity = resolve_caster_target(target, active);
            if world.is_mobile(entity) {
                Some(AbilityCommand::SetVelocity { entity, speed: *speed })
            } else {
                None
            }
        },
        AbilityEffect::Ability { id, target } => start_sub_ability(world, id, target, active, tick),
        AbilityEffect::Teleport { distance } => {
            if world.is_mobile(active.caster) {
                Some(AbilityCommand::Teleport { entity: active.caster, distance: *distance })
            } else {
                None
            }
        },
        AbilityEffect::Shield { absorb } => Some(
            AbilityCommand::InsertShield {
                entity: active.caster,
                shield: ActiveShield { remaining: *absorb },
            },
        ),
        AbilityEffect::Buff { stat, multiplier, duration_ticks, target } => Some(
            AbilityCommand::InsertBuff {
                entity: resolve_caster_target(target, active),
                buff: apply_buff(stat, *multiplier, *duration_ticks, tick),
            },
        ),
        _ => None,
    }
}

/// Fires the on-end effects of the abilities that entered Recovery on this tick.
pub fn apply_on_end_effects<'a>(
    world: &AbilityWorld,
    tick: Tick,
    rows: &Vec<OnEndRow<'a>>,
) -> (commands: Vec<AbilityCommand<'a>>)
    requires
        world.wf(),
    ensures
        commands@ == on_end_commands(world, tick, rows@),
{
    let mut commands: Vec<AbilityCommand<'a>> = Vec::new();
    let mut i: usize = 0;
    assert(rows@.take(0) =~= Seq::empty());
    while i < rows.len()
        invariant
            i <= rows@.len(),
            world.wf(),
            commands@ == on_end_commands(world, tick, rows@.take(i as int)),
        decreases rows@.len() - i,
    {
        let row = &rows[i];
        let ghost done = commands@;
        let ghost f = |row: OnEndRow<'a>| on_end_row_commands(world, tick, row);
        proof {
            crate::seqs::lemma_flat_map_step(rows@, i as int, f);
        }
        if row.active.phase == AbilityPhase::Recovery && row.active.phase_start_tick == tick {
            let ghost g = |e: AbilityEffect| on_end_effect_command(world, tick, row.active, e);
            let mut j: usize = 0;
            assert(row.effects.0@.take(0) =~= Seq::empty());
            while j < row.effects.0.len()
                invariant
                    j <= row.effects.0@.len(),
                    world.wf(),
                    g == (|e: AbilityEffect| on_end_effect_command(world, tick, row.active, e)),
                    commands@ == done + filter_map(row.effects.0@.take(j as int), g),
                decreases row.effects.0@.len() - j,
            {
                proof {
                    crate::seqs::lemma_filter_map_step(row.effects.0@, j as int, g);
                }
                if let Some(command) = on_end_effect(world, tick, row.active, &row.effects.0[j]) {
                    commands.push(command);
                }
                j = j + 1;
            }
            assert(row.effects.0@.take(j as int) =~= row.effects.0@);
        }
        assert(commands@ =~= done + f(rows@[i as int]));
        i = i + 1;
    }
    assert(rows@.take(i as int) =~= rows@);
    commands
}

/// What an effect does when its input is pressed: only sub-abilities can be started this way.
pub open spec fn on_input_effect_command<'a>(
    world: &AbilityWorld,
    tick: Tick,
    active: &ActiveAbility,
    actions: &ActionState,
    effect: InputEffect,
) -> Option<AbilityCommand<'a>> {
    if actions.just_pressed_spec(effect.action) {
        match effect.effect {
            AbilityEffect::Ability { id, target } => sub_ability_command(
                world,
                id,
                target,
                active,
                tick,
            ),
            _ => None,
        }
    } else {
        None
    }
}

pub open spec fn on_input_row_commands<'a>(
    world: &AbilityWorld,
    tick: Tick,
    row: OnInputRow<'a>,
) -> Seq<AbilityCommand<'a>> {
    match row.actions {
        Some(actions) if row.active.phase == AbilityPhase::Active => filter_map(
            row.effects.0@,
            |e: InputEffect| on_input_effect_command(world, tick, row.active, actions, e),
        ),
        _ => Seq::empty(),
    }
}

pub open spec fn on_input_commands<'a>(
    world: &AbilityWorld,
    tick: Tick,
    rows: Seq<OnInputRow<'a>>,
) -> Seq<AbilityCommand<'a>> {
    flat_map(rows, |row: OnInputRow<'a>| on_input_row_commands(world, tick, row))
}

/// Fires the effects whose input the caster pressed during the Active phase.
pub fn apply_on_input_effects<'a>(
    world: &AbilityWorld,
    tick: Tick,
    rows: &Vec<OnInputRow<'a>>,
) -> (commands: Vec<AbilityCommand<'a>>)
    requires
        world.wf(),
    ensures
        commands@ == on_input_commands(world, tick, rows@),
{
    let mut commands: Vec<AbilityCommand<'a>> = Vec::new();
    let mut i: usize = 0;
    assert(rows@.take(0) =~= Seq::empty());
    while i < rows.len()
        invariant
            i <= rows@.len(),
            world.wf(),
            commands@ == on_input_commands(world, tick, rows@.take(i as int)),
        decreases rows@.len() - i,
    {
        let row = &rows[i];
        let ghost done = commands@;
        let ghost f = |row: OnInputRow<'a>| on_input_row_commands(world, tick, row);
        proof {
            crate::seqs::lemma_flat_map_step(rows@, i as int, f);
        }
        if let Some(actions) = row.actions {
            if row.active.phase == AbilityPhase::Active {
                let ghost g = |e: InputEffect|
                    on_input_effect_command(world, tick, row.active, actions, e);
                let mut j: usize = 0;
                assert(row.effects.0@.take(0) =~= Seq::empty());
                while j < row.effects.0.len()
                    invariant
                        j <= row.effects.0@.len(),
                        world.wf(),
                        g == (|e: InputEffect|
                            on_input_effect_command(world, tick, row.active, actions, e)),
                        commands@ == done + filter_map(row.effects.0@.take(j as int), g),
                    decreases row.effects.0@.len() - j,
                {
                    let input_effect = &row.effects.0[j];
                    proof {
                        crate::seqs::lemma_filter_map_step(row.effects.0@, j as int, g);
                    }
                    if actions.just_pressed(input_effect.action) {
                        if let AbilityEffect::Ability { id, target } = &input_effect.effect {
                            if let Some(command) = start_sub_ability(
                                world,
                                id,
                                target,
                                row.active,
                                tick,
                            ) {
                                commands.push(command);
                            }
                        }
                    }
                    j = j + 1;
                }
                assert(row.effects.0@.take(j as int) =~= row.effects.0@);
            }
        }
        assert(commands@ =~= done + f(rows@[i as int]));
        i = i + 1;
    }
    assert(rows@.take(i as int) =~= rows@);
    commands
}

/// Whether a command, if it starts an ability, starts one that acts for the same entity as `active`,
/// one level deeper, and no deeper than the limit.
pub open spec fn starts_one_deeper(command: AbilityCommand, active: &ActiveAbility) -> bool {
    command matches AbilityCommand::SpawnAbility(spawn) ==> {
        &&& spawn.ability.original_caster == active.original_caster
        &&& spawn.ability.depth == active.depth + 1
        &&& spawn.ability.depth <= MAX_SUB_ABILITY_DEPTH
    }
}

/// On-tick effects start abilities one level deeper than their own, and no deeper than the limit.
pub proof fn law_on_tick_sub_abilities<'a>(
    world: &AbilityWorld,
    tick: Tick,
    row: OnTickRow<'a>,
    k: int,
)
    requires
        0 <= k < on_tick_row_commands(world, tick, row).len(),
    ensures
        starts_one_deeper(on_tick_row_commands(world, tick, row)[k], row.active),
{
    let f = |e: TickEffect|
        if e.tick == phase_offset(row.active, tick) {
            on_tick_effect_command(world, tick, row, e.effect)
        } else {
            None
        };
    crate::seqs::lemma_filter_map_source(row.effects.0@, f, k);
}

/// On-end effects start abilities one level deeper than their own, and no deeper than the limit.
pub proof fn law_on_end_sub_abilities<'a>(
    world: &AbilityWorld,
    tick: Tick,
    row: OnEndRow<'a>,
    k: int,
)
    requires
        0 <= k < on_end_row_commands(world, tick, row).len(),
    ensures
        starts_one_deeper(on_end_row_commands(world, tick, row)[k], row.active),
{
    let f = |e: AbilityEffect| on_end_effect_command(world, tick, row.active, e);
    crate::seqs::lemma_filter_map_source(row.effects.0@, f, k);
}

/// On-input effects start abilities one level deeper than their own, and no deeper than the limit.
pub proof fn law_on_input_sub_abilities<'a>(
    world: &AbilityWorld,
    tick: Tick,
    row: OnInputRow<'a>,
    k: int,
)
    requires
        0 <= k < on_input_row_commands(world, tick, row).len(),
    ensures
        starts_one_deeper(on_input_row_commands(world, tick, row)[k], row.active),
{
    let actions = row.actions->0;
    let f = |e: InputEffect| on_input_effect_command(world, tick, row.active, actions, e);
    crate::seqs::lemma_filter_map_source(row.effects.0@, f, k);
}

/// An ability whose depth has reached the limit starts no other.
pub proof fn law_depth_limit_stops_sub_abilities(
    world: &AbilityWorld,
    id: String,
    target: Entity,
    original_caster: Entity,
    slot: u8,
    depth: u8,
    tick: Tick,
)
    requires
        depth >= MAX_SUB_ABILITY_DEPTH,
    ensures
        sub_ability_spawn(world, id, target, original_caster, slot, depth, tick) is None,
{
}

/// On-tick, while-active and on-input effects fire in the Active phase alone.
pub proof fn law_effects_fire_when_active<'a>(
    world: &AbilityWorld,
    tick: Tick,
    on_tick: OnTickRow<'a>,
    while_active: WhileActiveRow<'a>,
    on_input: OnInputRow<'a>,
)
    ensures
        on_tick.active.phase != AbilityPhase::Active ==> on_tick_row_commands(
            world,
            tick,
            on_tick,
        ).len() == 0,
        while_active.active.phase != AbilityPhase::Active ==> while_active_row_commands(
            world,
            while_active,
        ).len() == 0,
        on_input.active.phase != AbilityPhase::Active ==> on_input_row_commands(
            world,
            tick,
            on_input,
        ).len() == 0,
{
}

/// The on-end effects of an ability fire on the tick on which it enters Recovery, and on no later
/// one, as long as ticks can tell the two apart.
pub proof fn law_on_end_fires_once<'a>(active: &ActiveAbility, n: int)
    requires
        active.phase == AbilityPhase::Recovery,
        0 <= n < 0x1_0000,
    ensures
        just_ended(active, active.phase_start_tick.offset_spec(n)) <==> n == 0,
{
}

/// The entity that gets an effect outside a hit: the one that the caster acts for if the effect says
/// so, and the caster otherwise.
pub proof fn law_effects_outside_hits_have_no_victim(target: EffectTarget, active: &ActiveAbility)
    ensures
        target == EffectTarget::OriginalCaster ==> caster_target(target, active)
            == active.original_caster,
        target != EffectTarget::OriginalCaster ==> caster_target(target, active) == active.caster,
{
}

/// A buff keeps its stat and its multiplier, and ends its duration of ticks from now.
pub proof fn law_buffs_end_after_their_duration(
    stat: String,
    multiplier: Scalar,
    duration: u16,
    tick: Tick,
)
    ensures
        buff_of(stat, multiplier, duration, tick).stat == stat,
        buff_of(stat, multiplier, duration, tick).multiplier == multiplier,
        buff_of(stat, multiplier, duration, tick).expires_tick.0 == (tick.0 + duration) % 0x1_0000,
{
}

/// Whether an effect that fires on a tick can do something: hitboxes and teleports need a caster that is
/// placed on a map, abilities must be such that they may start, and the effects of hits and of motion
/// do nothing here.
pub open spec fn can_fire_on_tick<'a>(
    world: &AbilityWorld,
    tick: Tick,
    row: OnTickRow<'a>,
    effect: AbilityEffect,
) -> bool {
    match effect {
        AbilityEffect::Melee { .. } => world.placed_on(row.active.caster) is Some,
        AbilityEffect::AreaOfEffect { .. } => world.placed_on(row.active.caster) is Some,
        AbilityEffect::Teleport { .. } => world.placed_on(row.active.caster) is Some,
        AbilityEffect::Projectile { .. } => true,
        AbilityEffect::Shield { .. } => true,
        AbilityEffect::Buff { .. } => true,
        AbilityEffect::Ability { id, target } => sub_ability_spawn(
            world,
            id,
            caster_target(target, row.active),
            row.active.original_caster,
            row.active.ability_slot,
            row.active.depth,
            tick,
        ) is Some,
        AbilityEffect::SetVelocity { .. } => false,
        AbilityEffect::Damage { .. } => false,
        AbilityEffect::ApplyForce { .. } => false,
    }
}

/// Effects fire while their ability is Active, on the tick that lies as many ticks after the start of
/// the phase as they say, each once and in their order: all that can. Gives the effect that each command
/// comes of.
pub proof fn law_due_effects_fire<'a>(world: &AbilityWorld, tick: Tick, row: OnTickRow<'a>) -> (at:
    Seq<int>)
    ensures
        ({
            let commands = on_tick_row_commands(world, tick, row);
            let effects = row.effects.0@;
            let active = row.active;
            &&& at.len() == commands.len()
            &&& picks(
                at,
                effects.len() as int,
                |i: int|
                    active.phase == AbilityPhase::Active && (active.phase_start_tick.0
                        + effects[i].tick) % 0x1_0000 == tick.0 && can_fire_on_tick(
                        world,
                        tick,
                        row,
                        effects[i].effect,
                    ),
            )
            &&& forall|k: int|
                0 <= k < at.len() ==> match effects[#[trigger] at[k]].effect {
                    AbilityEffect::Melee { .. } => commands[k] matches
                        AbilityCommand::SpawnMeleeHitbox { ability, caster, map, on_hit } && ability
                        == row.entity && caster == active.caster && Some(map) == world.placed_on(
                        active.caster,
                    ) && on_hit == row.on_hit,
                    AbilityEffect::AreaOfEffect { radius, duration_ticks, .. } => commands[k] matches
                        AbilityCommand::SpawnAoEHitbox {
                        ability,
                        caster,
                        map,
                        on_hit,
                        radius: reach,
                        hitbox,
                    } && ability == row.entity && caster == active.caster && Some(map)
                        == world.placed_on(active.caster) && on_hit == row.on_hit && reach == radius
                        && hitbox.spawn_tick == tick && hitbox.duration_ticks == (
                    if duration_ticks is Some {
                        duration_ticks->0
                    } else {
                        1
                    }),
                    AbilityEffect::Projectile { speed, lifetime_ticks, .. } => commands[k] == (
                    AbilityCommand::InsertProjectileSpawn {
                        ability: row.entity,
                        effect: ProjectileSpawnEffect { speed, lifetime_ticks },
                    }),
                    AbilityEffect::Ability { id, target } => commands[k] matches
                        AbilityCommand::SpawnAbility(spawn) && sub_ability_spawn(
                        world,
                        id,
                        caster_target(target, active),
                        active.original_caster,
                        active.ability_slot,
                        active.depth,
                        tick,
                    ) == Some(spawn),
                    AbilityEffect::Teleport { distance } => commands[k] == (
                    AbilityCommand::Teleport { entity: active.caster, distance }),
                    AbilityEffect::Shield { absorb } => commands[k] == (
                    AbilityCommand::InsertShield {
                        entity: active.caster,
                        shield: ActiveShield { remaining: absorb },
                    }),
                    AbilityEffect::Buff { stat, multiplier, duration_ticks, target } => commands[k]
                        == (AbilityCommand::InsertBuff {
                        entity: caster_target(target, active),
                        buff: buff_of(stat, multiplier, duration_ticks, tick),
                    }),
                    _ => false,
                }
        }),
{
    let effects = row.effects.0@;
    let active = row.active;
    let due = |i: int|
        active.phase == AbilityPhase::Active && (active.phase_start_tick.0 + effects[i].tick)
            % 0x1_0000 == tick.0 && can_fire_on_tick(world, tick, row, effects[i].effect);
    if active.phase == AbilityPhase::Active {
        let f = |e: TickEffect|
            if e.tick == phase_offset(row.active, tick) {
                on_tick_effect_command(world, tick, row, e.effect)
            } else {
                None
            };
        let at = lemma_filter_map_picks(effects, f);
        let fired = |i: int| f(effects[i]) is Some;
        assert forall|i: int| 0 <= i < effects.len() implies #[trigger] fired(i)
            == #[trigger] due(i) by {
            assert(effects[i].tick == phase_offset(active, tick) <==> (active.phase_start_tick.0
                + effects[i].tick) % 0x1_0000 == tick.0);
        }
        lemma_picks_same(at, effects.len() as int, fired, due);
        at
    } else {
        assert(picks(Seq::empty(), effects.len() as int, due));
        Seq::empty()
    }
}

/// While an ability is Active, each of its lasting effects sets the velocity of the entity that it is
/// for, if that can be driven, in their order; nothing else lasts. Gives the effect that each command
/// comes of.
pub proof fn law_lasting_effects_drive<'a>(world: &AbilityWorld, row: WhileActiveRow<'a>) -> (at: Seq<
    int,
>)
    ensures
        ({
            let commands = while_active_row_commands(world, row);
            let effects = row.effects.0@;
            let active = row.active;
            &&& at.len() == commands.len()
            &&& picks(
                at,
                effects.len() as int,
                |i: int|
                    active.phase == AbilityPhase::Active && effects[i] is SetVelocity
                        && world.can_be_driven(
                        caster_target(effects[i]->SetVelocity_target, active),
                    ),
            )
            &&& forall|k: int|
                0 <= k < at.len() ==> commands[k] == (AbilityCommand::SetVelocity {
                    entity: caster_target(effects[#[trigger] at[k]]->SetVelocity_target, active),
                    speed: effects[at[k]]->SetVelocity_speed,
                })
        }),
{
    let effects = row.effects.0@;
    let active = row.active;
    let due = |i: int|
        active.phase == AbilityPhase::Active && effects[i] is SetVelocity && world.can_be_driven(
            caster_target(effects[i]->SetVelocity_target, active),
        );
    if active.phase == AbilityPhase::Active {
        let f = |e: AbilityEffect| while_active_effect_command(world, row.active, e);
        let at = lemma_filter_map_picks(effects, f);
        let fired = |i: int| f(effects[i]) is Some;
        assert forall|i: int| 0 <= i < effects.len() implies #[trigger] fired(i)
            == #[trigger] due(i) by {}
        lemma_picks_same(at, effects.len() as int, fired, due);
        at
    } else {
        assert(picks(Seq::empty(), effects.len() as int, due));
        Seq::empty()
    }
}

/// Whether an effect that fires when the Active phase is over can do something: motion needs an entity
/// that is mobile, abilities must be such that they may start, and hitboxes, projectiles and the
/// effects of hits do nothing here.
pub open spec fn can_fire_on_end(
    world: &AbilityWorld,
    tick: Tick,
    active: &ActiveAbility,
    effect: AbilityEffect,
) -> bool {
    match effect {
        AbilityEffect::SetVelocity { target, .. } => world.is_mobile_spec(
            caster_target(target, active),
        ),
        AbilityEffect::Teleport { .. } => world.is_mobile_spec(active.caster),
        AbilityEffect::Shield { .. } => true,
        AbilityEffect::Buff { .. } => true,
        AbilityEffect::Ability { id, target } => sub_ability_spawn(
            world,
            id,
            caster_target(target, active),
            active.original_caster,
            active.ability_slot,
            active.depth,
            tick,
        ) is Some,
        AbilityEffect::Melee { .. } => false,
        AbilityEffect::AreaOfEffect { .. } => false,
        AbilityEffect::Projectile { .. } => false,
        AbilityEffect::Damage { .. } => false,
        AbilityEffect::ApplyForce { .. } => false,
    }
}

/// On the tick on which an ability enters Recovery, and on no other, all its on-end effects that can
/// fire do, in their order. Gives the effect that each command comes of.
pub proof fn law_end_effects_fire<'a>(world: &AbilityWorld, tick: Tick, row: OnEndRow<'a>) -> (at: Seq<
    int,
>)
    ensures
        ({
            let commands = on_end_row_commands(world, tick, row);
            let effects = row.effects.0@;
            let active = row.active;
            &&& at.len() == commands.len()
            &&& picks(
                at,
                effects.len() as int,
                |i: int|
                    active.phase == AbilityPhase::Recovery && active.phase_start_tick == tick
                        && can_fire_on_end(world, tick, active, effects[i]),
            )
            &&& forall|k: int|
                0 <= k < at.len() ==> match effects[#[trigger] at[k]] {
                    AbilityEffect::SetVelocity { speed, target } => commands[k] == (
                    AbilityCommand::SetVelocity { entity: caster_target(target, active), speed }),
                    AbilityEffect::Ability { id, target } => commands[k] matches
                        AbilityCommand::SpawnAbility(spawn) && sub_ability_spawn(
                        world,
                        id,
                        caster_target(target, active),
                        active.original_caster,
                        active.ability_slot,
                        active.depth,
                        tick,
                    ) == Some(spawn),
                    AbilityEffect::Teleport { distance } => commands[k] == (
                    AbilityCommand::Teleport { entity: active.caster, distance }),
                    AbilityEffect::Shield { absorb } => commands[k] == (
                    AbilityCommand::InsertShield {
                        entity: active.caster,
                        shield: ActiveShield { remaining: absorb },
                    }),
                    AbilityEffect::Buff { stat, multiplier, duration_ticks, target } => commands[k]
                        == (AbilityCommand::InsertBuff {
                        entity: caster_target(target, active),
                        buff: buff_of(stat, multiplier, duration_ticks, tick),
                    }),
                    _ => false,
                }
        }),
{
    let effects = row.effects.0@;
    let active = row.active;
    let due = |i: int|
        active.phase == AbilityPhase::Recovery && active.phase_start_tick == tick
            && can_fire_on_end(world, tick, active, effects[i]);
    if active.phase == AbilityPhase::Recovery && active.phase_start_tick == tick {
        let f = |e: AbilityEffect| on_end_effect_command(world, tick, row.active, e);
        let at = lemma_filter_map_picks(effects, f);
        let fired = |i: int| f(effects[i]) is Some;
        assert forall|i: int| 0 <= i < effects.len() implies #[trigger] fired(i)
            == #[trigger] due(i) by {}
        lemma_picks_same(at, effects.len() as int, fired, due);
        at
    } else {
        assert(picks(Seq::empty(), effects.len() as int, due));
        Seq::empty()
    }
}

/// The ability that an effect starts whose input is pressed, if it may start.
pub open spec fn started_by_input(
    world: &AbilityWorld,
    tick: Tick,
    active: &ActiveAbility,
    effect: AbilityEffect,
) -> Option<AbilitySpawn> {
    sub_ability_spawn(
        world,
        effect->Ability_id,
        caster_target(effect->Ability_target, active),
        active.original_caster,
        active.ability_slot,
        active.depth,
        tick,
    )
}

/// While an ability is Active, the abilities whose input the caster pressed start, all that may, in
/// their order. Gives the effect that each command comes of.
pub proof fn law_pressed_inputs_start_abilities<'a>(
    world: &AbilityWorld,
    tick: Tick,
    row: OnInputRow<'a>,
) -> (at: Seq<int>)
    ensures
        ({
            let commands = on_input_row_commands(world, tick, row);
            let effects = row.effects.0@;
            let active = row.active;
            &&& at.len() == commands.len()
            &&& picks(
                at,
                effects.len() as int,
                |i: int|
                    active.phase == AbilityPhase::Active && row.actions is Some
                        && row.actions->0.pressed@.contains(effects[i].action) && effects[i].effect
                        is Ability && started_by_input(world, tick, active, effects[i].effect)
                        is Some,
            )
            &&& forall|k: int|
                0 <= k < at.len() ==> (commands[k] matches AbilityCommand::SpawnAbility(spawn)
                    && started_by_input(world, tick, active, effects[#[trigger] at[k]].effect)
                    == Some(spawn))
        }),
{
    let effects = row.effects.0@;
    let active = row.active;
    let due = |i: int|
        active.phase == AbilityPhase::Active && row.actions is Some
            && row.actions->0.pressed@.contains(effects[i].action) && effects[i].effect is Ability
            && started_by_input(world, tick, active, effects[i].effect) is Some;
    if active.phase == AbilityPhase::Active && row.actions is Some {
        let actions = row.actions->0;
        let f = |e: InputEffect| on_input_effect_command(world, tick, row.active, actions, e);
        let at = lemma_filter_map_picks(effects, f);
        let fired = |i: int| f(effects[i]) is Some;
        assert forall|i: int| 0 <= i < effects.len() implies #[trigger] fired(i)
            == #[trigger] due(i) by {}
        lemma_picks_same(at, effects.len() as int, fired, due);
        at
    } else {
        assert(picks(Seq::empty(), effects.len() as int, due));
        Seq::empty()
    }
}

/// The on-tick effects of abilities fire one ability after the other. Gives where the commands
/// of each start.
pub proof fn law_due_effects_fire_in_turn<'a>(
    world: &AbilityWorld,
    tick: Tick,
    rows: Seq<OnTickRow<'a>>,
) -> (starts: Seq<int>)
    ensures
        cuts(starts, rows.len() as int, on_tick_commands(world, tick, rows).len() as int),
        forall|i: int|
            0 <= i < rows.len() ==> on_tick_row_commands(world, tick, #[trigger] rows[i]) == on_tick_commands(
                world, tick,
                rows,
            ).subrange(starts[i], starts[i + 1]),
{
    let f = |row: OnTickRow<'a>| on_tick_row_commands(world, tick, row);
    let starts = lemma_flat_map_cuts(rows, f);
    assert forall|i: int| 0 <= i < rows.len() implies on_tick_row_commands(world, tick, #[trigger] rows[i]) == on_tick_commands(
        world, tick,
        rows,
    ).subrange(starts[i], starts[i + 1]) by {
        assert(f(rows[i]) == on_tick_row_commands(world, tick, rows[i]));
    }
    starts
}

/// The lasting effects of abilities fire one ability after the other. Gives where the commands
/// of each start.
pub proof fn law_lasting_effects_drive_in_turn<'a>(
    world: &AbilityWorld,
    rows: Seq<WhileActiveRow<'a>>,
) -> (starts: Seq<int>)
    ensures
        cuts(starts, rows.len() as int, while_active_commands(world, rows).len() as int),
        forall|i: int|
            0 <= i < rows.len() ==> while_active_row_commands(world, #[trigger] rows[i]) == while_active_commands(
                world,
                rows,
            ).subrange(starts[i], starts[i + 1]),
{
    let f = |row: WhileActiveRow<'a>| while_active_row_commands(world, row);
    let starts = lemma_flat_map_cuts(rows, f);
    assert forall|i: int| 0 <= i < rows.len() implies while_active_row_commands(world, #[trigger] rows[i]) == while_active_commands(
        world,
        rows,
    ).subrange(starts[i], starts[i + 1]) by {
        assert(f(rows[i]) == while_active_row_commands(world, rows[i]));
    }
    starts
}

/// The on-end effects of abilities fire one ability after the other. Gives where the commands
/// of each start.
pub proof fn law_end_effects_fire_in_turn<'a>(
    world: &AbilityWorld,
    tick: Tick,
    rows: Seq<OnEndRow<'a>>,
) -> (starts: Seq<int>)
    ensures
        cuts(starts, rows.len() as int, on_end_commands(world, tick, rows).len() as int),
        forall|i: int|
            0 <= i < rows.len() ==> on_end_row_commands(world, tick, #[trigger] rows[i]) == on_end_commands(
                world, tick,
                rows,
            ).subrange(starts[i], starts[i + 1]),
{
    let f = |row: OnEndRow<'a>| on_end_row_commands(world, tick, row);
    let starts = lemma_flat_map_cuts(rows, f);
    assert forall|i: int| 0 <= i < rows.len() implies on_end_row_commands(world, tick, #[trigger] rows[i]) == on_end_commands(
        world, tick,
        rows,
    ).subrange(starts[i], starts[i + 1]) by {
        assert(f(rows[i]) == on_end_row_commands(world, tick, rows[i]));
    }
    starts
}

/// The on-input effects of abilities fire one ability after the other. Gives where the commands
/// of each start.
pub proof fn law_input_effects_fire_in_turn<'a>(
    world: &AbilityWorld,
    tick: Tick,
    rows: Seq<OnInputRow<'a>>,
) -> (starts: Seq<int>)
    ensures
        cuts(starts, rows.len() as int, on_input_commands(world, tick, rows).len() as int),
        forall|i: int|
            0 <= i < rows.len() ==> on_input_row_commands(world, tick, #[trigger] rows[i]) == on_input_commands(
                world, tick,
                rows,
            ).subrange(starts[i], starts[i + 1]),
{
    let f = |row: OnInputRow<'a>| on_input_row_commands(world, tick, row);
    let starts = lemma_flat_map_cuts(rows, f);
    assert forall|i: int| 0 <= i < rows.len() implies on_input_row_commands(world, tick, #[trigger] rows[i]) == on_input_commands(
        world, tick,
        rows,
    ).subrange(starts[i], starts[i + 1]) by {
        assert(f(rows[i]) == on_input_row_commands(world, tick, rows[i]));
    }
    starts
}

} // verus!
