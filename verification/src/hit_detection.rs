//! Hits: whom hitboxes and projectiles strike, and what the strike does.
use crate::ability::spawn::{
    spawn_sub_ability, sub_ability_spawn, AbilitySpawn, MAX_SUB_ABILITY_DEPTH,
};
use crate::ability::types::{
    AbilityEffect, AbilityPhase, ActiveBuff, ActiveShield, EffectTarget, ForceFrame, HitTargets,
    OnHitEffects,
};
use crate::ability::world::AbilityWorld;
use crate::entity::Entity;
use crate::scalar::{Scalar, Vector};
use crate::seqs::{
    cuts, filter_map, flat_map, lemma_filter_map_picks, lemma_flat_map_cuts, lemma_picks_same, picks,
};
use crate::tick::Tick;
use std::collections::{HashMap, HashSet};
use vstd::prelude::*;

verus! {

broadcast use vstd::std_specs::hash::group_hash_axioms;

/// An entity with a position and health.
#[derive(Clone, Copy, Debug, PartialEq, Eq, Structural)]
pub struct HitTarget {
    pub has_velocity: bool,
    pub invulnerable: bool,
}

/// The entities that can be hit, by their bits.
pub struct HitTable {
    pub targets: HashMap<u64, HitTarget>,
}

impl HitTable {
    pub open spec fn target_of(&self, entity: Entity) -> Option<HitTarget> {
        if self.targets@.dom().contains(entity.bits_spec()) {
            Some(self.targets@[entity.bits_spec()])
        } else {
            None
        }
    }

    pub fn target(&self, entity: Entity) -> (target: Option<HitTarget>)
        ensures
            target == self.target_of(entity),
    {
        match self.targets.get(&entity.to_bits()) {
            Some(target) => Some(*target),
            None => None,
        }
    }
}

/// A change that a hit asks for. Changes are made in the order they are given.
#[derive(Debug)]
pub enum HitCommand {
    /// Damage that `caster`'s buffs scale and a shield may absorb; see [`resolve_damage`].
    Damage { entity: Entity, amount: Scalar, caster: Entity },
    /// A change of velocity. `source` is the hitbox or bullet that struck.
    ApplyForce { entity: Entity, force: Vector, frame: ForceFrame, caster: Entity, source: Entity },
    SpawnAbility(AbilitySpawn),
    DespawnBullet(Entity),
}

/// Who receives an effect of a hit.
pub open spec fn on_hit_target(target: EffectTarget, victim: Entity, on_hit: &OnHitEffects) -> Entity {
    match target {
        EffectTarget::Victim => victim,
        EffectTarget::Caster => on_hit.caster,
        EffectTarget::OriginalCaster => on_hit.original_caster,
    }
}

fn resolve_on_hit_target(target: &EffectTarget, victim: Entity, on_hit: &OnHitEffects) -> (entity:
    Entity)
    ensures
        entity == on_hit_target(*target, victim, on_hit),
{
    match target {
        EffectTarget::Victim => victim,
        EffectTarget::Caster => on_hit.caster,
        EffectTarget::OriginalCaster => on_hit.original_caster,
    }
}

/// What one effect does when `source` strikes `victim`.
pub open spec fn on_hit_effect_command(
    world: &AbilityWorld,
    table: &HitTable,
    tick: Tick,
    on_hit: &OnHitEffects,
    source: Entity,
    victim: Entity,
    effect: AbilityEffect,
) -> Option<HitCommand> {
    match effect {
        AbilityEffect::Damage { amount, target } => Some(
            HitCommand::Damage {
                entity: on_hit_target(target, victim, on_hit),
                amount,
                caster: on_hit.caster,
            },
        ),
        AbilityEffect::ApplyForce { force, frame, target } => match table.target_of(
            on_hit_target(target, victim, on_hit),
        ) {
            Some(state) if state.has_velocity => Some(
                HitCommand::ApplyForce {
                    entity: on_hit_target(target, victim, on_hit),
                    force,
                    frame,
                    caster: on_hit.caster,
                    source,
                },
            ),
            _ => None,
        },
        AbilityEffect::Ability { id, target } => match sub_ability_spawn(
            world,
            id,
            on_hit_target(target, victim, on_hit),
            on_hit.original_caster,
            0,
            on_hit.depth,
            tick,
        ) {
            Some(spawn) => Some(HitCommand::SpawnAbility(spawn)),
            None => None,
        },
        _ => None,
    }
}

/// What all on-hit effects do when `source` strikes `victim`.
pub open spec fn on_hit_commands(
    world: &AbilityWorld,
    table: &HitTable,
    tick: Tick,
    on_hit: &OnHitEffects,
    source: Entity,
    victim: Entity,
) -> Seq<HitCommand> {
    filter_map(
        on_hit.effects@,
        |e: AbilityEffect| on_hit_effect_command(world, table, tick, on_hit, source, victim, e),
    )
}

fn on_hit_effect(
    world: &AbilityWorld,
    table: &HitTable,
    tick: Tick,
    on_hit: &OnHitEffects,
    source: Entity,
    victim: Entity,
    effect: &AbilityEffect,
) -> (command: Option<HitCommand>)
    requires
        world.wf(),
    ensures
        command == on_hit_effect_command(world, table, tick, on_hit, source, victim, *effect),
{
    match effect {
        AbilityEffect::Damage { amount, target } => Some(
            HitCommand::Damage {
                entity: resolve_on_hit_target(target, victim, on_hit),
                amount: *amount,
                caster: on_hit.caster,
            },
        ),
        AbilityEffect::ApplyForce { force, frame, target } => {
            let entity = resolve_on_hit_target(target, victim, on_hit);
            match table.target(entity) {
                Some(state) => {
                    if state.has_velocity {
                        Some(
                            HitCommand::ApplyForce {
                                entity,
                                force: *force,
                                frame: *frame,
                                caster: on_hit.caster,
                                source,
                            },
                        )
                    } else {
                        None
                    }
                },
                None => None,
            }
        },
        AbilityEffect::Ability { id, target } => {
            let entity = resolve_on_hit_target(target, victim, on_hit);
            match spawn_sub_ability(
                world,
                id,
                entity,
                on_hit.original_caster,
                0,
                on_hit.depth,
                tick,
            ) {
                Some(spawn) => Some(HitCommand::SpawnAbility(spawn)),
                None => None,
            }
        },
        _ => None,
    }
}

/// Applies the on-hit effects to what `source` struck.
pub fn apply_on_hit_effects(
    world: &AbilityWorld,
    table: &HitTable,
    tick: Tick,
    on_hit: &OnHitEffects,
    source: Entity,
    victim: Entity,
    commands: &mut Vec<HitCommand>,
)
    requires
        world.wf(),
    ensures
        final(commands)@ == old(commands)@ + on_hit_commands(
            world,
            table,
            tick,
            on_hit,
            source,
            victim,
        ),
{
    let ghost done = commands@;
    let ghost f = |e: AbilityEffect|
        on_hit_effect_command(world, table, tick, on_hit, source, victim, e);
    let mut i: usize = 0;
    assert(on_hit.effects@.take(0) =~= Seq::empty());
    while i < on_hit.effects.len()
        invariant
            i <= on_hit.effects@.len(),
            world.wf(),
            f == (|e: AbilityEffect|
                on_hit_effect_command(world, table, tick, on_hit, source, victim, e)),
            commands@ == done + filter_map(on_hit.effects@.take(i as int), f),
        decreases on_hit.effects@.len() - i,
    {
        proof {
            crate::seqs::lemma_filter_map_step(on_hit.effects@, i as int, f);
        }
        if let Some(command) = on_hit_effect(
            world,
            table,
            tick,
            on_hit,
            source,
            victim,
            &on_hit.effects[i],
        ) {
            commands.push(command);
        }
        i = i + 1;
    }
    assert(on_hit.effects@.take(i as int) =~= on_hit.effects@);
}

/// A hitbox, what it touches and what it has hit.
pub struct HitboxRow<'a> {
    pub hitbox: Entity,
    pub colliding: Vec<Entity>,
    pub on_hit: &'a OnHitEffects,
    pub hit_targets: HitTargets,
}

/// Whether a hitbox may strike an entity: neither its caster nor the one it acts for.
pub open spec fn may_strike(on_hit: &OnHitEffects, entity: Entity) -> bool {
    entity != on_hit.caster && entity != on_hit.original_caster
}

/// The entity at `colliding[i]`, if the hitbox strikes it there: it may, it can be hit, and it has
/// not been hit before.
pub open spec fn struck_at(
    table: &HitTable,
    on_hit: &OnHitEffects,
    hit_targets: HitTargets,
    colliding: Seq<Entity>,
    i: int,
) -> Option<Entity> {
    let entity = colliding[i];
    if may_strike(on_hit, entity) && !hit_targets.0.has(entity) && !colliding.take(i).contains(
        entity,
    ) && table.target_of(entity) is Some {
        Some(entity)
    } else {
        None
    }
}

/// What the first `n` of the entities that a hitbox touches suffer.
pub open spec fn hitbox_commands_upto<'a>(
    world: &AbilityWorld,
    table: &HitTable,
    tick: Tick,
    row: HitboxRow<'a>,
    n: int,
) -> Seq<HitCommand>
    decreases n,
{
    if n <= 0 {
        Seq::empty()
    } else {
        let before = hitbox_commands_upto(world, table, tick, row, n - 1);
        match struck_at(table, row.on_hit, row.hit_targets, row.colliding@, n - 1) {
            Some(victim) => before + on_hit_commands(
                world,
                table,
                tick,
                row.on_hit,
                row.hitbox,
                victim,
            ),
            None => before,
        }
    }
}

/// What the entities that a hitbox touches suffer.
pub open spec fn hitbox_commands<'a>(
    world: &AbilityWorld,
    table: &HitTable,
    tick: Tick,
    row: HitboxRow<'a>,
) -> Seq<HitCommand> {
    hitbox_commands_upto(world, table, tick, row, row.colliding@.len() as int)
}

/// Whether `after` is `row` with what it touches added to what it has hit.
pub open spec fn is_hitbox_after<'a>(row: HitboxRow<'a>, after: HitboxRow<'a>) -> bool {
    &&& after.hitbox == row.hitbox
    &&& after.colliding@ == row.colliding@
    &&& after.on_hit == row.on_hit
    &&& forall|e: Entity| #[trigger]
        after.hit_targets.0.has(e) <==> row.hit_targets.0.has(e) || (row.colliding@.contains(e)
            && may_strike(row.on_hit, e))
}

fn process_hitbox<'a>(
    world: &AbilityWorld,
    table: &HitTable,
    tick: Tick,
    row: &mut HitboxRow<'a>,
    commands: &mut Vec<HitCommand>,
)
    requires
        world.wf(),
    ensures
        is_hitbox_after(*old(row), *final(row)),
        final(commands)@ == old(commands)@ + hitbox_commands(world, table, tick, *old(row)),
{
    let ghost before = *row;
    let ghost done = commands@;
    let on_hit = row.on_hit;
    let mut i: usize = 0;
    assert(before.colliding@.take(0) =~= Seq::empty());
    while i < row.colliding.len()
        invariant
            i <= row.colliding@.len(),
            world.wf(),
            on_hit == before.on_hit,
            row.hitbox == before.hitbox,
            row.colliding@ == before.colliding@,
            row.on_hit == before.on_hit,
            forall|e: Entity| #[trigger]
                row.hit_targets.0.has(e) <==> before.hit_targets.0.has(e) || (
                before.colliding@.take(i as int).contains(e) && may_strike(on_hit, e)),
            commands@ == done + hitbox_commands_upto(world, table, tick, before, i as int),
        decreases row.colliding@.len() - i,
    {
        let target = row.colliding[i];
        let hitbox = row.hitbox;
        let ghost prefix = before.colliding@.take(i as int);
        let ghost longer = before.colliding@.take(i + 1);
        proof {
            assert(longer =~= prefix.push(target));
            assert forall|e: Entity| #[trigger] longer.contains(e) <==> prefix.contains(e) || e
                == target by {
                if prefix.contains(e) {
                    let k = choose|k: int| 0 <= k < prefix.len() && prefix[k] == e;
                    assert(longer[k] == e);
                }
                if longer.contains(e) {
                    let k = choose|k: int| 0 <= k < longer.len() && longer[k] == e;
                    if k < prefix.len() {
                        assert(prefix[k] == e);
                    }
                }
                assert(longer[i as int] == target);
            }
        }
        if target != on_hit.caster && target != on_hit.original_caster {
            if row.hit_targets.0.insert(target) {
                if table.target(target).is_some() {
                    apply_on_hit_effects(world, table, tick, on_hit, hitbox, target, commands);
                }
            }
        }
        i = i + 1;
    }
    assert(before.colliding@.take(i as int) =~= before.colliding@);
}

/// What all hitboxes do on this tick.
pub open spec fn all_hitbox_commands<'a>(
    world: &AbilityWorld,
    table: &HitTable,
    tick: Tick,
    rows: Seq<HitboxRow<'a>>,
) -> Seq<HitCommand> {
    flat_map(rows, |row: HitboxRow<'a>| hitbox_commands(world, table, tick, row))
}

/// Lets every hitbox strike what it touches and has not struck before.
pub fn process_hitbox_hits<'a>(
    world: &AbilityWorld,
    table: &HitTable,
    tick: Tick,
    rows: &mut Vec<HitboxRow<'a>>,
) -> (commands: Vec<HitCommand>)
    requires
        world.wf(),
    ensures
        commands@ == all_hitbox_commands(world, table, tick, old(rows)@),
        final(rows)@.len() == old(rows)@.len(),
        forall|i: int|
            0 <= i < old(rows)@.len() ==> is_hitbox_after(
                old(rows)@[i],
                #[trigger] final(rows)@[i],
            ),
{
    let mut commands: Vec<HitCommand> = Vec::new();
    let mut i: usize = 0;
    let ghost f = |row: HitboxRow<'a>| hitbox_commands(world, table, tick, row);
    assert(old(rows)@.take(0) =~= Seq::empty());
    while i < rows.len()
        invariant
            i <= rows@.len(),
            rows@.len() == old(rows)@.len(),
            world.wf(),
            f == (|row: HitboxRow<'a>| hitbox_commands(world, table, tick, row)),
            commands@ == flat_map(old(rows)@.take(i as int), f),
            forall|j: int| 0 <= j < i ==> is_hitbox_after(old(rows)@[j], #[trigger] rows@[j]),
            forall|j: int| i <= j < rows@.len() ==> #[trigger] rows@[j] == old(rows)@[j],
        decreases rows@.len() - i,
    {
        proof {
            crate::seqs::lemma_flat_map_step(old(rows)@, i as int, f);
        }
        let row = &mut rows[i];
        process_hitbox(world, table, tick, row, &mut commands);
        i = i + 1;
    }
    assert(old(rows)@.take(i as int) =~= old(rows)@);
    commands
}

/// A bullet in flight and what it touches.
pub struct BulletHitRow<'a> {
    pub bullet: Entity,
    pub colliding: Vec<Entity>,
    pub on_hit: &'a OnHitEffects,
}

/// Whether a bullet strikes an entity: it can be hit, and the bullet does not act for it.
pub open spec fn bullet_strikes(table: &HitTable, on_hit: &OnHitEffects, entity: Entity) -> bool {
    entity != on_hit.original_caster && table.target_of(entity) is Some
}

/// The first entity that a bullet strikes, if it strikes any.
pub open spec fn bullet_victim(
    table: &HitTable,
    on_hit: &OnHitEffects,
    colliding: Seq<Entity>,
) -> Option<Entity>
    decreases colliding.len(),
{
    if colliding.len() == 0 {
        None
    } else if bullet_strikes(table, on_hit, colliding.first()) {
        Some(colliding.first())
    } else {
        bullet_victim(table, on_hit, colliding.drop_first())
    }
}

/// What a bullet does on this tick: it strikes at most one entity, and is then gone.
pub open spec fn bullet_commands<'a>(
    world: &AbilityWorld,
    table: &HitTable,
    tick: Tick,
    row: BulletHitRow<'a>,
) -> Seq<HitCommand> {
    match bullet_victim(table, row.on_hit, row.colliding@) {
        Some(victim) => on_hit_commands(
            world,
            table,
            tick,
            row.on_hit,
            row.bullet,
            victim,
        ).push(HitCommand::DespawnBullet(row.bullet)),
        None => Seq::empty(),
    }
}

fn find_bullet_victim(
    table: &HitTable,
    on_hit: &OnHitEffects,
    colliding: &Vec<Entity>,
) -> (victim: Option<Entity>)
    ensures
        victim == bullet_victim(table, on_hit, colliding@),
{
    let mut i: usize = 0;
    assert(colliding@.skip(0) =~= colliding@);
    while i < colliding.len()
        invariant
            i <= colliding@.len(),
            bullet_victim(table, on_hit, colliding@) == bullet_victim(
                table,
                on_hit,
                colliding@.skip(i as int),
            ),
        decreases colliding@.len() - i,
    {
        let target = colliding[i];
        assert(colliding@.skip(i as int).first() == target);
        assert(colliding@.skip(i as int).drop_first() =~= colliding@.skip(i + 1));
        if target != on_hit.original_caster && table.target(target).is_some() {
            return Some(target);
        }
        i = i + 1;
    }
    None
}

/// Lets every bullet strike the first target that it touches.
pub fn process_projectile_hits<'a>(
    world: &AbilityWorld,
    table: &HitTable,
    tick: Tick,
    rows: &Vec<BulletHitRow<'a>>,
) -> (commands: Vec<HitCommand>)
    requires
        world.wf(),
    ensures
        commands@ == flat_map(
            rows@,
            |row: BulletHitRow<'a>| bullet_commands(world, table, tick, row),
        ),
{
    let mut commands: Vec<HitCommand> = Vec::new();
    let mut i: usize = 0;
    let ghost f = |row: BulletHitRow<'a>| bullet_commands(world, table, tick, row);
    assert(rows@.take(0) =~= Seq::empty());
    while i < rows.len()
        invariant
            i <= rows@.len(),
            world.wf(),
            f == (|row: BulletHitRow<'a>| bullet_commands(world, table, tick, row)),
            commands@ == flat_map(rows@.take(i as int), f),
        decreases rows@.len() - i,
    {
        let ghost done = commands@;
        proof {
            crate::seqs::lemma_flat_map_step(rows@, i as int, f);
        }
        let row = &rows[i];
        if let Some(victim) = find_bullet_victim(table, row.on_hit, &row.colliding) {
            apply_on_hit_effects(
                world,
                table,
                tick,
                row.on_hit,
                row.bullet,
                victim,
                &mut commands,
            );
            commands.push(HitCommand::DespawnBullet(row.bullet));
        }
        assert(commands@ =~= done + f(rows@[i as int]));
        i = i + 1;
    }
    assert(rows@.take(i as int) =~= rows@);
    commands
}

/// A melee hitbox, and the caster of the ability it belongs to, if that is still there.
pub struct MeleeHitboxRow {
    pub hitbox: Entity,
    pub caster: Option<Entity>,
}

/// A melee hitbox that is moved in front of the caster, and turned as the caster is.
#[derive(Clone, Copy, Debug, PartialEq, Eq, Structural)]
pub struct HitboxMove {
    pub hitbox: Entity,
    pub caster: Entity,
}

/// The move of a melee hitbox, if its caster has a position and a rotation and is no hitbox itself.
pub open spec fn hitbox_move(row: MeleeHitboxRow, casters: Set<u64>) -> Option<HitboxMove> {
    match row.caster {
        Some(caster) if casters.contains(caster.bits_spec()) => Some(
            HitboxMove { hitbox: row.hitbox, caster },
        ),
        _ => None,
    }
}

/// Lets melee hitboxes follow their casters. `casters` holds the entities that have a position and a
/// rotation and are no melee hitboxes, by their bits.
pub fn update_hitbox_positions(rows: &Vec<MeleeHitboxRow>, casters: &HashSet<u64>) -> (moves: Vec<
    HitboxMove,
>)
    ensures
        moves@ == filter_map(rows@, |row: MeleeHitboxRow| hitbox_move(row, casters@)),
{
    let mut moves: Vec<HitboxMove> = Vec::new();
    let mut i: usize = 0;
    let ghost f = |row: MeleeHitboxRow| hitbox_move(row, casters@);
    assert(rows@.take(0) =~= Seq::empty());
    while i < rows.len()
        invariant
            i <= rows@.len(),
            f == (|row: MeleeHitboxRow| hitbox_move(row, casters@)),
            moves@ == filter_map(rows@.take(i as int), f),
        decreases rows@.len() - i,
    {
        proof {
            crate::seqs::lemma_filter_map_step(rows@, i as int, f);
        }
        if let Some(caster) = rows[i].caster {
            if casters.contains(&caster.to_bits()) {
                moves.push(HitboxMove { hitbox: rows[i].hitbox, caster });
            }
        }
        i = i + 1;
    }
    assert(rows@.take(i as int) =~= rows@);
    moves
}

/// A hitbox, and the phase of the ability it belongs to, if that is still there.
pub struct HitboxOwnerRow {
    pub hitbox: Entity,
    pub phase: Option<AbilityPhase>,
}

/// A hitbox whose ability is not Active any more.
pub open spec fn orphaned_hitbox(row: HitboxOwnerRow) -> Option<Entity> {
    if row.phase == Some(AbilityPhase::Active) {
        None
    } else {
        Some(row.hitbox)
    }
}

/// The hitboxes whose ability has left its Active phase or is gone.
pub fn cleanup_hitbox_entities(rows: &Vec<HitboxOwnerRow>) -> (orphans: Vec<Entity>)
    ensures
        orphans@ == filter_map(rows@, |row: HitboxOwnerRow| orphaned_hitbox(row)),
{
    let mut orphans: Vec<Entity> = Vec::new();
    let mut i: usize = 0;
    let ghost f = |row: HitboxOwnerRow| orphaned_hitbox(row);
    assert(rows@.take(0) =~= Seq::empty());
    while i < rows.len()
        invariant
            i <= rows@.len(),
            f == (|row: HitboxOwnerRow| orphaned_hitbox(row)),
            orphans@ == filter_map(rows@.take(i as int), f),
        decreases rows@.len() - i,
    {
        proof {
            crate::seqs::lemma_filter_map_step(rows@, i as int, f);
        }
        let gone = match rows[i].phase {
            Some(phase) => phase != AbilityPhase::Active,
            None => true,
        };
        if gone {
            orphans.push(rows[i].hitbox);
        }
        i = i + 1;
    }
    assert(rows@.take(i as int) =~= rows@);
    orphans
}

/// The multipliers of the buffs on damage, in order.
pub open spec fn damage_multipliers_spec(buffs: Seq<ActiveBuff>) -> Seq<Scalar> {
    filter_map(
        buffs,
        |b: ActiveBuff|
            if b.stat@ == "damage"@ {
                Some(b.multiplier)
            } else {
                None
            },
    )
}

/// The factors by which a caster's buffs multiply the damage it deals.
pub fn damage_multipliers(buffs: &Vec<ActiveBuff>) -> (factors: Vec<Scalar>)
    ensures
        factors@ == damage_multipliers_spec(buffs@),
{
    let stat: String = "damage".to_owned();
    let mut factors: Vec<Scalar> = Vec::new();
    let mut i: usize = 0;
    let ghost f = |b: ActiveBuff|
        if b.stat@ == "damage"@ {
            Some(b.multiplier)
        } else {
            None
        };
    assert(buffs@.take(0) =~= Seq::empty());
    while i < buffs.len()
        invariant
            i <= buffs@.len(),
            stat@ == "damage"@,
            f == (|b: ActiveBuff|
                if b.stat@ == "damage"@ {
                    Some(b.multiplier)
                } else {
                    None
                }),
            factors@ == filter_map(buffs@.take(i as int), f),
        decreases buffs@.len() - i,
    {
        proof {
            crate::seqs::lemma_filter_map_step(buffs@, i as int, f);
        }
        if buffs[i].stat == stat {
            factors.push(buffs[i].multiplier);
        }
        i = i + 1;
    }
    assert(buffs@.take(i as int) =~= buffs@);
    factors
}

/// What damage does to a shield.
#[derive(Clone, Copy, Debug, PartialEq, Eq, Structural)]
pub enum ShieldChange {
    /// There is no shield.
    Unshielded,
    /// The shield loses what it absorbs, which is all of the damage.
    Absorb,
    /// The shield takes what it can, and breaks.
    Break,
}

/// What damage does to an entity.
#[derive(Clone, Copy, Debug, PartialEq, Eq, Structural)]
pub struct DamageOutcome {
    pub shield: ShieldChange,
    /// Whether what the shield does not take comes off the entity's health.
    pub hurts: bool,
}

/// A shield that can take the damage takes it all. Otherwise it breaks, and the rest comes off the
/// health of an entity that has any and is not invulnerable.
pub open spec fn damage_outcome(
    shield: Option<ActiveShield>,
    damage: Scalar,
    target: Option<HitTarget>,
) -> DamageOutcome {
    let change = match shield {
        Some(shield) => if shield.remaining.at_least_spec(damage) {
            ShieldChange::Absorb
        } else {
            ShieldChange::Break
        },
        None => ShieldChange::Unshielded,
    };
    let exposed = match target {
        Some(target) => !target.invulnerable,
        None => false,
    };
    DamageOutcome { shield: change, hurts: change != ShieldChange::Absorb && exposed }
}

pub fn resolve_damage(
    shield: Option<ActiveShield>,
    damage: Scalar,
    target: Option<HitTarget>,
) -> (outcome: DamageOutcome)
    ensures
        outcome == damage_outcome(shield, damage, target),
{
    let change = match shield {
        Some(shield) => {
            if shield.remaining.at_least(damage) {
                ShieldChange::Absorb
            } else {
                ShieldChange::Break
            }
        },
        None => ShieldChange::Unshielded,
    };
    let exposed = match target {
        Some(target) => !target.invulnerable,
        None => false,
    };
    DamageOutcome { shield: change, hurts: change != ShieldChange::Absorb && exposed }
}

/// A hitbox strikes neither its caster, nor the one it acts for, nor anything that it has hit.
pub proof fn law_hitbox_spares<'a>(table: &HitTable, row: HitboxRow<'a>, i: int)
    requires
        0 <= i < row.colliding@.len(),
        struck_at(table, row.on_hit, row.hit_targets, row.colliding@, i) is Some,
    ensures
        ({
            let victim = struck_at(table, row.on_hit, row.hit_targets, row.colliding@, i)->0;
            &&& victim != row.on_hit.caster
            &&& victim != row.on_hit.original_caster
            &&& !row.hit_targets.0.has(victim)
        }),
{
}

/// A hitbox does not strike an entity twice on one tick.
pub proof fn law_hitbox_strikes_once_per_tick<'a>(table: &HitTable, row: HitboxRow<'a>, i: int, j: int)
    requires
        0 <= i < j < row.colliding@.len(),
        struck_at(table, row.on_hit, row.hit_targets, row.colliding@, i) is Some,
    ensures
        struck_at(table, row.on_hit, row.hit_targets, row.colliding@, j) != struck_at(
            table,
            row.on_hit,
            row.hit_targets,
            row.colliding@,
            i,
        ),
{
    assert(row.colliding@.take(j)[i] == row.colliding@[i]);
}

/// A hitbox does not strike again what it once struck, whatever it touches later and whatever can
/// be hit then.
pub proof fn law_hitbox_never_strikes_again<'a>(
    table: &HitTable,
    row: HitboxRow<'a>,
    after: HitboxRow<'a>,
    i: int,
    later_table: &HitTable,
    later: Seq<Entity>,
    k: int,
)
    requires
        0 <= i < row.colliding@.len(),
        struck_at(table, row.on_hit, row.hit_targets, row.colliding@, i) is Some,
        is_hitbox_after(row, after),
    ensures
        struck_at(later_table, after.on_hit, after.hit_targets, later, k) != struck_at(
            table,
            row.on_hit,
            row.hit_targets,
            row.colliding@,
            i,
        ),
{
    let victim = row.colliding@[i];
    assert(row.colliding@.contains(victim));
    assert(after.hit_targets.0.has(victim));
}

/// A bullet spares the one it acts for, and strikes only what can be hit and what it touches.
pub proof fn law_bullet_victim(table: &HitTable, on_hit: &OnHitEffects, colliding: Seq<Entity>)
    ensures
        match bullet_victim(table, on_hit, colliding) {
            Some(victim) => colliding.contains(victim) && bullet_strikes(table, on_hit, victim),
            None => forall|i: int|
                0 <= i < colliding.len() ==> !bullet_strikes(table, on_hit, #[trigger] colliding[i]),
        },
    decreases colliding.len(),
{
    if colliding.len() > 0 {
        if bullet_strikes(table, on_hit, colliding.first()) {
            assert(colliding[0] == colliding.first());
        } else {
            let rest = colliding.drop_first();
            law_bullet_victim(table, on_hit, rest);
            match bullet_victim(table, on_hit, rest) {
                Some(victim) => {
                    let k = choose|k: int| 0 <= k < rest.len() && rest[k] == victim;
                    assert(colliding[k + 1] == victim);
                },
                None => {
                    assert forall|i: int| 0 <= i < colliding.len() implies !bullet_strikes(
                        table,
                        on_hit,
                        #[trigger] colliding[i],
                    ) by {
                        if i > 0 {
                            assert(rest[i - 1] == colliding[i]);
                        }
                    }
                },
            }
        }
    }
}

/// The abilities that a hit starts act for the one that the hit acts for, one level deeper than the
/// ability that hit, and no deeper than the limit.
pub proof fn law_hit_sub_abilities(
    world: &AbilityWorld,
    table: &HitTable,
    tick: Tick,
    on_hit: &OnHitEffects,
    source: Entity,
    victim: Entity,
    k: int,
)
    requires
        0 <= k < on_hit_commands(world, table, tick, on_hit, source, victim).len(),
    ensures
        on_hit_commands(world, table, tick, on_hit, source, victim)[k] matches HitCommand::SpawnAbility(
            spawn,
        ) ==> spawn.ability.original_caster == on_hit.original_caster && spawn.ability.depth
            == on_hit.depth + 1 && spawn.ability.depth <= MAX_SUB_ABILITY_DEPTH,
{
    let f = |e: AbilityEffect|
        on_hit_effect_command(world, table, tick, on_hit, source, victim, e);
    crate::seqs::lemma_filter_map_source(on_hit.effects@, f, k);
}

/// What hits do, effect by effect and in the order of the effects: damage always, a force where the
/// entity that gets it can be hit and has a velocity, and an ability where it may start. An effect is
/// for the one that was struck, for the caster, or for the one that the caster acts for. Gives the
/// effect that each command comes of.
pub proof fn law_hit_does_all_it_can(
    world: &AbilityWorld,
    table: &HitTable,
    tick: Tick,
    on_hit: &OnHitEffects,
    source: Entity,
    victim: Entity,
) -> (at: Seq<int>)
    ensures
        ({
            let commands = on_hit_commands(world, table, tick, on_hit, source, victim);
            let whom = |target: EffectTarget|
                if target == EffectTarget::Victim {
                    victim
                } else if target == EffectTarget::Caster {
                    on_hit.caster
                } else {
                    on_hit.original_caster
                };
            &&& at.len() == commands.len()
            &&& picks(
                at,
                on_hit.effects@.len() as int,
                |i: int|
                    match on_hit.effects@[i] {
                        AbilityEffect::Damage { .. } => true,
                        AbilityEffect::ApplyForce { target, .. } => {
                            &&& table.targets@.dom().contains(whom(target).bits_spec())
                            &&& table.targets@[whom(target).bits_spec()].has_velocity
                        },
                        AbilityEffect::Ability { id, target } => sub_ability_spawn(
                            world,
                            id,
                            whom(target),
                            on_hit.original_caster,
                            0,
                            on_hit.depth,
                            tick,
                        ) is Some,
                        _ => false,
                    },
            )
            &&& forall|k: int|
                0 <= k < at.len() ==> match on_hit.effects@[#[trigger] at[k]] {
                    AbilityEffect::Damage { amount, target } => commands[k] == (
                    HitCommand::Damage { entity: whom(target), amount, caster: on_hit.caster }),
                    AbilityEffect::ApplyForce { force, frame, target } => commands[k] == (
                    HitCommand::ApplyForce {
                        entity: whom(target),
                        force,
                        frame,
                        caster: on_hit.caster,
                        source,
                    }),
                    AbilityEffect::Ability { id, target } => commands[k] matches
                        HitCommand::SpawnAbility(spawn) && sub_ability_spawn(
                        world,
                        id,
                        whom(target),
                        on_hit.original_caster,
                        0,
                        on_hit.depth,
                        tick,
                    ) == Some(spawn),
                    _ => false,
                }
        }),
{
    let f = |e: AbilityEffect|
        on_hit_effect_command(world, table, tick, on_hit, source, victim, e);
    let effects = on_hit.effects@;
    let at = lemma_filter_map_picks(effects, f);
    let whom = |target: EffectTarget|
        if target == EffectTarget::Victim {
            victim
        } else if target == EffectTarget::Caster {
            on_hit.caster
        } else {
            on_hit.original_caster
        };
    assert forall|target: EffectTarget| #[trigger] on_hit_target(target, victim, on_hit) == whom(
        target,
    ) by {}
    let done = |i: int| f(effects[i]) is Some;
    let can = |i: int|
        match effects[i] {
            AbilityEffect::Damage { .. } => true,
            AbilityEffect::ApplyForce { target, .. } => {
                &&& table.targets@.dom().contains(whom(target).bits_spec())
                &&& table.targets@[whom(target).bits_spec()].has_velocity
            },
            AbilityEffect::Ability { id, target } => sub_ability_spawn(
                world,
                id,
                whom(target),
                on_hit.original_caster,
                0,
                on_hit.depth,
                tick,
            ) is Some,
            _ => false,
        };
    assert forall|i: int| 0 <= i < effects.len() implies #[trigger] done(i)
        == #[trigger] can(i) by {}
    lemma_picks_same(at, effects.len() as int, done, can);
    at
}

/// Whether a hitbox strikes the entity at `colliding[i]`: it is neither the caster nor the one that the
/// caster acts for, it was not hit before, it is touched there for the first time, and it can be hit.
pub open spec fn is_fresh_victim<'a>(table: &HitTable, row: HitboxRow<'a>, i: int) -> bool {
    let entity = row.colliding@[i];
    &&& entity != row.on_hit.caster
    &&& entity != row.on_hit.original_caster
    &&& !row.hit_targets.0.has(entity)
    &&& forall|j: int| 0 <= j < i ==> #[trigger] row.colliding@[j] != entity
    &&& table.targets@.dom().contains(entity.bits_spec())
}

proof fn lemma_fresh_victim<'a>(table: &HitTable, row: HitboxRow<'a>, i: int)
    requires
        0 <= i < row.colliding@.len(),
    ensures
        struck_at(table, row.on_hit, row.hit_targets, row.colliding@, i) == if is_fresh_victim(
            table,
            row,
            i,
        ) {
            Some(row.colliding@[i])
        } else {
            None
        },
{
    let prefix = row.colliding@.take(i);
    if prefix.contains(row.colliding@[i]) {
        let j = choose|j: int| 0 <= j < prefix.len() && prefix[j] == row.colliding@[i];
        assert(row.colliding@[j] == row.colliding@[i]);
    } else {
        assert forall|j: int| 0 <= j < i implies #[trigger] row.colliding@[j]
            != row.colliding@[i] by {
            assert(prefix[j] == row.colliding@[j]);
        }
    }
}

proof fn lemma_hitbox_commands<'a>(
    world: &AbilityWorld,
    table: &HitTable,
    tick: Tick,
    row: HitboxRow<'a>,
    n: int,
) -> (found: (Seq<int>, Seq<int>))
    requires
        0 <= n <= row.colliding@.len(),
    ensures
        ({
            let (struck, starts) = found;
            let commands = hitbox_commands_upto(world, table, tick, row, n);
            &&& picks(struck, n, |i: int| is_fresh_victim(table, row, i))
            &&& cuts(starts, struck.len() as int, commands.len() as int)
            &&& forall|k: int|
                0 <= k < struck.len() ==> commands.subrange(starts[k], starts[k + 1])
                    == on_hit_commands(
                    world,
                    table,
                    tick,
                    row.on_hit,
                    row.hitbox,
                    row.colliding@[#[trigger] struck[k]],
                )
        }),
    decreases n,
{
    let fresh = |i: int| is_fresh_victim(table, row, i);
    if n == 0 {
        let struck = Seq::<int>::empty();
        assert(picks(struck, 0, fresh));
        (struck, seq![0int])
    } else {
        let (before, cut) = lemma_hitbox_commands(world, table, tick, row, n - 1);
        lemma_fresh_victim(table, row, n - 1);
        let part = hitbox_commands_upto(world, table, tick, row, n - 1);
        let whole = hitbox_commands_upto(world, table, tick, row, n);
        if is_fresh_victim(table, row, n - 1) {
            let m = before.len() as int;
            let struck = before.push(n - 1);
            let starts = cut.push(whole.len() as int);
            let victim = row.colliding@[n - 1];
            let added = on_hit_commands(world, table, tick, row.on_hit, row.hitbox, victim);
            assert(whole == part + added);
            assert forall|i: int| 0 <= i < n && #[trigger] fresh(i) implies struck.contains(i) by {
                if i < n - 1 {
                    let k = choose|k: int| 0 <= k < before.len() && before[k] == i;
                    assert(struck[k] == i);
                } else {
                    assert(struck[m] == i);
                }
            }
            assert(fresh(n - 1));
            assert(picks(struck, n, fresh));
            assert forall|i: int, j: int| 0 <= i <= j <= m + 1 implies #[trigger] starts[i]
                <= #[trigger] starts[j] by {
                if j <= m {
                    assert(cut[i] <= cut[j]);
                } else if i <= m {
                    assert(cut[i] <= cut[m]);
                }
            }
            assert forall|k: int| 0 <= k < struck.len() implies whole.subrange(
                starts[k],
                starts[k + 1],
            ) == on_hit_commands(
                world,
                table,
                tick,
                row.on_hit,
                row.hitbox,
                row.colliding@[#[trigger] struck[k]],
            ) by {
                if k < m {
                    assert(struck[k] == before[k]);
                    assert(cut[0] <= cut[k] && cut[k] <= cut[k + 1] && cut[k + 1] <= cut[m]);
                    assert(whole.subrange(starts[k], starts[k + 1]) =~= part.subrange(
                        cut[k],
                        cut[k + 1],
                    ));
                } else {
                    assert(whole.subrange(starts[m], starts[m + 1]) =~= added);
                }
            }
            (struck, starts)
        } else {
            assert(picks(before, n, fresh));
            (before, cut)
        }
    }
}

/// A hitbox strikes everything fresh that it touches, in the order in which it touches it, and nothing
/// else: what each victim suffers stands in one piece. Gives the places of the victims among what the
/// hitbox touches, and where the pieces start.
pub proof fn law_hitbox_strikes_all_it_touches<'a>(
    world: &AbilityWorld,
    table: &HitTable,
    tick: Tick,
    row: HitboxRow<'a>,
) -> (found: (Seq<int>, Seq<int>))
    ensures
        ({
            let (struck, starts) = found;
            let commands = hitbox_commands(world, table, tick, row);
            &&& picks(
                struck,
                row.colliding@.len() as int,
                |i: int| is_fresh_victim(table, row, i),
            )
            &&& cuts(starts, struck.len() as int, commands.len() as int)
            &&& forall|k: int|
                0 <= k < struck.len() ==> commands.subrange(starts[k], starts[k + 1])
                    == on_hit_commands(
                    world,
                    table,
                    tick,
                    row.on_hit,
                    row.hitbox,
                    row.colliding@[#[trigger] struck[k]],
                )
        }),
{
    lemma_hitbox_commands(world, table, tick, row, row.colliding@.len() as int)
}

/// A hitbox that deals damage to its victims deals it to each of them once.
pub proof fn law_every_victim_is_damaged<'a>(
    world: &AbilityWorld,
    table: &HitTable,
    tick: Tick,
    row: HitboxRow<'a>,
    amount: Scalar,
    i: int,
)
    requires
        row.on_hit.effects@.contains(
            AbilityEffect::Damage { amount, target: EffectTarget::Victim },
        ),
        0 <= i < row.colliding@.len(),
        is_fresh_victim(table, row, i),
    ensures
        hitbox_commands(world, table, tick, row).contains(
            HitCommand::Damage { entity: row.colliding@[i], amount, caster: row.on_hit.caster },
        ),
{
    let (struck, starts) = law_hitbox_strikes_all_it_touches(world, table, tick, row);
    let fresh = |i: int| is_fresh_victim(table, row, i);
    assert(fresh(i));
    let k = choose|k: int| 0 <= k < struck.len() && struck[k] == i;
    let victim = row.colliding@[struck[k]];
    let own = on_hit_commands(world, table, tick, row.on_hit, row.hitbox, victim);
    let effect = AbilityEffect::Damage { amount, target: EffectTarget::Victim };
    let effects = row.on_hit.effects@;
    let e = choose|e: int| 0 <= e < effects.len() && effects[e] == effect;
    let f = |e: AbilityEffect|
        on_hit_effect_command(world, table, tick, row.on_hit, row.hitbox, victim, e);
    let places = lemma_filter_map_picks(effects, f);
    let given = |i: int| f(effects[i]) is Some;
    assert(given(e));
    let m = choose|m: int| 0 <= m < places.len() && places[m] == e;
    assert(f(effects[places[m]]) == Some(own[m]));
    let all = hitbox_commands(world, table, tick, row);
    assert(all.subrange(starts[k], starts[k + 1]) == own);
    assert(starts[0] <= starts[k] && starts[k] <= starts[k + 1]);
    assert(starts[k + 1] <= starts[struck.len() as int]);
    assert(all[starts[k] + m] == all.subrange(starts[k], starts[k + 1])[m]);
}

/// Hitboxes act one after the other, each on its own. Gives where the commands of each start.
pub proof fn law_hitboxes_act_in_turn<'a>(
    world: &AbilityWorld,
    table: &HitTable,
    tick: Tick,
    rows: Seq<HitboxRow<'a>>,
) -> (starts: Seq<int>)
    ensures
        cuts(
            starts,
            rows.len() as int,
            all_hitbox_commands(world, table, tick, rows).len() as int,
        ),
        forall|i: int|
            0 <= i < rows.len() ==> hitbox_commands(world, table, tick, #[trigger] rows[i])
                == all_hitbox_commands(world, table, tick, rows).subrange(starts[i], starts[i + 1]),
{
    let f = |row: HitboxRow<'a>| hitbox_commands(world, table, tick, row);
    let starts = lemma_flat_map_cuts(rows, f);
    assert forall|i: int| 0 <= i < rows.len() implies hitbox_commands(
        world,
        table,
        tick,
        #[trigger] rows[i],
    ) == all_hitbox_commands(world, table, tick, rows).subrange(starts[i], starts[i + 1]) by {
        assert(f(rows[i]) == hitbox_commands(world, table, tick, rows[i]));
    }
    starts
}

/// A hitbox remembers what it touches, but for its caster and the one that the caster acts for, also
/// what cannot be hit; and it forgets nothing.
pub proof fn law_hitbox_remembers<'a>(row: HitboxRow<'a>, after: HitboxRow<'a>, entity: Entity)
    requires
        is_hitbox_after(row, after),
    ensures
        after.hit_targets.0.has(entity) <==> row.hit_targets.0.has(entity)
            || row.colliding@.contains(entity) && entity != row.on_hit.caster && entity
            != row.on_hit.original_caster,
        after.hitbox == row.hitbox,
        after.colliding@ == row.colliding@,
        after.on_hit == row.on_hit,
{
}

/// A bullet strikes the first thing that it touches that can be hit and that it does not act for, with
/// all it can do, and is gone; if there is no such thing it does nothing.
pub proof fn law_bullet_strikes_the_first<'a>(
    world: &AbilityWorld,
    table: &HitTable,
    tick: Tick,
    row: BulletHitRow<'a>,
    i: int,
)
    requires
        0 <= i <= row.colliding@.len(),
        forall|j: int|
            0 <= j < i ==> #[trigger] row.colliding@[j] == row.on_hit.original_caster
                || !table.targets@.dom().contains(row.colliding@[j].bits_spec()),
    ensures
        i == row.colliding@.len() ==> bullet_commands(world, table, tick, row).len() == 0,
        i < row.colliding@.len() && row.colliding@[i] != row.on_hit.original_caster
            && table.targets@.dom().contains(row.colliding@[i].bits_spec()) ==> bullet_commands(
            world,
            table,
            tick,
            row,
        ) == on_hit_commands(
            world,
            table,
            tick,
            row.on_hit,
            row.bullet,
            row.colliding@[i],
        ).push(HitCommand::DespawnBullet(row.bullet)),
{
    lemma_bullet_victim(table, row.on_hit, row.colliding@, i);
}

proof fn lemma_bullet_victim(
    table: &HitTable,
    on_hit: &OnHitEffects,
    colliding: Seq<Entity>,
    i: int,
)
    requires
        0 <= i <= colliding.len(),
        forall|j: int|
            0 <= j < i ==> #[trigger] colliding[j] == on_hit.original_caster
                || !table.targets@.dom().contains(colliding[j].bits_spec()),
    ensures
        i == colliding.len() ==> bullet_victim(table, on_hit, colliding) is None,
        i < colliding.len() && colliding[i] != on_hit.original_caster
            && table.targets@.dom().contains(colliding[i].bits_spec()) ==> bullet_victim(
            table,
            on_hit,
            colliding,
        ) == Some(colliding[i]),
    decreases colliding.len(),
{
    if i > 0 {
        let rest = colliding.drop_first();
        assert(colliding[0] == colliding.first());
        assert forall|j: int| 0 <= j < i - 1 implies #[trigger] rest[j] == on_hit.original_caster
            || !table.targets@.dom().contains(rest[j].bits_spec()) by {
            assert(rest[j] == colliding[j + 1]);
        }
        if i < colliding.len() {
            assert(rest[i - 1] == colliding[i]);
        }
        lemma_bullet_victim(table, on_hit, rest, i - 1);
    }
}

/// Bullets act one after the other, each on its own. Gives where the commands of each start.
pub proof fn law_bullets_act_in_turn<'a>(
    world: &AbilityWorld,
    table: &HitTable,
    tick: Tick,
    rows: Seq<BulletHitRow<'a>>,
    commands: Seq<HitCommand>,
) -> (starts: Seq<int>)
    requires
        commands == flat_map(
            rows,
            |row: BulletHitRow<'a>| bullet_commands(world, table, tick, row),
        ),
    ensures
        cuts(starts, rows.len() as int, commands.len() as int),
        forall|i: int|
            0 <= i < rows.len() ==> bullet_commands(world, table, tick, #[trigger] rows[i])
                == commands.subrange(starts[i], starts[i + 1]),
{
    let f = |row: BulletHitRow<'a>| bullet_commands(world, table, tick, row);
    let starts = lemma_flat_map_cuts(rows, f);
    assert forall|i: int| 0 <= i < rows.len() implies bullet_commands(
        world,
        table,
        tick,
        #[trigger] rows[i],
    ) == commands.subrange(starts[i], starts[i + 1]) by {
        assert(f(rows[i]) == bullet_commands(world, table, tick, rows[i]));
    }
    starts
}

/// The melee hitboxes whose caster is there and has a place follow it, in their order. Gives the hitbox
/// that each move is of.
pub proof fn law_hitboxes_follow_their_casters(
    rows: Seq<MeleeHitboxRow>,
    casters: Set<u64>,
    moves: Seq<HitboxMove>,
) -> (at: Seq<int>)
    requires
        moves == filter_map(rows, |row: MeleeHitboxRow| hitbox_move(row, casters)),
    ensures
        at.len() == moves.len(),
        picks(
            at,
            rows.len() as int,
            |i: int| rows[i].caster is Some && casters.contains(rows[i].caster->0.bits_spec()),
        ),
        forall|k: int|
            0 <= k < at.len() ==> moves[k].hitbox == rows[#[trigger] at[k]].hitbox && Some(
                moves[k].caster,
            ) == rows[at[k]].caster,
{
    let f = |row: MeleeHitboxRow| hitbox_move(row, casters);
    let at = lemma_filter_map_picks(rows, f);
    let moved = |i: int| f(rows[i]) is Some;
    let placed = |i: int|
        rows[i].caster is Some && casters.contains(rows[i].caster->0.bits_spec());
    assert forall|i: int| 0 <= i < rows.len() implies #[trigger] moved(i)
        == #[trigger] placed(i) by {}
    lemma_picks_same(at, rows.len() as int, moved, placed);
    at
}

/// The hitboxes of abilities that are not in their Active phase, or not there, go, in their order, and
/// no others. Gives the place of each.
pub proof fn law_hitboxes_go_with_the_active_phase(
    rows: Seq<HitboxOwnerRow>,
    orphans: Seq<Entity>,
) -> (at: Seq<int>)
    requires
        orphans == filter_map(rows, |row: HitboxOwnerRow| orphaned_hitbox(row)),
    ensures
        at.len() == orphans.len(),
        picks(at, rows.len() as int, |i: int| rows[i].phase != Some(AbilityPhase::Active)),
        forall|k: int| 0 <= k < at.len() ==> orphans[k] == rows[#[trigger] at[k]].hitbox,
{
    let f = |row: HitboxOwnerRow| orphaned_hitbox(row);
    let at = lemma_filter_map_picks(rows, f);
    let gone = |i: int| f(rows[i]) is Some;
    let inactive = |i: int| rows[i].phase != Some(AbilityPhase::Active);
    assert forall|i: int| 0 <= i < rows.len() implies #[trigger] gone(i)
        == #[trigger] inactive(i) by {}
    lemma_picks_same(at, rows.len() as int, gone, inactive);
    at
}

/// Damage is multiplied by each buff on damage, once, and by no other buff. Gives the buff of each
/// factor.
pub proof fn law_damage_buffs_all_count(buffs: Seq<ActiveBuff>) -> (at: Seq<int>)
    ensures
        at.len() == damage_multipliers_spec(buffs).len(),
        picks(at, buffs.len() as int, |i: int| buffs[i].stat@ == "damage"@),
        forall|k: int|
            0 <= k < at.len() ==> damage_multipliers_spec(buffs)[k] == buffs[#[trigger] at[k]].multiplier,
{
    let f = |b: ActiveBuff|
        if b.stat@ == "damage"@ {
            Some(b.multiplier)
        } else {
            None
        };
    let at = lemma_filter_map_picks(buffs, f);
    let given = |i: int| f(buffs[i]) is Some;
    let counts = |i: int| buffs[i].stat@ == "damage"@;
    assert forall|i: int| 0 <= i < buffs.len() implies #[trigger] given(i)
        == #[trigger] counts(i) by {}
    lemma_picks_same(at, buffs.len() as int, given, counts);
    at
}

/// Nobody is hurt behind a shield that holds, nor while invulnerable, nor without health; everybody else
/// is. A shield holds against damage that it is known to be at least as great as, and breaks under any
/// other; where there is none, none breaks.
pub proof fn law_shields_take_damage_first(
    shield: Option<ActiveShield>,
    damage: Scalar,
    target: Option<HitTarget>,
)
    ensures
        ({
            let outcome = damage_outcome(shield, damage, target);
            let holds = shield is Some && shield->0.remaining.at_least_spec(damage);
            &&& outcome.hurts <==> !holds && target is Some && !target->0.invulnerable
            &&& outcome.shield == ShieldChange::Absorb <==> holds
            &&& outcome.shield == ShieldChange::Break <==> shield is Some && !holds
            &&& outcome.shield == ShieldChange::Unshielded <==> shield is None
        }),
{
}

} // verus!
