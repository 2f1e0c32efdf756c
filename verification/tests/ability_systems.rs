use lightyear_arena::ability::activation::{
    ability_action_to_slot, ability_activation, slot_to_ability_action, ActivationRow,
};
use lightyear_arena::ability::effects::{
    apply_on_end_effects, apply_on_input_effects, apply_on_tick_effects, apply_while_active_effects,
    current_offset, AbilityCommand, OnEndRow, OnInputRow, OnTickRow, WhileActiveRow,
};
use lightyear_arena::ability::lifetimes::{
    ability_bullet_lifetime, ability_projectile_spawn, aoe_hitbox_lifetime,
    cleanup_effect_markers_on_removal, despawn_ability_projectile_spawn, expire_buffs,
    handle_ability_projectile_spawn, AoERow, BuffRow, BulletRow, EffectMarker,
    ProjectileEntityRow, ProjectileLife, ProjectileRow,
};
use lightyear_arena::ability::phases::{
    advance_ability_phase, update_active_abilities, OnHitChange, PhaseRow,
};
use lightyear_arena::ability::spawn::{
    activation_salt, compute_sub_ability_salt, projectile_salt, spawn_sub_ability, AbilitySpawn,
    SpawnSalt, MAX_SUB_ABILITY_DEPTH,
};
use lightyear_arena::ability::types::{
    extract_phases, AbilityAsset, AbilityBulletOf, AbilityComponent, AbilityCooldowns, AbilityDef, AbilityDefs,
    AbilityEffect, AbilityId, AbilityPhase, AbilityPhases, AbilitySlots, ActiveAbility, ActiveBuff,
    ActiveBuffs, ActiveShield, AoEHitbox, DefaultAbilitySlots, EffectTarget, EffectTrigger,
    ForceFrame, HitTargets, InputEffect, OnEndEffects, OnHitEffectDefs, OnHitEffects,
    OnInputEffects, OnTickEffects, ProjectileSpawnEffect, TickEffect, WhileActiveEffects,
};
use lightyear_arena::ability::world::{AbilityWorld, Body};
use lightyear_arena::entity::Entity;
use lightyear_arena::hit_detection::{
    cleanup_hitbox_entities, damage_multipliers, process_hitbox_hits, process_projectile_hits,
    resolve_damage, update_hitbox_positions, BulletHitRow, DamageOutcome, HitCommand, HitTable,
    HitTarget, HitboxMove, HitboxOwnerRow, HitboxRow, MeleeHitboxRow, ShieldChange,
};
use lightyear_arena::map::types::MapInstanceId;
use lightyear_arena::names::NameMap;
use lightyear_arena::player::{ActionState, PlayerActions, PlayerId};
use lightyear_arena::scalar::{Scalar, Vector};
use lightyear_arena::tick::Tick;
use std::collections::{HashMap, HashSet};
use std::hash::{Hash, Hasher};

fn scalar(value: f32) -> Scalar {
    Scalar(value.to_bits())
}

fn number(value: Scalar) -> f32 {
    f32::from_bits(value.0)
}

fn vector(x: f32, y: f32, z: f32) -> Vector {
    Vector { x: scalar(x), y: scalar(y), z: scalar(z) }
}

fn entity(bits: u64) -> Entity {
    Entity::try_from_bits(bits).expect("bits of an entity")
}

const CHARACTER: u64 = 1;
const TARGET: u64 = 2;
const ABILITY: u64 = 3;
const HITBOX: u64 = 4;

fn damage(amount: f32) -> AbilityEffect {
    AbilityEffect::Damage { amount: scalar(amount), target: EffectTarget::Victim }
}

fn force(x: f32, y: f32, z: f32) -> AbilityEffect {
    AbilityEffect::ApplyForce {
        force: vector(x, y, z),
        frame: ForceFrame::RelativePosition,
        target: EffectTarget::Victim,
    }
}

fn melee() -> AbilityEffect {
    AbilityEffect::Melee { id: None, target: EffectTarget::Caster }
}

fn start(id: &str) -> AbilityEffect {
    AbilityEffect::Ability { id: id.to_string(), target: EffectTarget::Caster }
}

fn on_tick(effect: AbilityEffect) -> AbilityComponent {
    AbilityComponent::OnTick(OnTickEffects(vec![TickEffect { tick: 0, effect }]))
}

fn phases(startup: u16, active: u16, recovery: u16, cooldown: u16) -> AbilityPhases {
    AbilityPhases { startup, active, recovery, cooldown }
}

fn punch_on_hit() -> OnHitEffectDefs {
    OnHitEffectDefs(vec![damage(5.0), force(0.0, 0.9, 2.85)])
}

fn punch_on_input() -> OnInputEffects {
    OnInputEffects(vec![InputEffect { action: PlayerActions::Ability1, effect: start("punch2") }])
}

fn test_assets() -> Vec<(&'static str, Vec<AbilityComponent>)> {
    vec![
        (
            "punch",
            vec![
                AbilityComponent::Phases(phases(4, 20, 0, 16)),
                on_tick(melee()),
                AbilityComponent::OnHit(punch_on_hit()),
                AbilityComponent::OnInput(punch_on_input()),
            ],
        ),
        (
            "punch2",
            vec![
                AbilityComponent::Phases(phases(4, 20, 0, 0)),
                on_tick(melee()),
                AbilityComponent::OnHit(OnHitEffectDefs(vec![
                    damage(6.0),
                    force(0.0, 1.05, 3.32),
                ])),
                AbilityComponent::OnInput(OnInputEffects(vec![InputEffect {
                    action: PlayerActions::Ability1,
                    effect: start("punch3"),
                }])),
            ],
        ),
        (
            "punch3",
            vec![
                AbilityComponent::Phases(phases(4, 6, 10, 0)),
                on_tick(melee()),
                AbilityComponent::OnHit(OnHitEffectDefs(vec![
                    damage(10.0),
                    force(0.0, 2.4, 7.65),
                ])),
            ],
        ),
        (
            "dash",
            vec![
                AbilityComponent::Phases(phases(2, 8, 4, 64)),
                AbilityComponent::WhileActive(WhileActiveEffects(vec![
                    AbilityEffect::SetVelocity {
                        speed: scalar(15.0),
                        target: EffectTarget::Caster,
                    },
                ])),
            ],
        ),
        (
            "fireball",
            vec![
                AbilityComponent::Phases(phases(6, 2, 8, 96)),
                on_tick(AbilityEffect::Projectile {
                    id: None,
                    speed: scalar(20.0),
                    lifetime_ticks: 192,
                }),
                AbilityComponent::OnHit(OnHitEffectDefs(vec![
                    damage(25.0),
                    force(0.0, 2.4, 7.65),
                ])),
            ],
        ),
    ]
}

fn test_world() -> AbilityWorld {
    let mut abilities = NameMap::new();
    let mut assets = HashMap::new();
    for (handle, (name, components)) in test_assets().into_iter().enumerate() {
        abilities.insert(name.to_string(), handle as u64);
        assets.insert(handle as u64, AbilityAsset { components });
    }
    let body = Body {
        position: true,
        rotation: true,
        velocity: true,
        map: Some(MapInstanceId::Overworld),
    };
    let mut players = HashMap::new();
    players.insert(CHARACTER, PlayerId(1));
    let mut bodies = HashMap::new();
    bodies.insert(CHARACTER, body);
    bodies.insert(TARGET, body);
    AbilityWorld {
        defs: AbilityDefs { abilities },
        assets,
        players,
        controlled: HashSet::new(),
        bodies,
    }
}

fn test_phases(world: &AbilityWorld, id: &str) -> AbilityPhases {
    let (_, asset) = world.asset(&AbilityId(id.to_string())).expect("loaded ability");
    extract_phases(asset).expect("phases of a loaded ability")
}

fn punch_slots() -> AbilitySlots {
    AbilitySlots([
        Some(AbilityId("punch".to_string())),
        Some(AbilityId("dash".to_string())),
        Some(AbilityId("fireball".to_string())),
        None,
    ])
}

fn active(id: &str, phase: AbilityPhase, start: u16, slot: u8, depth: u8) -> ActiveAbility {
    ActiveAbility {
        def_id: AbilityId(id.to_string()),
        caster: entity(CHARACTER),
        original_caster: entity(CHARACTER),
        target: entity(CHARACTER),
        phase,
        phase_start_tick: Tick(start),
        ability_slot: slot,
        depth,
    }
}

/// Presses `action` on `tick` and gives the abilities that start and the cooldowns afterwards.
fn press(
    world: &AbilityWorld,
    action: PlayerActions,
    tick: u16,
    cooldowns: AbilityCooldowns,
) -> (Vec<AbilitySpawn>, AbilityCooldowns) {
    let actions = ActionState { pressed: vec![action] };
    let slots = punch_slots();
    let default_slots = DefaultAbilitySlots(AbilitySlots::default());
    let mut rows = vec![ActivationRow {
        entity: entity(CHARACTER),
        actions: &actions,
        slots: Some(&slots),
        cooldowns,
        player_id: PlayerId(1),
    }];
    let spawns = ability_activation(world, &default_slots, Tick(tick), &mut rows);
    let row = rows.pop().expect("the row of the character");
    (spawns, row.cooldowns)
}

/// Runs one tick of an ability and says whether it ended.
fn step(world: &AbilityWorld, ability: ActiveAbility, tick: u16) -> (ActiveAbility, bool, OnHitChange) {
    let id = ability.def_id.0.clone();
    let (_, asset) = world.asset(&AbilityId(id.clone())).expect("loaded ability");
    let on_hit_defs = asset.components.iter().find_map(|c| match c {
        AbilityComponent::OnHit(defs) => Some(defs),
        _ => None,
    });
    let mut rows = vec![PhaseRow {
        entity: entity(ABILITY),
        active: ability,
        phases: test_phases(world, &id),
        on_hit_defs,
    }];
    let mut updates = update_active_abilities(&mut rows, Tick(tick));
    assert_eq!(updates.len(), 1);
    let update = updates.pop().expect("one update");
    assert_eq!(update.entity, entity(ABILITY));
    (rows.pop().expect("one row").active, update.despawn, update.on_hit)
}

/// Runs the on-tick effects of an ability in flight on `tick`.
fn run_on_tick<'a>(
    world: &AbilityWorld,
    effects: &'a OnTickEffects,
    ability: &'a ActiveAbility,
    on_hit: Option<&'a OnHitEffects>,
    tick: u16,
) -> Vec<AbilityCommand<'a>> {
    let rows = vec![OnTickRow { entity: entity(ABILITY), effects, active: ability, on_hit }];
    apply_on_tick_effects(world, Tick(tick), &rows)
}

fn on_tick_effects(effect: AbilityEffect) -> OnTickEffects {
    OnTickEffects(vec![TickEffect { tick: 0, effect }])
}

fn on_hit_of(effects: Vec<AbilityEffect>) -> OnHitEffects {
    OnHitEffects {
        effects,
        caster: entity(CHARACTER),
        original_caster: entity(CHARACTER),
        depth: 0,
    }
}

fn table_with_target() -> HitTable {
    let mut targets = HashMap::new();
    targets.insert(TARGET, HitTarget { has_velocity: true, invulnerable: false });
    HitTable { targets }
}

/// A hitbox of the character strikes the target; gives what comes of it.
fn strike(world: &AbilityWorld, on_hit: &OnHitEffects) -> Vec<HitCommand> {
    let mut rows = vec![HitboxRow {
        hitbox: entity(HITBOX),
        colliding: vec![entity(TARGET)],
        on_hit,
        hit_targets: HitTargets::default(),
    }];
    process_hitbox_hits(world, &table_with_target(), Tick(200), &mut rows)
}

/// Takes damage off a shield and off health.
fn take_damage(
    amount: f32,
    buffs: &Vec<ActiveBuff>,
    shield: Option<f32>,
    health: f32,
) -> (Option<f32>, f32) {
    let mut effective = amount;
    for factor in damage_multipliers(buffs) {
        effective *= number(factor);
    }
    let outcome = resolve_damage(
        shield.map(|remaining| ActiveShield { remaining: scalar(remaining) }),
        scalar(effective),
        Some(HitTarget { has_velocity: true, invulnerable: false }),
    );
    match (outcome.shield, shield) {
        (ShieldChange::Absorb, Some(remaining)) => {
            assert!(!outcome.hurts);
            (Some(remaining - effective), health)
        },
        (ShieldChange::Break, Some(remaining)) => {
            assert!(outcome.hurts);
            (None, health - (effective - remaining))
        },
        (ShieldChange::Unshielded, None) => {
            assert!(outcome.hurts);
            (None, health - effective)
        },
        other => panic!("unexpected outcome: {other:?}"),
    }
}

#[test]
fn activation_on_press() {
    let world = test_world();
    let (spawns, _) = press(&world, PlayerActions::Ability1, 100, AbilityCooldowns::default());
    assert_eq!(spawns.len(), 1);
    let spawned = &spawns[0].ability;
    assert_eq!(spawned.def_id, AbilityId("punch".to_string()));
    assert_eq!(spawned.caster, entity(CHARACTER));
    assert_eq!(spawned.phase_start_tick, Tick(100));
    assert_eq!(spawned.phase, AbilityPhase::Startup);
}

#[test]
fn slots_cool_down_for_their_ticks() {
    let mut cooldowns = AbilityCooldowns::default();
    assert!(!cooldowns.is_on_cooldown(0, Tick(100), 30));
    cooldowns.last_used[0] = Some(Tick(65530));
    assert!(cooldowns.is_on_cooldown(0, Tick(65530), 0));
    assert!(cooldowns.is_on_cooldown(0, Tick(24), 30));
    assert!(!cooldowns.is_on_cooldown(0, Tick(25), 30));
    assert!(!cooldowns.is_on_cooldown(1, Tick(24), 30));
}

#[test]
fn activation_blocked_by_cooldown() {
    let world = test_world();
    let mut cooldowns = AbilityCooldowns::default();
    cooldowns.last_used[0] = Some(Tick(90));
    let (spawns, _) = press(&world, PlayerActions::Ability1, 100, cooldowns);
    assert!(spawns.is_empty(), "Should not activate while on cooldown");
}

#[test]
fn activation_empty_slot() {
    let world = test_world();
    let (spawns, _) = press(&world, PlayerActions::Ability4, 100, AbilityCooldowns::default());
    assert!(spawns.is_empty(), "Should not activate empty slot");
}

#[test]
fn activation_sets_cooldown() {
    let world = test_world();
    let (_, cooldowns) = press(&world, PlayerActions::Ability1, 100, AbilityCooldowns::default());
    assert_eq!(cooldowns.last_used[0], Some(Tick(100)));
    assert_eq!(cooldowns.last_used[1], None);
}

#[test]
fn phase_startup_to_active() {
    let world = test_world();
    let (after, done, _) = step(&world, active("punch", AbilityPhase::Startup, 100, 0, 0), 104);
    assert_eq!(after.phase, AbilityPhase::Active);
    assert!(!done);
}

#[test]
fn phase_active_to_recovery() {
    let world = test_world();
    let (after, done, _) = step(&world, active("punch3", AbilityPhase::Active, 200, 0, 0), 206);
    assert_eq!(after.phase, AbilityPhase::Recovery);
    assert!(!done);
}

#[test]
fn phase_recovery_completes() {
    let world = test_world();
    let (after, done, _) = step(&world, active("dash", AbilityPhase::Recovery, 300, 1, 0), 304);
    assert_eq!(after.phase, AbilityPhase::Recovery);
    assert!(done);
}

fn fireball_bullet() -> BulletRow {
    BulletRow {
        entity: entity(HITBOX),
        life: Some(ProjectileLife { spawn_tick: Tick(100), lifetime_ticks: 192 }),
    }
}

#[test]
fn bullet_lifetime_despawn() {
    let expired = ability_bullet_lifetime(&vec![fireball_bullet()], Tick(300));
    assert_eq!(expired, vec![entity(HITBOX)], "Bullet should be despawned after lifetime expires");
}

#[test]
fn bullet_lifetime_alive() {
    let expired = ability_bullet_lifetime(&vec![fireball_bullet()], Tick(200));
    assert!(expired.is_empty(), "Bullet should survive before lifetime expires");
}

#[test]
fn on_hit_effects_dispatched_on_first_active_tick() {
    let world = test_world();
    let (after, _, change) = step(&world, active("punch", AbilityPhase::Startup, 196, 0, 0), 200);
    assert_eq!(after.phase, AbilityPhase::Active);
    assert_eq!(after.phase_start_tick, Tick(200));
    match change {
        OnHitChange::Insert(on_hit) => {
            assert_eq!(on_hit.effects.len(), 2, "punch has 2 OnHit effects (Damage + ApplyForce)");
            assert_eq!(on_hit.caster, entity(CHARACTER));
            assert_eq!(on_hit.original_caster, entity(CHARACTER));
            assert_eq!(on_hit.depth, 0);
        },
        other => panic!("OnHitEffects should be inserted, got {other:?}"),
    }
}

#[test]
fn on_hit_effects_removed_on_recovery() {
    let world = test_world();
    let (after, _, change) = step(&world, active("punch3", AbilityPhase::Active, 200, 0, 0), 200);
    assert!(matches!(change, OnHitChange::Keep));
    let (after, _, change) = step(&world, after, 206);
    assert_eq!(after.phase, AbilityPhase::Recovery);
    assert!(matches!(change, OnHitChange::Remove));
}

#[test]
fn melee_hitbox_entity_spawned() {
    let world = test_world();
    let ability = active("punch", AbilityPhase::Active, 200, 0, 0);
    let effects = on_tick_effects(melee());
    let commands = run_on_tick(&world, &effects, &ability, None, 200);
    assert_eq!(commands.len(), 1);
    match &commands[0] {
        AbilityCommand::SpawnMeleeHitbox { ability, caster, map, .. } => {
            assert_eq!(*ability, entity(ABILITY));
            assert_eq!(*caster, entity(CHARACTER));
            assert_eq!(*map, MapInstanceId::Overworld);
        },
        other => panic!("a melee hitbox should be spawned, got {other:?}"),
    }
}

#[test]
fn hitbox_entity_has_correct_on_hit_effects() {
    let world = test_world();
    let (ability, _, change) = step(&world, active("punch", AbilityPhase::Startup, 196, 0, 0), 200);
    let on_hit = match change {
        OnHitChange::Insert(on_hit) => on_hit,
        other => panic!("OnHitEffects should be inserted, got {other:?}"),
    };
    let effects = on_tick_effects(melee());
    let commands = run_on_tick(&world, &effects, &ability, Some(&on_hit), 200);
    match &commands[0] {
        AbilityCommand::SpawnMeleeHitbox { on_hit: Some(carried), .. } => {
            assert_eq!(carried.effects.len(), 2);
            assert_eq!(carried.effects[0], damage(5.0));
            assert_eq!(carried.caster, entity(CHARACTER));
            assert_eq!(carried.original_caster, entity(CHARACTER));
        },
        other => panic!("the hitbox should carry on-hit effects, got {other:?}"),
    }
}

#[test]
fn on_end_effects_dispatched_on_active_to_recovery() {
    let mut world = test_world();
    world.defs.abilities.insert("dash_with_end".to_string(), 50);
    world.assets.insert(
        50,
        AbilityAsset { components: vec![AbilityComponent::Phases(phases(2, 4, 4, 32))] },
    );
    let effects = OnEndEffects(vec![AbilityEffect::SetVelocity {
        speed: scalar(0.0),
        target: EffectTarget::Caster,
    }]);

    let ability = active("dash_with_end", AbilityPhase::Active, 200, 1, 0);
    let rows = vec![OnEndRow { effects: &effects, active: &ability }];
    assert!(apply_on_end_effects(&world, Tick(200), &rows).is_empty());

    let (after, _, _) = step(&world, active("dash_with_end", AbilityPhase::Active, 200, 1, 0), 204);
    assert_eq!(after.phase, AbilityPhase::Recovery);
    let rows = vec![OnEndRow { effects: &effects, active: &after }];
    let commands = apply_on_end_effects(&world, Tick(204), &rows);
    assert_eq!(commands.len(), 1);
    match &commands[0] {
        AbilityCommand::SetVelocity { entity: moved, speed } => {
            assert_eq!(*moved, entity(CHARACTER));
            assert_eq!(number(*speed), 0.0);
        },
        other => panic!("the velocity should be set, got {other:?}"),
    }
    assert!(apply_on_end_effects(&world, Tick(205), &rows).is_empty());
}

#[test]
fn sub_ability_spawned_on_cast() {
    let world = test_world();
    let ability = active("chain_test", AbilityPhase::Active, 200, 0, 0);
    let effects = on_tick_effects(start("punch"));
    let commands = run_on_tick(&world, &effects, &ability, None, 200);
    assert_eq!(commands.len(), 1);
    match &commands[0] {
        AbilityCommand::SpawnAbility(spawn) => {
            assert_eq!(spawn.ability.def_id, AbilityId("punch".to_string()));
            assert_eq!(spawn.ability.caster, entity(CHARACTER));
            assert_eq!(spawn.ability.original_caster, entity(CHARACTER));
            assert_eq!(spawn.ability.depth, 1);
            assert_eq!(spawn.ability.phase, AbilityPhase::Startup);
        },
        other => panic!("Sub-ability 'punch' should exist, got {other:?}"),
    }
}

#[test]
fn sub_ability_depth_limited() {
    let world = test_world();
    let effects = on_tick_effects(start("punch"));
    let deep = active("recurse", AbilityPhase::Active, 200, 0, 4);
    assert!(
        run_on_tick(&world, &effects, &deep, None, 200).is_empty(),
        "Sub-ability should not spawn at depth >= 4"
    );
    let allowed = active("recurse", AbilityPhase::Active, 200, 0, 3);
    assert_eq!(run_on_tick(&world, &effects, &allowed, None, 200).len(), 1);
    assert_eq!(MAX_SUB_ABILITY_DEPTH, 4);
}

#[test]
fn sub_ability_phase_management() {
    let world = test_world();
    let (sub, _, _) = step(&world, active("punch3", AbilityPhase::Startup, 200, 0, 1), 200);
    assert_eq!(sub.phase, AbilityPhase::Startup);
    assert_eq!(sub.depth, 1);
    let (sub, _, _) = step(&world, sub, 204);
    assert_eq!(sub.phase, AbilityPhase::Active);
    let (sub, _, _) = step(&world, sub, 210);
    assert_eq!(sub.phase, AbilityPhase::Recovery);
}

#[test]
fn on_input_effects_dispatched_during_active() {
    let world = test_world();
    let effects = punch_on_input();
    let ability = active("punch", AbilityPhase::Active, 200, 0, 0);
    let pressed = ActionState { pressed: vec![PlayerActions::Ability1] };
    let rows = vec![OnInputRow { effects: &effects, active: &ability, actions: Some(&pressed) }];
    assert_eq!(effects.0.len(), 1, "punch has 1 OnInput effect");
    assert_eq!(effects.0[0].action, PlayerActions::Ability1);
    assert_eq!(effects.0[0].effect, start("punch2"));
    let commands = apply_on_input_effects(&world, Tick(200), &rows);
    assert_eq!(commands.len(), 1);
    match &commands[0] {
        AbilityCommand::SpawnAbility(spawn) => {
            assert_eq!(spawn.ability.def_id, AbilityId("punch2".to_string()));
        },
        other => panic!("punch2 should start, got {other:?}"),
    }
    let idle = ActionState { pressed: vec![] };
    let rows = vec![OnInputRow { effects: &effects, active: &ability, actions: Some(&idle) }];
    assert!(apply_on_input_effects(&world, Tick(200), &rows).is_empty());
}

#[test]
fn on_input_effects_removed_on_recovery() {
    let world = test_world();
    let effects = punch_on_input();
    let pressed = ActionState { pressed: vec![PlayerActions::Ability1] };
    let (after, _, _) = step(&world, active("punch", AbilityPhase::Active, 200, 0, 0), 220);
    assert_eq!(after.phase, AbilityPhase::Recovery);
    let rows = vec![OnInputRow { effects: &effects, active: &after, actions: Some(&pressed) }];
    assert!(
        apply_on_input_effects(&world, Tick(220), &rows).is_empty(),
        "OnInputEffects should not fire outside the Active phase"
    );
}

#[test]
fn aoe_hitbox_damages_target() {
    let world = test_world();
    let effects = on_tick_effects(AbilityEffect::AreaOfEffect {
        id: None,
        target: EffectTarget::Caster,
        radius: scalar(5.0),
        duration_ticks: None,
    });
    let ability = active("aoe_test", AbilityPhase::Active, 200, 0, 0);
    let on_hit = on_hit_of(vec![damage(25.0)]);
    let commands = run_on_tick(&world, &effects, &ability, Some(&on_hit), 200);
    let carried = match &commands[0] {
        AbilityCommand::SpawnAoEHitbox { on_hit: Some(carried), radius, hitbox, .. } => {
            assert_eq!(number(*radius), 5.0);
            assert_eq!(*hitbox, AoEHitbox { spawn_tick: Tick(200), duration_ticks: 1 });
            carried
        },
        other => panic!("AoE hitbox entity should exist, got {other:?}"),
    };
    let hits = strike(&world, carried);
    assert_eq!(hits.len(), 1);
    let amount = match &hits[0] {
        HitCommand::Damage { entity: hurt, amount, .. } => {
            assert_eq!(*hurt, entity(TARGET));
            number(*amount)
        },
        other => panic!("the target should be hurt, got {other:?}"),
    };
    let (_, health) = take_damage(amount, &vec![], None, 100.0);
    assert_eq!(health, 75.0);
}

#[test]
fn teleport_moves_caster() {
    let world = test_world();
    let effects = on_tick_effects(AbilityEffect::Teleport { distance: scalar(10.0) });
    let ability = active("teleport_test", AbilityPhase::Active, 200, 0, 0);
    let commands = run_on_tick(&world, &effects, &ability, None, 200);
    let moved = match &commands[0] {
        AbilityCommand::Teleport { entity: moved, distance } => {
            assert_eq!(*moved, entity(CHARACTER));
            number(*distance)
        },
        other => panic!("the caster should be moved, got {other:?}"),
    };
    let facing = [0.0f32, 0.0, -1.0];
    let pos = [facing[0] * moved, facing[1] * moved, facing[2] * moved];
    assert!(pos[0].abs() < 0.01);
    assert!((pos[2] - (-10.0)).abs() < 0.01);
}

#[test]
fn shield_absorbs_damage() {
    let world = test_world();
    let on_hit = on_hit_of(vec![damage(30.0)]);
    let hits = strike(&world, &on_hit);
    assert!(matches!(&hits[0], HitCommand::Damage { amount, .. } if number(*amount) == 30.0));
    let (shield, health) = take_damage(30.0, &vec![], Some(50.0), 100.0);
    assert_eq!(shield, Some(20.0));
    assert_eq!(health, 100.0);
}

#[test]
fn shield_overflow_damages_health() {
    let world = test_world();
    let on_hit = on_hit_of(vec![damage(50.0)]);
    let hits = strike(&world, &on_hit);
    assert!(matches!(&hits[0], HitCommand::Damage { amount, .. } if number(*amount) == 50.0));
    let (shield, health) = take_damage(50.0, &vec![], Some(20.0), 100.0);
    assert_eq!(shield, None);
    assert_eq!(health, 70.0);
}

#[test]
fn buff_inserted_on_target() {
    let world = test_world();
    let effects = on_tick_effects(AbilityEffect::Buff {
        stat: "speed".to_string(),
        multiplier: scalar(1.5),
        duration_ticks: 100,
        target: EffectTarget::Caster,
    });
    let ability = active("buff_test", AbilityPhase::Active, 200, 0, 0);
    let commands = run_on_tick(&world, &effects, &ability, None, 200);
    assert_eq!(commands.len(), 1);
    match &commands[0] {
        AbilityCommand::InsertBuff { entity: buffed, buff } => {
            assert_eq!(*buffed, entity(CHARACTER));
            assert_eq!(buff.stat, "speed");
            assert_eq!(number(buff.multiplier), 1.5);
            assert_eq!(buff.expires_tick, Tick(200).offset(100));
        },
        other => panic!("a buff should be inserted, got {other:?}"),
    }
}

#[test]
fn buff_expires_after_duration() {
    let mut rows = vec![BuffRow {
        entity: entity(CHARACTER),
        buffs: ActiveBuffs(vec![ActiveBuff {
            stat: "speed".to_string(),
            multiplier: scalar(1.5),
            expires_tick: Tick(210),
        }]),
    }];
    let bare = expire_buffs(&mut rows, Tick(200));
    assert!(bare.is_empty(), "Buff should still exist before expiry tick");
    assert_eq!(rows[0].buffs.0.len(), 1);
    let bare = expire_buffs(&mut rows, Tick(211));
    assert_eq!(bare, vec![entity(CHARACTER)], "ActiveBuffs should be removed after expiry");
    assert!(rows[0].buffs.0.is_empty());
}

#[test]
fn buff_increases_damage() {
    let world = test_world();
    let buffs = vec![ActiveBuff {
        stat: "damage".to_string(),
        multiplier: scalar(2.0),
        expires_tick: Tick(999),
    }];
    let on_hit = on_hit_of(vec![damage(10.0)]);
    let hits = strike(&world, &on_hit);
    match &hits[0] {
        HitCommand::Damage { amount, caster, .. } => {
            assert_eq!(*caster, entity(CHARACTER));
            let (_, health) = take_damage(number(*amount), &buffs, None, 100.0);
            assert_eq!(health, 80.0);
        },
        other => panic!("the target should be hurt, got {other:?}"),
    }
}

#[test]
fn other_buffs_leave_damage_alone() {
    let buffs = vec![
        ActiveBuff {
            stat: "speed".to_string(),
            multiplier: scalar(3.0),
            expires_tick: Tick(999),
        },
        ActiveBuff {
            stat: "damage".to_string(),
            multiplier: scalar(2.0),
            expires_tick: Tick(999),
        },
    ];
    assert_eq!(damage_multipliers(&buffs), vec![scalar(2.0)]);
}

#[test]
fn invulnerable_targets_are_not_hurt() {
    let outcome = resolve_damage(
        None,
        scalar(10.0),
        Some(HitTarget { has_velocity: true, invulnerable: true }),
    );
    assert_eq!(outcome, DamageOutcome { shield: ShieldChange::Unshielded, hurts: false });
}

#[test]
fn hitbox_strikes_a_target_once() {
    let world = test_world();
    let on_hit = on_hit_of(vec![damage(10.0)]);
    let mut rows = vec![HitboxRow {
        hitbox: entity(HITBOX),
        colliding: vec![entity(TARGET), entity(CHARACTER)],
        on_hit: &on_hit,
        hit_targets: HitTargets::default(),
    }];
    let first = process_hitbox_hits(&world, &table_with_target(), Tick(200), &mut rows);
    assert_eq!(first.len(), 1);
    assert!(rows[0].hit_targets.0.contains(entity(TARGET)));
    assert!(!rows[0].hit_targets.0.contains(entity(CHARACTER)));
    let second = process_hitbox_hits(&world, &table_with_target(), Tick(201), &mut rows);
    assert!(second.is_empty());
}

#[test]
fn bullet_strikes_and_is_gone() {
    let world = test_world();
    let on_hit = on_hit_of(vec![damage(25.0), force(0.0, 2.4, 7.65)]);
    let rows = vec![BulletHitRow {
        bullet: entity(HITBOX),
        colliding: vec![entity(CHARACTER), entity(TARGET)],
        on_hit: &on_hit,
    }];
    let commands = process_projectile_hits(&world, &table_with_target(), Tick(200), &rows);
    assert_eq!(commands.len(), 3);
    assert!(matches!(&commands[0], HitCommand::Damage { amount, .. } if number(*amount) == 25.0));
    match &commands[1] {
        HitCommand::ApplyForce { entity: pushed, force, frame, .. } => {
            assert_eq!(*pushed, entity(TARGET));
            assert_eq!(*force, vector(0.0, 2.4, 7.65));
            assert_eq!(*frame, ForceFrame::RelativePosition);
        },
        other => panic!("a force should be applied, got {other:?}"),
    }
    assert!(matches!(&commands[2], HitCommand::DespawnBullet(bullet) if *bullet == entity(HITBOX)));
}

#[test]
fn hitboxes_end_with_the_active_phase() {
    let rows = vec![
        HitboxOwnerRow { hitbox: entity(10), phase: Some(AbilityPhase::Active) },
        HitboxOwnerRow { hitbox: entity(11), phase: Some(AbilityPhase::Recovery) },
        HitboxOwnerRow { hitbox: entity(12), phase: None },
    ];
    assert_eq!(cleanup_hitbox_entities(&rows), vec![entity(11), entity(12)]);
}

#[test]
fn aoe_hitboxes_live_for_their_duration() {
    let rows = vec![AoERow {
        entity: entity(HITBOX),
        hitbox: AoEHitbox { spawn_tick: Tick(65535), duration_ticks: 3 },
    }];
    assert!(aoe_hitbox_lifetime(&rows, Tick(1)).is_empty());
    assert_eq!(aoe_hitbox_lifetime(&rows, Tick(2)), vec![entity(HITBOX)]);
}

#[test]
fn while_active_effects_fire_in_the_active_phase() {
    let world = test_world();
    let effects = WhileActiveEffects(vec![AbilityEffect::SetVelocity {
        speed: scalar(15.0),
        target: EffectTarget::Caster,
    }]);
    let ability = active("dash", AbilityPhase::Active, 200, 1, 0);
    let rows = vec![WhileActiveRow { effects: &effects, active: &ability }];
    let commands = apply_while_active_effects(&world, &rows);
    assert_eq!(commands.len(), 1);
    assert!(matches!(
        &commands[0],
        AbilityCommand::SetVelocity { entity: moved, speed }
            if *moved == entity(CHARACTER) && number(*speed) == 15.0
    ));
    let ability = active("dash", AbilityPhase::Startup, 200, 1, 0);
    let rows = vec![WhileActiveRow { effects: &effects, active: &ability }];
    assert!(apply_while_active_effects(&world, &rows).is_empty());
}

#[test]
fn on_tick_effects_fire_on_their_tick() {
    let world = test_world();
    let effects = OnTickEffects(vec![TickEffect { tick: 5, effect: melee() }]);
    let ability = active("punch", AbilityPhase::Active, 200, 0, 0);
    assert_eq!(current_offset(&ability, Tick(205)), 5);
    assert!(run_on_tick(&world, &effects, &ability, None, 204).is_empty());
    assert_eq!(run_on_tick(&world, &effects, &ability, None, 205).len(), 1);
    assert!(run_on_tick(&world, &effects, &ability, None, 206).is_empty());
    let waiting = active("punch", AbilityPhase::Startup, 200, 0, 0);
    assert!(run_on_tick(&world, &effects, &waiting, None, 205).is_empty());
}

#[test]
fn shields_and_projectiles_are_inserted() {
    let world = test_world();
    let ability = active("fireball", AbilityPhase::Active, 200, 2, 0);
    let shield = on_tick_effects(AbilityEffect::Shield { absorb: scalar(50.0) });
    let commands = run_on_tick(&world, &shield, &ability, None, 200);
    assert!(matches!(
        &commands[0],
        AbilityCommand::InsertShield { shield, .. } if number(shield.remaining) == 50.0
    ));
    let bullet = on_tick_effects(AbilityEffect::Projectile {
        id: None,
        speed: scalar(20.0),
        lifetime_ticks: 192,
    });
    let commands = run_on_tick(&world, &bullet, &ability, None, 200);
    let request = match &commands[0] {
        AbilityCommand::InsertProjectileSpawn { ability: owner, effect } => {
            assert_eq!(*owner, entity(ABILITY));
            *effect
        },
        other => panic!("a projectile should be asked for, got {other:?}"),
    };
    assert_eq!(request, ProjectileSpawnEffect { speed: scalar(20.0), lifetime_ticks: 192 });
    let rows =
        vec![ProjectileRow { ability: entity(ABILITY), request, active: &ability, on_hit: None }];
    let spawns = ability_projectile_spawn(&world, Tick(200), &rows);
    assert_eq!(spawns.len(), 1);
    assert_eq!(spawns[0].ability_id, AbilityId("fireball".to_string()));
    assert_eq!(spawns[0].spawn_tick, Tick(200));
    assert_eq!(spawns[0].salt, 0x200);
    assert!(!spawns[0].replicated);
}

#[test]
fn hidden_casters_spawn_no_hitbox() {
    let mut world = test_world();
    world.bodies.insert(
        CHARACTER,
        Body { position: true, rotation: true, velocity: true, map: None },
    );
    let effects = on_tick_effects(melee());
    let ability = active("punch", AbilityPhase::Active, 200, 0, 0);
    assert!(run_on_tick(&world, &effects, &ability, None, 200).is_empty());
}

#[test]
fn unknown_sub_abilities_do_not_start() {
    let world = test_world();
    let missing = "no_such_ability".to_string();
    let caster = entity(CHARACTER);
    assert!(spawn_sub_ability(&world, &missing, caster, caster, 0, 0, Tick(1)).is_none());
    let known = "punch".to_string();
    assert!(spawn_sub_ability(&world, &known, caster, entity(77), 0, 0, Tick(1)).is_none());
    assert!(spawn_sub_ability(&world, &known, caster, caster, 0, 0, Tick(1)).is_some());
}

#[test]
fn slots_and_actions_match() {
    let actions = [
        PlayerActions::Ability1,
        PlayerActions::Ability2,
        PlayerActions::Ability3,
        PlayerActions::Ability4,
    ];
    for (slot, action) in actions.iter().enumerate() {
        assert_eq!(ability_action_to_slot(action), Some(slot));
        assert_eq!(slot_to_ability_action(slot), Some(*action));
    }
    assert_eq!(ability_action_to_slot(&PlayerActions::Jump), None);
    assert_eq!(slot_to_ability_action(4), None);
}

#[test]
fn cooldown_ends_after_its_last_tick() {
    let world = test_world();
    for (tick, starts) in [(106u16, false), (116, false), (117, true)] {
        let mut cooldowns = AbilityCooldowns::default();
        cooldowns.last_used[0] = Some(Tick(100));
        let (spawns, _) = press(&world, PlayerActions::Ability1, tick, cooldowns);
        assert_eq!(!spawns.is_empty(), starts, "on tick {tick}");
    }
}

#[test]
fn default_slots_serve_those_without_slots() {
    let world = test_world();
    let actions = ActionState { pressed: vec![PlayerActions::Ability2] };
    let default_slots = DefaultAbilitySlots(punch_slots());
    let mut rows = vec![ActivationRow {
        entity: entity(CHARACTER),
        actions: &actions,
        slots: None,
        cooldowns: AbilityCooldowns::default(),
        player_id: PlayerId(7),
    }];
    let spawns = ability_activation(&world, &default_slots, Tick(5), &mut rows);
    assert_eq!(spawns.len(), 1);
    assert_eq!(spawns[0].ability.def_id, AbilityId("dash".to_string()));
    assert_eq!(spawns[0].ability.ability_slot, 1);
    assert_eq!(spawns[0].salt, SpawnSalt::Activation { player: PlayerId(7), slot: 1 });
    assert_eq!(spawns[0].salt_value(), (7u64 << 32) | (1u64 << 16));
}

#[test]
fn activation_and_projectile_salts() {
    assert_eq!(activation_salt(PlayerId(0x1_0000_0003), 2), (3u64 << 32) | (2u64 << 16));
    assert_eq!(projectile_salt(3, 2), 0x302);
}

#[test]
fn sub_ability_salt_hashes_player_slot_depth_and_id() {
    let mut hasher = std::collections::hash_map::DefaultHasher::new();
    0x1234_5678_9abc_def0u64.hash(&mut hasher);
    2u8.hash(&mut hasher);
    1u8.hash(&mut hasher);
    "punch2".hash(&mut hasher);
    let salt = compute_sub_ability_salt(PlayerId(0x1234_5678_9abc_def0), 2, 1, "punch2");
    assert_eq!(salt, hasher.finish());
    let other = compute_sub_ability_salt(PlayerId(0x1234_5678_9abc_def0), 2, 2, "punch2");
    assert_ne!(salt, other);
}

#[test]
fn phases_wait_out_their_duration() {
    let times = phases(4, 20, 0, 16);
    let mut ability = active("punch", AbilityPhase::Startup, 65534, 0, 0);
    assert!(!advance_ability_phase(&mut ability, &times, Tick(1)));
    assert_eq!(ability.phase, AbilityPhase::Startup);
    assert!(!advance_ability_phase(&mut ability, &times, Tick(2)));
    assert_eq!(ability.phase, AbilityPhase::Active);
    assert_eq!(ability.phase_start_tick, Tick(2));
}

#[test]
fn definitions_know_their_phases() {
    let def = AbilityDef {
        startup_ticks: 4,
        active_ticks: 20,
        recovery_ticks: 3,
        cooldown_ticks: 16,
        effects: vec![
            EffectTrigger::OnTick { tick: 0, effect: melee() },
            EffectTrigger::OnHit(damage(5.0)),
        ],
    };
    assert_eq!(def.phase_duration(&AbilityPhase::Startup), 4);
    assert_eq!(def.phase_duration(&AbilityPhase::Active), 20);
    assert_eq!(def.phase_duration(&AbilityPhase::Recovery), 3);
    assert_eq!(extract_phases(&AbilityAsset { components: vec![on_tick(melee())] }), None);
}

#[test]
fn projectiles_get_one_bullet() {
    let row = |bits: u64, has_bullets: bool, replicated: bool| ProjectileEntityRow {
        entity: entity(bits),
        position: vector(1.0, 2.0, 3.0),
        direction: vector(0.0, 0.0, -1.0),
        speed: scalar(20.0),
        map: MapInstanceId::Overworld,
        on_hit: None,
        has_bullets,
        replicated,
    };
    let rows = vec![row(60, false, false), row(61, true, false), row(62, false, true)];
    let bullets = handle_ability_projectile_spawn(&rows);
    assert_eq!(bullets.len(), 1);
    assert_eq!(bullets[0].owner, AbilityBulletOf(entity(60)));
    assert_eq!(bullets[0].direction, vector(0.0, 0.0, -1.0));
    assert_eq!(bullets[0].speed, scalar(20.0));

    let owner = bullets[0].owner;
    assert_eq!(despawn_ability_projectile_spawn(Some(owner), true), Some(entity(60)));
    assert_eq!(despawn_ability_projectile_spawn(Some(owner), false), None);
    assert_eq!(despawn_ability_projectile_spawn(None, true), None);
}

#[test]
fn melee_hitboxes_follow_their_casters() {
    let rows = vec![
        MeleeHitboxRow { hitbox: entity(70), caster: Some(entity(1)) },
        MeleeHitboxRow { hitbox: entity(71), caster: None },
        MeleeHitboxRow { hitbox: entity(72), caster: Some(entity(2)) },
    ];
    let casters: HashSet<u64> = [1].into_iter().collect();
    assert_eq!(
        update_hitbox_positions(&rows, &casters),
        vec![HitboxMove { hitbox: entity(70), caster: entity(1) }]
    );
}

#[test]
fn markers_go_with_their_ability() {
    assert_eq!(
        cleanup_effect_markers_on_removal(true),
        vec![
            EffectMarker::OnTick,
            EffectMarker::WhileActive,
            EffectMarker::OnHit,
            EffectMarker::OnHitDefs,
            EffectMarker::OnEnd,
            EffectMarker::OnInput,
            EffectMarker::Projectile,
            EffectMarker::Phases,
        ]
    );
    assert!(cleanup_effect_markers_on_removal(false).is_empty());
}
