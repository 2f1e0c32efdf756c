//! Ability definitions and the state of abilities in flight.
use crate::entity::{Entity, EntitySet};
use crate::names::NameMap;
use crate::player::PlayerActions;
use crate::scalar::{Scalar, Vector};
use crate::tick::{signed16, to_signed, Tick};
use vstd::prelude::*;

verus! {

/// The number of ability slots of a character.
pub const SLOT_COUNT: usize = 4;

/// String-based ability identifier.
#[derive(Debug, PartialEq, Eq, Hash)]
pub struct AbilityId(pub String);

impl Clone for AbilityId {
    fn clone(&self) -> (copy: AbilityId)
        ensures
            copy == *self,
    {
        AbilityId(self.0.clone())
    }
}

/// Who receives an effect.
#[derive(Clone, Copy, Debug, PartialEq, Eq, Structural)]
pub enum EffectTarget {
    Caster,
    Victim,
    OriginalCaster,
}

impl Default for EffectTarget {
    fn default() -> (target: EffectTarget)
        ensures
            target == EffectTarget::Caster,
    {
        EffectTarget::Caster
    }
}

/// The coordinate frame in which the force of [`AbilityEffect::ApplyForce`] is given.
#[derive(Clone, Copy, Debug, PartialEq, Eq, Structural)]
pub enum ForceFrame {
    /// Global space.
    World,
    /// The caster's local space.
    Caster,
    /// The victim's local space.
    Victim,
    /// +Z points from the caster to the victim, +Y is up.
    RelativePosition,
    /// Turned by the rotation that takes the caster's orientation to the victim's.
    RelativeRotation,
}

impl Default for ForceFrame {
    fn default() -> (frame: ForceFrame)
        ensures
            frame == ForceFrame::World,
    {
        ForceFrame::World
    }
}

/// What an ability does.
#[allow(inconsistent_fields)]
#[derive(Debug, PartialEq, Eq)]
pub enum AbilityEffect {
    Melee { id: Option<String>, target: EffectTarget },
    Projectile { id: Option<String>, speed: Scalar, lifetime_ticks: u16 },
    SetVelocity { speed: Scalar, target: EffectTarget },
    Damage { amount: Scalar, target: EffectTarget },
    ApplyForce { force: Vector, frame: ForceFrame, target: EffectTarget },
    /// A sphere around the caster. Without a duration it lasts one tick.
    AreaOfEffect {
        id: Option<String>,
        target: EffectTarget,
        radius: Scalar,
        duration_ticks: Option<u16>,
    },
    /// Starts another ability, which goes through its own phases.
    Ability { id: String, target: EffectTarget },
    /// Moves the caster forward.
    Teleport { distance: Scalar },
    /// Gives the caster a shield that absorbs damage.
    Shield { absorb: Scalar },
    /// Multiplies a stat of the target for a while.
    Buff { stat: String, multiplier: Scalar, duration_ticks: u16, target: EffectTarget },
}

fn clone_name(name: &Option<String>) -> (copy: Option<String>)
    ensures
        copy == *name,
{
    match name {
        Some(text) => Some(text.clone()),
        None => None,
    }
}

impl Clone for AbilityEffect {
    fn clone(&self) -> (copy: AbilityEffect)
        ensures
            copy == *self,
    {
        match self {
            AbilityEffect::Melee { id, target } => {
                AbilityEffect::Melee { id: clone_name(id), target: *target }
            },
            AbilityEffect::Projectile { id, speed, lifetime_ticks } => {
                AbilityEffect::Projectile {
                    id: clone_name(id),
                    speed: *speed,
                    lifetime_ticks: *lifetime_ticks,
                }
            },
            AbilityEffect::SetVelocity { speed, target } => {
                AbilityEffect::SetVelocity { speed: *speed, target: *target }
            },
            AbilityEffect::Damage { amount, target } => {
                AbilityEffect::Damage { amount: *amount, target: *target }
            },
            AbilityEffect::ApplyForce { force, frame, target } => {
                AbilityEffect::ApplyForce { force: *force, frame: *frame, target: *target }
            },
            AbilityEffect::AreaOfEffect { id, target, radius, duration_ticks } => {
                AbilityEffect::AreaOfEffect {
                    id: clone_name(id),
                    target: *target,
                    radius: *radius,
                    duration_ticks: *duration_ticks,
                }
            },
            AbilityEffect::Ability { id, target } => {
                AbilityEffect::Ability { id: id.clone(), target: *target }
            },
            AbilityEffect::Teleport { distance } => AbilityEffect::Teleport { distance: *distance },
            AbilityEffect::Shield { absorb } => AbilityEffect::Shield { absorb: *absorb },
            AbilityEffect::Buff { stat, multiplier, duration_ticks, target } => {
                AbilityEffect::Buff {
                    stat: stat.clone(),
                    multiplier: *multiplier,
                    duration_ticks: *duration_ticks,
                    target: *target,
                }
            },
        }
    }
}

/// Copies a list of effects.
pub fn clone_effects(effects: &Vec<AbilityEffect>) -> (copy: Vec<AbilityEffect>)
    ensures
        copy@ == effects@,
{
    let mut copy: Vec<AbilityEffect> = Vec::new();
    let mut i: usize = 0;
    while i < effects.len()
        invariant
            i <= effects@.len(),
            copy@ == effects@.take(i as int),
        decreases effects@.len() - i,
    {
        copy.push(effects[i].clone());
        assert(effects@.take(i + 1) =~= effects@.take(i as int).push(effects@[i as int]));
        i = i + 1;
    }
    assert(effects@.take(i as int) =~= effects@);
    copy
}

/// When an effect fires during an ability's life.
#[derive(Debug, PartialEq, Eq)]
pub enum EffectTrigger {
    /// Once, on the given tick of the Active phase, counted from zero.
    OnTick { tick: u16, effect: AbilityEffect },
    /// On every tick of the Active phase.
    WhileActive(AbilityEffect),
    /// When a hitbox or projectile of the ability hits a target.
    OnHit(AbilityEffect),
    /// Once, when the ability leaves the Active phase.
    OnEnd(AbilityEffect),
    /// During the Active phase, when the given input is pressed.
    OnInput { action: PlayerActions, effect: AbilityEffect },
}

/// The phase that an ability is in.
#[derive(Clone, Copy, Debug, PartialEq, Eq, Structural)]
pub enum AbilityPhase {
    Startup,
    Active,
    Recovery,
}

/// A single ability, as written in one file.
#[derive(Debug, PartialEq, Eq)]
pub struct AbilityDef {
    pub startup_ticks: u16,
    pub active_ticks: u16,
    pub recovery_ticks: u16,
    pub cooldown_ticks: u16,
    pub effects: Vec<EffectTrigger>,
}

impl AbilityDef {
    pub open spec fn phase_duration_spec(&self, phase: AbilityPhase) -> u16 {
        match phase {
            AbilityPhase::Startup => self.startup_ticks,
            AbilityPhase::Active => self.active_ticks,
            AbilityPhase::Recovery => self.recovery_ticks,
        }
    }

    pub fn phase_duration(&self, phase: &AbilityPhase) -> (ticks: u16)
        ensures
            ticks == self.phase_duration_spec(*phase),
    {
        match phase {
            AbilityPhase::Startup => self.startup_ticks,
            AbilityPhase::Active => self.active_ticks,
            AbilityPhase::Recovery => self.recovery_ticks,
        }
    }
}

/// The durations of an ability's phases and of its cooldown, in ticks.
#[derive(Clone, Copy, Debug, PartialEq, Eq, Structural)]
pub struct AbilityPhases {
    pub startup: u16,
    pub active: u16,
    pub recovery: u16,
    pub cooldown: u16,
}

impl AbilityPhases {
    pub open spec fn phase_duration_spec(self, phase: AbilityPhase) -> u16 {
        match phase {
            AbilityPhase::Startup => self.startup,
            AbilityPhase::Active => self.active,
            AbilityPhase::Recovery => self.recovery,
        }
    }

    pub fn phase_duration(&self, phase: &AbilityPhase) -> (ticks: u16)
        ensures
            ticks == self.phase_duration_spec(*phase),
    {
        match phase {
            AbilityPhase::Startup => self.startup,
            AbilityPhase::Active => self.active,
            AbilityPhase::Recovery => self.recovery,
        }
    }
}

impl Default for AbilityPhases {
    fn default() -> (phases: AbilityPhases)
        ensures
            phases == (AbilityPhases { startup: 0, active: 0, recovery: 0, cooldown: 0 }),
    {
        AbilityPhases { startup: 0, active: 0, recovery: 0, cooldown: 0 }
    }
}

/// An effect of the Active phase, with the tick of the phase on which it fires.
#[derive(Debug, PartialEq, Eq)]
pub struct TickEffect {
    pub tick: u16,
    pub effect: AbilityEffect,
}

/// Effects that fire on given ticks of the Active phase.
#[derive(Debug, PartialEq, Eq)]
pub struct OnTickEffects(pub Vec<TickEffect>);

/// Effects that fire on every tick of the Active phase.
#[derive(Debug, PartialEq, Eq)]
pub struct WhileActiveEffects(pub Vec<AbilityEffect>);

/// Effects that fire when the Active phase gives way to Recovery.
#[derive(Debug, PartialEq, Eq)]
pub struct OnEndEffects(pub Vec<AbilityEffect>);

/// An effect that an input triggers.
#[derive(Debug, PartialEq, Eq)]
pub struct InputEffect {
    pub action: PlayerActions,
    pub effect: AbilityEffect,
}

/// Effects that inputs trigger during the Active phase.
#[derive(Debug, PartialEq, Eq)]
pub struct OnInputEffects(pub Vec<InputEffect>);

/// Effects that apply to what a hitbox or projectile hits.
#[derive(Debug, PartialEq, Eq)]
pub struct OnHitEffectDefs(pub Vec<AbilityEffect>);

/// What an ability in flight does on a hit, and in whose name.
#[derive(Debug)]
pub struct OnHitEffects {
    pub effects: Vec<AbilityEffect>,
    pub caster: Entity,
    pub original_caster: Entity,
    pub depth: u8,
}

/// One component of an ability asset.
#[derive(Debug)]
pub enum AbilityComponent {
    Phases(AbilityPhases),
    OnTick(OnTickEffects),
    WhileActive(WhileActiveEffects),
    OnHit(OnHitEffectDefs),
    OnEnd(OnEndEffects),
    OnInput(OnInputEffects),
    /// A component of another type, by its type path.
    Other(String),
}

/// The components loaded from one ability file.
#[derive(Debug)]
pub struct AbilityAsset {
    pub components: Vec<AbilityComponent>,
}

/// The phases of the first component among `components` that holds any.
pub open spec fn phases_in(components: Seq<AbilityComponent>) -> Option<AbilityPhases>
    decreases components.len(),
{
    if components.len() == 0 {
        None
    } else {
        match components.first() {
            AbilityComponent::Phases(phases) => Some(phases),
            _ => phases_in(components.drop_first()),
        }
    }
}

/// The phase durations that an asset holds.
pub fn extract_phases(asset: &AbilityAsset) -> (phases: Option<AbilityPhases>)
    ensures
        phases == phases_in(asset.components@),
{
    let mut i: usize = 0;
    assert(asset.components@.skip(0) =~= asset.components@);
    while i < asset.components.len()
        invariant
            i <= asset.components@.len(),
            phases_in(asset.components@) == phases_in(asset.components@.skip(i as int)),
        decreases asset.components@.len() - i,
    {
        assert(asset.components@.skip(i as int).first() == asset.components@[i as int]);
        assert(asset.components@.skip(i as int).drop_first() =~= asset.components@.skip(i + 1));
        if let AbilityComponent::Phases(phases) = &asset.components[i] {
            return Some(*phases);
        }
        i = i + 1;
    }
    None
}

/// The identifiers of all abilities.
#[derive(Debug)]
pub struct AbilityManifest(pub Vec<String>);

/// The asset handle of each loaded ability.
pub struct AbilityDefs {
    pub abilities: NameMap<u64>,
}

impl AbilityDefs {
    pub open spec fn wf(&self) -> bool {
        self.abilities.wf()
    }

    /// The handle of an ability, if it is loaded.
    pub open spec fn handle_of(&self, id: AbilityId) -> Option<u64> {
        if self.abilities.view().dom().contains(id.0@) {
            Some(self.abilities.view()[id.0@])
        } else {
            None
        }
    }

    pub fn get(&self, id: &AbilityId) -> (handle: Option<u64>)
        requires
            self.wf(),
        ensures
            handle == self.handle_of(*id),
    {
        match self.abilities.get(&id.0) {
            Some(handle) => Some(*handle),
            None => None,
        }
    }
}

impl Default for AbilityDefs {
    fn default() -> (defs: AbilityDefs)
        ensures
            defs.wf(),
            forall|id: AbilityId| defs.handle_of(id) is None,
    {
        AbilityDefs { abilities: NameMap::new() }
    }
}

/// A character's abilities, by slot.
#[derive(Debug)]
pub struct AbilitySlots(pub [Option<AbilityId>; 4]);

impl Default for AbilitySlots {
    fn default() -> (slots: AbilitySlots)
        ensures
            forall|i: int| 0 <= i < SLOT_COUNT ==> slots.0@[i] is None,
    {
        AbilitySlots([None, None, None, None])
    }
}

/// The slots of characters that have none of their own.
#[derive(Debug)]
pub struct DefaultAbilitySlots(pub AbilitySlots);

/// An ability in flight.
#[derive(Debug)]
pub struct ActiveAbility {
    pub def_id: AbilityId,
    pub caster: Entity,
    pub original_caster: Entity,
    pub target: Entity,
    pub phase: AbilityPhase,
    pub phase_start_tick: Tick,
    pub ability_slot: u8,
    pub depth: u8,
}

/// The last use of each slot.
#[derive(Debug)]
pub struct AbilityCooldowns {
    pub last_used: [Option<Tick>; 4],
}

impl Default for AbilityCooldowns {
    fn default() -> (cooldowns: AbilityCooldowns)
        ensures
            forall|i: int| 0 <= i < SLOT_COUNT ==> cooldowns.last_used@[i] is None,
    {
        AbilityCooldowns { last_used: [None, None, None, None] }
    }
}

/// The distance between two ticks, either way round.
pub open spec fn tick_distance(a: Tick, b: Tick) -> int {
    let d = a.since_spec(b);
    if d < 0 {
        -d
    } else {
        d
    }
}

/// Whether a slot last used at `last` is still cooling down.
pub open spec fn cooling_down(last: Option<Tick>, current: Tick, cooldown: u16) -> bool {
    last is Some && tick_distance(current, last->0) <= cooldown
}

impl AbilityCooldowns {
    pub fn is_on_cooldown(&self, slot: usize, current_tick: Tick, cooldown_ticks: u16) -> (cooling:
        bool)
        requires
            slot < SLOT_COUNT,
        ensures
            cooling == cooling_down(self.last_used@[slot as int], current_tick, cooldown_ticks),
    {
        match self.last_used[slot] {
            Some(last) => {
                let since: i32 = current_tick.since(last) as i32;
                let distance: i32 = if since < 0 {
                    -since
                } else {
                    since
                };
                distance <= cooldown_ticks as i32
            },
            None => false,
        }
    }
}

/// Asks for a projectile to be spawned by the ability that carries it.
#[derive(Clone, Copy, Debug, PartialEq, Eq, Structural)]
pub struct ProjectileSpawnEffect {
    pub speed: Scalar,
    pub lifetime_ticks: u16,
}

/// The ability that a hitbox belongs to.
#[derive(Clone, Copy, Debug, PartialEq, Eq, Structural)]
pub struct HitboxOf(pub Entity);

/// The spawn entity that a bullet belongs to.
#[derive(Clone, Copy, Debug, PartialEq, Eq, Structural)]
pub struct AbilityBulletOf(pub Entity);

/// The life of an area-of-effect hitbox.
#[derive(Clone, Copy, Debug, PartialEq, Eq, Structural)]
pub struct AoEHitbox {
    pub spawn_tick: Tick,
    pub duration_ticks: u16,
}

/// The entities that a hitbox has hit.
pub struct HitTargets(pub EntitySet);

impl Default for HitTargets {
    fn default() -> (targets: HitTargets)
        ensures
            forall|e: Entity| !targets.0.has(e),
    {
        HitTargets(EntitySet::new())
    }
}

/// A shield that takes damage in its bearer's place.
#[derive(Clone, Copy, Debug, PartialEq, Eq, Structural)]
pub struct ActiveShield {
    pub remaining: Scalar,
}

/// A multiplier on a stat, until a tick.
#[derive(Debug, PartialEq, Eq)]
pub struct ActiveBuff {
    pub stat: String,
    pub multiplier: Scalar,
    pub expires_tick: Tick,
}

/// The buffs of a character.
#[derive(Debug)]
pub struct ActiveBuffs(pub Vec<ActiveBuff>);

/// The parameters of a projectile at its spawn.
#[derive(Debug)]
pub struct AbilityProjectileSpawn {
    pub spawn_tick: Tick,
    pub position: Vector,
    pub direction: Vector,
    pub speed: Scalar,
    pub lifetime_ticks: u16,
    pub ability_id: AbilityId,
    pub shooter: Entity,
}

/// Whether `duration` ticks have gone by since `start`.
///
/// Ticks are compared as signed sixteen-bit numbers: a duration of 0x8000 and more reads as a
/// negative one.
pub open spec fn ticks_elapsed(now: Tick, start: Tick, duration: u16) -> bool {
    now.since_spec(start) >= signed16(duration as int)
}

pub fn has_elapsed(now: Tick, start: Tick, duration: u16) -> (elapsed: bool)
    ensures
        elapsed == ticks_elapsed(now, start, duration),
{
    now.since(start) >= to_signed(duration)
}

/// Each phase lasts as long as its own field says.
pub proof fn law_phases_have_their_own_duration(def: AbilityDef, phases: AbilityPhases)
    ensures
        def.phase_duration_spec(AbilityPhase::Startup) == def.startup_ticks,
        def.phase_duration_spec(AbilityPhase::Active) == def.active_ticks,
        def.phase_duration_spec(AbilityPhase::Recovery) == def.recovery_ticks,
        phases.phase_duration_spec(AbilityPhase::Startup) == phases.startup,
        phases.phase_duration_spec(AbilityPhase::Active) == phases.active,
        phases.phase_duration_spec(AbilityPhase::Recovery) == phases.recovery,
{
}

/// The phases of an asset are those of the first component that holds any, wherever it stands; without
/// such a component there are none.
pub proof fn law_first_phases_count(components: Seq<AbilityComponent>)
    ensures
        forall|i: int|
            0 <= i < components.len() && #[trigger] components[i] is Phases && (forall|j: int|
                0 <= j < i ==> !(#[trigger] components[j] is Phases)) ==> phases_in(components)
                == Some(components[i]->Phases_0),
        (forall|i: int| 0 <= i < components.len() ==> !(#[trigger] components[i] is Phases))
            ==> phases_in(components) is None,
    decreases components.len(),
{
    if components.len() > 0 {
        let rest = components.drop_first();
        law_first_phases_count(rest);
        assert(forall|j: int| 0 <= j < rest.len() ==> #[trigger] rest[j] == components[j + 1]);
        assert forall|i: int|
            0 <= i < components.len() && #[trigger] components[i] is Phases && (forall|j: int|
                0 <= j < i ==> !(#[trigger] components[j] is Phases)) implies phases_in(components)
            == Some(components[i]->Phases_0) by {
            if i > 0 {
                assert(!(components[0] is Phases));
                assert(rest[i - 1] == components[i]);
                assert forall|j: int| 0 <= j < i - 1 implies !(#[trigger] rest[j] is Phases) by {
                    assert(rest[j] == components[j + 1]);
                }
            }
        }
        if forall|i: int| 0 <= i < components.len() ==> !(#[trigger] components[i] is Phases) {
            assert(!(components[0] is Phases));
            assert forall|j: int| 0 <= j < rest.len() implies !(#[trigger] rest[j] is Phases) by {
                assert(rest[j] == components[j + 1]);
            }
        }
    }
}

/// An ability is found by its id, if it is loaded.
pub proof fn law_abilities_are_found_by_id(defs: &AbilityDefs, id: AbilityId)
    ensures
        defs.handle_of(id) is Some <==> defs.abilities.view().dom().contains(id.0@),
        defs.handle_of(id) is Some ==> defs.handle_of(id)->0 == defs.abilities.view()[id.0@],
{
}

/// A slot cools down while the tick of its last use is no farther away than the cooldown, either way.
/// One that was never used does not.
pub proof fn law_slots_cool_down(last: Option<Tick>, current: Tick, cooldown: u16)
    ensures
        last is None ==> !cooling_down(last, current, cooldown),
        last is Some ==> (cooling_down(last, current, cooldown) <==> -(cooldown as int)
            <= current.since_spec(last->0) <= cooldown),
{
}

/// A duration is over once as many ticks have gone by; one of half a turn and more counts as that many
/// less than a turn before its start.
pub proof fn law_durations_end(now: Tick, start: Tick, duration: u16)
    ensures
        duration < 0x8000 ==> (ticks_elapsed(now, start, duration) <==> now.since_spec(start)
            >= duration),
        duration >= 0x8000 ==> (ticks_elapsed(now, start, duration) <==> now.since_spec(start)
            >= duration - 0x1_0000),
{
}

} // verus!
