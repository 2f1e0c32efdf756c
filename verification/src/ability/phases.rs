//! The life of an ability: Startup, Active, Recovery, gone.
use crate::ability::types::{
    clone_effects, has_elapsed, ticks_elapsed, AbilityEffect, AbilityPhase, AbilityPhases,
    ActiveAbility, OnHitEffectDefs, OnHitEffects,
};
use crate::entity::Entity;
use crate::tick::Tick;
use vstd::prelude::*;

verus! {

/// The phase after `phase`, if there is one.
pub open spec fn next_phase(phase: AbilityPhase) -> Option<AbilityPhase> {
    match phase {
        AbilityPhase::Startup => Some(AbilityPhase::Active),
        AbilityPhase::Active => Some(AbilityPhase::Recovery),
        AbilityPhase::Recovery => None,
    }
}

/// Whether the current phase of an ability is over.
pub open spec fn phase_over(active: ActiveAbility, phases: AbilityPhases, tick: Tick) -> bool {
    ticks_elapsed(tick, active.phase_start_tick, phases.phase_duration_spec(active.phase))
}

/// An ability one tick on: in the next phase, from this tick, if its phase is over.
pub open spec fn advanced(active: ActiveAbility, phases: AbilityPhases, tick: Tick) -> ActiveAbility {
    match next_phase(active.phase) {
        Some(phase) if phase_over(active, phases, tick) => ActiveAbility {
            phase,
            phase_start_tick: tick,
            ..active
        },
        _ => active,
    }
}

/// Whether an ability is done: its last phase is over.
pub open spec fn is_complete(active: ActiveAbility, phases: AbilityPhases, tick: Tick) -> bool {
    next_phase(active.phase) is None && phase_over(active, phases, tick)
}

/// Moves an ability to its next phase if the current one is over, and says whether it is done.
pub fn advance_ability_phase(active: &mut ActiveAbility, phases: &AbilityPhases, tick: Tick) -> (done:
    bool)
    ensures
        *final(active) == advanced(*old(active), *phases, tick),
        done == is_complete(*old(active), *phases, tick),
{
    let duration: u16 = phases.phase_duration(&active.phase);
    if !has_elapsed(tick, active.phase_start_tick, duration) {
        return false;
    }
    match active.phase {
        AbilityPhase::Startup => {
            active.phase = AbilityPhase::Active;
            active.phase_start_tick = tick;
            false
        },
        AbilityPhase::Active => {
            active.phase = AbilityPhase::Recovery;
            active.phase_start_tick = tick;
            false
        },
        AbilityPhase::Recovery => true,
    }
}

/// What happens to the on-hit effects that an ability carries.
#[derive(Debug)]
pub enum OnHitChange {
    Keep,
    Insert(OnHitEffects),
    Remove,
}

/// An ability in flight and what its definition says of it.
pub struct PhaseRow<'a> {
    pub entity: Entity,
    pub active: ActiveAbility,
    pub phases: AbilityPhases,
    pub on_hit_defs: Option<&'a OnHitEffectDefs>,
}

/// What one tick does to an ability besides moving its phase.
#[derive(Debug)]
pub struct PhaseUpdate {
    pub entity: Entity,
    pub despawn: bool,
    pub on_hit: OnHitChange,
}

/// The on-hit effects that a definition lists.
pub open spec fn defined_effects(defs: Option<&OnHitEffectDefs>) -> Seq<AbilityEffect> {
    match defs {
        Some(defs) => defs.0@,
        None => Seq::empty(),
    }
}

/// The on-hit effects are there exactly from the tick on which an ability becomes Active to the one
/// on which it ceases to be, if it has any.
pub open spec fn is_on_hit_change(
    change: OnHitChange,
    before: ActiveAbility,
    after: ActiveAbility,
    defs: Option<&OnHitEffectDefs>,
) -> bool {
    if after.phase == AbilityPhase::Active && before.phase != AbilityPhase::Active
        && defined_effects(defs).len() > 0 {
        change matches OnHitChange::Insert(on_hit) && on_hit.effects@ == defined_effects(defs)
            && on_hit.caster == after.caster && on_hit.original_caster == after.original_caster
            && on_hit.depth == after.depth
    } else if after.phase != AbilityPhase::Active && before.phase == AbilityPhase::Active {
        change is Remove
    } else {
        change is Keep
    }
}

/// What `row` becomes on `tick`.
pub open spec fn phase_row_after<'a>(row: PhaseRow<'a>, tick: Tick) -> PhaseRow<'a> {
    PhaseRow { active: advanced(row.active, row.phases, tick), ..row }
}

/// Whether `update` is what happens to `row` on `tick`.
pub open spec fn is_phase_update(update: PhaseUpdate, row: PhaseRow, tick: Tick) -> bool {
    &&& update.entity == row.entity
    &&& update.despawn == is_complete(row.active, row.phases, tick)
    &&& is_on_hit_change(
        update.on_hit,
        row.active,
        advanced(row.active, row.phases, tick),
        row.on_hit_defs,
    )
}

fn on_hit_change(
    before: AbilityPhase,
    after: &ActiveAbility,
    defs: Option<&OnHitEffectDefs>,
) -> (change: OnHitChange)
    ensures
        forall|b: ActiveAbility|
            b.phase == before ==> is_on_hit_change(change, b, *after, defs),
{
    if after.phase == AbilityPhase::Active && before != AbilityPhase::Active {
        if let Some(defs) = defs {
            if defs.0.len() > 0 {
                return OnHitChange::Insert(
                    OnHitEffects {
                        effects: clone_effects(&defs.0),
                        caster: after.caster,
                        original_caster: after.original_caster,
                        depth: after.depth,
                    },
                );
            }
        }
    }
    if after.phase != AbilityPhase::Active && before == AbilityPhase::Active {
        return OnHitChange::Remove;
    }
    OnHitChange::Keep
}

/// Moves every ability one tick on.
pub fn update_active_abilities<'a>(rows: &mut Vec<PhaseRow<'a>>, tick: Tick) -> (updates: Vec<
    PhaseUpdate,
>)
    ensures
        final(rows)@.len() == old(rows)@.len(),
        updates@.len() == old(rows)@.len(),
        forall|i: int|
            0 <= i < old(rows)@.len() ==> #[trigger] final(rows)@[i] == phase_row_after(
                old(rows)@[i],
                tick,
            ),
        forall|i: int|
            0 <= i < old(rows)@.len() ==> is_phase_update(
                #[trigger] updates@[i],
                old(rows)@[i],
                tick,
            ),
{
    let mut updates: Vec<PhaseUpdate> = Vec::new();
    let mut i: usize = 0;
    while i < rows.len()
        invariant
            i <= rows@.len(),
            rows@.len() == old(rows)@.len(),
            updates@.len() == i,
            forall|j: int|
                0 <= j < i ==> #[trigger] rows@[j] == phase_row_after(old(rows)@[j], tick),
            forall|j: int| i <= j < rows@.len() ==> #[trigger] rows@[j] == old(rows)@[j],
            forall|j: int| 0 <= j < i ==> is_phase_update(#[trigger] updates@[j], old(rows)@[j], tick),
        decreases rows@.len() - i,
    {
        let entity = rows[i].entity;
        let phases = rows[i].phases;
        let defs = rows[i].on_hit_defs;
        let before = rows[i].active.phase;
        let row = &mut rows[i];
        let despawn = advance_ability_phase(&mut row.active, &phases, tick);
        let on_hit = on_hit_change(before, &rows[i].active, defs);
        updates.push(PhaseUpdate { entity, despawn, on_hit });
        i = i + 1;
    }
    updates
}

/// The state of an ability after `n` ticks, one update per tick.
pub open spec fn after_ticks(active: ActiveAbility, phases: AbilityPhases, start: Tick, n: nat) -> ActiveAbility
    decreases n,
{
    if n == 0 {
        active
    } else {
        advanced(
            after_ticks(active, phases, start, (n - 1) as nat),
            phases,
            start.offset_spec(n as int),
        )
    }
}

proof fn lemma_offset_since(start: Tick, n: int, m: int)
    requires
        0 <= m <= n,
        n - m < 0x8000,
        n < 0x1_0000,
    ensures
        start.offset_spec(n).since_spec(start.offset_spec(m)) == n - m,
{
}

/// An ability stays in its phase until the phase's duration has gone by.
pub proof fn law_phase_lasts_its_duration(
    active: ActiveAbility,
    phases: AbilityPhases,
    start: Tick,
    n: nat,
)
    requires
        active.phase_start_tick == start,
        n < phases.phase_duration_spec(active.phase) < 0x8000,
    ensures
        after_ticks(active, phases, start, n) == active,
    decreases n,
{
    if n > 0 {
        law_phase_lasts_its_duration(active, phases, start, (n - 1) as nat);
        lemma_offset_since(start, n as int, 0);
        assert(start.offset_spec(0) == start);
    }
}

/// A phase that lasts at least one tick gives way to the next one when its duration has gone by.
pub proof fn law_phase_gives_way(active: ActiveAbility, phases: AbilityPhases, start: Tick)
    requires
        active.phase_start_tick == start,
        active.phase != AbilityPhase::Recovery,
        0 < phases.phase_duration_spec(active.phase) < 0x8000,
    ensures
        ({
            let n = phases.phase_duration_spec(active.phase) as nat;
            let after = after_ticks(active, phases, start, n);
            next_phase(active.phase) == Some(after.phase) && after.phase_start_tick
                == start.offset_spec(n as int)
        }),
{
    let n = phases.phase_duration_spec(active.phase) as nat;
    law_phase_lasts_its_duration(active, phases, start, (n - 1) as nat);
    lemma_offset_since(start, n as int, 0);
    assert(start.offset_spec(0) == start);
}

/// An ability in Recovery is done when that phase's duration has gone by, and not before.
pub proof fn law_recovery_completes(
    active: ActiveAbility,
    phases: AbilityPhases,
    start: Tick,
    n: nat,
)
    requires
        active.phase_start_tick == start,
        active.phase == AbilityPhase::Recovery,
        phases.recovery < 0x8000,
        n < 0x8000,
    ensures
        is_complete(active, phases, start.offset_spec(n as int)) <==> n >= phases.recovery,
{
    lemma_offset_since(start, n as int, 0);
    assert(start.offset_spec(0) == start);
}

/// An update changes nothing of an ability but its phase and the tick on which the phase began, and
/// a phase once left does not come back.
pub proof fn law_update_keeps_identity(active: ActiveAbility, phases: AbilityPhases, tick: Tick)
    ensures
        ({
            let after = advanced(active, phases, tick);
            &&& after.def_id == active.def_id
            &&& after.caster == active.caster
            &&& after.original_caster == active.original_caster
            &&& after.target == active.target
            &&& after.ability_slot == active.ability_slot
            &&& after.depth == active.depth
            &&& after.phase == active.phase || next_phase(active.phase) == Some(after.phase)
        }),
{
}

/// An ability goes from Startup to Active to Recovery, each for its own duration, and is then done. It
/// goes on when as many ticks have gone by since its phase began, and the new phase begins then.
pub proof fn law_phases_follow_each_other(active: ActiveAbility, phases: AbilityPhases, tick: Tick)
    requires
        phases.startup < 0x8000,
        phases.active < 0x8000,
        phases.recovery < 0x8000,
    ensures
        ({
            let after = advanced(active, phases, tick);
            let gone = tick.since_spec(active.phase_start_tick);
            let duration = if active.phase == AbilityPhase::Startup {
                phases.startup
            } else if active.phase == AbilityPhase::Active {
                phases.active
            } else {
                phases.recovery
            };
            &&& gone < duration ==> after == active && !is_complete(active, phases, tick)
            &&& gone >= duration && active.phase == AbilityPhase::Startup ==> after.phase
                == AbilityPhase::Active && after.phase_start_tick == tick
            &&& gone >= duration && active.phase == AbilityPhase::Active ==> after.phase
                == AbilityPhase::Recovery && after.phase_start_tick == tick
            &&& active.phase == AbilityPhase::Recovery ==> after == active && (is_complete(
                active,
                phases,
                tick,
            ) <==> gone >= duration)
            &&& active.phase != AbilityPhase::Recovery ==> !is_complete(active, phases, tick)
        }),
{
}

/// On-hit effects are there while an ability is Active: those of its definition, in its name, from the
/// tick on which it becomes Active to the one on which it is so no more. They do not change in between,
/// and an ability without any gets none.
pub proof fn law_hits_belong_to_the_active_phase(
    change: OnHitChange,
    before: ActiveAbility,
    after: ActiveAbility,
    defs: Option<&OnHitEffectDefs>,
)
    requires
        is_on_hit_change(change, before, after, defs),
    ensures
        change is Insert <==> before.phase != AbilityPhase::Active && after.phase
            == AbilityPhase::Active && defs is Some && (defs->0).0@.len() > 0,
        change is Remove <==> before.phase == AbilityPhase::Active && after.phase
            != AbilityPhase::Active,
        change matches OnHitChange::Insert(on_hit) ==> on_hit.effects@ == (defs->0).0@
            && on_hit.caster == after.caster && on_hit.original_caster == after.original_caster
            && on_hit.depth == after.depth,
{
}

/// What a tick does to an ability is told of that ability: it goes when it is done, and its on-hit
/// effects follow its phase.
pub proof fn law_updates_are_of_their_ability(update: PhaseUpdate, row: PhaseRow, tick: Tick)
    requires
        is_phase_update(update, row, tick),
    ensures
        update.entity == row.entity,
        update.despawn <==> is_complete(row.active, row.phases, tick),
        is_on_hit_change(
            update.on_hit,
            row.active,
            phase_row_after(row, tick).active,
            row.on_hit_defs,
        ),
        phase_row_after(row, tick).active == advanced(row.active, row.phases, tick),
        phase_row_after(row, tick).entity == row.entity,
        phase_row_after(row, tick).phases == row.phases,
        phase_row_after(row, tick).on_hit_defs == row.on_hit_defs,
{
}

} // verus!
