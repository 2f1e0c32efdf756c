//! Things that end with time, or with their ability: buffs, area hitboxes, bullets and markers.
use crate::ability::effects::buff_of;
use crate::ability::spawn::projectile_salt;
use crate::ability::types::{
    has_elapsed, ticks_elapsed, AbilityBulletOf, AbilityId, ActiveAbility, ActiveBuff, ActiveBuffs, AoEHitbox,
    OnHitEffects, ProjectileSpawnEffect,
};
use crate::ability::world::AbilityWorld;
use crate::entity::Entity;
use crate::map::types::MapInstanceId;
use crate::scalar::{Scalar, Vector};
use crate::seqs::{
    filter_map, lemma_filter_map_picks, lemma_filter_picks, lemma_picks_same, picks,
};
use crate::tick::{signed16, Tick};
use vstd::prelude::*;

verus! {

impl Clone for ActiveBuff {
    fn clone(&self) -> (copy: ActiveBuff)
        ensures
            copy == *self,
    {
        ActiveBuff {
            stat: self.stat.clone(),
            multiplier: self.multiplier,
            expires_tick: self.expires_tick,
        }
    }
}

/// Whether a buff still has time to run.
pub open spec fn buff_in_force(buff: ActiveBuff, tick: Tick) -> bool {
    buff.expires_tick.since_spec(tick) > 0
}

/// The buffs of `buffs` that still have time to run.
pub open spec fn remaining_buffs(buffs: Seq<ActiveBuff>, tick: Tick) -> Seq<ActiveBuff> {
    buffs.filter(|b: ActiveBuff| buff_in_force(b, tick))
}

/// A character and its buffs.
pub struct BuffRow {
    pub entity: Entity,
    pub buffs: ActiveBuffs,
}

fn retain_buffs(buffs: &Vec<ActiveBuff>, tick: Tick) -> (kept: Vec<ActiveBuff>)
    ensures
        kept@ == remaining_buffs(buffs@, tick),
{
    let mut kept: Vec<ActiveBuff> = Vec::new();
    let mut i: usize = 0;
    let ghost pred = |b: ActiveBuff| buff_in_force(b, tick);
    proof {
        crate::seqs::lemma_filter_empty(buffs@.take(0), pred);
    }
    while i < buffs.len()
        invariant
            i <= buffs@.len(),
            pred == (|b: ActiveBuff| buff_in_force(b, tick)),
            kept@ == buffs@.take(i as int).filter(pred),
        decreases buffs@.len() - i,
    {
        proof {
            crate::seqs::lemma_filter_step(buffs@, i as int, pred);
        }
        let remaining: i16 = buffs[i].expires_tick.since(tick);
        if remaining > 0 {
            kept.push(buffs[i].clone());
        }
        i = i + 1;
    }
    assert(buffs@.take(i as int) =~= buffs@);
    kept
}

/// The entity of a row whose buffs have all run out.
pub open spec fn out_of_buffs(row: BuffRow, tick: Tick) -> Option<Entity> {
    if remaining_buffs(row.buffs.0@, tick).len() == 0 {
        Some(row.entity)
    } else {
        None
    }
}

/// Drops the buffs that have run out, and names the entities that are left without any.
pub fn expire_buffs(rows: &mut Vec<BuffRow>, tick: Tick) -> (bare: Vec<Entity>)
    ensures
        final(rows)@.len() == old(rows)@.len(),
        forall|i: int|
            0 <= i < old(rows)@.len() ==> (#[trigger] final(rows)@[i]).entity == old(rows)@[i].entity
                && final(rows)@[i].buffs.0@ == remaining_buffs(old(rows)@[i].buffs.0@, tick),
        bare@ == filter_map(old(rows)@, |row: BuffRow| out_of_buffs(row, tick)),
{
    let mut bare: Vec<Entity> = Vec::new();
    let mut i: usize = 0;
    let ghost f = |row: BuffRow| out_of_buffs(row, tick);
    assert(old(rows)@.take(0) =~= Seq::empty());
    while i < rows.len()
        invariant
            i <= rows@.len(),
            rows@.len() == old(rows)@.len(),
            f == (|row: BuffRow| out_of_buffs(row, tick)),
            bare@ == filter_map(old(rows)@.take(i as int), f),
            forall|j: int|
                0 <= j < i ==> (#[trigger] rows@[j]).entity == old(rows)@[j].entity
                    && rows@[j].buffs.0@ == remaining_buffs(old(rows)@[j].buffs.0@, tick),
            forall|j: int| i <= j < rows@.len() ==> #[trigger] rows@[j] == old(rows)@[j],
        decreases rows@.len() - i,
    {
        proof {
            crate::seqs::lemma_filter_map_step(old(rows)@, i as int, f);
        }
        let entity = rows[i].entity;
        let kept = retain_buffs(&rows[i].buffs.0, tick);
        if kept.len() == 0 {
            bare.push(entity);
        }
        rows.set(i, BuffRow { entity, buffs: ActiveBuffs(kept) });
        i = i + 1;
    }
    assert(old(rows)@.take(i as int) =~= old(rows)@);
    bare
}

/// A buff is in force from the tick on which it is given until its duration has gone by.
pub proof fn law_buff_lasts_its_duration(
    stat: String,
    multiplier: Scalar,
    duration: u16,
    tick: Tick,
    n: int,
)
    requires
        0 <= n <= 0x7fff,
        duration < 0x8000,
    ensures
        buff_in_force(buff_of(stat, multiplier, duration, tick), tick.offset_spec(n)) <==> n
            < duration,
{
    let expires = tick.offset_spec(duration as int);
    assert(expires.since_spec(tick.offset_spec(n)) == duration - n);
}

/// What an entity carries for the ability that it stands for, besides the ability itself.
#[derive(Clone, Copy, Debug, PartialEq, Eq, Structural)]
pub enum EffectMarker {
    OnTick,
    WhileActive,
    OnHit,
    OnHitDefs,
    OnEnd,
    OnInput,
    Projectile,
    Phases,
}

/// The markers to take off an entity that stands for an ability no longer: all of them, if the entity
/// is still there.
pub fn cleanup_effect_markers_on_removal(entity_exists: bool) -> (removed: Vec<EffectMarker>)
    ensures
        removed@.no_duplicates(),
        forall|marker: EffectMarker| #[trigger] removed@.contains(marker) <==> entity_exists,
{
    let mut removed: Vec<EffectMarker> = Vec::new();
    if entity_exists {
        removed.push(EffectMarker::OnTick);
        removed.push(EffectMarker::WhileActive);
        removed.push(EffectMarker::OnHit);
        removed.push(EffectMarker::OnHitDefs);
        removed.push(EffectMarker::OnEnd);
        removed.push(EffectMarker::OnInput);
        removed.push(EffectMarker::Projectile);
        removed.push(EffectMarker::Phases);
        proof {
            assert forall|marker: EffectMarker| #[trigger] removed@.contains(marker) by {
                let i: int = match marker {
                    EffectMarker::OnTick => 0,
                    EffectMarker::WhileActive => 1,
                    EffectMarker::OnHit => 2,
                    EffectMarker::OnHitDefs => 3,
                    EffectMarker::OnEnd => 4,
                    EffectMarker::OnInput => 5,
                    EffectMarker::Projectile => 6,
                    EffectMarker::Phases => 7,
                };
                assert(removed@[i] == marker);
            }
        }
    }
    removed
}

/// An area-of-effect hitbox.
pub struct AoERow {
    pub entity: Entity,
    pub hitbox: AoEHitbox,
}

/// A hitbox whose time is up.
pub open spec fn expired_hitbox(row: AoERow, tick: Tick) -> Option<Entity> {
    if ticks_elapsed(tick, row.hitbox.spawn_tick, row.hitbox.duration_ticks) {
        Some(row.entity)
    } else {
        None
    }
}

/// The area hitboxes whose time is up.
pub fn aoe_hitbox_lifetime(rows: &Vec<AoERow>, tick: Tick) -> (expired: Vec<Entity>)
    ensures
        expired@ == filter_map(rows@, |row: AoERow| expired_hitbox(row, tick)),
{
    let mut expired: Vec<Entity> = Vec::new();
    let mut i: usize = 0;
    let ghost f = |row: AoERow| expired_hitbox(row, tick);
    assert(rows@.take(0) =~= Seq::empty());
    while i < rows.len()
        invariant
            i <= rows@.len(),
            f == (|row: AoERow| expired_hitbox(row, tick)),
            expired@ == filter_map(rows@.take(i as int), f),
        decreases rows@.len() - i,
    {
        proof {
            crate::seqs::lemma_filter_map_step(rows@, i as int, f);
        }
        let hitbox = rows[i].hitbox;
        if has_elapsed(tick, hitbox.spawn_tick, hitbox.duration_ticks) {
            expired.push(rows[i].entity);
        }
        i = i + 1;
    }
    assert(rows@.take(i as int) =~= rows@);
    expired
}

/// When a projectile was spawned and how long it lives.
#[derive(Clone, Copy, Debug, PartialEq, Eq, Structural)]
pub struct ProjectileLife {
    pub spawn_tick: Tick,
    pub lifetime_ticks: u16,
}

/// A bullet and the life of the projectile it belongs to, if that is still there.
pub struct BulletRow {
    pub entity: Entity,
    pub life: Option<ProjectileLife>,
}

/// A bullet whose time is up.
pub open spec fn expired_bullet(row: BulletRow, tick: Tick) -> Option<Entity> {
    match row.life {
        Some(life) if ticks_elapsed(tick, life.spawn_tick, life.lifetime_ticks) => Some(row.entity),
        _ => None,
    }
}

/// The bullets whose time is up.
pub fn ability_bullet_lifetime(rows: &Vec<BulletRow>, tick: Tick) -> (expired: Vec<Entity>)
    ensures
        expired@ == filter_map(rows@, |row: BulletRow| expired_bullet(row, tick)),
{
    let mut expired: Vec<Entity> = Vec::new();
    let mut i: usize = 0;
    let ghost f = |row: BulletRow| expired_bullet(row, tick);
    assert(rows@.take(0) =~= Seq::empty());
    while i < rows.len()
        invariant
            i <= rows@.len(),
            f == (|row: BulletRow| expired_bullet(row, tick)),
            expired@ == filter_map(rows@.take(i as int), f),
        decreases rows@.len() - i,
    {
        proof {
            crate::seqs::lemma_filter_map_step(rows@, i as int, f);
        }
        if let Some(life) = rows[i].life {
            if has_elapsed(tick, life.spawn_tick, life.lifetime_ticks) {
                expired.push(rows[i].entity);
            }
        }
        i = i + 1;
    }
    assert(rows@.take(i as int) =~= rows@);
    expired
}

/// Something that lasts `duration` ticks is there for exactly so many ticks.
pub proof fn law_lifetime_is_exact(start: Tick, duration: u16, n: int)
    requires
        0 <= n < 0x8000,
        duration < 0x8000,
    ensures
        ticks_elapsed(start.offset_spec(n), start, duration) <==> n >= duration,
{
    assert(start.offset_spec(n).since_spec(start) == n);
}

/// An ability that asks for a projectile.
pub struct ProjectileRow<'a> {
    pub ability: Entity,
    pub request: ProjectileSpawnEffect,
    pub active: &'a ActiveAbility,
    pub on_hit: Option<&'a OnHitEffects>,
}

/// A projectile to be spawned in front of its shooter; the request is then taken off `ability`.
#[derive(Debug)]
pub struct ProjectileSpawn<'a> {
    pub ability: Entity,
    pub ability_id: AbilityId,
    pub shooter: Entity,
    pub map: MapInstanceId,
    pub spawn_tick: Tick,
    pub speed: Scalar,
    pub lifetime_ticks: u16,
    pub salt: u64,
    pub on_hit: Option<&'a OnHitEffects>,
    /// Whether the projectile is replicated to clients, under the control of its shooter's client.
    pub replicated: bool,
}

/// The projectile that an ability asks for, if its caster stands on a map.
pub open spec fn projectile_of<'a>(world: &AbilityWorld, tick: Tick, row: ProjectileRow<'a>) -> Option<
    ProjectileSpawn<'a>,
> {
    match world.placed_on(row.active.caster) {
        Some(map) => Some(
            ProjectileSpawn {
                ability: row.ability,
                ability_id: row.active.def_id,
                shooter: row.active.caster,
                map,
                spawn_tick: tick,
                speed: row.request.speed,
                lifetime_ticks: row.request.lifetime_ticks,
                salt: (row.active.ability_slot * 0x100 + row.active.depth) as u64,
                on_hit: row.on_hit,
                replicated: world.is_controlled_spec(row.active.caster),
            },
        ),
        None => None,
    }
}

/// Spawns the projectiles that abilities ask for.
pub fn ability_projectile_spawn<'a>(
    world: &AbilityWorld,
    tick: Tick,
    rows: &Vec<ProjectileRow<'a>>,
) -> (spawns: Vec<ProjectileSpawn<'a>>)
    ensures
        spawns@ == filter_map(rows@, |row: ProjectileRow<'a>| projectile_of(world, tick, row)),
{
    let mut spawns: Vec<ProjectileSpawn<'a>> = Vec::new();
    let mut i: usize = 0;
    let ghost f = |row: ProjectileRow<'a>| projectile_of(world, tick, row);
    assert(rows@.take(0) =~= Seq::empty());
    while i < rows.len()
        invariant
            i <= rows@.len(),
            f == (|row: ProjectileRow<'a>| projectile_of(world, tick, row)),
            spawns@ == filter_map(rows@.take(i as int), f),
        decreases rows@.len() - i,
    {
        proof {
            crate::seqs::lemma_filter_map_step(rows@, i as int, f);
        }
        let row = &rows[i];
        let active = row.active;
        if let Some(map) = world.map_of_placed(active.caster) {
            let salt: u64 = projectile_salt(active.ability_slot, active.depth);
            spawns.push(
                ProjectileSpawn {
                    ability: row.ability,
                    ability_id: active.def_id.clone(),
                    shooter: active.caster,
                    map,
                    spawn_tick: tick,
                    speed: row.request.speed,
                    lifetime_ticks: row.request.lifetime_ticks,
                    salt,
                    on_hit: row.on_hit,
                    replicated: world.is_controlled(active.caster),
                },
            );
        }
        i = i + 1;
    }
    assert(rows@.take(i as int) =~= rows@);
    spawns
}

/// A projectile, as it stands in the world.
pub struct ProjectileEntityRow<'a> {
    pub entity: Entity,
    pub position: Vector,
    pub direction: Vector,
    pub speed: Scalar,
    pub map: MapInstanceId,
    pub on_hit: Option<&'a OnHitEffects>,
    /// Whether its bullet is there already.
    pub has_bullets: bool,
    /// Whether it was replicated here from elsewhere.
    pub replicated: bool,
}

/// A bullet to be spawned for a projectile. It starts at `position`, and flies in `direction` with
/// `speed`.
#[derive(Debug)]
pub struct BulletSpawn<'a> {
    pub owner: AbilityBulletOf,
    pub position: Vector,
    pub direction: Vector,
    pub speed: Scalar,
    pub map: MapInstanceId,
    pub on_hit: Option<&'a OnHitEffects>,
}

/// The bullet of a projectile, if it is spawned here and is not there yet.
pub open spec fn bullet_of<'a>(row: ProjectileEntityRow<'a>) -> Option<BulletSpawn<'a>> {
    if row.has_bullets || row.replicated {
        None
    } else {
        Some(
            BulletSpawn {
                owner: AbilityBulletOf(row.entity),
                position: row.position,
                direction: row.direction,
                speed: row.speed,
                map: row.map,
                on_hit: row.on_hit,
            },
        )
    }
}

/// Spawns the bullets of new projectiles.
pub fn handle_ability_projectile_spawn<'a>(rows: &Vec<ProjectileEntityRow<'a>>) -> (bullets: Vec<
    BulletSpawn<'a>,
>)
    ensures
        bullets@ == filter_map(rows@, |row: ProjectileEntityRow<'a>| bullet_of(row)),
{
    let mut bullets: Vec<BulletSpawn<'a>> = Vec::new();
    let mut i: usize = 0;
    let ghost f = |row: ProjectileEntityRow<'a>| bullet_of(row);
    assert(rows@.take(0) =~= Seq::empty());
    while i < rows.len()
        invariant
            i <= rows@.len(),
            f == (|row: ProjectileEntityRow<'a>| bullet_of(row)),
            bullets@ == filter_map(rows@.take(i as int), f),
        decreases rows@.len() - i,
    {
        proof {
            crate::seqs::lemma_filter_map_step(rows@, i as int, f);
        }
        let row = &rows[i];
        if !row.has_bullets && !row.replicated {
            bullets.push(
                BulletSpawn {
                    owner: AbilityBulletOf(row.entity),
                    position: row.position,
                    direction: row.direction,
                    speed: row.speed,
                    map: row.map,
                    on_hit: row.on_hit,
                },
            );
        }
        i = i + 1;
    }
    assert(rows@.take(i as int) =~= rows@);
    bullets
}

/// The projectile that goes with a bullet, if it is still there.
pub fn despawn_ability_projectile_spawn(
    bullet: Option<AbilityBulletOf>,
    projectile_exists: bool,
) -> (projectile: Option<Entity>)
    ensures
        projectile == match bullet {
            Some(owner) if projectile_exists => Some(owner.0),
            _ => None,
        },
{
    match bullet {
        Some(owner) => if projectile_exists {
            Some(owner.0)
        } else {
            None
        },
        None => None,
    }
}

/// A buff is in force as long as its last tick lies ahead, by less than half a turn of the counter. The
/// buffs in force stay, in their order, and the others go. Gives the place of each that stays.
pub proof fn law_buffs_in_force_stay(buffs: Seq<ActiveBuff>, tick: Tick) -> (at: Seq<int>)
    ensures
        at.len() == remaining_buffs(buffs, tick).len(),
        picks(
            at,
            buffs.len() as int,
            |i: int| 0 < (buffs[i].expires_tick.0 - tick.0) % 0x1_0000 < 0x8000,
        ),
        forall|k: int|
            0 <= k < at.len() ==> remaining_buffs(buffs, tick)[k] == buffs[#[trigger] at[k]],
{
    let pred = |b: ActiveBuff| buff_in_force(b, tick);
    let at = lemma_filter_picks(buffs, pred);
    let kept = |i: int| pred(buffs[i]);
    let ahead = |i: int| 0 < (buffs[i].expires_tick.0 - tick.0) % 0x1_0000 < 0x8000;
    assert forall|i: int| 0 <= i < buffs.len() implies #[trigger] kept(i)
        == #[trigger] ahead(i) by {}
    lemma_picks_same(at, buffs.len() as int, kept, ahead);
    at
}

/// The entities that are left without buffs are those none of whose buffs are in force, in their order.
/// Gives the place of each.
pub proof fn law_bare_entities_are_told(rows: Seq<BuffRow>, tick: Tick, bare: Seq<Entity>) -> (at: Seq<
    int,
>)
    requires
        bare == filter_map(rows, |row: BuffRow| out_of_buffs(row, tick)),
    ensures
        at.len() == bare.len(),
        picks(
            at,
            rows.len() as int,
            |i: int|
                forall|b: int|
                    0 <= b < rows[i].buffs.0@.len() ==> !(0 < ((
                    #[trigger] rows[i].buffs.0@[b]).expires_tick.0 - tick.0) % 0x1_0000 < 0x8000),
        ),
        forall|k: int| 0 <= k < at.len() ==> bare[k] == rows[#[trigger] at[k]].entity,
{
    let f = |row: BuffRow| out_of_buffs(row, tick);
    let at = lemma_filter_map_picks(rows, f);
    let told = |i: int| f(rows[i]) is Some;
    let none = |i: int|
        forall|b: int|
            0 <= b < rows[i].buffs.0@.len() ==> !(0 < ((
            #[trigger] rows[i].buffs.0@[b]).expires_tick.0 - tick.0) % 0x1_0000 < 0x8000);
    assert forall|i: int| 0 <= i < rows.len() implies #[trigger] told(i) == #[trigger] none(i) by {
        let buffs = rows[i].buffs.0@;
        let kept = law_buffs_in_force_stay(buffs, tick);
        let ahead = |j: int| 0 < (buffs[j].expires_tick.0 - tick.0) % 0x1_0000 < 0x8000;
        if kept.len() > 0 {
            assert(ahead(kept[0]));
            assert(0 < (rows[i].buffs.0@[kept[0]].expires_tick.0 - tick.0) % 0x1_0000 < 0x8000);
        } else {
            assert forall|b: int| 0 <= b < rows[i].buffs.0@.len() implies !(0 < ((
            #[trigger] rows[i].buffs.0@[b]).expires_tick.0 - tick.0) % 0x1_0000 < 0x8000) by {
                if ahead(b) {
                    assert(kept.contains(b));
                }
            }
        }
    }
    lemma_picks_same(at, rows.len() as int, told, none);
    at
}

/// The area hitboxes that have lasted their ticks go, in their order, and no others. Gives the place of
/// each.
pub proof fn law_hitboxes_last_their_ticks(rows: Seq<AoERow>, tick: Tick, expired: Seq<Entity>) -> (at:
    Seq<int>)
    requires
        expired == filter_map(rows, |row: AoERow| expired_hitbox(row, tick)),
    ensures
        at.len() == expired.len(),
        picks(
            at,
            rows.len() as int,
            |i: int|
                tick.since_spec(rows[i].hitbox.spawn_tick) >= signed16(
                    rows[i].hitbox.duration_ticks as int,
                ),
        ),
        forall|k: int| 0 <= k < at.len() ==> expired[k] == rows[#[trigger] at[k]].entity,
{
    let f = |row: AoERow| expired_hitbox(row, tick);
    let at = lemma_filter_map_picks(rows, f);
    let gone = |i: int| f(rows[i]) is Some;
    let over = |i: int|
        tick.since_spec(rows[i].hitbox.spawn_tick) >= signed16(
            rows[i].hitbox.duration_ticks as int,
        );
    assert forall|i: int| 0 <= i < rows.len() implies #[trigger] gone(i) == #[trigger] over(i) by {}
    lemma_picks_same(at, rows.len() as int, gone, over);
    at
}

/// The bullets whose projectile is there and has lasted its ticks go, in their order, and no others.
/// Gives the place of each.
pub proof fn law_bullets_last_their_ticks(rows: Seq<BulletRow>, tick: Tick, expired: Seq<Entity>) -> (at:
    Seq<int>)
    requires
        expired == filter_map(rows, |row: BulletRow| expired_bullet(row, tick)),
    ensures
        at.len() == expired.len(),
        picks(
            at,
            rows.len() as int,
            |i: int|
                rows[i].life is Some && tick.since_spec(rows[i].life->0.spawn_tick) >= signed16(
                    rows[i].life->0.lifetime_ticks as int,
                ),
        ),
        forall|k: int| 0 <= k < at.len() ==> expired[k] == rows[#[trigger] at[k]].entity,
{
    let f = |row: BulletRow| expired_bullet(row, tick);
    let at = lemma_filter_map_picks(rows, f);
    let gone = |i: int| f(rows[i]) is Some;
    let over = |i: int|
        rows[i].life is Some && tick.since_spec(rows[i].life->0.spawn_tick) >= signed16(
            rows[i].life->0.lifetime_ticks as int,
        );
    assert forall|i: int| 0 <= i < rows.len() implies #[trigger] gone(i) == #[trigger] over(i) by {}
    lemma_picks_same(at, rows.len() as int, gone, over);
    at
}

/// Every projectile that is asked for by an ability whose caster is placed on a map is spawned there, in
/// the order of the requests, as it was asked for. Gives the request that each comes of.
pub proof fn law_projectiles_are_fired<'a>(
    world: &AbilityWorld,
    tick: Tick,
    rows: Seq<ProjectileRow<'a>>,
    spawns: Seq<ProjectileSpawn<'a>>,
) -> (at: Seq<int>)
    requires
        spawns == filter_map(rows, |row: ProjectileRow<'a>| projectile_of(world, tick, row)),
    ensures
        at.len() == spawns.len(),
        picks(
            at,
            rows.len() as int,
            |i: int| world.placed_on(rows[i].active.caster) is Some,
        ),
        forall|k: int|
            0 <= k < at.len() ==> {
                let row = rows[#[trigger] at[k]];
                let spawn = spawns[k];
                &&& spawn.ability == row.ability
                &&& spawn.ability_id == row.active.def_id
                &&& spawn.shooter == row.active.caster
                &&& Some(spawn.map) == world.placed_on(row.active.caster)
                &&& spawn.spawn_tick == tick
                &&& spawn.speed == row.request.speed
                &&& spawn.lifetime_ticks == row.request.lifetime_ticks
                &&& spawn.salt as int / 0x100 == row.active.ability_slot
                &&& spawn.salt as int % 0x100 == row.active.depth
                &&& spawn.on_hit == row.on_hit
                &&& spawn.replicated == world.controlled@.contains(row.active.caster.bits_spec())
            },
{
    let f = |row: ProjectileRow<'a>| projectile_of(world, tick, row);
    let at = lemma_filter_map_picks(rows, f);
    let fired = |i: int| f(rows[i]) is Some;
    let placed = |i: int| world.placed_on(rows[i].active.caster) is Some;
    assert forall|i: int| 0 <= i < rows.len() implies #[trigger] fired(i)
        == #[trigger] placed(i) by {}
    lemma_picks_same(at, rows.len() as int, fired, placed);
    at
}

/// Every projectile that was not replicated here and has no bullet gets one, in their order, which
/// carries on where the projectile is. Gives the projectile of each.
pub proof fn law_projectiles_get_their_bullet<'a>(
    rows: Seq<ProjectileEntityRow<'a>>,
    bullets: Seq<BulletSpawn<'a>>,
) -> (at: Seq<int>)
    requires
        bullets == filter_map(rows, |row: ProjectileEntityRow<'a>| bullet_of(row)),
    ensures
        at.len() == bullets.len(),
        picks(at, rows.len() as int, |i: int| !rows[i].has_bullets && !rows[i].replicated),
        forall|k: int|
            0 <= k < at.len() ==> {
                let row = rows[#[trigger] at[k]];
                &&& bullets[k].owner.0 == row.entity
                &&& bullets[k].position == row.position
                &&& bullets[k].direction == row.direction
                &&& bullets[k].speed == row.speed
                &&& bullets[k].map == row.map
                &&& bullets[k].on_hit == row.on_hit
            },
{
    let f = |row: ProjectileEntityRow<'a>| bullet_of(row);
    let at = lemma_filter_map_picks(rows, f);
    let given = |i: int| f(rows[i]) is Some;
    let lacks = |i: int| !rows[i].has_bullets && !rows[i].replicated;
    assert forall|i: int| 0 <= i < rows.len() implies #[trigger] given(i)
        == #[trigger] lacks(i) by {}
    lemma_picks_same(at, rows.len() as int, given, lacks);
    at
}

} // verus!
