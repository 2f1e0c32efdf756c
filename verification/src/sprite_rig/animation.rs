//! Choosing and blending a character's animations.
use crate::ability::types::ActiveAbility;
use crate::entity::Entity;
use crate::names::NameMap;
use crate::scalar::Scalar;
use crate::seqs::{
    filter_map, lemma_filter_map_picks, lemma_filter_map_step, lemma_picks_same, picks,
};
use crate::sprite_rig::bones::{BoneDef, Vector2};
use crate::sprite_rig::mesh::{last_slot, law_last_slot_counts, SlotDef};
use std::collections::HashMap;
use vstd::prelude::*;

verus! {

broadcast use vstd::std_specs::hash::group_hash_axioms;

/// The way a character faces.
#[derive(Clone, Copy, Debug, PartialEq, Eq, Structural)]
pub enum Facing {
    Left,
    Right,
}

/// The sideways speed, towards the camera's right, from which a character turns: 0.1.
pub open spec fn turn_speed_spec() -> Scalar {
    Scalar(0x3dcc_cccd)
}

/// The same speed towards the camera's left.
pub open spec fn negative_turn_speed_spec() -> Scalar {
    Scalar(0xbdcc_cccd)
}

/// A character that moves sideways fast enough faces left when it moves to the camera's right, and
/// right when it moves to the camera's left; otherwise it faces as before.
pub open spec fn facing_after(facing: Facing, lateral: Scalar) -> Facing {
    if lateral.exceeds_spec(turn_speed_spec()) {
        Facing::Left
    } else if negative_turn_speed_spec().exceeds_spec(lateral) {
        Facing::Right
    } else {
        facing
    }
}

pub fn update_facing_from_velocity(facing: Facing, lateral: Scalar) -> (after: Facing)
    ensures
        after == facing_after(facing, lateral),
{
    let limit = Scalar(0x3dcc_cccd);
    let negative = Scalar(0xbdcc_cccd);
    if lateral.exceeds(limit) {
        Facing::Left
    } else if negative.exceeds(lateral) {
        Facing::Right
    } else {
        facing
    }
}

/// Which of a character's locomotion clips are blended.
#[derive(Clone, Copy, Debug, PartialEq, Eq, Structural)]
pub enum BlendBracket {
    /// There are no clips.
    Empty,
    /// One clip has all the weight.
    Only(usize),
    /// This clip and the next share the weight, by where the speed lies between their thresholds.
    Between(usize),
}

/// Whether `speed` lies between the thresholds of clip `i` and of the next.
pub open spec fn in_bracket(speed: Scalar, thresholds: Seq<Scalar>, i: int) -> bool {
    &&& 0 <= i < thresholds.len() - 1
    &&& speed.at_least_spec(thresholds[i])
    &&& thresholds[i + 1].exceeds_spec(speed)
}

/// Whether `bracket` is the one for `speed`: the first clip up to its threshold, the last one from
/// its threshold on, and otherwise the first two neighbours that have the speed between them.
pub open spec fn is_bracket_of(bracket: BlendBracket, speed: Scalar, thresholds: Seq<Scalar>) -> bool {
    let n = thresholds.len();
    if n == 0 {
        bracket == BlendBracket::Empty
    } else if n == 1 || thresholds[0].at_least_spec(speed) {
        bracket == BlendBracket::Only(0)
    } else if speed.at_least_spec(thresholds[n - 1]) {
        bracket == BlendBracket::Only((n - 1) as usize)
    } else if exists|i: int| #[trigger] in_bracket(speed, thresholds, i) {
        bracket matches BlendBracket::Between(i) && in_bracket(speed, thresholds, i as int)
            && forall|j: int| 0 <= j < i ==> !#[trigger] in_bracket(speed, thresholds, j)
    } else {
        bracket == BlendBracket::Only(0)
    }
}

/// Finds the clips that are blended at a speed.
pub fn compute_blend_bracket(speed: Scalar, thresholds: &Vec<Scalar>) -> (bracket: BlendBracket)
    ensures
        is_bracket_of(bracket, speed, thresholds@),
{
    let n: usize = thresholds.len();
    if n == 0 {
        return BlendBracket::Empty;
    }
    if n == 1 || thresholds[0].at_least(speed) {
        return BlendBracket::Only(0);
    }
    if speed.at_least(thresholds[n - 1]) {
        return BlendBracket::Only(n - 1);
    }
    let mut i: usize = 0;
    while i < n - 1
        invariant
            n == thresholds@.len(),
            n >= 2,
            i <= n - 1,
            !thresholds@[0].at_least_spec(speed),
            !speed.at_least_spec(thresholds@[n - 1]),
            forall|j: int| 0 <= j < i ==> !#[trigger] in_bracket(speed, thresholds@, j),
        decreases n - i,
    {
        let lo = thresholds[i];
        let hi = thresholds[i + 1];
        if speed.at_least(lo) && hi.exceeds(speed) {
            assert(in_bracket(speed, thresholds@, i as int));
            return BlendBracket::Between(i);
        }
        assert(!in_bracket(speed, thresholds@, i as int));
        i = i + 1;
    }
    BlendBracket::Only(0)
}

/// Between the first threshold and the last there always are two neighbours to blend.
pub proof fn law_bracket_exists(speed: Scalar, thresholds: Seq<Scalar>)
    requires
        thresholds.len() >= 2,
        !speed.is_nan_spec(),
        forall|i: int| 0 <= i < thresholds.len() ==> !(#[trigger] thresholds[i]).is_nan_spec(),
        speed.exceeds_spec(thresholds[0]),
        thresholds[thresholds.len() - 1].exceeds_spec(speed),
    ensures
        exists|i: int| #[trigger] in_bracket(speed, thresholds, i),
{
    lemma_bracket_below(speed, thresholds, thresholds.len() - 1);
}

proof fn lemma_bracket_below(speed: Scalar, thresholds: Seq<Scalar>, k: int)
    requires
        0 < k < thresholds.len(),
        !speed.is_nan_spec(),
        forall|i: int| 0 <= i < thresholds.len() ==> !(#[trigger] thresholds[i]).is_nan_spec(),
        speed.exceeds_spec(thresholds[0]),
        thresholds[k].exceeds_spec(speed),
    ensures
        exists|i: int| #[trigger] in_bracket(speed, thresholds, i),
    decreases k,
{
    assert(!thresholds[k - 1].is_nan_spec());
    if speed.at_least_spec(thresholds[k - 1]) {
        assert(in_bracket(speed, thresholds, k - 1));
    } else {
        lemma_bracket_below(speed, thresholds, k - 1);
    }
}

/// A locomotion clip and the speed from which it plays.
#[derive(Debug)]
pub struct LocomotionEntry {
    pub clip: String,
    pub speed_threshold: Scalar,
}

/// The clip that an ability plays.
#[derive(Debug)]
pub struct AbilityAnimation {
    pub ability_id: String,
    pub clip: String,
}

/// The animations of a character.
#[derive(Debug)]
pub struct AnimSet {
    pub locomotion: Vec<LocomotionEntry>,
    pub ability_animations: Vec<AbilityAnimation>,
    pub hit_react: Option<String>,
}

/// All clips of a set: those for locomotion, those for abilities, and the one for hits.
pub open spec fn clip_paths(animset: &AnimSet) -> Seq<String> {
    let locomotion = animset.locomotion@.map_values(|e: LocomotionEntry| e.clip);
    let abilities = animset.ability_animations@.map_values(|a: AbilityAnimation| a.clip);
    let hit = match animset.hit_react {
        Some(clip) => seq![clip],
        None => Seq::empty(),
    };
    locomotion + abilities + hit
}

pub fn collect_animset_clip_paths(animset: &AnimSet) -> (paths: Vec<String>)
    ensures
        paths@ == clip_paths(animset),
{
    let mut paths: Vec<String> = Vec::new();
    let ghost locomotion = animset.locomotion@.map_values(|e: LocomotionEntry| e.clip);
    let ghost abilities = animset.ability_animations@.map_values(|a: AbilityAnimation| a.clip);
    let mut i: usize = 0;
    while i < animset.locomotion.len()
        invariant
            i <= animset.locomotion@.len(),
            locomotion == animset.locomotion@.map_values(|e: LocomotionEntry| e.clip),
            paths@ == locomotion.take(i as int),
        decreases animset.locomotion@.len() - i,
    {
        paths.push(animset.locomotion[i].clip.clone());
        i = i + 1;
        assert(paths@ =~= locomotion.take(i as int));
    }
    assert(paths@ =~= locomotion);
    let mut j: usize = 0;
    while j < animset.ability_animations.len()
        invariant
            j <= animset.ability_animations@.len(),
            abilities == animset.ability_animations@.map_values(|a: AbilityAnimation| a.clip),
            paths@ == locomotion + abilities.take(j as int),
        decreases animset.ability_animations@.len() - j,
    {
        paths.push(animset.ability_animations[j].clip.clone());
        j = j + 1;
        assert(paths@ =~= locomotion + abilities.take(j as int));
    }
    assert(abilities.take(j as int) =~= abilities);
    if let Some(clip) = &animset.hit_react {
        paths.push(clip.clone());
    }
    assert(paths@ =~= clip_paths(animset));
    paths
}

/// Whether the clip at `path` is loaded and built.
pub open spec fn clip_built(path: Seq<char>, loaded: &NameMap<u64>, built: Map<u64, u64>) -> bool {
    loaded.view().dom().contains(path) && built.dom().contains(loaded.view()[path])
}

/// Whether all clips of a set are loaded and built.
pub open spec fn clips_ready(animset: &AnimSet, loaded: &NameMap<u64>, built: Map<u64, u64>) -> bool {
    forall|i: int|
        0 <= i < clip_paths(animset).len() ==> clip_built(
            (#[trigger] clip_paths(animset)[i])@,
            loaded,
            built,
        )
}

/// Whether all clips of a set are loaded and built, so that its animation graph can be.
///
/// `loaded` holds the handles of the animation files by path, `built` the handles of the clips by
/// those of the files.
pub fn all_clips_built(animset: &AnimSet, loaded: &NameMap<u64>, built: &HashMap<u64, u64>) -> (ready:
    bool)
    requires
        loaded.wf(),
    ensures
        ready == clips_ready(animset, loaded, built@),
{
    let paths = collect_animset_clip_paths(animset);
    let mut i: usize = 0;
    while i < paths.len()
        invariant
            i <= paths@.len(),
            paths@ == clip_paths(animset),
            loaded.wf(),
            forall|k: int|
                0 <= k < i ==> clip_built(
                    (#[trigger] clip_paths(animset)[k])@,
                    loaded,
                    built@,
                ),
        decreases paths@.len() - i,
    {
        let is_built = match loaded.get(&paths[i]) {
            Some(handle) => built.contains_key(handle),
            None => false,
        };
        if !is_built {
            assert(!clip_built(clip_paths(animset)[i as int]@, loaded, built@));
            return false;
        }
        i = i + 1;
    }
    true
}

/// Where a bone is when no animation moves it.
#[derive(Debug)]
pub struct BoneAnimDefault {
    pub name: String,
    pub default_xy: Vector2,
    pub z_order: Scalar,
}

/// The depth of a bone: that of its last slot, or zero.
pub open spec fn bone_depth(slots: Seq<SlotDef>, bone: Seq<char>) -> Scalar {
    match last_slot(slots, slots.len() as int, bone) {
        Some(i) => slots[i].z_order,
        None => Scalar(0),
    }
}

/// Where the bones of a rig are when no animation moves them.
pub fn bone_anim_defaults(bones: &Vec<BoneDef>, slots: &Vec<SlotDef>) -> (defaults: Vec<
    BoneAnimDefault,
>)
    ensures
        defaults@.len() == bones@.len(),
        forall|i: int|
            0 <= i < bones@.len() ==> #[trigger] defaults@[i] == (BoneAnimDefault {
                name: bones@[i].name,
                default_xy: bones@[i].translation,
                z_order: bone_depth(slots@, bones@[i].name@),
            }),
{
    let mut defaults: Vec<BoneAnimDefault> = Vec::new();
    let mut i: usize = 0;
    while i < bones.len()
        invariant
            i <= bones@.len(),
            defaults@.len() == i,
            forall|k: int|
                0 <= k < i ==> #[trigger] defaults@[k] == (BoneAnimDefault {
                    name: bones@[k].name,
                    default_xy: bones@[k].translation,
                    z_order: bone_depth(slots@, bones@[k].name@),
                }),
        decreases bones@.len() - i,
    {
        let bone = &bones[i];
        let z_order = find_bone_depth(slots, &bone.name);
        defaults.push(
            BoneAnimDefault { name: bone.name.clone(), default_xy: bone.translation, z_order },
        );
        i = i + 1;
    }
    defaults
}

fn find_bone_depth(slots: &Vec<SlotDef>, bone: &String) -> (depth: Scalar)
    ensures
        depth == bone_depth(slots@, bone@),
{
    let mut n: usize = slots.len();
    while n > 0
        invariant
            n <= slots@.len(),
            last_slot(slots@, slots@.len() as int, bone@) == last_slot(slots@, n as int, bone@),
        decreases n,
    {
        if slots[n - 1].bone == *bone {
            return slots[n - 1].z_order;
        }
        n = n - 1;
    }
    Scalar(0)
}

/// The keyframes that an animation has for a bone.
#[derive(Clone, Copy, Debug, PartialEq, Eq, Structural)]
pub struct TimelineLengths {
    pub rotation: usize,
    pub translation: usize,
    pub scale: usize,
}

/// Where a curve of a clip comes from.
#[derive(Clone, Copy, Debug, PartialEq, Eq, Structural)]
pub enum CurveSource {
    /// The animation's keyframes.
    Keyframes,
    /// The bone's default, held.
    Hold,
    /// There is no curve.
    Absent,
}

/// The curves of a clip for one bone.
#[derive(Clone, Copy, Debug, PartialEq, Eq, Structural)]
pub struct BoneCurves {
    pub rotation: CurveSource,
    pub translation: CurveSource,
    pub scale: CurveSource,
}

/// A curve takes two keyframes. Where there are fewer, rotation and translation hold the default, so
/// that every clip moves every bone; scale is left alone.
pub open spec fn bone_curves(timeline: Option<TimelineLengths>) -> BoneCurves {
    let enough = |n: usize| n >= 2;
    match timeline {
        Some(t) => BoneCurves {
            rotation: if enough(t.rotation) {
                CurveSource::Keyframes
            } else {
                CurveSource::Hold
            },
            translation: if enough(t.translation) {
                CurveSource::Keyframes
            } else {
                CurveSource::Hold
            },
            scale: if enough(t.scale) {
                CurveSource::Keyframes
            } else {
                CurveSource::Absent
            },
        },
        None => BoneCurves {
            rotation: CurveSource::Hold,
            translation: CurveSource::Hold,
            scale: CurveSource::Absent,
        },
    }
}

pub fn plan_bone_curves(timeline: Option<TimelineLengths>) -> (curves: BoneCurves)
    ensures
        curves == bone_curves(timeline),
{
    match timeline {
        Some(t) => BoneCurves {
            rotation: if t.rotation >= 2 {
                CurveSource::Keyframes
            } else {
                CurveSource::Hold
            },
            translation: if t.translation >= 2 {
                CurveSource::Keyframes
            } else {
                CurveSource::Hold
            },
            scale: if t.scale >= 2 {
                CurveSource::Keyframes
            } else {
                CurveSource::Absent
            },
        },
        None => BoneCurves {
            rotation: CurveSource::Hold,
            translation: CurveSource::Hold,
            scale: CurveSource::Absent,
        },
    }
}

/// Whether a character is in the middle of an ability.
pub open spec fn is_casting(abilities: Seq<&ActiveAbility>, character: Entity) -> bool {
    exists|i: int| 0 <= i < abilities.len() && (#[trigger] abilities[i]).caster == character
}

fn find_casting(abilities: &Vec<&ActiveAbility>, character: Entity) -> (casting: bool)
    ensures
        casting == is_casting(abilities@, character),
{
    let mut i: usize = 0;
    while i < abilities.len()
        invariant
            i <= abilities@.len(),
            forall|k: int| 0 <= k < i ==> (#[trigger] abilities@[k]).caster != character,
        decreases abilities@.len() - i,
    {
        if abilities[i].caster == character {
            assert(abilities@[i as int].caster == character);
            return true;
        }
        i = i + 1;
    }
    false
}

/// A character, and whether it is in locomotion or plays the animation of an ability.
#[derive(Clone, Copy, Debug, PartialEq, Eq, Structural)]
pub struct LocomotionRow {
    pub character: Entity,
    pub active: bool,
}

/// A character goes back to locomotion when it was taken out of it and no ability of its own is in
/// flight any more.
pub open spec fn resumes(row: LocomotionRow, abilities: Seq<&ActiveAbility>) -> bool {
    !row.active && !is_casting(abilities, row.character)
}

/// The character of a row that goes back to locomotion.
pub open spec fn resumed(row: LocomotionRow, abilities: Seq<&ActiveAbility>) -> Option<Entity> {
    if resumes(row, abilities) {
        Some(row.character)
    } else {
        None
    }
}

/// Takes characters back to locomotion, and names those.
pub fn return_to_locomotion(
    rows: &mut Vec<LocomotionRow>,
    abilities: &Vec<&ActiveAbility>,
) -> (characters: Vec<Entity>)
    ensures
        final(rows)@ == old(rows)@.map_values(
            |row: LocomotionRow| LocomotionRow {
                active: row.active || resumes(row, abilities@),
                ..row
            },
        ),
        characters@ == filter_map(old(rows)@, |row: LocomotionRow| resumed(row, abilities@)),
{
    let ghost before = rows@;
    let ghost f = |row: LocomotionRow| resumed(row, abilities@);
    let mut characters: Vec<Entity> = Vec::new();
    let mut i: usize = 0;
    assert(before.take(0) =~= Seq::empty());
    while i < rows.len()
        invariant
            i <= rows@.len(),
            rows@.len() == before.len(),
            f == (|row: LocomotionRow| resumed(row, abilities@)),
            characters@ == filter_map(before.take(i as int), f),
            forall|k: int|
                0 <= k < i ==> #[trigger] rows@[k] == (LocomotionRow {
                    active: before[k].active || resumes(before[k], abilities@),
                    ..before[k]
                }),
            forall|k: int| i <= k < before.len() ==> #[trigger] rows@[k] == before[k],
        decreases before.len() - i,
    {
        proof {
            lemma_filter_map_step(before, i as int, f);
        }
        let row: LocomotionRow = rows[i];
        if !row.active && !find_casting(abilities, row.character) {
            rows.set(i, LocomotionRow { character: row.character, active: true });
            characters.push(row.character);
        }
        i = i + 1;
    }
    assert(before.take(i as int) =~= before);
    assert(rows@ =~= before.map_values(
        |row: LocomotionRow| LocomotionRow {
            active: row.active || resumes(row, abilities@),
            ..row
        },
    ));
    characters
}

/// A character turns left when it moves to the camera's right by more than 0.1, turns right when it
/// moves to the left by more than that, and else faces as before; so too where its speed is not a
/// number.
pub proof fn law_characters_face_where_they_move(facing: Facing, lateral: Scalar)
    ensures
        lateral.exceeds_spec(Scalar(0x3dcc_cccd)) ==> facing_after(facing, lateral) == Facing::Left,
        Scalar(0xbdcc_cccd).exceeds_spec(lateral) ==> facing_after(facing, lateral) == Facing::Right,
        !lateral.exceeds_spec(Scalar(0x3dcc_cccd)) && !Scalar(0xbdcc_cccd).exceeds_spec(lateral)
            ==> facing_after(facing, lateral) == facing,
{
}

/// How clips are blended: none without clips, the first up to its threshold, the last from its
/// threshold on, and in between the first two neighbours with the speed at or over the lower threshold
/// and under the upper one.
pub proof fn law_neighbours_are_blended(
    bracket: BlendBracket,
    speed: Scalar,
    thresholds: Seq<Scalar>,
)
    requires
        is_bracket_of(bracket, speed, thresholds),
    ensures
        ({
            let n = thresholds.len() as int;
            &&& n == 0 ==> bracket == BlendBracket::Empty
            &&& n == 1 ==> bracket == BlendBracket::Only(0)
            &&& n >= 1 && thresholds[0].at_least_spec(speed) ==> bracket == BlendBracket::Only(0)
            &&& n >= 2 && !thresholds[0].at_least_spec(speed) && speed.at_least_spec(
                thresholds[n - 1],
            ) ==> bracket == BlendBracket::Only((n - 1) as usize)
            &&& n >= 2 && !thresholds[0].at_least_spec(speed) && !speed.at_least_spec(
                thresholds[n - 1],
            ) ==> {
                &&& bracket is Between || bracket == BlendBracket::Only(0)
                &&& bracket matches BlendBracket::Between(i) ==> i < n - 1 && speed.at_least_spec(
                    thresholds[i as int],
                ) && thresholds[i + 1].exceeds_spec(speed)
                &&& forall|i: int, j: int|
                    0 <= i && j == i + 1 && j < n && speed.at_least_spec(#[trigger] thresholds[i])
                        && (#[trigger] thresholds[j]).exceeds_spec(speed) ==> (
                    bracket matches BlendBracket::Between(b) && b <= i)
            }
        }),
{
    let n = thresholds.len() as int;
    assert forall|i: int, j: int|
        0 <= i && j == i + 1 && j < n && speed.at_least_spec(#[trigger] thresholds[i]) && (
        #[trigger] thresholds[j]).exceeds_spec(speed) && !thresholds[0].at_least_spec(speed)
            && !speed.at_least_spec(thresholds[n - 1]) implies (bracket matches BlendBracket::Between(
        b,
    ) && b <= i) by {
        assert(in_bracket(speed, thresholds, i));
    }
}

/// The clips of a set: those for locomotion, then those for abilities, each in order, and then the one
/// for hits.
pub proof fn law_sets_have_all_their_clips(animset: &AnimSet)
    ensures
        ({
            let paths = clip_paths(animset);
            let moving = animset.locomotion@.len();
            let casting = animset.ability_animations@.len();
            &&& forall|i: int| 0 <= i < moving ==> #[trigger] paths[i] == animset.locomotion@[i].clip
            &&& forall|i: int|
                0 <= i < casting ==> paths[moving + i] == (
                #[trigger] animset.ability_animations@[i]).clip
            &&& animset.hit_react is Some ==> paths.len() == moving + casting + 1 && paths.last()
                == animset.hit_react->0
            &&& animset.hit_react is None ==> paths.len() == moving + casting
        }),
{
}

/// A set is ready once each of its clips has an animation that is loaded, and that animation a clip that
/// is built.
pub proof fn law_sets_wait_for_all_clips(
    animset: &AnimSet,
    loaded: &NameMap<u64>,
    built: Map<u64, u64>,
)
    ensures
        clips_ready(animset, loaded, built) <==> forall|i: int|
            0 <= i < clip_paths(animset).len() ==> loaded.view().dom().contains(
                (#[trigger] clip_paths(animset)[i])@,
            ) && built.dom().contains(loaded.view()[clip_paths(animset)[i]@]),
{
}

/// A bone is as deep as the last of its slots, and one without slots is at zero.
pub proof fn law_bones_are_as_deep_as_their_last_slot(slots: Seq<SlotDef>, bone: Seq<char>)
    ensures
        forall|i: int|
            0 <= i < slots.len() && (#[trigger] slots[i]).bone@ == bone && (forall|j: int|
                i < j < slots.len() ==> (#[trigger] slots[j]).bone@ != bone) ==> bone_depth(
                slots,
                bone,
            ) == slots[i].z_order,
        (forall|i: int| 0 <= i < slots.len() ==> (#[trigger] slots[i]).bone@ != bone) ==> bone_depth(
            slots,
            bone,
        ) == Scalar(0),
{
    law_last_slot_counts(slots, bone);
}

/// Two keyframes make a curve. Where there are fewer, a bone holds its turn and its place, and its scale
/// is left alone.
pub proof fn law_curves_take_two_keyframes(timeline: Option<TimelineLengths>)
    ensures
        ({
            let curves = bone_curves(timeline);
            &&& curves.rotation == CurveSource::Keyframes <==> timeline is Some
                && timeline->0.rotation >= 2
            &&& curves.translation == CurveSource::Keyframes <==> timeline is Some
                && timeline->0.translation >= 2
            &&& curves.scale == CurveSource::Keyframes <==> timeline is Some && timeline->0.scale >= 2
            &&& curves.rotation != CurveSource::Absent
            &&& curves.translation != CurveSource::Absent
            &&& curves.scale != CurveSource::Hold
        }),
{
}

/// Every character that is out of locomotion and casts nothing goes back to it, in turn, and no other
/// does. Gives the character of each.
pub proof fn law_idle_characters_go_back_to_locomotion(
    rows: Seq<LocomotionRow>,
    abilities: Seq<&ActiveAbility>,
) -> (at: Seq<int>)
    ensures
        ({
            let characters = filter_map(rows, |row: LocomotionRow| resumed(row, abilities));
            &&& at.len() == characters.len()
            &&& picks(
                at,
                rows.len() as int,
                |i: int|
                    !rows[i].active && forall|a: int|
                        0 <= a < abilities.len() ==> (#[trigger] abilities[a]).caster
                            != rows[i].character,
            )
            &&& forall|k: int|
                0 <= k < at.len() ==> characters[k] == rows[#[trigger] at[k]].character
        }),
        forall|i: int|
            0 <= i < rows.len() ==> (resumes(#[trigger] rows[i], abilities) <==> !rows[i].active && (
            forall|a: int|
                0 <= a < abilities.len() ==> (#[trigger] abilities[a]).caster
                    != rows[i].character)),
{
    let f = |row: LocomotionRow| resumed(row, abilities);
    let at = lemma_filter_map_picks(rows, f);
    let a = |i: int| f(rows[i]) is Some;
    let b = |i: int|
        !rows[i].active && forall|a: int|
            0 <= a < abilities.len() ==> (#[trigger] abilities[a]).caster != rows[i].character;
    assert forall|i: int| 0 <= i < rows.len() implies #[trigger] a(i) == #[trigger] b(i) by {}
    lemma_picks_same(at, rows.len() as int, a, b);
    assert forall|k: int|
        #![trigger at[k]]
        0 <= k < at.len() implies f(rows[at[k]]) == Some(filter_map(rows, f)[k]) by {}
    at
}

} // verus!
