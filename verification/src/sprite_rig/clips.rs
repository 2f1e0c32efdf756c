//! Loading animations and building clips from them.
use crate::names::{names_to_load, texts, NameMap};
use crate::scalar::Scalar;
use crate::seqs::{
    filter_map, lemma_filter_empty, lemma_filter_map_picks, lemma_filter_map_step, lemma_filter_picks,
    lemma_filter_step, lemma_picks_same, picks, unknown,
};
use crate::sprite_rig::animation::{
    bone_curves, clip_paths, collect_animset_clip_paths, plan_bone_curves, AnimSet, BoneAnimDefault,
    BoneCurves, CurveSource, TimelineLengths,
};
use std::collections::{HashMap, HashSet};
use vstd::prelude::*;

verus! {

broadcast use vstd::std_specs::hash::group_hash_axioms;

/// The animations of a set that have still to be loaded, each once.
pub fn load_animset_clips(animset: &AnimSet, loaded: &NameMap<u64>) -> (paths: Vec<String>)
    requires
        loaded.wf(),
    ensures
        texts(paths@) == unknown(texts(clip_paths(animset)), loaded.view().dom()),
{
    let wanted = collect_animset_clip_paths(animset);
    names_to_load(&wanted, loaded)
}

/// The handles of the animations of a set that are loaded.
pub open spec fn loaded_clips(animset: &AnimSet, loaded: &NameMap<u64>) -> Seq<u64> {
    filter_map(
        clip_paths(animset),
        |path: String|
            if loaded.view().dom().contains(path@) {
                Some(loaded.view()[path@])
            } else {
                None
            },
    )
}

/// The animations that get the bone defaults of their set's rig: those that are loaded and have none,
/// each once. `resolved` holds the animations that have them.
pub fn populate_anim_bone_defaults(
    animset: &AnimSet,
    loaded: &NameMap<u64>,
    resolved: &mut HashSet<u64>,
) -> (fresh: Vec<u64>)
    requires
        loaded.wf(),
    ensures
        fresh@ == unknown(loaded_clips(animset, loaded), old(resolved)@),
        forall|id: u64| #[trigger]
            final(resolved)@.contains(id) <==> old(resolved)@.contains(id) || fresh@.contains(id),
{
    let paths = collect_animset_clip_paths(animset);
    let ghost known = resolved@;
    let ghost f = |path: String|
        if loaded.view().dom().contains(path@) {
            Some(loaded.view()[path@])
        } else {
            None
        };
    let mut fresh: Vec<u64> = Vec::new();
    let mut i: usize = 0;
    assert(paths@.take(0) =~= Seq::empty());
    assert(unknown(filter_map(paths@.take(0), f), known) =~= Seq::empty());
    while i < paths.len()
        invariant
            i <= paths@.len(),
            loaded.wf(),
            f == (|path: String|
                if loaded.view().dom().contains(path@) {
                    Some(loaded.view()[path@])
                } else {
                    None
                }),
            fresh@ == unknown(filter_map(paths@.take(i as int), f), known),
            forall|id: u64| #[trigger]
                resolved@.contains(id) <==> known.contains(id) || fresh@.contains(id),
        decreases paths@.len() - i,
    {
        let ghost here = filter_map(paths@.take(i as int), f);
        let ghost fresh_before = fresh@;
        proof {
            lemma_filter_map_step(paths@, i as int, f);
        }
        if let Some(handle) = loaded.get(&paths[i]) {
            let id: u64 = *handle;
            assert(here.push(id).drop_last() =~= here);
            if !resolved.contains(&id) {
                resolved.insert(id);
                fresh.push(id);
                proof {
                    assert forall|x: u64| #[trigger] resolved@.contains(x) <==> known.contains(x)
                        || fresh@.contains(x) by {
                        if fresh_before.contains(x) {
                            let k = choose|k: int|
                                0 <= k < fresh_before.len() && fresh_before[k] == x;
                            assert(fresh@[k] == x);
                        }
                        assert(fresh@[fresh_before.len() as int] == id);
                        if fresh@.contains(x) && x != id {
                            let k = choose|k: int| 0 <= k < fresh@.len() && fresh@[k] == x;
                            assert(fresh_before[k] == x);
                        }
                    }
                }
            }
        }
        i = i + 1;
    }
    assert(paths@.take(i as int) =~= paths@);
    fresh
}

/// What an animation has for a bone.
pub open spec fn timeline_of(timelines: Map<Seq<char>, TimelineLengths>, bone: Seq<char>) -> Option<
    TimelineLengths,
> {
    if timelines.dom().contains(bone) {
        Some(timelines[bone])
    } else {
        None
    }
}

/// The curves of the clip that is built from an animation: those of each bone of the rig, in order.
pub open spec fn clip_curves(
    bones: Seq<BoneAnimDefault>,
    timelines: Map<Seq<char>, TimelineLengths>,
) -> Seq<BoneCurves> {
    bones.map_values(|bone: BoneAnimDefault| bone_curves(timeline_of(timelines, bone.name@)))
}

/// Plans the clip that is built from an animation.
pub fn build_clip_from(bones: &Vec<BoneAnimDefault>, timelines: &NameMap<TimelineLengths>) -> (curves:
    Vec<BoneCurves>)
    requires
        timelines.wf(),
    ensures
        curves@ == clip_curves(bones@, timelines.view()),
{
    let mut curves: Vec<BoneCurves> = Vec::new();
    let mut i: usize = 0;
    while i < bones.len()
        invariant
            i <= bones@.len(),
            timelines.wf(),
            curves@.len() == i,
            forall|k: int|
                0 <= k < i ==> #[trigger] curves@[k] == bone_curves(
                    timeline_of(timelines.view(), bones@[k].name@),
                ),
        decreases bones@.len() - i,
    {
        let timeline: Option<TimelineLengths> = match timelines.get(&bones[i].name) {
            Some(timeline) => Some(*timeline),
            None => None,
        };
        curves.push(plan_bone_curves(timeline));
        i = i + 1;
    }
    assert(curves@ =~= clip_curves(bones@, timelines.view()));
    curves
}

/// Every clip turns and moves every bone, also those that its animation does not mention, so that
/// clips can be blended.
pub proof fn law_every_clip_moves_every_bone(
    bones: Seq<BoneAnimDefault>,
    timelines: Map<Seq<char>, TimelineLengths>,
    i: int,
)
    requires
        0 <= i < bones.len(),
    ensures
        clip_curves(bones, timelines)[i].rotation != CurveSource::Absent,
        clip_curves(bones, timelines)[i].translation != CurveSource::Absent,
{
}

/// The share of the blend below which the events of a clip do not count: 0.01.
pub open spec fn event_weight() -> Scalar {
    Scalar(0x3c23_d70a)
}

/// Whether the events of a clip count when the clip has that share of the blend: those of a clip that
/// can hardly be seen do not.
pub fn event_counts(weight: Scalar) -> (counts: bool)
    ensures
        counts == weight.at_least_spec(event_weight()),
{
    let limit = Scalar(0x3c23_d70a);
    weight.at_least(limit)
}

/// The clips to build for the first time, and those to build again.
#[derive(Debug)]
pub struct ClipWork {
    pub build: Vec<u64>,
    pub rebuild: Vec<u64>,
}

/// Whether an animation was asked for.
pub open spec fn is_asked_for(loaded: Map<Seq<char>, u64>, id: u64) -> bool {
    exists|path: Seq<char>| #[trigger] loaded.dom().contains(path) && loaded[path] == id
}

/// Whether the clip of an animation is built: it was asked for and has not been built, and both its
/// source and the bone defaults for it are there.
pub open spec fn builds(
    id: u64,
    loaded: Map<Seq<char>, u64>,
    built: Set<u64>,
    sources: Set<u64>,
    bones: Set<u64>,
) -> bool {
    is_asked_for(loaded, id) && !built.contains(id) && sources.contains(id) && bones.contains(id)
}

fn has_id(ids: &Vec<u64>, id: u64) -> (found: bool)
    ensures
        found == ids@.contains(id),
{
    let mut i: usize = 0;
    while i < ids.len()
        invariant
            i <= ids@.len(),
            forall|k: int| 0 <= k < i ==> ids@[k] != id,
        decreases ids@.len() - i,
    {
        if ids[i] == id {
            assert(ids@[i as int] == id);
            return true;
        }
        i = i + 1;
    }
    false
}

fn clips_to_build(
    loaded: &NameMap<u64>,
    built: &HashMap<u64, u64>,
    sources: &HashSet<u64>,
    bones: &HashSet<u64>,
) -> (build: Vec<u64>)
    requires
        loaded.wf(),
    ensures
        build@.no_duplicates(),
        forall|id: u64| #[trigger]
            build@.contains(id) <==> builds(id, loaded.view(), built@.dom(), sources@, bones@),
{
    let names = loaded.names();
    let mut build: Vec<u64> = Vec::new();
    let mut i: usize = 0;
    while i < names.len()
        invariant
            i <= names@.len(),
            loaded.wf(),
            forall|name: Seq<char>|
                loaded.view().dom().contains(name) <==> exists|k: int|
                    0 <= k < names@.len() && (#[trigger] names@[k])@ == name,
            build@.no_duplicates(),
            forall|id: u64| #[trigger]
                build@.contains(id) <==> (exists|k: int|
                    0 <= k < i && loaded.view()[(#[trigger] names@[k])@] == id)
                    && !built@.dom().contains(id) && sources@.contains(id) && bones@.contains(id),
        decreases names@.len() - i,
    {
        assert(names@[i as int]@ == names@[i as int]@);
        assert(loaded.view().dom().contains(names@[i as int]@));
        let ghost before = build@;
        if let Some(handle) = loaded.get(&names[i]) {
            let id: u64 = *handle;
            if !built.contains_key(&id) && sources.contains(&id) && bones.contains(&id) && !has_id(
                &build,
                id,
            ) {
                build.push(id);
            }
            proof {
                assert forall|x: u64| #[trigger] build@.contains(x) <==> (exists|k: int|
                    0 <= k < i + 1 && loaded.view()[(#[trigger] names@[k])@] == x)
                    && !built@.dom().contains(x) && sources@.contains(x) && bones@.contains(x) by {
                    if before.contains(x) {
                        let k = choose|k: int| 0 <= k < before.len() && before[k] == x;
                        assert(build@[k] == x);
                        let m = choose|m: int|
                            0 <= m < i && loaded.view()[(#[trigger] names@[m])@] == x;
                        assert(loaded.view()[names@[m]@] == x);
                    }
                    if build@.len() > before.len() {
                        assert(build@[before.len() as int] == id);
                    }
                    if build@.contains(x) && x != id {
                        let k = choose|k: int| 0 <= k < build@.len() && build@[k] == x;
                        assert(before[k] == x);
                    }
                    if x == id {
                        assert(loaded.view()[names@[i as int]@] == x);
                    }
                }
            }
        }
        i = i + 1;
    }
    proof {
        assert forall|id: u64| #[trigger] build@.contains(id) <==> builds(
            id,
            loaded.view(),
            built@.dom(),
            sources@,
            bones@,
        ) by {
            if exists|k: int| 0 <= k < i && loaded.view()[(#[trigger] names@[k])@] == id {
                let k = choose|k: int| 0 <= k < i && loaded.view()[(#[trigger] names@[k])@] == id;
                assert(loaded.view().dom().contains(names@[k]@));
            }
            if is_asked_for(loaded.view(), id) {
                let path = choose|path: Seq<char>| #[trigger]
                    loaded.view().dom().contains(path) && loaded.view()[path] == id;
                let k = choose|k: int| 0 <= k < names@.len() && (#[trigger] names@[k])@ == path;
                assert(loaded.view()[names@[k]@] == id);
            }
        }
    }
    build
}

/// Whether the clip of an animation that was modified is built again: it has been built, and both its
/// source and the bone defaults for it are there.
pub open spec fn rebuilds(
    id: u64,
    built: Set<u64>,
    build: Seq<u64>,
    sources: Set<u64>,
    bones: Set<u64>,
) -> bool {
    (built.contains(id) || build.contains(id)) && sources.contains(id) && bones.contains(id)
}

/// Finds the clips to build.
///
/// `built` holds the clips by animation, `sources` and `bones` the animations whose source and whose
/// bone defaults are there, and `modified` those that have changed, in the order in which they did.
pub fn build_animation_clips(
    loaded: &NameMap<u64>,
    built: &HashMap<u64, u64>,
    sources: &HashSet<u64>,
    bones: &HashSet<u64>,
    modified: &Vec<u64>,
) -> (work: ClipWork)
    requires
        loaded.wf(),
    ensures
        work.build@.no_duplicates(),
        forall|id: u64| #[trigger]
            work.build@.contains(id) <==> builds(id, loaded.view(), built@.dom(), sources@, bones@),
        work.rebuild@ == modified@.filter(
            |id: u64| rebuilds(id, built@.dom(), work.build@, sources@, bones@),
        ),
{
    let build = clips_to_build(loaded, built, sources, bones);
    let ghost pred = |id: u64| rebuilds(id, built@.dom(), build@, sources@, bones@);
    let mut rebuild: Vec<u64> = Vec::new();
    let mut i: usize = 0;
    proof {
        lemma_filter_empty(modified@.take(0), pred);
    }
    while i < modified.len()
        invariant
            i <= modified@.len(),
            pred == (|id: u64| rebuilds(id, built@.dom(), build@, sources@, bones@)),
            rebuild@ == modified@.take(i as int).filter(pred),
        decreases modified@.len() - i,
    {
        proof {
            lemma_filter_step(modified@, i as int, pred);
        }
        let id: u64 = modified[i];
        if (built.contains_key(&id) || has_id(&build, id)) && sources.contains(&id)
            && bones.contains(&id) {
            rebuild.push(id);
        }
        i = i + 1;
    }
    assert(modified@.take(i as int) =~= modified@);
    ClipWork { build, rebuild }
}

/// The animations of a set that are loaded, in the order of its clips. Gives the clip of each.
pub proof fn law_loaded_clips_are_the_sets_own(animset: &AnimSet, loaded: &NameMap<u64>) -> (at: Seq<
    int,
>)
    ensures
        at.len() == loaded_clips(animset, loaded).len(),
        picks(
            at,
            clip_paths(animset).len() as int,
            |i: int| loaded.view().dom().contains(clip_paths(animset)[i]@),
        ),
        forall|k: int|
            0 <= k < at.len() ==> loaded_clips(animset, loaded)[k] == loaded.view()[clip_paths(
                animset,
            )[#[trigger] at[k]]@],
{
    let paths = clip_paths(animset);
    let f = |path: String|
        if loaded.view().dom().contains(path@) {
            Some(loaded.view()[path@])
        } else {
            None
        };
    let at = lemma_filter_map_picks(paths, f);
    let a = |i: int| f(paths[i]) is Some;
    let b = |i: int| loaded.view().dom().contains(clip_paths(animset)[i]@);
    assert forall|i: int| 0 <= i < paths.len() implies #[trigger] a(i) == #[trigger] b(i) by {}
    lemma_picks_same(at, paths.len() as int, a, b);
    assert forall|k: int|
        #![trigger at[k]]
        0 <= k < at.len() implies f(paths[at[k]]) == Some(loaded_clips(animset, loaded)[k]) by {}
    at
}

/// A clip has the curves of every bone of the rig, in order, each from what the animation has for the
/// bone of that name: two keyframes make a curve. Where there are fewer, a bone holds its turn and its
/// place, and its scale is left alone.
pub proof fn law_bones_move_by_their_own_timeline(
    bones: Seq<BoneAnimDefault>,
    timelines: Map<Seq<char>, TimelineLengths>,
    i: int,
)
    requires
        0 <= i < bones.len(),
    ensures
        clip_curves(bones, timelines).len() == bones.len(),
        ({
            let curves = clip_curves(bones, timelines)[i];
            let name = bones[i].name@;
            let known = timelines.dom().contains(name);
            &&& curves.rotation == (if known && timelines[name].rotation >= 2 {
                CurveSource::Keyframes
            } else {
                CurveSource::Hold
            })
            &&& curves.translation == (if known && timelines[name].translation >= 2 {
                CurveSource::Keyframes
            } else {
                CurveSource::Hold
            })
            &&& curves.scale == (if known && timelines[name].scale >= 2 {
                CurveSource::Keyframes
            } else {
                CurveSource::Absent
            })
        }),
{
}

/// Events count from a share of one hundredth on.
pub proof fn law_events_count_from_a_hundredth()
    ensures
        event_weight() == Scalar(0x3c23_d70a),
{
}

/// A clip is built for the first time once some path leads to its animation and both its source and the
/// bone defaults for it are there, if it has not been.
pub proof fn law_clips_are_built_once(
    id: u64,
    loaded: Map<Seq<char>, u64>,
    built: Set<u64>,
    sources: Set<u64>,
    bones: Set<u64>,
)
    ensures
        builds(id, loaded, built, sources, bones) <==> !built.contains(id) && sources.contains(id)
            && bones.contains(id) && exists|path: Seq<char>| #[trigger]
            loaded.dom().contains(path) && loaded[path] == id,
{
}

/// Of the animations that have changed, those are built again that have been built or are being built
/// now and whose source and bone defaults are there, in order. Gives the place of each.
pub proof fn law_changed_clips_are_built_again(
    modified: Seq<u64>,
    built: Set<u64>,
    build: Seq<u64>,
    sources: Set<u64>,
    bones: Set<u64>,
) -> (at: Seq<int>)
    ensures
        ({
            let rebuild = modified.filter(|id: u64| rebuilds(id, built, build, sources, bones));
            &&& at.len() == rebuild.len()
            &&& picks(
                at,
                modified.len() as int,
                |i: int|
                    (built.contains(modified[i]) || build.contains(modified[i])) && sources.contains(
                        modified[i],
                    ) && bones.contains(modified[i]),
            )
            &&& forall|k: int| 0 <= k < at.len() ==> rebuild[k] == modified[#[trigger] at[k]]
        }),
{
    let pred = |id: u64| rebuilds(id, built, build, sources, bones);
    let at = lemma_filter_picks(modified, pred);
    let a = |i: int| pred(modified[i]);
    let b = |i: int|
        (built.contains(modified[i]) || build.contains(modified[i])) && sources.contains(modified[i])
            && bones.contains(modified[i]);
    assert forall|i: int| 0 <= i < modified.len() implies #[trigger] a(i) == #[trigger] b(i) by {}
    lemma_picks_same(at, modified.len() as int, a, b);
    at
}

} // verus!
