//! The graph by which a character's clips are played.
use crate::ability::types::ActiveAbility;
use crate::entity::Entity;
use crate::names::NameMap;
use crate::ranking::{
    is_ranking, law_ranking_is_sorted_and_stable, lemma_ranking_covers, ranking, ranks_before,
};
use crate::scalar::Scalar;
use crate::seqs::{
    filter_map, lemma_filter_map_picks, lemma_filter_map_step, lemma_picks_same, picks,
};
use crate::sprite_rig::animation::{
    all_clips_built, clip_built, clip_paths, clips_ready, collect_animset_clip_paths,
    AbilityAnimation, AnimSet, LocomotionEntry,
};
use std::collections::HashMap;
use vstd::prelude::*;

verus! {

broadcast use vstd::std_specs::hash::group_hash_axioms;

/// The nodes of an animation graph, in the order in which they are made.
///
/// The first `blended` nodes are the locomotion clips, which are blended with each other, slowest
/// first; the others stand alone.
pub struct AnimGraphPlan {
    /// The handle of each node's clip.
    pub clips: Vec<u64>,
    pub blended: usize,
    /// The speed from which each locomotion clip plays.
    pub thresholds: Vec<Scalar>,
    /// The nodes by clip or ability.
    pub node_map: NameMap<usize>,
}

/// The speeds from which the locomotion clips of a set play.
pub open spec fn speed_thresholds(animset: &AnimSet) -> Seq<Scalar> {
    animset.locomotion@.map_values(|e: LocomotionEntry| e.speed_threshold)
}

/// A list whose first items are put into the given order; the others stay where they are.
pub open spec fn in_node_order<A>(items: Seq<A>, order: Seq<usize>) -> Seq<A> {
    Seq::new(
        items.len(),
        |i: int|
            if i < order.len() {
                items[order[i] as int]
            } else {
                items[i]
            },
    )
}

/// The name that each clip's node goes by: locomotion and hits by their clip, abilities by their id.
pub open spec fn node_keys(animset: &AnimSet) -> Seq<Seq<char>> {
    let locomotion = animset.locomotion@.map_values(|e: LocomotionEntry| e.clip@);
    let abilities = animset.ability_animations@.map_values(|a: AbilityAnimation| a.ability_id@);
    let hit = match animset.hit_react {
        Some(clip) => seq![clip@],
        None => Seq::empty(),
    };
    locomotion + abilities + hit
}

/// The place of each name in a list; of a name that occurs twice, the later place.
pub open spec fn last_places(keys: Seq<Seq<char>>) -> Map<Seq<char>, usize>
    decreases keys.len(),
{
    if keys.len() == 0 {
        Map::empty()
    } else {
        last_places(keys.drop_last()).insert(keys.last(), (keys.len() - 1) as usize)
    }
}

proof fn lemma_last_places(keys: Seq<Seq<char>>, i: int)
    requires
        0 <= i < keys.len() <= usize::MAX,
        forall|j: int| i < j < keys.len() ==> keys[j] != keys[i],
    ensures
        last_places(keys).dom().contains(keys[i]),
        last_places(keys)[keys[i]] == i,
    decreases keys.len(),
{
    if i < keys.len() - 1 {
        let init = keys.drop_last();
        assert(init[i] == keys[i]);
        assert forall|j: int| i < j < init.len() implies init[j] != init[i] by {
            assert(keys[j] != keys[i]);
        }
        lemma_last_places(init, i);
        assert(keys.last() == keys[keys.len() - 1]);
    }
}

/// The handle of the clip at a path that is loaded and built.
pub fn resolve_clip_handle(
    clip_path: &String,
    loaded: &NameMap<u64>,
    built: &HashMap<u64, u64>,
) -> (clip: u64)
    requires
        loaded.wf(),
        clip_built(clip_path@, loaded, built@),
    ensures
        clip == built@[loaded.view()[clip_path@]],
{
    match loaded.get(clip_path) {
        Some(handle) => match built.get(handle) {
            Some(clip) => *clip,
            None => vstd::pervasive::unreached(),
        },
        None => vstd::pervasive::unreached(),
    }
}

/// Whether `plan` is the graph of a set whose locomotion clips are taken in the given order.
pub open spec fn is_graph_in_order(
    plan: AnimGraphPlan,
    animset: &AnimSet,
    order: Seq<usize>,
    loaded: &NameMap<u64>,
    built: Map<u64, u64>,
) -> bool {
    &&& plan.node_map.wf()
    &&& plan.blended == animset.locomotion@.len()
    &&& plan.thresholds@ == in_node_order(speed_thresholds(animset), order)
    &&& plan.clips@ == in_node_order(clip_paths(animset), order).map_values(
        |path: String| built[loaded.view()[path@]],
    )
    &&& plan.node_map.view() == last_places(in_node_order(node_keys(animset), order))
}

/// Whether `plan` is the graph of a set: a node for each of its clips, by the names of the nodes. The
/// locomotion clips come first, in the order of the speeds from which they play; clips with the same
/// speed keep their order.
pub open spec fn is_graph_of(
    plan: AnimGraphPlan,
    animset: &AnimSet,
    loaded: &NameMap<u64>,
    built: Map<u64, u64>,
) -> bool {
    exists|order: Seq<usize>| #[trigger]
        is_ranking(order, speed_thresholds(animset)) && is_graph_in_order(
            plan,
            animset,
            order,
            loaded,
            built,
        )
}

/// The order in which the locomotion clips of a set become nodes.
fn locomotion_order(animset: &AnimSet) -> (order: Vec<usize>)
    ensures
        is_ranking(order@, speed_thresholds(animset)),
{
    let mut thresholds: Vec<Scalar> = Vec::new();
    let mut i: usize = 0;
    while i < animset.locomotion.len()
        invariant
            i <= animset.locomotion@.len(),
            thresholds@ == speed_thresholds(animset).take(i as int),
        decreases animset.locomotion@.len() - i,
    {
        thresholds.push(animset.locomotion[i].speed_threshold);
        i = i + 1;
        assert(thresholds@ =~= speed_thresholds(animset).take(i as int));
    }
    assert(thresholds@ =~= speed_thresholds(animset));
    ranking(&thresholds)
}

/// The nodes for a set whose clips are all built.
pub fn build_graph_for_animset(
    animset: &AnimSet,
    loaded: &NameMap<u64>,
    built: &HashMap<u64, u64>,
) -> (plan: AnimGraphPlan)
    requires
        loaded.wf(),
        clips_ready(animset, loaded, built@),
    ensures
        is_graph_of(plan, animset, loaded, built@),
{
    let paths: Vec<String> = collect_animset_clip_paths(animset);
    let order: Vec<usize> = locomotion_order(animset);
    let blended: usize = animset.locomotion.len();
    let mut clips: Vec<u64> = Vec::new();
    let mut thresholds: Vec<Scalar> = Vec::new();
    let mut node_map: NameMap<usize> = NameMap::new();
    let ghost keys = in_node_order(node_keys(animset), order@);
    let ghost speeds = in_node_order(speed_thresholds(animset), order@);
    let ghost handles = in_node_order(clip_paths(animset), order@).map_values(
        |path: String| built@[loaded.view()[path@]],
    );
    let mut i: usize = 0;
    assert(last_places(keys.take(0)) =~= Map::<Seq<char>, usize>::empty());
    while i < paths.len()
        invariant
            i <= paths@.len(),
            paths@ == clip_paths(animset),
            blended == animset.locomotion@.len() == order@.len() <= paths@.len(),
            is_ranking(order@, speed_thresholds(animset)),
            keys == in_node_order(node_keys(animset), order@),
            keys.len() == paths@.len(),
            speeds == in_node_order(speed_thresholds(animset), order@),
            speeds.len() == blended,
            handles == in_node_order(clip_paths(animset), order@).map_values(
                |path: String| built@[loaded.view()[path@]],
            ),
            loaded.wf(),
            clips_ready(animset, loaded, built@),
            node_map.wf(),
            clips@ == handles.take(i as int),
            thresholds@ == speeds.take(if i < blended {
                i as int
            } else {
                blended as int
            }),
            node_map.view() == last_places(keys.take(i as int)),
        decreases paths@.len() - i,
    {
        assert(keys.take(i + 1).drop_last() =~= keys.take(i as int));
        let from: usize = if i < blended {
            assert(order@[i as int] < speed_thresholds(animset).len());
            thresholds.push(animset.locomotion[order[i]].speed_threshold);
            assert(thresholds@ =~= speeds.take(i + 1));
            order[i]
        } else {
            i
        };
        clips.push(resolve_clip_handle(&paths[from], loaded, built));
        assert(clips@ =~= handles.take(i + 1));
        let ability: usize = if i >= blended {
            i - blended
        } else {
            0
        };
        if i >= blended && ability < animset.ability_animations.len() {
            node_map.insert(animset.ability_animations[ability].ability_id.clone(), i);
        } else {
            node_map.insert(paths[from].clone(), i);
        }
        i = i + 1;
    }
    assert(keys.take(i as int) =~= keys);
    assert(handles.take(i as int) =~= handles);
    assert(speeds.take(blended as int) =~= speeds);
    let plan = AnimGraphPlan { clips, blended, thresholds, node_map };
    assert(is_graph_in_order(plan, animset, order@, loaded, built@));
    plan
}

/// Whether a node plays a locomotion clip from the speed that the clip has.
pub open spec fn is_node_of(
    plan: AnimGraphPlan,
    node: int,
    entry: LocomotionEntry,
    loaded: &NameMap<u64>,
    built: Map<u64, u64>,
) -> bool {
    &&& 0 <= node < plan.blended
    &&& plan.thresholds@[node] == entry.speed_threshold
    &&& plan.clips@[node] == built[loaded.view()[entry.clip@]]
}

/// Whether a graph has a node for a locomotion clip.
pub open spec fn has_node_for(
    plan: AnimGraphPlan,
    entry: LocomotionEntry,
    loaded: &NameMap<u64>,
    built: Map<u64, u64>,
) -> bool {
    exists|node: int| is_node_of(plan, node, entry, loaded, built)
}

/// The locomotion clips of a graph are ordered by speed, and none is lost: there is a node for each
/// that the set has.
pub proof fn law_locomotion_is_ordered(
    plan: AnimGraphPlan,
    animset: &AnimSet,
    loaded: &NameMap<u64>,
    built: Map<u64, u64>,
)
    requires
        is_graph_of(plan, animset, loaded, built),
    ensures
        plan.thresholds@.len() == plan.blended == animset.locomotion@.len(),
        forall|i: int, j: int|
            0 <= i < j < plan.blended ==> (#[trigger] plan.thresholds@[i]).rank() <= (
            #[trigger] plan.thresholds@[j]).rank(),
        forall|k: int|
            0 <= k < animset.locomotion@.len() ==> has_node_for(
                plan,
                #[trigger] animset.locomotion@[k],
                loaded,
                built,
            ),
{
    let speeds = speed_thresholds(animset);
    let order = choose|order: Seq<usize>| #[trigger]
        is_ranking(order, speeds) && is_graph_in_order(plan, animset, order, loaded, built);
    assert forall|i: int, j: int| 0 <= i < j < plan.blended implies (
    #[trigger] plan.thresholds@[i]).rank() <= (#[trigger] plan.thresholds@[j]).rank() by {
        assert(ranks_before(speeds, order[i], order[j]));
    }
    assert forall|k: int| 0 <= k < animset.locomotion@.len() implies has_node_for(
        plan,
        #[trigger] animset.locomotion@[k],
        loaded,
        built,
    ) by {
        assert(k as usize == k) by {
            assert(animset.locomotion.len() == animset.locomotion@.len());
        }
        lemma_ranking_covers(order, speeds, k as usize);
        let node = choose|i: int| 0 <= i < order.len() && order[i] == k as usize;
        assert(plan.thresholds@[node] == speeds[k]);
        assert(clip_paths(animset)[k] == animset.locomotion@[k].clip);
        assert(is_node_of(plan, node, animset.locomotion@[k], loaded, built));
    }
}

/// Whether the graph of a set is built: it has not been, and the set and all of its clips are there.
pub open spec fn graph_due(
    id: u64,
    animset: Option<&AnimSet>,
    loaded: &NameMap<u64>,
    built: Map<u64, u64>,
    graphs: Map<u64, AnimGraphPlan>,
) -> bool {
    !graphs.dom().contains(id) && (animset matches Some(set) && clips_ready(set, loaded, built))
}

/// Builds the graph of the set `id`, once that can be done, and says whether it did.
pub fn build_anim_graphs(
    id: u64,
    animset: Option<&AnimSet>,
    loaded: &NameMap<u64>,
    built: &HashMap<u64, u64>,
    graphs: &mut HashMap<u64, AnimGraphPlan>,
) -> (made: bool)
    requires
        loaded.wf(),
    ensures
        made == graph_due(id, animset, loaded, built@, old(graphs)@),
        made ==> final(graphs)@ == old(graphs)@.insert(id, final(graphs)@[id]) && is_graph_of(
            final(graphs)@[id],
            animset->0,
            loaded,
            built@,
        ),
        !made ==> final(graphs)@ == old(graphs)@,
{
    if graphs.contains_key(&id) {
        return false;
    }
    match animset {
        Some(set) => {
            if !all_clips_built(set, loaded, built) {
                return false;
            }
            let plan = build_graph_for_animset(set, loaded, built);
            graphs.insert(id, plan);
            true
        },
        None => false,
    }
}

/// Whether each of the graphs knows its nodes.
pub open spec fn graphs_wf(graphs: Map<u64, AnimGraphPlan>) -> bool {
    forall|id: u64| #[trigger] graphs.dom().contains(id) ==> graphs[id].node_map.wf()
}

/// A character that plays the animation of an ability, and so is out of locomotion.
#[derive(Clone, Copy, Debug, PartialEq, Eq, Structural)]
pub struct AbilityClip {
    pub character: Entity,
    pub node: usize,
}

/// The animation that an ability plays: its caster is animated by a set, whose graph has a node for
/// the ability.
pub open spec fn ability_clip(
    ability: &ActiveAbility,
    characters: Map<u64, u64>,
    graphs: Map<u64, AnimGraphPlan>,
) -> Option<AbilityClip> {
    let bits = ability.caster.bits_spec();
    let key = ability.def_id.0@;
    if characters.dom().contains(bits) && graphs.dom().contains(characters[bits])
        && graphs[characters[bits]].node_map.view().dom().contains(key) {
        Some(
            AbilityClip {
                character: ability.caster,
                node: graphs[characters[bits]].node_map.view()[key],
            },
        )
    } else {
        None
    }
}

/// Starts the animations of new abilities.
///
/// `characters` holds the animation sets of the characters, by their bits.
pub fn trigger_ability_animations(
    added: &Vec<&ActiveAbility>,
    characters: &HashMap<u64, u64>,
    graphs: &HashMap<u64, AnimGraphPlan>,
) -> (plays: Vec<AbilityClip>)
    requires
        graphs_wf(graphs@),
    ensures
        plays@ == filter_map(
            added@,
            |ability: &ActiveAbility| ability_clip(ability, characters@, graphs@),
        ),
{
    let mut plays: Vec<AbilityClip> = Vec::new();
    let mut i: usize = 0;
    let ghost f = |ability: &ActiveAbility| ability_clip(ability, characters@, graphs@);
    assert(added@.take(0) =~= Seq::empty());
    while i < added.len()
        invariant
            i <= added@.len(),
            graphs_wf(graphs@),
            f == (|ability: &ActiveAbility| ability_clip(ability, characters@, graphs@)),
            plays@ == filter_map(added@.take(i as int), f),
        decreases added@.len() - i,
    {
        proof {
            lemma_filter_map_step(added@, i as int, f);
        }
        let ability: &ActiveAbility = added[i];
        if let Some(animset) = characters.get(&ability.caster.to_bits()) {
            if let Some(plan) = graphs.get(animset) {
                if let Some(node) = plan.node_map.get(&ability.def_id.0) {
                    plays.push(AbilityClip { character: ability.caster, node: *node });
                }
            }
        }
        i = i + 1;
    }
    assert(added@.take(i as int) =~= added@);
    plays
}

/// An ability plays its own clip: the node that its id leads to is the one made for that clip, unless
/// a later ability has the same id or the clip for hits goes by that name.
pub proof fn law_ability_plays_its_clip(animset: &AnimSet, order: Seq<usize>, i: int)
    requires
        is_ranking(order, speed_thresholds(animset)),
        0 <= i < animset.ability_animations@.len(),
        clip_paths(animset).len() <= usize::MAX,
        forall|j: int|
            i < j < animset.ability_animations@.len() ==> (
            #[trigger] animset.ability_animations@[j]).ability_id@
                != animset.ability_animations@[i].ability_id@,
        animset.hit_react is Some ==> animset.hit_react->0@
            != animset.ability_animations@[i].ability_id@,
    ensures
        ({
            let id = animset.ability_animations@[i].ability_id@;
            let places = last_places(in_node_order(node_keys(animset), order));
            places.dom().contains(id) && in_node_order(
                clip_paths(animset),
                order,
            )[places[id] as int] == animset.ability_animations@[i].clip
        }),
{
    let keys = in_node_order(node_keys(animset), order);
    let blended = animset.locomotion@.len();
    assert(keys[blended + i] == animset.ability_animations@[i].ability_id@);
    assert forall|j: int| blended + i < j < keys.len() implies #[trigger] keys[j] != keys[blended + i] by {
        if j < blended + animset.ability_animations@.len() {
            assert(keys[j] == animset.ability_animations@[j - blended].ability_id@);
        }
    }
    lemma_last_places(keys, blended + i);
}

proof fn lemma_places(keys: Seq<Seq<char>>, key: Seq<char>)
    ensures
        last_places(keys).dom().contains(key) ==> keys.contains(key),
    decreases keys.len(),
{
    if keys.len() > 0 && last_places(keys).dom().contains(key) {
        let init = keys.drop_last();
        if key == keys.last() {
            assert(keys[keys.len() - 1] == key);
        } else {
            lemma_places(init, key);
            let i = choose|i: int| 0 <= i < init.len() && init[i] == key;
            assert(keys[i] == key);
        }
    }
}

/// A graph has a node for each clip of its set. The locomotion clips come first, each node with the
/// speed of its clip, slower ones before faster ones and equally fast ones in their order. Then come
/// the clips of abilities in their order, and last the one for hits. Nodes are found by their names, in
/// that order. Gives the locomotion clip of each of the first nodes.
pub proof fn law_graph_has_a_node_for_each_clip(
    plan: AnimGraphPlan,
    animset: &AnimSet,
    loaded: &NameMap<u64>,
    built: Map<u64, u64>,
) -> (at: Seq<usize>)
    requires
        is_graph_of(plan, animset, loaded, built),
    ensures
        ({
            let n = animset.locomotion@.len() as int;
            let casting = animset.ability_animations@.len() as int;
            let clip_of = |path: Seq<char>| built[loaded.view()[path]];
            &&& plan.blended == n
            &&& plan.thresholds@.len() == n
            &&& at.len() == n
            &&& at.no_duplicates()
            &&& plan.clips@.len() == n + casting + (if animset.hit_react is Some {
                1int
            } else {
                0int
            })
            &&& forall|i: int|
                #![trigger at[i]]
                0 <= i < n ==> at[i] < n && plan.thresholds@[i]
                    == animset.locomotion@[at[i] as int].speed_threshold && plan.clips@[i] == clip_of(
                    animset.locomotion@[at[i] as int].clip@,
                )
            &&& forall|i: int, j: int|
                0 <= i < j < n ==> {
                    let slow = animset.locomotion@[#[trigger] at[i] as int].speed_threshold.rank();
                    let fast = animset.locomotion@[#[trigger] at[j] as int].speed_threshold.rank();
                    slow < fast || slow == fast && at[i] < at[j]
                }
            &&& forall|i: int|
                0 <= i < casting ==> plan.clips@[n + i] == clip_of(
                    (#[trigger] animset.ability_animations@[i]).clip@,
                )
            &&& animset.hit_react is Some ==> plan.clips@[n + casting] == clip_of(
                animset.hit_react->0@,
            )
            &&& plan.node_map.view() == last_places(in_node_order(node_keys(animset), at))
        }),
{
    let speeds = speed_thresholds(animset);
    let order = choose|order: Seq<usize>| #[trigger]
        is_ranking(order, speeds) && is_graph_in_order(plan, animset, order, loaded, built);
    let n = animset.locomotion@.len() as int;
    law_ranking_is_sorted_and_stable(order, speeds);
    let paths = clip_paths(animset);
    assert forall|i: int|
        #![trigger order[i]]
        0 <= i < n implies order[i] < n && plan.thresholds@[i]
        == animset.locomotion@[order[i] as int].speed_threshold && plan.clips@[i]
        == built[loaded.view()[animset.locomotion@[order[i] as int].clip@]] by {
        assert(paths[order[i] as int] == animset.locomotion@[order[i] as int].clip);
    }
    assert forall|i: int, j: int| 0 <= i < j < n implies {
        let slow = animset.locomotion@[#[trigger] order[i] as int].speed_threshold.rank();
        let fast = animset.locomotion@[#[trigger] order[j] as int].speed_threshold.rank();
        slow < fast || slow == fast && order[i] < order[j]
    } by {
        assert(ranks_before(speeds, order[i], order[j]));
    }
    order
}

/// The names that a list leads by: each name leads to the last place where it stands, and only the names
/// in the list lead anywhere.
pub proof fn law_names_lead_to_their_last_place(keys: Seq<Seq<char>>, key: Seq<char>)
    requires
        keys.len() <= usize::MAX,
    ensures
        forall|i: int|
            0 <= i < keys.len() && #[trigger] keys[i] == key && (forall|j: int|
                i < j < keys.len() ==> #[trigger] keys[j] != key) ==> last_places(
                keys,
            ).dom().contains(key) && last_places(keys)[key] == i,
        last_places(keys).dom().contains(key) ==> keys.contains(key),
{
    lemma_places(keys, key);
    assert forall|i: int|
        0 <= i < keys.len() && #[trigger] keys[i] == key && (forall|j: int|
            i < j < keys.len() ==> #[trigger] keys[j] != key) implies last_places(
        keys,
    ).dom().contains(key) && last_places(keys)[key] == i by {
        lemma_last_places(keys, i);
    }
}

/// A node goes by the clip of its locomotion entry, by the id of its ability, or by the clip for hits.
/// Putting a list into the order of nodes moves its first items only.
pub proof fn law_nodes_go_by_clip_or_ability(animset: &AnimSet, order: Seq<usize>)
    requires
        is_ranking(order, speed_thresholds(animset)),
    ensures
        ({
            let n = animset.locomotion@.len() as int;
            let casting = animset.ability_animations@.len() as int;
            let keys = in_node_order(node_keys(animset), order);
            &&& keys.len() == clip_paths(animset).len()
            &&& forall|i: int|
                #![trigger order[i]]
                0 <= i < n ==> keys[i] == animset.locomotion@[order[i] as int].clip@
            &&& forall|i: int|
                0 <= i < casting ==> keys[n + i] == (
                #[trigger] animset.ability_animations@[i]).ability_id@
            &&& animset.hit_react is Some ==> keys[n + casting] == animset.hit_react->0@
        }),
{
    let n = animset.locomotion@.len() as int;
    let keys = in_node_order(node_keys(animset), order);
    assert forall|i: int|
        #![trigger order[i]]
        0 <= i < n implies keys[i] == animset.locomotion@[order[i] as int].clip@ by {
        assert(order[i] < speed_thresholds(animset).len());
    }
}

/// A graph is built once: where the set has none, and the set and all of its clips are there.
pub proof fn law_graphs_are_built_once(
    id: u64,
    animset: &AnimSet,
    loaded: &NameMap<u64>,
    built: Map<u64, u64>,
    graphs: Map<u64, AnimGraphPlan>,
)
    ensures
        !graph_due(id, None, loaded, built, graphs),
        graph_due(id, Some(animset), loaded, built, graphs) <==> !graphs.dom().contains(id)
            && clips_ready(animset, loaded, built),
{
}

/// Whether the set that animates a caster has a graph with a node for the caster's ability.
pub open spec fn is_animated(
    ability: &ActiveAbility,
    characters: Map<u64, u64>,
    graphs: Map<u64, AnimGraphPlan>,
) -> bool {
    &&& characters.dom().contains(ability.caster.bits_spec())
    &&& graphs.dom().contains(characters[ability.caster.bits_spec()])
    &&& graphs[characters[ability.caster.bits_spec()]].node_map.view().dom().contains(
        (ability.def_id.0)@,
    )
}

/// Every new ability that has an animation plays it, in turn: its caster plays the node that the graph
/// of the caster's set has for the ability. Gives the ability of each.
pub proof fn law_abilities_play_on_their_caster(
    added: Seq<&ActiveAbility>,
    characters: Map<u64, u64>,
    graphs: Map<u64, AnimGraphPlan>,
) -> (at: Seq<int>)
    ensures
        ({
            let plays = filter_map(
                added,
                |ability: &ActiveAbility| ability_clip(ability, characters, graphs),
            );
            &&& at.len() == plays.len()
            &&& picks(
                at,
                added.len() as int,
                |i: int| is_animated(added[i], characters, graphs),
            )
            &&& forall|k: int|
                #![trigger at[k]]
                0 <= k < at.len() ==> plays[k].character == added[at[k]].caster && plays[k].node
                    == graphs[characters[added[at[k]].caster.bits_spec()]].node_map.view()[(
                added[at[k]].def_id.0)@]
        }),
{
    let f = |ability: &ActiveAbility| ability_clip(ability, characters, graphs);
    let at = lemma_filter_map_picks(added, f);
    let a = |i: int| f(added[i]) is Some;
    let b = |i: int| is_animated(added[i], characters, graphs);
    assert forall|i: int| 0 <= i < added.len() implies #[trigger] a(i) == #[trigger] b(i) by {}
    lemma_picks_same(at, added.len() as int, a, b);
    assert forall|k: int|
        #![trigger at[k]]
        0 <= k < at.len() implies f(added[at[k]]) == Some(filter_map(added, f)[k]) by {}
    at
}

} // verus!
