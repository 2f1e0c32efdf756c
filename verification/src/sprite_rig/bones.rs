//! The bones of a rig, in an order in which parents come before their children.
use crate::scalar::Scalar;
use vstd::prelude::*;

verus! {

/// A vector of two single-precision numbers.
#[derive(Clone, Copy, Debug, PartialEq, Eq, Structural)]
pub struct Vector2 {
    pub x: Scalar,
    pub y: Scalar,
}

/// A bone of a rig.
#[derive(Debug)]
pub struct BoneDef {
    pub name: String,
    pub parent: Option<String>,
    pub translation: Vector2,
}

/// Whether one of the bones at `placed` has the given name.
pub open spec fn names_placed(bones: Seq<BoneDef>, placed: Seq<usize>, name: Seq<char>) -> bool {
    exists|k: int|
        0 <= k < placed.len() && bones[#[trigger] placed[k] as int].name@ == name
}

/// Whether a bone can be placed: none of its name has been, and its parent, if it has one, has.
pub open spec fn is_ready(bones: Seq<BoneDef>, placed: Seq<usize>, i: int) -> bool {
    &&& !names_placed(bones, placed, bones[i].name@)
    &&& bones[i].parent matches Some(parent) ==> names_placed(bones, placed, parent@)
}

/// The bones placed when those from `i` on have been looked at in turn, and each that could be
/// placed has been.
pub open spec fn sweep(bones: Seq<BoneDef>, i: int, placed: Seq<usize>) -> Seq<usize>
    decreases bones.len() - i,
{
    if i < 0 || i >= bones.len() {
        placed
    } else if is_ready(bones, placed, i) {
        sweep(bones, i + 1, placed.push(i as usize))
    } else {
        sweep(bones, i + 1, placed)
    }
}

/// The bones placed after so many sweeps over all bones.
pub open spec fn placed_after(bones: Seq<BoneDef>, sweeps: nat) -> Seq<usize>
    decreases sweeps,
{
    if sweeps == 0 {
        Seq::empty()
    } else {
        sweep(bones, 0, placed_after(bones, (sweeps - 1) as nat))
    }
}

/// No two bones have one name.
pub open spec fn distinct_names(bones: Seq<BoneDef>) -> bool {
    forall|i: int, j: int|
        0 <= i < j < bones.len() ==> (#[trigger] bones[i]).name@ != (#[trigger] bones[j]).name@
}

/// Whether bone `j` is the parent of bone `i`.
pub open spec fn is_parent(bones: Seq<BoneDef>, i: int, j: int) -> bool {
    bones[i].parent matches Some(parent) && bones[j].name@ == parent@
}

/// Whether each bone that has a parent has it among the bones, at a lower rank.
pub open spec fn ranks(bones: Seq<BoneDef>, rank: spec_fn(int) -> nat) -> bool {
    forall|i: int|
        0 <= i < bones.len() && (#[trigger] bones[i]).parent is Some ==> exists|j: int|
            0 <= j < bones.len() && #[trigger] is_parent(bones, i, j) && rank(j) < rank(i)
}

/// Whether the bones form a hierarchy: names are distinct, parents are there, and no bone is its own
/// ancestor.
pub open spec fn is_hierarchy(bones: Seq<BoneDef>) -> bool {
    distinct_names(bones) && exists|rank: spec_fn(int) -> nat| ranks(bones, rank)
}

/// What holds of bones placed so far: they are bones, with distinct names, each after its parent.
pub open spec fn well_placed(bones: Seq<BoneDef>, placed: Seq<usize>) -> bool {
    &&& forall|k: int| 0 <= k < placed.len() ==> (#[trigger] placed[k]) < bones.len()
    &&& forall|a: int, b: int|
        0 <= a < b < placed.len() ==> bones[#[trigger] placed[a] as int].name@
            != bones[#[trigger] placed[b] as int].name@
    &&& forall|k: int|
        0 <= k < placed.len() && (bones[#[trigger] placed[k] as int]).parent is Some ==> exists|m: int|
            0 <= m < k && is_parent(bones, placed[k] as int, #[trigger] placed[m] as int)
}

proof fn lemma_push_well_placed(bones: Seq<BoneDef>, placed: Seq<usize>, i: int)
    requires
        well_placed(bones, placed),
        0 <= i < bones.len() <= usize::MAX,
        is_ready(bones, placed, i),
    ensures
        well_placed(bones, placed.push(i as usize)),
{
    let longer = placed.push(i as usize);
    assert forall|a: int, b: int| 0 <= a < b < longer.len() implies bones[#[trigger] longer[a] as int].name@
        != bones[#[trigger] longer[b] as int].name@ by {
        if b == placed.len() {
            assert(bones[placed[a] as int].name@ != bones[i].name@);
        }
    }
    assert forall|k: int|
        0 <= k < longer.len() && (bones[#[trigger] longer[k] as int]).parent is Some implies exists|m: int|
        0 <= m < k && is_parent(bones, longer[k] as int, #[trigger] longer[m] as int) by {
        if k < placed.len() {
            assert(longer[k] == placed[k]);
            let m = choose|m: int|
                0 <= m < k && is_parent(bones, placed[k] as int, #[trigger] placed[m] as int);
            assert(is_parent(bones, longer[k] as int, longer[m] as int));
        } else {
            let parent = bones[i].parent->0;
            let m = choose|m: int|
                0 <= m < placed.len() && bones[#[trigger] placed[m] as int].name@ == parent@;
            assert(is_parent(bones, longer[k] as int, longer[m] as int));
        }
    }
}

proof fn lemma_sweep_grows(bones: Seq<BoneDef>, i: int, placed: Seq<usize>)
    requires
        0 <= i,
    ensures
        sweep(bones, i, placed).len() >= placed.len(),
    decreases bones.len() - i,
{
    if i < bones.len() {
        if is_ready(bones, placed, i) {
            lemma_sweep_grows(bones, i + 1, placed.push(i as usize));
        } else {
            lemma_sweep_grows(bones, i + 1, placed);
        }
    }
}

/// A sweep that places nothing found nothing that could be placed.
proof fn lemma_idle_sweep(bones: Seq<BoneDef>, i: int, placed: Seq<usize>, k: int)
    requires
        0 <= i <= k < bones.len(),
        sweep(bones, i, placed).len() == placed.len(),
    ensures
        !is_ready(bones, placed, k),
    decreases bones.len() - i,
{
    if is_ready(bones, placed, i) {
        lemma_sweep_grows(bones, i + 1, placed.push(i as usize));
    } else if i < k {
        lemma_idle_sweep(bones, i + 1, placed, k);
    }
}

/// A sweep over bones that are all placed places nothing.
proof fn lemma_complete_sweep(bones: Seq<BoneDef>, i: int, placed: Seq<usize>)
    requires
        0 <= i,
        forall|k: int| 0 <= k < bones.len() ==> names_placed(bones, placed, (#[trigger] bones[k]).name@),
    ensures
        sweep(bones, i, placed) == placed,
    decreases bones.len() - i,
{
    if i < bones.len() {
        assert(names_placed(bones, placed, bones[i].name@));
        lemma_complete_sweep(bones, i + 1, placed);
    }
}

/// As many distinct bones as there are bones are all of them.
proof fn lemma_all_placed(bones: Seq<BoneDef>, placed: Seq<usize>)
    requires
        well_placed(bones, placed),
        placed.len() == bones.len(),
    ensures
        forall|i: int| 0 <= i < bones.len() ==> #[trigger] placed.contains(i as usize),
{
    lemma_placed_distinct(bones, placed);
    let all = vstd::set_lib::set_int_range(0, bones.len() as int);
    let indices = placed.map_values(|u: usize| u as int);
    assert(indices.no_duplicates()) by {
        assert forall|a: int, b: int| 0 <= a < b < indices.len() implies indices[a] != indices[b] by {
            assert(placed[a] != placed[b]);
        }
    }
    indices.unique_seq_to_set();
    vstd::set_lib::lemma_int_range(0, bones.len() as int);
    assert(indices.to_set().subset_of(all)) by {
        assert forall|x: int| indices.to_set().contains(x) implies all.contains(x) by {
            let k = choose|k: int| 0 <= k < indices.len() && indices[k] == x;
            assert(placed[k] < bones.len());
        }
    }
    vstd::set_lib::lemma_subset_equality(indices.to_set(), all);
    assert forall|i: int| 0 <= i < bones.len() implies #[trigger] placed.contains(i as usize) by {
        assert(all.contains(i));
        assert(indices.to_set().contains(i));
        let k = choose|k: int| 0 <= k < indices.len() && indices[k] == i;
        assert(placed[k] == i as usize);
    }
}

proof fn lemma_placed_distinct(bones: Seq<BoneDef>, placed: Seq<usize>)
    requires
        well_placed(bones, placed),
    ensures
        placed.no_duplicates(),
        placed.len() <= bones.len(),
{
    assert forall|a: int, b: int| 0 <= a < placed.len() && 0 <= b < placed.len() && a != b implies placed[a]
        != placed[b] by {
        if a < b {
            assert(bones[placed[a] as int].name@ != bones[placed[b] as int].name@);
        } else {
            assert(bones[placed[b] as int].name@ != bones[placed[a] as int].name@);
        }
    }
    let indices = placed.map_values(|u: usize| u as int);
    let all = vstd::set_lib::set_int_range(0, bones.len() as int);
    assert(indices.no_duplicates()) by {
        assert forall|a: int, b: int| 0 <= a < b < indices.len() implies indices[a] != indices[b] by {
            assert(placed[a] != placed[b]);
        }
    }
    indices.unique_seq_to_set();
    vstd::set_lib::lemma_int_range(0, bones.len() as int);
    assert(indices.to_set().subset_of(all)) by {
        assert forall|x: int| indices.to_set().contains(x) implies all.contains(x) by {
            let k = choose|k: int| 0 <= k < indices.len() && indices[k] == x;
            assert(placed[k] < bones.len());
        }
    }
    vstd::set_lib::lemma_len_subset(indices.to_set(), all);
}

/// Bones that are all placed, each after its parent, form a hierarchy.
proof fn lemma_placed_is_hierarchy(bones: Seq<BoneDef>, placed: Seq<usize>)
    requires
        well_placed(bones, placed),
        placed.len() == bones.len() <= usize::MAX,
    ensures
        is_hierarchy(bones),
{
    lemma_all_placed(bones, placed);
    let place = |i: int| choose|k: int| 0 <= k < placed.len() && placed[k] == i as usize;
    let rank = |i: int| place(i) as nat;
    assert forall|i: int| 0 <= i < bones.len() implies 0 <= #[trigger] place(i) < placed.len()
        && placed[place(i)] == i as usize by {
        assert(placed.contains(i as usize));
    }
    assert(distinct_names(bones)) by {
        assert forall|i: int, j: int| 0 <= i < j < bones.len() implies (#[trigger] bones[i]).name@
            != (#[trigger] bones[j]).name@ by {
            let a = place(i);
            let b = place(j);
            assert(placed[a] == i as usize && placed[b] == j as usize);
            if a < b {
                assert(bones[placed[a] as int].name@ != bones[placed[b] as int].name@);
            } else {
                assert(bones[placed[b] as int].name@ != bones[placed[a] as int].name@);
            }
        }
    }
    lemma_placed_distinct(bones, placed);
    assert(ranks(bones, rank)) by {
        assert forall|i: int| 0 <= i < bones.len() && (#[trigger] bones[i]).parent is Some implies exists|
            j: int,
        |
            0 <= j < bones.len() && #[trigger] is_parent(bones, i, j) && rank(j) < rank(i) by {
            let k = place(i);
            assert(placed[k] == i as usize);
            assert(bones[placed[k] as int].parent is Some);
            let m = choose|m: int|
                0 <= m < k && is_parent(bones, placed[k] as int, #[trigger] placed[m] as int);
            let j = placed[m] as int;
            assert(placed[m] < bones.len());
            assert(is_parent(bones, i, j));
            assert(placed[place(j)] == placed[m]);
            assert(place(j) == m);
        }
    }
}

/// In a hierarchy, where no bone can be placed any more, all are.
proof fn lemma_stuck_is_complete(
    bones: Seq<BoneDef>,
    placed: Seq<usize>,
    rank: spec_fn(int) -> nat,
    i: int,
)
    requires
        distinct_names(bones),
        ranks(bones, rank),
        well_placed(bones, placed),
        forall|k: int| 0 <= k < bones.len() ==> !#[trigger] is_ready(bones, placed, k),
        0 <= i < bones.len(),
    ensures
        names_placed(bones, placed, bones[i].name@),
    decreases rank(i),
{
    assert(!is_ready(bones, placed, i));
    if bones[i].parent is Some {
        let j = choose|j: int|
            0 <= j < bones.len() && #[trigger] is_parent(bones, i, j) && rank(j) < rank(i);
        lemma_stuck_is_complete(bones, placed, rank, j);
    }
}

/// Fewer placed bones than bones leave one that is not placed.
proof fn lemma_some_unplaced(bones: Seq<BoneDef>, placed: Seq<usize>) -> (i: int)
    requires
        well_placed(bones, placed),
        distinct_names(bones),
        placed.len() < bones.len() <= usize::MAX,
    ensures
        0 <= i < bones.len(),
        !names_placed(bones, placed, bones[i].name@),
{
    if forall|i: int| 0 <= i < bones.len() ==> names_placed(bones, placed, (#[trigger] bones[i]).name@) {
        let all = vstd::set_lib::set_int_range(0, bones.len() as int);
        let indices = placed.map_values(|u: usize| u as int);
        vstd::set_lib::lemma_int_range(0, bones.len() as int);
        indices.lemma_cardinality_of_set();
        assert(all.subset_of(indices.to_set())) by {
            assert forall|i: int| all.contains(i) implies indices.to_set().contains(i) by {
                assert(names_placed(bones, placed, bones[i].name@));
                let k = choose|k: int|
                    0 <= k < placed.len() && bones[#[trigger] placed[k] as int].name@
                        == bones[i].name@;
                assert(placed[k] < bones.len());
                assert(placed[k] as int == i);
                assert(indices[k] == i);
            }
        }
        vstd::set_lib::lemma_len_subset(all, indices.to_set());
        assert(false);
    }
    choose|i: int| 0 <= i < bones.len() && !names_placed(bones, placed, (#[trigger] bones[i]).name@)
}

/// Once all bones are placed, more sweeps change nothing.
proof fn lemma_sweeps_settle(bones: Seq<BoneDef>, few: nat, many: nat)
    requires
        few <= many,
        forall|k: int|
            0 <= k < bones.len() ==> names_placed(
                bones,
                placed_after(bones, few),
                (#[trigger] bones[k]).name@,
            ),
    ensures
        placed_after(bones, many) == placed_after(bones, few),
    decreases many - few,
{
    if few < many {
        lemma_sweeps_settle(bones, few, (many - 1) as nat);
        lemma_complete_sweep(bones, 0, placed_after(bones, few));
    }
}

fn is_name_placed(bones: &Vec<BoneDef>, placed: &Vec<usize>, name: &String) -> (found: bool)
    requires
        forall|k: int| 0 <= k < placed@.len() ==> (#[trigger] placed@[k]) < bones@.len(),
    ensures
        found == names_placed(bones@, placed@, name@),
{
    let mut k: usize = 0;
    while k < placed.len()
        invariant
            k <= placed@.len(),
            forall|m: int| 0 <= m < placed@.len() ==> (#[trigger] placed@[m]) < bones@.len(),
            forall|m: int| 0 <= m < k ==> bones@[#[trigger] placed@[m] as int].name@ != name@,
        decreases placed@.len() - k,
    {
        if bones[placed[k]].name == *name {
            assert(bones@[placed@[k as int] as int].name@ == name@);
            return true;
        }
        k = k + 1;
    }
    false
}

/// An order of the bones, by their places in `bones`, in which parents come before their children:
/// bones come in the order of `bones`, swept over as often as it takes. There is none if a parent is
/// missing, a bone is its own ancestor, or a name occurs twice.
pub fn topological_sort_bones(bones: &Vec<BoneDef>) -> (order: Option<Vec<usize>>)
    ensures
        order is Some <==> is_hierarchy(bones@),
        order matches Some(sorted) ==> {
            &&& sorted@ == placed_after(bones@, bones@.len())
            &&& sorted@.len() == bones@.len()
            &&& well_placed(bones@, sorted@)
        },
{
    let count: usize = bones.len();
    let mut placed: Vec<usize> = Vec::new();
    let ghost mut sweeps: nat = 0;
    while placed.len() < count
        invariant
            well_placed(bones@, placed@),
            placed@ == placed_after(bones@, sweeps),
            sweeps <= placed@.len(),
            placed@.len() <= bones@.len(),
            count == bones@.len(),
        decreases bones@.len() - placed@.len(),
    {
        let before: usize = placed.len();
        let ghost start = placed@;
        let mut i: usize = 0;
        while i < bones.len()
            invariant
                i <= bones@.len(),
                count == bones@.len(),
                well_placed(bones@, placed@),
                placed@.len() >= start.len(),
                sweep(bones@, 0, start) == sweep(bones@, i as int, placed@),
            decreases bones@.len() - i,
        {
            let bone = &bones[i];
            if !is_name_placed(bones, &placed, &bone.name) {
                let parent_placed = match &bone.parent {
                    Some(parent) => is_name_placed(bones, &placed, parent),
                    None => true,
                };
                if parent_placed {
                    proof {
                        lemma_push_well_placed(bones@, placed@, i as int);
                    }
                    placed.push(i);
                }
            }
            i = i + 1;
        }
        proof {
            lemma_placed_distinct(bones@, placed@);
            sweeps = sweeps + 1;
            assert(placed@ == sweep(bones@, 0, start));
        }
        if placed.len() == before {
            proof {
                lemma_idle_placed(bones@, start, placed@);
                if is_hierarchy(bones@) {
                    let rank = choose|rank: spec_fn(int) -> nat| ranks(bones@, rank);
                    let unplaced = lemma_some_unplaced(bones@, start);
                    assert forall|k: int| 0 <= k < bones@.len() implies !#[trigger] is_ready(
                        bones@,
                        start,
                        k,
                    ) by {
                        lemma_idle_sweep(bones@, 0, start, k);
                    }
                    lemma_stuck_is_complete(bones@, start, rank, unplaced);
                }
            }
            return None;
        }
    }
    proof {
        lemma_placed_is_hierarchy(bones@, placed@);
        lemma_all_placed(bones@, placed@);
        assert forall|k: int| 0 <= k < bones@.len() implies names_placed(
            bones@,
            placed@,
            (#[trigger] bones@[k]).name@,
        ) by {
            assert(placed@.contains(k as usize));
            let m = choose|m: int| 0 <= m < placed@.len() && placed@[m] == k as usize;
            assert(bones@[placed@[m] as int].name@ == bones@[k].name@);
        }
        lemma_sweeps_settle(bones@, sweeps, bones@.len());
    }
    Some(placed)
}

/// A sweep that leaves as many bones placed as there were leaves the same ones.
proof fn lemma_idle_placed(bones: Seq<BoneDef>, start: Seq<usize>, end: Seq<usize>)
    requires
        end == sweep(bones, 0, start),
        end.len() == start.len(),
        well_placed(bones, end),
    ensures
        well_placed(bones, start),
{
    lemma_sweep_prefix(bones, 0, start);
    assert(start =~= end);
}

proof fn lemma_sweep_prefix(bones: Seq<BoneDef>, i: int, placed: Seq<usize>)
    requires
        0 <= i,
    ensures
        sweep(bones, i, placed).len() >= placed.len(),
        sweep(bones, i, placed).take(placed.len() as int) == placed,
    decreases bones.len() - i,
{
    if i < bones.len() {
        if is_ready(bones, placed, i) {
            let longer = placed.push(i as usize);
            lemma_sweep_prefix(bones, i + 1, longer);
            let all = sweep(bones, i + 1, longer);
            assert(all.take(placed.len() as int) =~= all.take(longer.len() as int).take(
                placed.len() as int,
            ));
            assert(longer.take(placed.len() as int) =~= placed);
        } else {
            lemma_sweep_prefix(bones, i + 1, placed);
        }
    } else {
        assert(placed.take(placed.len() as int) =~= placed);
    }
}

/// Every bone has one place in the order.
pub proof fn law_order_is_complete(bones: Seq<BoneDef>, order: Seq<usize>, i: int)
    requires
        well_placed(bones, order),
        order.len() == bones.len(),
        0 <= i < bones.len(),
    ensures
        order.no_duplicates(),
        order.contains(i as usize),
{
    lemma_placed_distinct(bones, order);
    lemma_all_placed(bones, order);
    assert(order.contains(i as usize));
}

/// Bones that form a hierarchy have names of their own, and each that names a parent has it among them,
/// at a lower rank.
pub proof fn law_hierarchies_have_their_parents(bones: Seq<BoneDef>) -> (rank: spec_fn(int) -> nat)
    requires
        is_hierarchy(bones),
    ensures
        forall|i: int, j: int|
            0 <= i < bones.len() && 0 <= j < bones.len() && (#[trigger] bones[i]).name@ == (
            #[trigger] bones[j]).name@ ==> i == j,
        forall|i: int|
            0 <= i < bones.len() && (#[trigger] bones[i]).parent is Some ==> has_lower_parent(
                bones,
                rank,
                i,
            ),
{
    let rank = choose|rank: spec_fn(int) -> nat| ranks(bones, rank);
    assert forall|i: int| 0 <= i < bones.len() && (#[trigger] bones[i]).parent is Some implies has_lower_parent(
        bones,
        rank,
        i,
    ) by {
        let j = choose|j: int|
            0 <= j < bones.len() && #[trigger] is_parent(bones, i, j) && rank(j) < rank(i);
        assert(bones[j].name@ == (bones[i].parent->0)@);
    }
    rank
}

/// Whether a bone's parent is among the bones, at a lower rank.
pub open spec fn has_lower_parent(bones: Seq<BoneDef>, rank: spec_fn(int) -> nat, i: int) -> bool {
    exists|j: int|
        0 <= j < bones.len() && (#[trigger] bones[j]).name@ == (bones[i].parent->0)@ && rank(j)
            < rank(i)
}

/// Bones with names of their own form a hierarchy where each that names a parent has it among them, at a
/// lower rank.
pub proof fn law_ranked_bones_are_a_hierarchy(bones: Seq<BoneDef>, rank: spec_fn(int) -> nat)
    requires
        forall|i: int, j: int|
            0 <= i < bones.len() && 0 <= j < bones.len() && (#[trigger] bones[i]).name@ == (
            #[trigger] bones[j]).name@ ==> i == j,
        forall|i: int|
            0 <= i < bones.len() && (#[trigger] bones[i]).parent is Some ==> has_lower_parent(
                bones,
                rank,
                i,
            ),
    ensures
        is_hierarchy(bones),
{
    assert forall|i: int| 0 <= i < bones.len() && (#[trigger] bones[i]).parent is Some implies exists|
        j: int,
    | 0 <= j < bones.len() && #[trigger] is_parent(bones, i, j) && rank(j) < rank(i) by {
        assert(has_lower_parent(bones, rank, i));
        let j = choose|j: int|
            0 <= j < bones.len() && (#[trigger] bones[j]).name@ == (bones[i].parent->0)@ && rank(j)
                < rank(i);
        assert(is_parent(bones, i, j));
    }
    assert(ranks(bones, rank));
}

/// Bones come after the bone that they name as their parent.
pub proof fn law_parents_come_first(bones: Seq<BoneDef>, order: Seq<usize>, k: int)
    requires
        well_placed(bones, order),
        0 <= k < order.len(),
        bones[order[k] as int].parent is Some,
    ensures
        exists|m: int|
            0 <= m < k && bones[#[trigger] order[m] as int].name@ == (
            bones[order[k] as int].parent->0)@,
{
    let m = choose|m: int|
        0 <= m < k && is_parent(bones, order[k] as int, #[trigger] order[m] as int);
    assert(bones[order[m] as int].name@ == (bones[order[k] as int].parent->0)@);
}

/// Whether bone `p` is the parent of bone `m` and is among `placed`, or among `swept` and before `m`.
spec fn parent_has_come(
    bones: Seq<BoneDef>,
    placed: Seq<usize>,
    swept: Seq<usize>,
    m: int,
    p: int,
) -> bool {
    &&& 0 <= p < bones.len()
    &&& is_parent(bones, m, p)
    &&& placed.contains(p as usize) || swept.contains(p as usize) && p < m
}

/// Whether a bone's turn has come in a sweep that places `swept` after `placed`.
spec fn turn_has_come(bones: Seq<BoneDef>, placed: Seq<usize>, swept: Seq<usize>, m: int) -> bool {
    bones[m].parent is None || exists|p: int| #[trigger] parent_has_come(bones, placed, swept, m, p)
}

spec fn are_bones(bones: Seq<BoneDef>, placed: Seq<usize>) -> bool {
    forall|k: int| 0 <= k < placed.len() ==> (#[trigger] placed[k]) < bones.len()
}

proof fn lemma_name_placed(bones: Seq<BoneDef>, placed: Seq<usize>, m: int)
    requires
        distinct_names(bones),
        are_bones(bones, placed),
        0 <= m < bones.len() <= usize::MAX,
    ensures
        names_placed(bones, placed, bones[m].name@) <==> placed.contains(m as usize),
{
    if names_placed(bones, placed, bones[m].name@) {
        let k = choose|k: int|
            0 <= k < placed.len() && bones[#[trigger] placed[k] as int].name@ == bones[m].name@;
        if placed[k] < m {
            assert(bones[placed[k] as int].name@ != bones[m].name@);
        } else if placed[k] > m {
            assert(bones[m].name@ != bones[placed[k] as int].name@);
        }
        assert(placed[k] == m as usize);
    }
    if placed.contains(m as usize) {
        let k = choose|k: int| 0 <= k < placed.len() && placed[k] == m as usize;
        assert(bones[placed[k] as int].name@ == bones[m].name@);
    }
}

proof fn lemma_ready(bones: Seq<BoneDef>, placed: Seq<usize>, m: int)
    requires
        distinct_names(bones),
        are_bones(bones, placed),
        0 <= m < bones.len() <= usize::MAX,
    ensures
        is_ready(bones, placed, m) <==> !placed.contains(m as usize) && (bones[m].parent is None
            || exists|p: int|
            0 <= p < bones.len() && #[trigger] is_parent(bones, m, p) && placed.contains(
                p as usize,
            )),
{
    lemma_name_placed(bones, placed, m);
    if let Some(parent) = bones[m].parent {
        if names_placed(bones, placed, parent@) {
            let k = choose|k: int|
                0 <= k < placed.len() && bones[#[trigger] placed[k] as int].name@ == parent@;
            let p = placed[k] as int;
            assert(is_parent(bones, m, p));
            assert(placed.contains(p as usize));
        }
        if exists|p: int|
            0 <= p < bones.len() && #[trigger] is_parent(bones, m, p) && placed.contains(p as usize) {
            let p = choose|p: int|
                0 <= p < bones.len() && #[trigger] is_parent(bones, m, p) && placed.contains(
                    p as usize,
                );
            lemma_name_placed(bones, placed, p);
        }
    }
}

/// A sweep places, in order, the bones whose turn has come and that are not placed.
proof fn lemma_sweep_turns(bones: Seq<BoneDef>, i: int, placed: Seq<usize>)
    requires
        distinct_names(bones),
        bones.len() <= usize::MAX,
        are_bones(bones, placed),
        0 <= i <= bones.len(),
    ensures
        ({
            let swept = sweep(bones, i, placed);
            &&& swept.len() >= placed.len()
            &&& swept.take(placed.len() as int) == placed
            &&& are_bones(bones, swept)
            &&& forall|k: int|
                placed.len() <= k < swept.len() ==> (#[trigger] swept[k]) >= i && !placed.contains(
                    swept[k],
                )
            &&& forall|a: int, b: int|
                placed.len() <= a < b < swept.len() ==> (#[trigger] swept[a]) < (#[trigger] swept[b])
            &&& forall|m: int|
                i <= m < bones.len() ==> (#[trigger] swept.contains(m as usize) <==> placed.contains(
                    m as usize,
                ) || turn_has_come(bones, placed, swept, m))
        }),
    decreases bones.len() - i,
{
    let swept = sweep(bones, i, placed);
    if i == bones.len() {
        assert(swept.take(placed.len() as int) =~= placed);
    } else {
        lemma_ready(bones, placed, i);
        let longer = if is_ready(bones, placed, i) {
            placed.push(i as usize)
        } else {
            placed
        };
        assert(are_bones(bones, longer));
        lemma_sweep_turns(bones, i + 1, longer);
        assert(swept == sweep(bones, i + 1, longer));
        let n = placed.len() as int;
        assert(swept.take(n) =~= placed) by {
            assert(swept.take(n) =~= swept.take(longer.len() as int).take(n));
            assert(longer.take(n) =~= placed);
        }
        assert(forall|k: int| 0 <= k < longer.len() ==> swept[k] == longer[k]) by {
            assert forall|k: int| 0 <= k < longer.len() implies swept[k] == longer[k] by {
                assert(swept.take(longer.len() as int)[k] == longer[k]);
            }
        }
        assert forall|x: usize| longer.contains(x) <==> placed.contains(x) || longer.len() > n && x
            == i by {
            if placed.contains(x) {
                let k = choose|k: int| 0 <= k < placed.len() && placed[k] == x;
                assert(longer[k] == x);
            }
            if longer.len() > n {
                assert(longer[n] == i as usize);
            }
        }
        assert forall|k: int| n <= k < swept.len() implies (#[trigger] swept[k]) >= i
            && !placed.contains(swept[k]) by {
            if k < longer.len() {
                assert(swept[k] == longer[k]);
            } else {
                assert(!longer.contains(swept[k]));
            }
        }
        assert forall|a: int, b: int| n <= a < b < swept.len() implies (#[trigger] swept[a]) < (
        #[trigger] swept[b]) by {
            if a < longer.len() {
                assert(swept[a] == i as usize);
                assert(swept[b] >= i + 1);
            }
        }
        assert(swept.contains(i as usize) <==> longer.contains(i as usize)) by {
            if swept.contains(i as usize) {
                let k = choose|k: int| 0 <= k < swept.len() && swept[k] == i as usize;
                if k >= longer.len() {
                    assert(swept[k] >= i + 1);
                }
                assert(longer[k] == i as usize);
            }
            if longer.contains(i as usize) {
                let k = choose|k: int| 0 <= k < longer.len() && longer[k] == i as usize;
                assert(swept[k] == i as usize);
            }
        }
        assert forall|m: int| i <= m < bones.len() implies (#[trigger] swept.contains(m as usize)
            <==> placed.contains(m as usize) || turn_has_come(bones, placed, swept, m)) by {
            if m == i {
                if turn_has_come(bones, placed, swept, i) && bones[i].parent is Some {
                    let p = choose|p: int| #[trigger] parent_has_come(bones, placed, swept, i, p);
                    if !placed.contains(p as usize) {
                        let k = choose|k: int| 0 <= k < swept.len() && swept[k] == p as usize;
                        if k >= n {
                            assert(swept[k] >= i);
                        } else {
                            assert(swept[k] == placed[k]);
                        }
                    }
                    assert(is_parent(bones, i, p) && placed.contains(p as usize));
                }
                if is_ready(bones, placed, i) && bones[i].parent is Some {
                    let p = choose|p: int|
                        0 <= p < bones.len() && #[trigger] is_parent(bones, i, p)
                            && placed.contains(p as usize);
                    assert(parent_has_come(bones, placed, swept, i, p));
                }
            } else {
                if turn_has_come(bones, placed, swept, m) && bones[m].parent is Some {
                    let p = choose|p: int| #[trigger] parent_has_come(bones, placed, swept, m, p);
                    assert(parent_has_come(bones, longer, swept, m, p));
                }
                if turn_has_come(bones, longer, swept, m) && bones[m].parent is Some {
                    let p = choose|p: int| #[trigger] parent_has_come(bones, longer, swept, m, p);
                    if longer.contains(p as usize) && !placed.contains(p as usize) {
                        assert(p == i);
                    }
                    assert(parent_has_come(bones, placed, swept, m, p));
                }
                assert(longer.contains(m as usize) <==> placed.contains(m as usize));
            }
        }
    }
}

/// The sweep in which a bone is placed, among the first `s`.
spec fn turn_of(bones: Seq<BoneDef>, i: int, s: nat) -> nat
    decreases s,
{
    if s == 0 {
        0
    } else if placed_after(bones, (s - 1) as nat).contains(i as usize) {
        turn_of(bones, i, (s - 1) as nat)
    } else {
        s
    }
}

proof fn lemma_placed_are_bones(bones: Seq<BoneDef>, s: nat)
    requires
        distinct_names(bones),
        bones.len() <= usize::MAX,
    ensures
        are_bones(bones, placed_after(bones, s)),
    decreases s,
{
    if s > 0 {
        let fewer = (s - 1) as nat;
        lemma_placed_are_bones(bones, fewer);
        lemma_sweep_turns(bones, 0, placed_after(bones, fewer));
    }
}

proof fn lemma_placed_stays(bones: Seq<BoneDef>, s: nat, t: nat, x: usize)
    requires
        distinct_names(bones),
        bones.len() <= usize::MAX,
        s <= t,
        placed_after(bones, s).contains(x),
    ensures
        placed_after(bones, t).contains(x),
    decreases t,
{
    if s < t {
        let fewer = (t - 1) as nat;
        lemma_placed_stays(bones, s, fewer, x);
        let before = placed_after(bones, fewer);
        let after = placed_after(bones, t);
        lemma_placed_are_bones(bones, fewer);
        lemma_sweep_turns(bones, 0, before);
        let k = choose|k: int| 0 <= k < before.len() && before[k] == x;
        assert(after.take(before.len() as int)[k] == x);
        assert(after[k] == x);
    }
}

proof fn lemma_turn(bones: Seq<BoneDef>, i: int, s: nat)
    requires
        distinct_names(bones),
        bones.len() <= usize::MAX,
        placed_after(bones, s).contains(i as usize),
    ensures
        ({
            let t = turn_of(bones, i, s);
            &&& 1 <= t <= s
            &&& placed_after(bones, t).contains(i as usize)
            &&& !placed_after(bones, (t - 1) as nat).contains(i as usize)
        }),
    decreases s,
{
    if s > 0 && placed_after(bones, (s - 1) as nat).contains(i as usize) {
        lemma_turn(bones, i, (s - 1) as nat);
    }
}

/// A bone's turn is the first sweep after which it is placed.
proof fn lemma_turn_is_first(bones: Seq<BoneDef>, i: int, s: nat, t: nat)
    requires
        distinct_names(bones),
        bones.len() <= usize::MAX,
        placed_after(bones, s).contains(i as usize),
        placed_after(bones, t).contains(i as usize),
    ensures
        turn_of(bones, i, s) <= t,
{
    lemma_turn(bones, i, s);
    let first = turn_of(bones, i, s);
    if t < first {
        lemma_placed_stays(bones, t, (first - 1) as nat, i as usize);
    }
}

proof fn lemma_turns_are_in_order(bones: Seq<BoneDef>, s: nat, n: nat, a: int, b: int)
    requires
        distinct_names(bones),
        bones.len() <= usize::MAX,
        s <= n,
        0 <= a < b < placed_after(bones, s).len(),
    ensures
        ({
            let order = placed_after(bones, s);
            let first = turn_of(bones, order[a] as int, n);
            let second = turn_of(bones, order[b] as int, n);
            first < second || first == second && order[a] < order[b]
        }),
    decreases s,
{
    let fewer = (s - 1) as nat;
    let before = placed_after(bones, fewer);
    let order = placed_after(bones, s);
    let first = order[a] as int;
    let second = order[b] as int;
    lemma_placed_are_bones(bones, fewer);
    lemma_sweep_turns(bones, 0, before);
    assert(forall|k: int| 0 <= k < before.len() ==> order[k] == before[k]) by {
        assert forall|k: int| 0 <= k < before.len() implies order[k] == before[k] by {
            assert(order.take(before.len() as int)[k] == before[k]);
        }
    }
    if b < before.len() {
        lemma_turns_are_in_order(bones, fewer, n, a, b);
    } else {
        assert(order.contains(order[b]) && order.contains(order[a]));
        lemma_placed_stays(bones, s, n, order[b]);
        lemma_placed_stays(bones, s, n, order[a]);
        lemma_turn(bones, second, n);
        lemma_turn_is_first(bones, second, n, s);
        let late = turn_of(bones, second, n);
        assert(late == s) by {
            if late < s {
                lemma_placed_stays(bones, late, fewer, order[b]);
                assert(!before.contains(order[b]));
            }
        }
        if a < before.len() {
            assert(before.contains(before[a]));
            lemma_turn_is_first(bones, first, n, fewer);
        } else {
            lemma_turn_is_first(bones, first, n, s);
            assert(order[a] < order[b]);
        }
    }
}

/// The order of bones, exactly: they come sweep by sweep, and in each sweep in the order in which they
/// are listed. A bone without a parent comes in the first sweep, and one with a parent in its parent's
/// sweep if it is listed after the parent, and in the next one if before. Gives the sweep of each bone.
pub proof fn law_bones_come_sweep_by_sweep(bones: Seq<BoneDef>, order: Seq<usize>) -> (turns: Seq<nat>)
    requires
        is_hierarchy(bones),
        bones.len() <= usize::MAX,
        order == placed_after(bones, bones.len()),
        order.len() == bones.len(),
        well_placed(bones, order),
    ensures
        turns.len() == bones.len(),
        forall|i: int|
            0 <= i < bones.len() && (#[trigger] bones[i]).parent is None ==> turns[i] == 1,
        forall|i: int, p: int|
            0 <= i < bones.len() && 0 <= p < bones.len() && (#[trigger] bones[i]).parent is Some && (
            #[trigger] bones[p]).name@ == (bones[i].parent->0)@ ==> turns[i] == (if p < i {
                turns[p]
            } else {
                turns[p] + 1
            }),
        forall|a: int, b: int|
            0 <= a < b < order.len() ==> turns[#[trigger] order[a] as int]
                < turns[#[trigger] order[b] as int] || turns[order[a] as int]
                == turns[order[b] as int] && order[a] < order[b],
{
    let n = bones.len();
    let turns = Seq::new(n, |i: int| turn_of(bones, i, n));
    assert forall|i: int| 0 <= i < n implies order.contains(#[trigger] (i as usize)) by {
        law_order_is_complete(bones, order, i);
    }
    assert forall|i: int| 0 <= i < n && (#[trigger] bones[i]).parent is None implies turns[i] == 1 by {
        assert(order.contains(i as usize));
        lemma_turn(bones, i, n);
        lemma_sweep_turns(bones, 0, Seq::empty());
        let once = placed_after(bones, 1);
        assert(placed_after(bones, 0) == Seq::<usize>::empty());
        assert(once == sweep(bones, 0, Seq::empty()));
        assert(turn_has_come(bones, Seq::empty(), once, i));
        assert(once.contains(i as usize));
        lemma_turn_is_first(bones, i, n, 1);
    }
    assert forall|i: int, p: int|
        0 <= i < n && 0 <= p < n && (#[trigger] bones[i]).parent is Some && (
        #[trigger] bones[p]).name@ == (bones[i].parent->0)@ implies turns[i] == (if p < i {
        turns[p]
    } else {
        turns[p] + 1
    }) by {
        assert(order.contains(i as usize) && order.contains(p as usize));
        lemma_turn(bones, i, n);
        lemma_turn(bones, p, n);
        let mine = turn_of(bones, i, n);
        let theirs = turn_of(bones, p, n);
        let before = placed_after(bones, (mine - 1) as nat);
        let after = placed_after(bones, mine);
        lemma_placed_are_bones(bones, (mine - 1) as nat);
        lemma_sweep_turns(bones, 0, before);
        assert(after == sweep(bones, 0, before));
        assert(is_parent(bones, i, p));
        assert(after.contains(i as usize));
        assert(turn_has_come(bones, before, after, i));
        let q = choose|q: int| #[trigger] parent_has_come(bones, before, after, i, q);
        assert(q == p) by {
            if q < p {
                assert(bones[q].name@ != bones[p].name@);
            } else if p < q {
                assert(bones[p].name@ != bones[q].name@);
            }
        }
        if before.contains(p as usize) {
            lemma_turn_is_first(bones, p, n, (mine - 1) as nat);
        } else {
            lemma_turn_is_first(bones, p, n, mine);
        }
        if p < i {
            let earlier = placed_after(bones, (theirs - 1) as nat);
            let now = placed_after(bones, theirs);
            lemma_placed_are_bones(bones, (theirs - 1) as nat);
            lemma_sweep_turns(bones, 0, earlier);
            assert(parent_has_come(bones, earlier, now, i, p));
            assert(now.contains(i as usize));
            lemma_turn_is_first(bones, i, n, theirs);
        } else {
            let now = placed_after(bones, theirs);
            let later = placed_after(bones, (theirs + 1) as nat);
            lemma_placed_are_bones(bones, theirs);
            lemma_sweep_turns(bones, 0, now);
            assert(parent_has_come(bones, now, later, i, p));
            assert(later.contains(i as usize));
            lemma_turn_is_first(bones, i, n, (theirs + 1) as nat);
        }
    }
    assert forall|a: int, b: int| 0 <= a < b < order.len() implies turns[#[trigger] order[a] as int]
        < turns[#[trigger] order[b] as int] || turns[order[a] as int] == turns[order[b] as int]
        && order[a] < order[b] by {
        lemma_turns_are_in_order(bones, n, n, a, b);
    }
    turns
}

} // verus!
