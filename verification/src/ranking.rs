//! Putting things into the order of a number that each of them has.
use crate::scalar::Scalar;
use vstd::prelude::*;

verus! {

/// Whether the thing at `a` comes before the one at `b`: its number is smaller, or it is the same and
/// the thing was first. What is not a number comes before or after all numbers, by its sign.
pub open spec fn ranks_before(keys: Seq<Scalar>, a: usize, b: usize) -> bool {
    keys[a as int].rank() < keys[b as int].rank() || (keys[a as int].rank() == keys[b as int].rank()
        && a < b)
}

/// Whether `order` lists the places of all things by their numbers, smallest first.
pub open spec fn is_ranking(order: Seq<usize>, keys: Seq<Scalar>) -> bool {
    &&& order.len() == keys.len()
    &&& forall|i: int| 0 <= i < order.len() ==> (#[trigger] order[i]) < keys.len()
    &&& forall|i: int, j: int|
        0 <= i < j < order.len() ==> ranks_before(keys, #[trigger] order[i], #[trigger] order[j])
}

/// The places of things by their numbers; things with the same number keep their order.
pub fn ranking(keys: &Vec<Scalar>) -> (order: Vec<usize>)
    ensures
        is_ranking(order@, keys@),
{
    let mut order: Vec<usize> = Vec::new();
    let mut i: usize = 0;
    while i < keys.len()
        invariant
            i <= keys@.len(),
            order@.len() == i,
            forall|a: int| 0 <= a < order@.len() ==> (#[trigger] order@[a]) < i,
            forall|a: int, b: int|
                0 <= a < b < order@.len() ==> ranks_before(
                    keys@,
                    #[trigger] order@[a],
                    #[trigger] order@[b],
                ),
        decreases keys@.len() - i,
    {
        let mut at: usize = order.len();
        while at > 0 && keys[i].ranks_below(keys[order[at - 1]])
            invariant
                i < keys@.len(),
                at <= order@.len() == i,
                forall|a: int| 0 <= a < order@.len() ==> (#[trigger] order@[a]) < i,
                forall|a: int|
                    at <= a < order@.len() ==> ranks_before(keys@, i, #[trigger] order@[a]),
            decreases at,
        {
            at = at - 1;
        }
        let ghost before = order@;
        order.insert(at, i);
        proof {
            if at > 0 {
                assert(ranks_before(keys@, before[at - 1], i));
            }
            assert forall|a: int| 0 <= a < at implies ranks_before(
                keys@,
                #[trigger] before[a],
                i,
            ) by {
                if a < at - 1 {
                    assert(ranks_before(keys@, before[a], before[at - 1]));
                }
            }
            assert forall|a: int, b: int| 0 <= a < b < order@.len() implies ranks_before(
                keys@,
                #[trigger] order@[a],
                #[trigger] order@[b],
            ) by {
                let old_a = if a < at {
                    a
                } else {
                    a - 1
                };
                let old_b = if b < at {
                    b
                } else {
                    b - 1
                };
                if a != at {
                    assert(order@[a] == before[old_a]);
                }
                if b != at {
                    assert(order@[b] == before[old_b]);
                }
            }
        }
        i = i + 1;
    }
    order
}

/// A ranking has every place.
pub proof fn lemma_ranking_covers(order: Seq<usize>, keys: Seq<Scalar>, x: usize)
    requires
        is_ranking(order, keys),
        x < keys.len(),
    ensures
        order.contains(x),
{
    let all = vstd::set_lib::set_int_range(0, keys.len() as int);
    let indices = order.map_values(|u: usize| u as int);
    assert(indices.no_duplicates()) by {
        assert forall|i: int, j: int| 0 <= i < j < indices.len() implies indices[i] != indices[j] by {
            assert(ranks_before(keys, order[i], order[j]));
        }
    }
    indices.unique_seq_to_set();
    vstd::set_lib::lemma_int_range(0, keys.len() as int);
    assert(indices.to_set().subset_of(all)) by {
        assert forall|y: int| indices.to_set().contains(y) implies all.contains(y) by {
            let k = choose|k: int| 0 <= k < indices.len() && indices[k] == y;
            assert(order[k] < keys.len());
        }
    }
    vstd::set_lib::lemma_subset_equality(indices.to_set(), all);
    assert(all.contains(x as int));
    let k = choose|k: int| 0 <= k < indices.len() && indices[k] == x as int;
    assert(order[k] == x);
}

proof fn lemma_rankings_agree(a: Seq<usize>, b: Seq<usize>, keys: Seq<Scalar>, n: int)
    requires
        is_ranking(a, keys),
        is_ranking(b, keys),
        0 <= n <= a.len(),
    ensures
        forall|i: int| 0 <= i < n ==> #[trigger] a[i] == b[i],
    decreases n,
{
    if n > 0 {
        lemma_rankings_agree(a, b, keys, n - 1);
        let k = n - 1;
        if a[k] != b[k] {
            assert(a[k] < keys.len() && b[k] < keys.len());
            lemma_ranking_covers(b, keys, a[k]);
            lemma_ranking_covers(a, keys, b[k]);
            let p = choose|p: int| 0 <= p < b.len() && b[p] == a[k];
            let q = choose|q: int| 0 <= q < a.len() && a[q] == b[k];
            if p < k {
                assert(a[p] == b[p]);
                assert(ranks_before(keys, a[p], a[k]));
            }
            if q < k {
                assert(a[q] == b[q]);
                assert(ranks_before(keys, b[q], b[k]));
            }
            assert(p > k && q > k);
            assert(ranks_before(keys, b[k], b[p]));
            assert(ranks_before(keys, a[k], a[q]));
        }
    }
}

/// Things have one ranking.
pub proof fn law_ranking_is_unique(a: Seq<usize>, b: Seq<usize>, keys: Seq<Scalar>)
    requires
        is_ranking(a, keys),
        is_ranking(b, keys),
    ensures
        a == b,
{
    lemma_rankings_agree(a, b, keys, a.len() as int);
    assert(a =~= b);
}

/// A ranking puts smaller numbers first, and of equal ones the one that was first, and has every place
/// once.
pub proof fn law_ranking_is_sorted_and_stable(order: Seq<usize>, keys: Seq<Scalar>)
    requires
        is_ranking(order, keys),
    ensures
        order.len() == keys.len(),
        order.no_duplicates(),
        forall|x: usize| x < keys.len() ==> order.contains(x),
        forall|i: int, j: int|
            0 <= i < j < order.len() ==> keys[#[trigger] order[i] as int].rank()
                <= keys[#[trigger] order[j] as int].rank() && (keys[order[i] as int].rank()
                == keys[order[j] as int].rank() ==> order[i] < order[j]),
{
    assert forall|i: int, j: int|
        0 <= i < j < order.len() implies keys[#[trigger] order[i] as int].rank()
        <= keys[#[trigger] order[j] as int].rank() && (keys[order[i] as int].rank()
        == keys[order[j] as int].rank() ==> order[i] < order[j]) by {
        assert(ranks_before(keys, order[i], order[j]));
    }
    assert forall|x: usize| x < keys.len() implies order.contains(x) by {
        lemma_ranking_covers(order, keys, x);
    }
}

} // verus!
