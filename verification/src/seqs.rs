//! Sequences built from other sequences, element by element.
use vstd::prelude::*;

verus! {

/// What `f` gives for the elements of `s`, where it gives something, in order.
pub open spec fn filter_map<A, B>(s: Seq<A>, f: spec_fn(A) -> Option<B>) -> Seq<B>
    decreases s.len(),
{
    if s.len() == 0 {
        Seq::empty()
    } else {
        let init = filter_map(s.drop_last(), f);
        match f(s.last()) {
            Some(b) => init.push(b),
            None => init,
        }
    }
}

/// The sequences that `f` gives for the elements of `s`, one after the other.
pub open spec fn flat_map<A, B>(s: Seq<A>, f: spec_fn(A) -> Seq<B>) -> Seq<B>
    decreases s.len(),
{
    if s.len() == 0 {
        Seq::empty()
    } else {
        flat_map(s.drop_last(), f) + f(s.last())
    }
}

/// One more element of `s` gives what `f` gives for it.
pub proof fn lemma_filter_map_step<A, B>(s: Seq<A>, i: int, f: spec_fn(A) -> Option<B>)
    requires
        0 <= i < s.len(),
    ensures
        filter_map(s.take(i + 1), f) == (match f(s[i]) {
            Some(b) => filter_map(s.take(i), f).push(b),
            None => filter_map(s.take(i), f),
        }),
{
    assert(s.take(i + 1).drop_last() =~= s.take(i));
}

/// One more element of `s` adds the sequence that `f` gives for it.
pub proof fn lemma_flat_map_step<A, B>(s: Seq<A>, i: int, f: spec_fn(A) -> Seq<B>)
    requires
        0 <= i < s.len(),
    ensures
        flat_map(s.take(i + 1), f) == flat_map(s.take(i), f) + f(s[i]),
{
    assert(s.take(i + 1).drop_last() =~= s.take(i));
}

/// One more element of `s` is kept if it meets `pred`.
pub proof fn lemma_filter_step<A>(s: Seq<A>, i: int, pred: spec_fn(A) -> bool)
    requires
        0 <= i < s.len(),
    ensures
        s.take(i + 1).filter(pred) == (if pred(s[i]) {
            s.take(i).filter(pred).push(s[i])
        } else {
            s.take(i).filter(pred)
        }),
{
    reveal(Seq::filter);
    assert(s.take(i + 1).drop_last() =~= s.take(i));
}

/// Filtering nothing gives nothing.
pub proof fn lemma_filter_empty<A>(s: Seq<A>, pred: spec_fn(A) -> bool)
    requires
        s.len() == 0,
    ensures
        s.filter(pred) == Seq::<A>::empty(),
{
    reveal(Seq::filter);
    assert(s.filter(pred) =~= Seq::<A>::empty());
}

/// Each element of the result comes from an element of `s`.
pub proof fn lemma_filter_map_source<A, B>(s: Seq<A>, f: spec_fn(A) -> Option<B>, k: int)
    requires
        0 <= k < filter_map(s, f).len(),
    ensures
        exists|i: int| 0 <= i < s.len() && f(#[trigger] s[i]) == Some(filter_map(s, f)[k]),
    decreases s.len(),
{
    let init = filter_map(s.drop_last(), f);
    if k < init.len() {
        lemma_filter_map_source(s.drop_last(), f, k);
        let i = choose|i: int|
            0 <= i < s.drop_last().len() && f(#[trigger] s.drop_last()[i]) == Some(init[k]);
        assert(s[i] == s.drop_last()[i]);
    } else {
        assert(f(s[s.len() - 1]) == Some(filter_map(s, f)[k]));
    }
}

/// Each element of the result comes from the sequence of some element of `s`.
pub proof fn lemma_flat_map_source<A, B>(s: Seq<A>, f: spec_fn(A) -> Seq<B>, k: int)
    requires
        0 <= k < flat_map(s, f).len(),
    ensures
        exists|i: int| 0 <= i < s.len() && f(#[trigger] s[i]).contains(flat_map(s, f)[k]),
    decreases s.len(),
{
    let init = flat_map(s.drop_last(), f);
    if k < init.len() {
        lemma_flat_map_source(s.drop_last(), f, k);
        let i = choose|i: int|
            0 <= i < s.drop_last().len() && f(#[trigger] s.drop_last()[i]).contains(init[k]);
        assert(s[i] == s.drop_last()[i]);
    } else {
        let tail = f(s.last());
        assert(tail[k - init.len()] == flat_map(s, f)[k]);
        assert(f(s[s.len() - 1]).contains(flat_map(s, f)[k]));
    }
}

/// The elements that the sequence of `s[i]` holds are in the result.
pub proof fn lemma_flat_map_holds<A, B>(s: Seq<A>, f: spec_fn(A) -> Seq<B>, i: int, b: B)
    requires
        0 <= i < s.len(),
        f(s[i]).contains(b),
    ensures
        flat_map(s, f).contains(b),
    decreases s.len(),
{
    let init = flat_map(s.drop_last(), f);
    if i < s.len() - 1 {
        assert(s.drop_last()[i] == s[i]);
        lemma_flat_map_holds(s.drop_last(), f, i, b);
        let k = choose|k: int| 0 <= k < init.len() && init[k] == b;
        assert(flat_map(s, f)[k] == b);
    } else {
        let own = f(s[i]);
        let k = choose|k: int| 0 <= k < own.len() && own[k] == b;
        assert(flat_map(s, f)[init.len() + k] == b);
    }
}

/// The elements of a list that are not in `known`, each where it comes first.
pub open spec fn unknown<A>(wanted: Seq<A>, known: Set<A>) -> Seq<A>
    decreases wanted.len(),
{
    if wanted.len() == 0 {
        Seq::empty()
    } else {
        let init = unknown(wanted.drop_last(), known);
        if known.contains(wanted.last()) || init.contains(wanted.last()) {
            init
        } else {
            init.push(wanted.last())
        }
    }
}

/// What is unknown is listed once.
pub proof fn lemma_unknown<A>(wanted: Seq<A>, known: Set<A>)
    ensures
        unknown(wanted, known).no_duplicates(),
        forall|a: A| #[trigger]
            unknown(wanted, known).contains(a) <==> wanted.contains(a) && !known.contains(a),
    decreases wanted.len(),
{
    if wanted.len() > 0 {
        let init = wanted.drop_last();
        let last = wanted.last();
        lemma_unknown(init, known);
        let before = unknown(init, known);
        let after = unknown(wanted, known);
        assert(wanted =~= init.push(last));
        assert forall|a: A| #[trigger] after.contains(a) <==> wanted.contains(a) && !known.contains(
            a,
        ) by {
            if wanted.contains(a) && a != last {
                let k = choose|k: int| 0 <= k < wanted.len() && wanted[k] == a;
                assert(init[k] == a);
            }
            if init.contains(a) {
                let k = choose|k: int| 0 <= k < init.len() && init[k] == a;
                assert(wanted[k] == a);
            }
            assert(wanted[wanted.len() - 1] == last);
            if before.contains(a) {
                let k = choose|k: int| 0 <= k < before.len() && before[k] == a;
                assert(after[k] == a);
            }
            if after.len() > before.len() {
                assert(after[before.len() as int] == last);
            }
            if after.contains(a) && a != last {
                let k = choose|k: int| 0 <= k < after.len() && after[k] == a;
                assert(before[k] == a);
            }
        }
    }
}

/// Whether `at` lists the numbers below `n` that are `chosen`, in order.
pub open spec fn picks(at: Seq<int>, n: int, chosen: spec_fn(int) -> bool) -> bool {
    &&& forall|k: int| 0 <= k < at.len() ==> 0 <= #[trigger] at[k] < n && chosen(at[k])
    &&& forall|j: int, k: int| 0 <= j < k < at.len() ==> #[trigger] at[j] < #[trigger] at[k]
    &&& forall|i: int| 0 <= i < n && #[trigger] chosen(i) ==> at.contains(i)
}

/// The same numbers are chosen by conditions that agree on them.
pub proof fn lemma_picks_same(
    at: Seq<int>,
    n: int,
    chosen: spec_fn(int) -> bool,
    other: spec_fn(int) -> bool,
)
    requires
        picks(at, n, chosen),
        forall|i: int| 0 <= i < n ==> #[trigger] chosen(i) == #[trigger] other(i),
    ensures
        picks(at, n, other),
{
    assert forall|i: int| 0 <= i < n && #[trigger] other(i) implies at.contains(i) by {
        assert(chosen(i) == other(i));
    }
    assert forall|k: int| 0 <= k < at.len() implies 0 <= #[trigger] at[k] < n && other(at[k]) by {
        assert(chosen(at[k]) == other(at[k]));
    }
}

/// Whether `starts` cuts a list of `total` elements into `n` pieces, one after the other: the piece
/// `i` goes from `starts[i]` to `starts[i + 1]`.
pub open spec fn cuts(starts: Seq<int>, n: int, total: int) -> bool {
    &&& starts.len() == n + 1
    &&& starts[0] == 0
    &&& starts[n] == total
    &&& forall|i: int, j: int| 0 <= i <= j <= n ==> #[trigger] starts[i] <= #[trigger] starts[j]
}

/// The result is made of the elements for which `f` gives something, in order.
pub proof fn lemma_filter_map_picks<A, B>(s: Seq<A>, f: spec_fn(A) -> Option<B>) -> (at: Seq<int>)
    ensures
        at.len() == filter_map(s, f).len(),
        picks(at, s.len() as int, |i: int| f(s[i]) is Some),
        forall|k: int|
            0 <= k < at.len() ==> f(s[#[trigger] at[k]]) == Some(filter_map(s, f)[k]),
    decreases s.len(),
{
    let chosen = |i: int| f(s[i]) is Some;
    if s.len() == 0 {
        let at = Seq::<int>::empty();
        assert(picks(at, s.len() as int, chosen));
        at
    } else {
        let init = s.drop_last();
        let last = s.len() - 1;
        let before = lemma_filter_map_picks(init, f);
        assert forall|k: int| 0 <= k < before.len() implies f(s[#[trigger] before[k]]) == Some(
            filter_map(init, f)[k],
        ) && before[k] < last by {
            assert(init[before[k]] == s[before[k]]);
        }
        let at = if f(s.last()) is Some {
            before.push(last)
        } else {
            before
        };
        assert forall|i: int| 0 <= i < s.len() && #[trigger] chosen(i) implies at.contains(i) by {
            if i < last {
                let earlier = |i: int| f(init[i]) is Some;
                assert(earlier(i));
                let k = choose|k: int| 0 <= k < before.len() && before[k] == i;
                assert(at[k] == i);
            } else {
                assert(at[before.len() as int] == i);
            }
        }
        assert(picks(at, s.len() as int, chosen));
        at
    }
}

/// The elements that meet `pred`, in order.
pub proof fn lemma_filter_picks<A>(s: Seq<A>, pred: spec_fn(A) -> bool) -> (at: Seq<int>)
    ensures
        at.len() == s.filter(pred).len(),
        picks(at, s.len() as int, |i: int| pred(s[i])),
        forall|k: int| 0 <= k < at.len() ==> s[#[trigger] at[k]] == s.filter(pred)[k],
    decreases s.len(),
{
    reveal(Seq::filter);
    let chosen = |i: int| pred(s[i]);
    if s.len() == 0 {
        let at = Seq::<int>::empty();
        assert(picks(at, s.len() as int, chosen));
        at
    } else {
        let init = s.drop_last();
        let last = s.len() - 1;
        let before = lemma_filter_picks(init, pred);
        assert forall|k: int| 0 <= k < before.len() implies s[#[trigger] before[k]] == init.filter(
            pred,
        )[k] && before[k] < last by {
            assert(init[before[k]] == s[before[k]]);
        }
        let at = if pred(s.last()) {
            before.push(last)
        } else {
            before
        };
        assert forall|i: int| 0 <= i < s.len() && #[trigger] chosen(i) implies at.contains(i) by {
            if i < last {
                let earlier = |i: int| pred(init[i]);
                assert(earlier(i));
                let k = choose|k: int| 0 <= k < before.len() && before[k] == i;
                assert(at[k] == i);
            } else {
                assert(at[before.len() as int] == i);
            }
        }
        assert(picks(at, s.len() as int, chosen));
        at
    }
}

/// The result is made of the sequences of the elements, one after the other.
pub proof fn lemma_flat_map_cuts<A, B>(s: Seq<A>, f: spec_fn(A) -> Seq<B>) -> (starts: Seq<int>)
    ensures
        cuts(starts, s.len() as int, flat_map(s, f).len() as int),
        forall|i: int|
            0 <= i < s.len() ==> f(#[trigger] s[i]) == flat_map(s, f).subrange(
                starts[i],
                starts[i + 1],
            ),
    decreases s.len(),
{
    if s.len() == 0 {
        seq![0int]
    } else {
        let init = s.drop_last();
        let n = init.len() as int;
        let before = lemma_flat_map_cuts(init, f);
        let whole = flat_map(s, f);
        let part = flat_map(init, f);
        let starts = before.push(whole.len() as int);
        assert(whole == part + f(s.last()));
        assert forall|i: int| 0 <= i < s.len() implies f(#[trigger] s[i]) == whole.subrange(
            starts[i],
            starts[i + 1],
        ) by {
            if i < n {
                assert(init[i] == s[i]);
                assert(starts[i] == before[i] && starts[i + 1] == before[i + 1]);
                assert(f(init[i]) == part.subrange(before[i], before[i + 1]));
                assert(before[i] <= before[i + 1]);
                assert(before[0] <= before[i] && before[i + 1] <= before[n]);
                assert(whole.subrange(starts[i], starts[i + 1]) =~= part.subrange(
                    before[i],
                    before[i + 1],
                ));
            } else {
                assert(starts[n] == before[n]);
                assert(whole.subrange(starts[n], starts[n + 1]) =~= f(s.last()));
            }
        }
        assert forall|i: int, j: int| 0 <= i <= j <= n + 1 implies #[trigger] starts[i]
            <= #[trigger] starts[j] by {
            if j <= n {
                assert(before[i] <= before[j]);
            } else if i <= n {
                assert(before[i] <= before[n]);
            }
        }
        starts
    }
}

proof fn lemma_picks_agree(a: Seq<int>, b: Seq<int>, n: int, chosen: spec_fn(int) -> bool, k: int)
    requires
        picks(a, n, chosen),
        picks(b, n, chosen),
        0 <= k <= a.len(),
    ensures
        k <= b.len(),
        forall|j: int| 0 <= j < k ==> #[trigger] a[j] == b[j],
    decreases k,
{
    if k > 0 {
        lemma_picks_agree(a, b, n, chosen, k - 1);
        let last = k - 1;
        assert(chosen(a[last]));
        assert(b.contains(a[last]));
        let p = choose|p: int| 0 <= p < b.len() && b[p] == a[last];
        if p < last {
            assert(a[p] == b[p]);
            assert(a[p] < a[last]);
        }
        assert(chosen(b[last]));
        assert(a.contains(b[last]));
        let q = choose|q: int| 0 <= q < a.len() && a[q] == b[last];
        if q < last {
            assert(a[q] == b[q]);
            assert(b[q] < b[last]);
        }
        if p > last {
            assert(b[last] < b[p]);
        }
        if q > last {
            assert(a[last] < a[q]);
        }
    }
}

/// The chosen numbers have one list.
pub proof fn lemma_picks_unique(a: Seq<int>, b: Seq<int>, n: int, chosen: spec_fn(int) -> bool)
    requires
        picks(a, n, chosen),
        picks(b, n, chosen),
    ensures
        a == b,
{
    lemma_picks_agree(a, b, n, chosen, a.len() as int);
    lemma_picks_agree(b, a, n, chosen, b.len() as int);
    assert(a =~= b);
}

/// What is wanted and unknown: every element that is not known, where it first occurs, in order.
pub proof fn lemma_unknown_picks<A>(wanted: Seq<A>, known: Set<A>) -> (at: Seq<int>)
    ensures
        at.len() == unknown(wanted, known).len(),
        picks(
            at,
            wanted.len() as int,
            |i: int|
                !known.contains(wanted[i]) && forall|j: int|
                    0 <= j < i ==> #[trigger] wanted[j] != wanted[i],
        ),
        forall|k: int|
            0 <= k < at.len() ==> unknown(wanted, known)[k] == wanted[#[trigger] at[k]],
    decreases wanted.len(),
{
    let chosen = |i: int|
        !known.contains(wanted[i]) && forall|j: int|
            0 <= j < i ==> #[trigger] wanted[j] != wanted[i];
    if wanted.len() == 0 {
        assert(picks(Seq::empty(), 0, chosen));
        Seq::empty()
    } else {
        let init = wanted.drop_last();
        let last = wanted.len() - 1;
        let before = lemma_unknown_picks(init, known);
        let earlier = |i: int|
            !known.contains(init[i]) && forall|j: int|
                0 <= j < i ==> #[trigger] init[j] != init[i];
        assert forall|i: int| 0 <= i < last implies #[trigger] earlier(i) == #[trigger] chosen(i) by {
            assert(init[i] == wanted[i]);
            if earlier(i) {
                assert forall|j: int| 0 <= j < i implies #[trigger] wanted[j] != wanted[i] by {
                    assert(init[j] == wanted[j]);
                }
            }
            if chosen(i) {
                assert forall|j: int| 0 <= j < i implies #[trigger] init[j] != init[i] by {
                    assert(init[j] == wanted[j]);
                }
            }
        }
        lemma_picks_same(before, last, earlier, chosen);
        lemma_unknown(init, known);
        let a = wanted[last];
        assert(chosen(last) <==> !known.contains(a) && !init.contains(a)) by {
            if init.contains(a) {
                let j = choose|j: int| 0 <= j < init.len() && init[j] == a;
                assert(wanted[j] == a);
            }
            if !init.contains(a) {
                assert forall|j: int| 0 <= j < last implies #[trigger] wanted[j] != a by {
                    assert(init[j] == wanted[j]);
                }
            }
        }
        let at = if chosen(last) {
            before.push(last)
        } else {
            before
        };
        assert(picks(at, wanted.len() as int, chosen)) by {
            assert forall|i: int| 0 <= i < wanted.len() && #[trigger] chosen(i) implies at.contains(
                i,
            ) by {
                if i < last {
                    assert(before.contains(i));
                    let k = choose|k: int| 0 <= k < before.len() && before[k] == i;
                    assert(at[k] == i);
                } else {
                    assert(at[before.len() as int] == i);
                }
            }
        }
        assert forall|k: int| 0 <= k < at.len() implies unknown(wanted, known)[k]
            == wanted[#[trigger] at[k]] by {
            if k < before.len() {
                assert(unknown(init, known)[k] == init[before[k]]);
            }
        }
        at
    }
}

} // verus!
