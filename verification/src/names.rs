//! Maps whose keys are names.
use crate::seqs::{lemma_unknown, lemma_unknown_picks, picks, unknown};
use vstd::prelude::*;

verus! {

/// A map from names to values. No name occurs twice.
pub struct NameMap<V> {
    names: Vec<String>,
    values: Vec<V>,
}

impl<V> NameMap<V> {
    spec fn index_of(&self, name: Seq<char>) -> int {
        choose|i: int| 0 <= i < self.names@.len() && (#[trigger] self.names@[i])@ == name
    }

    spec fn holds(&self, name: Seq<char>) -> bool {
        exists|i: int| 0 <= i < self.names@.len() && (#[trigger] self.names@[i])@ == name
    }

    /// Each name has a value, and each name occurs once.
    pub closed spec fn wf(&self) -> bool {
        &&& self.names@.len() == self.values@.len()
        &&& forall|i: int, j: int|
            0 <= i < j < self.names@.len() ==> (#[trigger] self.names@[i])@ != (
            #[trigger] self.names@[j])@
    }

    /// The names and their values.
    pub closed spec fn view(&self) -> Map<Seq<char>, V> {
        Map::new(|name: Seq<char>| self.holds(name), |name: Seq<char>| self.values@[self.index_of(name)])
    }

    proof fn lemma_index(&self, i: int)
        requires
            self.wf(),
            0 <= i < self.names@.len(),
        ensures
            self.holds(self.names@[i]@),
            self.index_of(self.names@[i]@) == i,
            self.view().dom().contains(self.names@[i]@),
            self.view()[self.names@[i]@] == self.values@[i],
    {
        let j = self.index_of(self.names@[i]@);
        assert(0 <= j < self.names@.len() && self.names@[j]@ == self.names@[i]@);
    }

    pub fn new() -> (map: NameMap<V>)
        ensures
            map.wf(),
            map.view() == Map::<Seq<char>, V>::empty(),
    {
        let map = NameMap { names: Vec::new(), values: Vec::new() };
        assert(map.view() =~= Map::<Seq<char>, V>::empty());
        map
    }

    fn position(&self, name: &String) -> (index: Option<usize>)
        requires
            self.wf(),
        ensures
            index is Some ==> (index->0 as int) < self.names@.len() && self.names@[index->0 as int]@
                == name@,
            index is None ==> !self.holds(name@),
    {
        let mut i: usize = 0;
        while i < self.names.len()
            invariant
                i <= self.names@.len(),
                forall|j: int| 0 <= j < i ==> (#[trigger] self.names@[j])@ != name@,
            decreases self.names@.len() - i,
        {
            if self.names[i] == *name {
                return Some(i);
            }
            i = i + 1;
        }
        None
    }

    /// The value of `name`, if it has one.
    pub fn get(&self, name: &String) -> (value: Option<&V>)
        requires
            self.wf(),
        ensures
            value is Some <==> self.view().dom().contains(name@),
            value is Some ==> *value->0 == self.view()[name@],
    {
        match self.position(name) {
            Some(i) => {
                proof {
                    self.lemma_index(i as int);
                }
                Some(&self.values[i])
            },
            None => None,
        }
    }

    proof fn lemma_size(&self)
        requires
            self.wf(),
        ensures
            self.view().dom().finite(),
            self.view().dom().len() == self.names@.len(),
    {
        let keys = self.names@.map_values(|name: String| name@);
        assert forall|i: int, j: int| 0 <= i < j < keys.len() implies keys[i] != keys[j] by {
            assert(self.names@[i]@ != self.names@[j]@);
        }
        assert(keys.no_duplicates());
        keys.unique_seq_to_set();
        assert forall|name: Seq<char>| self.holds(name) == keys.contains(name) by {
            if self.holds(name) {
                let i = self.index_of(name);
                assert(keys[i] == name);
            }
            if keys.contains(name) {
                let i = choose|i: int| 0 <= i < keys.len() && keys[i] == name;
                assert(self.names@[i]@ == name);
            }
        }
        assert(self.view().dom() =~= keys.to_set());
    }

    /// How many names there are.
    pub fn len(&self) -> (count: usize)
        requires
            self.wf(),
        ensures
            self.view().dom().finite(),
            count == self.view().dom().len(),
    {
        proof {
            self.lemma_size();
        }
        self.names.len()
    }

    /// The names, each once.
    pub fn names(&self) -> (names: &Vec<String>)
        requires
            self.wf(),
        ensures
            forall|name: Seq<char>|
                self.view().dom().contains(name) <==> exists|i: int|
                    0 <= i < names@.len() && (#[trigger] names@[i])@ == name,
            forall|i: int, j: int|
                0 <= i < j < names@.len() ==> (#[trigger] names@[i])@ != (#[trigger] names@[j])@,
    {
        &self.names
    }

    /// Gives `name` the value `value`, in place of the one it had.
    pub fn insert(&mut self, name: String, value: V)
        requires
            old(self).wf(),
        ensures
            final(self).wf(),
            final(self).view() == old(self).view().insert(name@, value),
    {
        let ghost before = *self;
        match self.position(&name) {
            Some(i) => {
                self.values.set(i, value);
                proof {
                    self.lemma_index(i as int);
                    before.lemma_index(i as int);
                    assert(self.names@ == before.names@);
                    assert forall|n: Seq<char>| n != name@ && self.holds(n) implies #[trigger] self.view()[n]
                        == before.view()[n] by {
                        let j = before.index_of(n);
                        before.lemma_index(j);
                        self.lemma_index(j);
                    }
                    assert(self.view() =~= before.view().insert(name@, value));
                }
            },
            None => {
                let ghost key = name@;
                self.names.push(name);
                self.values.push(value);
                proof {
                    let last = before.names@.len() as int;
                    assert(self.wf()) by {
                        assert forall|i: int, j: int| 0 <= i < j < self.names@.len() implies (
                        #[trigger] self.names@[i])@ != (#[trigger] self.names@[j])@ by {
                            assert(self.names@[i] == before.names@[i]);
                            if j == last {
                                assert(before.names@[i]@ != key);
                            } else {
                                assert(self.names@[j] == before.names@[j]);
                            }
                        }
                    }
                    self.lemma_index(last);
                    assert forall|n: Seq<char>| n != key implies self.holds(n) == before.holds(n) by {
                        if before.holds(n) {
                            let j = before.index_of(n);
                            assert(self.names@[j] == before.names@[j]);
                        }
                        if self.holds(n) {
                            let j = self.index_of(n);
                            assert(self.names@[j] == before.names@[j]);
                        }
                    }
                    assert forall|n: Seq<char>| n != key && self.holds(n) implies #[trigger] self.view()[n]
                        == before.view()[n] by {
                        let j = before.index_of(n);
                        before.lemma_index(j);
                        assert(self.names@[j] == before.names@[j]);
                        self.lemma_index(j);
                    }
                    assert(self.view() =~= before.view().insert(key, value));
                }
            },
        }
    }
}

/// The texts of a list of names.
pub open spec fn texts(names: Seq<String>) -> Seq<Seq<char>> {
    names.map_values(|name: String| name@)
}

fn has_name(names: &Vec<String>, name: &String) -> (found: bool)
    ensures
        found == texts(names@).contains(name@),
{
    let mut i: usize = 0;
    while i < names.len()
        invariant
            i <= names@.len(),
            forall|j: int| 0 <= j < i ==> (#[trigger] names@[j])@ != name@,
        decreases names@.len() - i,
    {
        if names[i] == *name {
            assert(texts(names@)[i as int] == name@);
            return true;
        }
        i = i + 1;
    }
    assert(!texts(names@).contains(name@)) by {
        if texts(names@).contains(name@) {
            let j = choose|j: int| 0 <= j < texts(names@).len() && texts(names@)[j] == name@;
            assert(names@[j]@ == name@);
        }
    }
    false
}

/// The names that have still to be loaded: those that are wanted and have no value, each once.
pub fn names_to_load<V>(wanted: &Vec<String>, known: &NameMap<V>) -> (names: Vec<String>)
    requires
        known.wf(),
    ensures
        texts(names@) == unknown(texts(wanted@), known.view().dom()),
{
    let mut names: Vec<String> = Vec::new();
    let mut i: usize = 0;
    let ghost all = texts(wanted@);
    assert(texts(names@) =~= unknown(all.take(0), known.view().dom()));
    while i < wanted.len()
        invariant
            i <= wanted@.len(),
            known.wf(),
            all == texts(wanted@),
            texts(names@) == unknown(all.take(i as int), known.view().dom()),
        decreases wanted@.len() - i,
    {
        assert(all.take(i + 1).drop_last() =~= all.take(i as int));
        assert(all[i as int] == wanted@[i as int]@);
        if known.get(&wanted[i]).is_none() && !has_name(&names, &wanted[i]) {
            let ghost before = texts(names@);
            names.push(wanted[i].clone());
            assert(texts(names@) =~= before.push(wanted@[i as int]@));
        }
        i = i + 1;
    }
    assert(all.take(i as int) =~= all);
    names
}

/// Loading is done once: no name is loaded that has a value, and none twice.
pub proof fn law_names_are_loaded_once(wanted: Seq<Seq<char>>, known: Set<Seq<char>>)
    ensures
        unknown(wanted, known).no_duplicates(),
        forall|name: Seq<char>| #[trigger]
            unknown(wanted, known).contains(name) <==> wanted.contains(name) && !known.contains(
                name,
            ),
{
    lemma_unknown(wanted, known);
}

/// Every name that has no value is loaded, where it is first wanted, in order. Gives the place of each.
pub proof fn law_unknown_names_are_loaded(wanted: Seq<Seq<char>>, known: Set<Seq<char>>) -> (at: Seq<
    int,
>)
    ensures
        at.len() == unknown(wanted, known).len(),
        picks(
            at,
            wanted.len() as int,
            |i: int|
                !known.contains(wanted[i]) && forall|j: int|
                    0 <= j < i ==> #[trigger] wanted[j] != wanted[i],
        ),
        forall|k: int|
            0 <= k < at.len() ==> unknown(wanted, known)[k] == wanted[#[trigger] at[k]],
{
    lemma_unknown_picks(wanted, known)
}

/// A list of names has the texts of its names, in order.
pub proof fn law_texts_are_the_names(names: Seq<String>)
    ensures
        texts(names).len() == names.len(),
        forall|i: int| 0 <= i < names.len() ==> #[trigger] texts(names)[i] == names[i]@,
{
}

} // verus!
