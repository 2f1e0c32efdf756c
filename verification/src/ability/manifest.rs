//! The manifest of abilities: the ids of all definitions, in order, as text.
use crate::ability::types::AbilityDefs;
use crate::names::texts;
use vstd::prelude::*;
use vstd::string::StrSliceExecFns;

verus! {

/// Whether `a` comes before `b` in a dictionary, by code points.
pub open spec fn comes_before(a: Seq<char>, b: Seq<char>) -> bool {
    exists|k: int| #[trigger] parts_at(a, b, k)
}

/// The first `k` characters agree, and then `a` ends or has the lesser character.
pub open spec fn parts_at(a: Seq<char>, b: Seq<char>, k: int) -> bool {
    &&& 0 <= k <= a.len()
    &&& k < b.len()
    &&& a.take(k) == b.take(k)
    &&& k < a.len() ==> a[k] < b[k]
}

proof fn lemma_before_transitive(a: Seq<char>, b: Seq<char>, c: Seq<char>)
    requires
        comes_before(a, b),
        comes_before(b, c),
    ensures
        comes_before(a, c),
{
    let k = choose|k: int| parts_at(a, b, k);
    let l = choose|l: int| parts_at(b, c, l);
    let m = if k < l {
        k
    } else {
        l
    };
    assert forall|i: int| 0 <= i < m implies a[i] == c[i] by {
        assert(a.take(k)[i] == b.take(k)[i]);
        assert(b.take(l)[i] == c.take(l)[i]);
    }
    assert(a.take(m) =~= c.take(m));
    if k < l {
        assert(b.take(l)[k] == c.take(l)[k]);
    }
    if l < k {
        assert(a.take(k)[l] == b.take(k)[l]);
    }
    assert(parts_at(a, c, m));
}

proof fn lemma_before_irreflexive(a: Seq<char>)
    ensures
        !comes_before(a, a),
{
}

proof fn lemma_before_total(a: Seq<char>, b: Seq<char>, k: int)
    requires
        0 <= k <= a.len(),
        k <= b.len(),
        a.take(k) == b.take(k),
    ensures
        comes_before(a, b) || comes_before(b, a) || a == b,
    decreases a.len() - k,
{
    if k == a.len() && k == b.len() {
        assert(a.take(k) =~= a);
        assert(b.take(k) =~= b);
    } else if k == a.len() {
        assert(parts_at(a, b, k));
    } else if k == b.len() {
        assert(parts_at(b, a, k));
    } else if a[k] < b[k] {
        assert(parts_at(a, b, k));
    } else if b[k] < a[k] {
        assert(parts_at(b, a, k));
    } else {
        assert(a.take(k + 1) =~= a.take(k).push(a[k]));
        assert(b.take(k + 1) =~= b.take(k).push(b[k]));
        lemma_before_total(a, b, k + 1);
    }
}

/// Of two different texts one comes before the other, and not the other way round.
pub proof fn law_dictionary_order(a: Seq<char>, b: Seq<char>)
    requires
        a != b,
    ensures
        comes_before(a, b) <==> !comes_before(b, a),
{
    assert(a.take(0) =~= b.take(0));
    lemma_before_total(a, b, 0);
    if comes_before(a, b) && comes_before(b, a) {
        lemma_before_transitive(a, b, a);
        lemma_before_irreflexive(a);
    }
}

fn is_before(a: &String, b: &String) -> (before: bool)
    ensures
        before == comes_before(a@, b@),
{
    let left: &str = a.as_str();
    let right: &str = b.as_str();
    let m: usize = left.unicode_len();
    let n: usize = right.unicode_len();
    let mut k: usize = 0;
    while k < m && k < n
        invariant
            left@ == a@,
            right@ == b@,
            m == a@.len(),
            n == b@.len(),
            k <= m,
            k <= n,
            forall|i: int| 0 <= i < k ==> a@[i] == b@[i],
        decreases m - k,
    {
        let x: u32 = left.get_char(k) as u32;
        let y: u32 = right.get_char(k) as u32;
        if x != y {
            proof {
                assert(a@.take(k as int) =~= b@.take(k as int));
                if x < y {
                    assert(parts_at(a@, b@, k as int));
                } else {
                    assert(parts_at(b@, a@, k as int));
                    law_dictionary_order(a@, b@);
                }
            }
            return x < y;
        }
        k = k + 1;
    }
    proof {
        assert(a@.take(k as int) =~= b@.take(k as int));
        if k < n {
            assert(parts_at(a@, b@, k as int));
        } else if k < m {
            assert(parts_at(b@, a@, k as int));
            law_dictionary_order(a@, b@);
        } else {
            assert(a@ =~= b@);
            lemma_before_irreflexive(a@);
        }
    }
    k < n
}

/// Each text comes before all that follow it.
pub open spec fn is_ordered(ids: Seq<Seq<char>>) -> bool {
    forall|i: int, j: int| 0 <= i < j < ids.len() ==> comes_before(#[trigger] ids[i], #[trigger] ids[j])
}

/// The list holds each member of `set` once, in order.
pub open spec fn lists_in_order(ids: Seq<Seq<char>>, set: Set<Seq<char>>) -> bool {
    &&& is_ordered(ids)
    &&& forall|id: Seq<char>| #[trigger] ids.contains(id) <==> set.contains(id)
}

/// A set of texts is listed in order in one way only.
pub proof fn law_order_is_unique(a: Seq<Seq<char>>, b: Seq<Seq<char>>, set: Set<Seq<char>>)
    requires
        lists_in_order(a, set),
        lists_in_order(b, set),
    ensures
        a == b,
{
    lemma_same_prefix(a, b, set, a.len() as int);
    lemma_same_prefix(b, a, set, b.len() as int);
    assert(a =~= b);
}

proof fn lemma_same_prefix(a: Seq<Seq<char>>, b: Seq<Seq<char>>, set: Set<Seq<char>>, n: int)
    requires
        lists_in_order(a, set),
        lists_in_order(b, set),
        0 <= n <= a.len(),
    ensures
        n <= b.len(),
        forall|i: int| 0 <= i < n ==> a[i] == b[i],
    decreases n,
{
    if n > 0 {
        lemma_same_prefix(a, b, set, n - 1);
        let i = n - 1;
        assert(a.contains(a[i]));
        assert(b.contains(a[i]));
        let j = choose|j: int| 0 <= j < b.len() && b[j] == a[i];
        if j < i {
            assert(a[j] == a[i]);
            lemma_before_irreflexive(a[i]);
        }
        assert(b.contains(b[i]));
        assert(a.contains(b[i]));
        let l = choose|l: int| 0 <= l < a.len() && a[l] == b[i];
        if l < i {
            assert(b[l] == b[i]);
            lemma_before_irreflexive(b[i]);
        }
        if i < j && i < l {
            lemma_before_transitive(a[i], b[i], a[i]);
            lemma_before_irreflexive(a[i]);
        }
    }
}

/// Puts `name` into its place in an ordered list that does not hold it.
fn insert_in_order(ids: &mut Vec<String>, name: String)
    requires
        is_ordered(texts(old(ids)@)),
        !texts(old(ids)@).contains(name@),
    ensures
        is_ordered(texts(final(ids)@)),
        forall|id: Seq<char>| #[trigger]
            texts(final(ids)@).contains(id) <==> id == name@ || texts(old(ids)@).contains(id),
{
    let ghost before = texts(ids@);
    let ghost key = name@;
    let mut place: usize = 0;
    while place < ids.len() && is_before(&ids[place], &name)
        invariant
            place <= ids@.len(),
            before == texts(ids@),
            forall|i: int| 0 <= i < place ==> comes_before(#[trigger] before[i], name@),
        decreases ids@.len() - place,
    {
        assert(before[place as int] == ids@[place as int]@);
        place = place + 1;
    }
    proof {
        if place < ids@.len() {
            assert(before[place as int] == ids@[place as int]@);
            assert(before.contains(before[place as int]));
            law_dictionary_order(before[place as int], key);
        }
        assert forall|j: int| place <= j < before.len() implies comes_before(
            key,
            #[trigger] before[j],
        ) by {
            if j > place {
                lemma_before_transitive(key, before[place as int], before[j]);
            }
        }
    }
    ids.insert(place, name);
    proof {
        let after = texts(ids@);
        assert(after =~= before.insert(place as int, key));
        assert forall|i: int, j: int| 0 <= i < j < after.len() implies comes_before(
            #[trigger] after[i],
            #[trigger] after[j],
        ) by {
            let a = if i < place {
                i
            } else {
                i - 1
            };
            let b = if j < place {
                j
            } else {
                j - 1
            };
            if i != place {
                assert(after[i] == before[a]);
            }
            if j != place {
                assert(after[j] == before[b]);
            }
        }
        assert forall|id: Seq<char>| #[trigger] after.contains(id) <==> id == key || before.contains(id) by {
            if before.contains(id) {
                let i = choose|i: int| 0 <= i < before.len() && before[i] == id;
                if i < place {
                    assert(after[i] == id);
                } else {
                    assert(after[i + 1] == id);
                }
            }
            assert(after[place as int] == key);
        }
    }
}

/// The ids of all definitions, in order.
pub fn sorted_ability_ids(defs: &AbilityDefs) -> (ids: Vec<String>)
    requires
        defs.wf(),
    ensures
        lists_in_order(texts(ids@), defs.abilities.view().dom()),
{
    let names: &Vec<String> = defs.abilities.names();
    let mut ids: Vec<String> = Vec::new();
    let mut i: usize = 0;
    while i < names.len()
        invariant
            i <= names@.len(),
            forall|k: int, l: int|
                0 <= k < l < names@.len() ==> (#[trigger] names@[k])@ != (#[trigger] names@[l])@,
            is_ordered(texts(ids@)),
            forall|id: Seq<char>| #[trigger]
                texts(ids@).contains(id) <==> exists|k: int|
                    0 <= k < i && (#[trigger] names@[k])@ == id,
        decreases names@.len() - i,
    {
        let ghost before = texts(ids@);
        assert(!before.contains(names@[i as int]@));
        insert_in_order(&mut ids, names[i].clone());
        assert forall|id: Seq<char>| #[trigger] texts(ids@).contains(id) <==> exists|k: int|
            0 <= k < i + 1 && (#[trigger] names@[k])@ == id by {
            if before.contains(id) {
                let k = choose|k: int| 0 <= k < i && (#[trigger] names@[k])@ == id;
                assert(names@[k]@ == id);
            }
            if id == names@[i as int]@ {
                assert(names@[i as int]@ == id);
            }
        }
        i = i + 1;
    }
    ids
}

/// `ron::Error`, why a value could not be written.
#[verifier::external_type_specification]
#[verifier::external_body]
pub struct ExRonError(ron::Error);

/// The text that `ron` gives to a list of strings; nothing where it gives an error.
pub uninterp spec fn ron_list_text(items: Seq<Seq<char>>) -> Option<Seq<char>>;

/// Whether a text holds ASCII letters, digits and underscores only.
pub open spec fn is_plain(text: Seq<char>) -> bool {
    forall|i: int|
        0 <= i < text.len() ==> {
            let c = #[trigger] text[i];
            ('a' <= c && c <= 'z') || ('A' <= c && c <= 'Z') || ('0' <= c && c <= '9') || c == '_'
        }
}

/// The texts in double quotes, with commas between them.
pub open spec fn quoted_items(items: Seq<Seq<char>>) -> Seq<char>
    decreases items.len(),
{
    if items.len() == 0 {
        Seq::empty()
    } else {
        let quoted = seq!['"'] + items.last() + seq!['"'];
        if items.len() == 1 {
            quoted
        } else {
            quoted_items(items.drop_last()) + seq![','] + quoted
        }
    }
}

/// The quoted texts in square brackets.
pub open spec fn bracketed_list(items: Seq<Seq<char>>) -> Seq<char> {
    seq!['['] + quoted_items(items) + seq![']']
}

/// Whether all texts are plain.
pub open spec fn all_plain(items: Seq<Seq<char>>) -> bool {
    forall|i: int| 0 <= i < items.len() ==> is_plain(#[trigger] items[i])
}

/// What was written, if it could be.
pub open spec fn written(text: Result<String, ron::Error>) -> Option<Seq<char>> {
    match text {
        Ok(text) => Some(text@),
        Err(_) => None,
    }
}

/// `ron::to_string` on a list of strings.
///
/// The text depends on the strings alone. It is the list of the quoted strings in square brackets,
/// with commas and no spaces between them, where no string holds a character that is escaped; the
/// form of an escaped character is left unsaid.
#[verifier::external_body]
fn ron_to_string(items: &Vec<String>) -> (text: Result<String, ron::Error>)
    ensures
        written(text) == ron_list_text(texts(items@)),
        all_plain(texts(items@)) ==> written(text) == Some(bracketed_list(texts(items@))),
{
    ron::to_string(items)
}

/// The manifest could not be turned into text.
#[derive(Clone, Copy, Debug, PartialEq, Eq, Structural)]
pub struct ManifestError;

/// What a manifest of the given ids reads, where it can be written.
pub open spec fn manifest_text(ids: Seq<Seq<char>>) -> Result<Seq<char>, ManifestError> {
    match ron_list_text(ids) {
        Some(text) => Ok(text),
        None => Err(ManifestError),
    }
}

/// The manifest is the text of the ids of all definitions, in order.
pub open spec fn is_manifest_of(manifest: Result<String, ManifestError>, defs: AbilityDefs) -> bool {
    exists|ids: Seq<Seq<char>>| #[trigger]
        lists_in_order(ids, defs.abilities.view().dom()) && (match manifest {
            Ok(text) => Ok::<Seq<char>, ManifestError>(text@),
            Err(error) => Err(error),
        }) == manifest_text(ids)
}

/// The text of the manifest of `defs`.
///
/// Where the ids are plain it is their list, quoted and bracketed.
pub fn ability_manifest(defs: &AbilityDefs) -> (manifest: Result<String, ManifestError>)
    requires
        defs.wf(),
    ensures
        is_manifest_of(manifest, *defs),
        (forall|id: Seq<char>| #[trigger] defs.abilities.view().dom().contains(id) ==> is_plain(id)) ==> (
        manifest matches Ok(text) && exists|ids: Seq<Seq<char>>| #[trigger]
            lists_in_order(ids, defs.abilities.view().dom()) && text@ == bracketed_list(ids)),
{
    let ids: Vec<String> = sorted_ability_ids(defs);
    let ghost listed = texts(ids@);
    assert(lists_in_order(listed, defs.abilities.view().dom()));
    proof {
        if forall|id: Seq<char>| #[trigger] defs.abilities.view().dom().contains(id) ==> is_plain(id) {
            assert forall|i: int| 0 <= i < listed.len() implies is_plain(#[trigger] listed[i]) by {
                assert(listed.contains(listed[i]));
            }
        }
    }
    match ron_to_string(&ids) {
        Ok(text) => Ok(text),
        Err(_) => Err(ManifestError),
    }
}

/// Remembers how many abilities the manifest listed when it was last written.
#[derive(Clone, Copy, Debug, PartialEq, Eq, Structural)]
pub struct ManifestSync {
    pub last_len: usize,
}

impl Default for ManifestSync {
    fn default() -> (sync: ManifestSync)
        ensures
            sync.last_len == 0,
    {
        ManifestSync { last_len: 0 }
    }
}

impl ManifestSync {
    /// Whether the manifest has to be written: the definitions changed, or their number did.
    pub open spec fn is_due(self, defs: Option<&AbilityDefs>, changed: bool) -> bool {
        defs is Some && (changed || defs->0.abilities.view().dom().len() != self.last_len)
    }

    /// The manifest to write, if it has to be written.
    pub fn sync_ability_manifest(&mut self, defs: Option<&AbilityDefs>, changed: bool) -> (manifest:
        Option<Result<String, ManifestError>>)
        requires
            defs is Some ==> defs->0.wf(),
        ensures
            manifest is Some <==> old(self).is_due(defs, changed),
            manifest is Some ==> is_manifest_of(manifest->0, *defs->0) && final(self).last_len
                == defs->0.abilities.view().dom().len(),
            manifest is None ==> *final(self) == *old(self),
    {
        match defs {
            Some(defs) => {
                let count: usize = defs.abilities.len();
                if !changed && count == self.last_len {
                    return None;
                }
                self.last_len = count;
                Some(ability_manifest(defs))
            },
            None => None,
        }
    }
}

/// Texts go by their first difference: the one with the lesser character there comes first, and a text
/// comes before those that it begins.
pub proof fn law_first_difference_decides(a: Seq<char>, b: Seq<char>, k: int)
    requires
        0 <= k <= a.len(),
        k < b.len(),
        forall|i: int| 0 <= i < k ==> #[trigger] a[i] == b[i],
        k < a.len() ==> a[k] < b[k],
    ensures
        comes_before(a, b),
        !comes_before(b, a),
{
    assert(a.take(k) =~= b.take(k));
    assert(parts_at(a, b, k));
    law_dictionary_order(a, b);
}

/// A list in order has every id of the set once, each before those that come after it.
pub proof fn law_ids_are_listed_in_order(ids: Seq<Seq<char>>, set: Set<Seq<char>>)
    requires
        lists_in_order(ids, set),
    ensures
        forall|id: Seq<char>| #[trigger] ids.contains(id) <==> set.contains(id),
        ids.no_duplicates(),
        forall|i: int, j: int|
            0 <= i < j < ids.len() ==> comes_before(#[trigger] ids[i], #[trigger] ids[j]),
{
    assert forall|i: int, j: int| 0 <= i < j < ids.len() implies ids[i] != ids[j] by {
        assert(comes_before(ids[i], ids[j]));
        lemma_before_irreflexive(ids[i]);
    }
}

/// Where the quotes of each text open in a list in brackets.
proof fn lemma_quoted_items(items: Seq<Seq<char>>) -> (starts: Seq<int>)
    ensures
        starts.len() == items.len(),
        items.len() == 0 ==> quoted_items(items).len() == 0,
        items.len() > 0 ==> starts[0] == 0 && quoted_items(items).len() == starts.last()
            + items.last().len() + 2,
        forall|i: int, j: int|
            0 <= i && j == i + 1 && j < items.len() ==> #[trigger] starts[j] == #[trigger] starts[i]
                + items[i].len() + 3,
        forall|i: int|
            #![trigger starts[i]]
            0 <= i < items.len() ==> {
                let text = quoted_items(items);
                let end = starts[i] + 1 + items[i].len();
                &&& 0 <= starts[i] && end < text.len()
                &&& text[starts[i]] == '"'
                &&& text.subrange(starts[i] + 1, end) == items[i]
                &&& text[end] == '"'
                &&& i + 1 < items.len() ==> end + 1 < text.len() && text[end + 1] == ','
            },
    decreases items.len(),
{
    if items.len() == 0 {
        Seq::empty()
    } else {
        let init = items.drop_last();
        let last = items.last();
        let before = lemma_quoted_items(init);
        let part = quoted_items(init);
        let text = quoted_items(items);
        let quoted = seq!['"'] + last + seq!['"'];
        if items.len() == 1 {
            assert(text =~= quoted);
            assert(text.subrange(1, 1 + last.len() as int) =~= last);
            seq![0int]
        } else {
            let start = part.len() as int + 1;
            assert(text =~= part + seq![','] + quoted);
            let starts = before.push(start);
            assert forall|i: int|
                #![trigger starts[i]]
                0 <= i < items.len() implies {
                let end = starts[i] + 1 + items[i].len();
                &&& 0 <= starts[i] && end < text.len()
                &&& text[starts[i]] == '"'
                &&& text.subrange(starts[i] + 1, end) == items[i]
                &&& text[end] == '"'
                &&& i + 1 < items.len() ==> end + 1 < text.len() && text[end + 1] == ','
            } by {
                if i < init.len() {
                    let end = before[i] + 1 + init[i].len();
                    assert(starts[i] == before[i]);
                    assert(init[i] == items[i]);
                    assert(text[starts[i]] == part[before[i]]);
                    assert(text[end] == part[end]);
                    assert(text.subrange(starts[i] + 1, end) =~= part.subrange(before[i] + 1, end));
                    if i + 1 < init.len() {
                        assert(text[end + 1] == part[end + 1]);
                    } else {
                        assert(end + 1 == part.len());
                    }
                } else {
                    assert(text.subrange(start + 1, start + 1 + last.len()) =~= last);
                }
            }
            starts
        }
    }
}

/// A list in brackets reads as one: it opens, has its texts in quotes one after the other with a comma
/// between each two and nothing else, and closes. Gives where the quotes of each text open.
pub proof fn law_lists_are_quoted_and_bracketed(items: Seq<Seq<char>>) -> (starts: Seq<int>)
    ensures
        ({
            let text = bracketed_list(items);
            &&& starts.len() == items.len()
            &&& text[0] == '['
            &&& text[text.len() - 1] == ']'
            &&& items.len() == 0 ==> text.len() == 2
            &&& items.len() > 0 ==> starts[0] == 1 && text.len() == starts.last()
                + items.last().len() + 3
            &&& forall|i: int, j: int|
                0 <= i && j == i + 1 && j < items.len() ==> #[trigger] starts[j]
                    == #[trigger] starts[i] + items[i].len() + 3
            &&& forall|i: int|
                #![trigger starts[i]]
                0 <= i < items.len() ==> {
                    let end = starts[i] + 1 + items[i].len();
                    &&& text[starts[i]] == '"'
                    &&& text.subrange(starts[i] + 1, end) == items[i]
                    &&& text[end] == '"'
                    &&& i + 1 < items.len() ==> text[end + 1] == ','
                }
        }),
{
    let inner = lemma_quoted_items(items);
    let part = quoted_items(items);
    let text = bracketed_list(items);
    let starts = inner.map_values(|s: int| s + 1);
    assert(forall|k: int| 0 <= k < part.len() ==> text[k + 1] == part[k]);
    assert forall|i: int|
        #![trigger starts[i]]
        0 <= i < items.len() implies {
        let end = starts[i] + 1 + items[i].len();
        &&& text[starts[i]] == '"'
        &&& text.subrange(starts[i] + 1, end) == items[i]
        &&& text[end] == '"'
        &&& i + 1 < items.len() ==> text[end + 1] == ','
    } by {
        let end = starts[i] + 1 + items[i].len();
        assert(starts[i] == inner[i] + 1);
        assert(text[inner[i] + 1] == part[inner[i]]);
        assert(text[end] == part[end - 1]);
        assert(text.subrange(starts[i] + 1, end) =~= part.subrange(inner[i] + 1, end - 1));
        if i + 1 < items.len() {
            assert(text[end + 1] == part[end]);
        }
    }
    starts
}

/// The manifest is written when the definitions have changed or their number is another than when it was
/// written last, as long as there are any definitions.
pub proof fn law_manifest_follows_the_definitions(
    sync: ManifestSync,
    defs: &AbilityDefs,
    changed: bool,
)
    ensures
        !sync.is_due(None, changed),
        sync.is_due(Some(defs), changed) <==> changed || defs.abilities.view().dom().len()
            != sync.last_len,
{
}

} // verus!
