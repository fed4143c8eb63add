//! Maps and sets keyed by text, kept in dictionary order of their keys.

use crate::text::{
    comes_before, lemma_text_before_irreflexive, lemma_text_before_total,
    lemma_text_before_transitive, same_text, text_before, texts,
};
use vstd::prelude::*;

verus! {

// ---------------------------------------------------------------------------
// Ascending lists of keys
// ---------------------------------------------------------------------------

/// Whether each text of the list comes before all later ones.
pub open spec fn ascending(keys: Seq<Seq<char>>) -> bool {
    forall|i: int, j: int| 0 <= i < j < keys.len() ==> text_before(#[trigger] keys[i], #[trigger] keys[j])
}

/// Whether `keys` lists the members of `dom` in ascending order.
pub open spec fn lists(keys: Seq<Seq<char>>, dom: Set<Seq<char>>) -> bool {
    &&& ascending(keys)
    &&& forall|k: Seq<char>| #[trigger] dom.contains(k) <==> keys.contains(k)
}

/// The members of `dom` in ascending order.
pub open spec fn sorted_keys(dom: Set<Seq<char>>) -> Seq<Seq<char>> {
    choose|keys: Seq<Seq<char>>| lists(keys, dom)
}

/// A set of texts has one ascending listing.
pub proof fn lemma_listing_unique(s: Seq<Seq<char>>, t: Seq<Seq<char>>, dom: Set<Seq<char>>)
    requires
        lists(s, dom),
        lists(t, dom),
    ensures
        s == t,
    decreases s.len(),
{
    if s.len() == 0 {
        if t.len() > 0 {
            assert(t.contains(t[0]));
            assert(dom.contains(t[0]));
        }
        assert(s =~= t);
    } else {
        let a = s.last();
        assert(s.contains(a));
        assert(dom.contains(a));
        assert(t.contains(a));
        let b = t.last();
        assert(t.contains(b));
        assert(dom.contains(b));
        assert(s.contains(b));
        let i = choose|i: int| 0 <= i < s.len() && s[i] == b;
        let j = choose|j: int| 0 <= j < t.len() && t[j] == a;
        if a != b {
            assert(text_before(s[i], s[s.len() - 1]));
            assert(text_before(t[j], t[t.len() - 1]));
            lemma_text_before_transitive(a, b, a);
            lemma_text_before_irreflexive(a);
        }
        let rest = dom.remove(a);
        lemma_listing_drop_last(s, dom);
        lemma_listing_drop_last(t, dom);
        lemma_listing_unique(s.drop_last(), t.drop_last(), rest);
        assert(s =~= s.drop_last().push(a));
        assert(t =~= t.drop_last().push(a));
    }
}

proof fn lemma_listing_drop_last(s: Seq<Seq<char>>, dom: Set<Seq<char>>)
    requires
        lists(s, dom),
        s.len() > 0,
    ensures
        lists(s.drop_last(), dom.remove(s.last())),
{
    let front = s.drop_last();
    let rest = dom.remove(s.last());
    assert forall|k: Seq<char>| #[trigger] rest.contains(k) <==> front.contains(k) by {
        if rest.contains(k) {
            assert(s.contains(k));
            let i = choose|i: int| 0 <= i < s.len() && s[i] == k;
            assert(front[i] == k);
        }
        if front.contains(k) {
            let i = choose|i: int| 0 <= i < front.len() && front[i] == k;
            assert(s[i] == k);
            assert(s.contains(k));
            assert(text_before(s[i], s[s.len() - 1]));
            lemma_text_before_irreflexive(k);
        }
    }
}

/// The listing found by any means is `sorted_keys`.
pub proof fn lemma_sorted_keys_is(keys: Seq<Seq<char>>, dom: Set<Seq<char>>)
    requires
        lists(keys, dom),
    ensures
        sorted_keys(dom) == keys,
{
    assert(lists(sorted_keys(dom), dom));
    lemma_listing_unique(sorted_keys(dom), keys, dom);
}

/// An ascending list with one text more.
spec fn insert_in_order(keys: Seq<Seq<char>>, key: Seq<char>) -> Seq<Seq<char>>
    decreases keys.len(),
{
    if keys.len() == 0 {
        seq![key]
    } else if text_before(key, keys[0]) {
        seq![key] + keys
    } else {
        seq![keys[0]] + insert_in_order(keys.drop_first(), key)
    }
}

proof fn lemma_insert_in_order(keys: Seq<Seq<char>>, key: Seq<char>)
    requires
        ascending(keys),
        !keys.contains(key),
    ensures
        ascending(insert_in_order(keys, key)),
        forall|k: Seq<char>| #[trigger]
            insert_in_order(keys, key).contains(k) <==> keys.contains(k) || k == key,
    decreases keys.len(),
{
    let out = insert_in_order(keys, key);
    if keys.len() == 0 {
        assert(out[0] == key);
    } else if text_before(key, keys[0]) {
        assert forall|i: int, j: int| 0 <= i < j < out.len() implies text_before(
            #[trigger] out[i],
            #[trigger] out[j],
        ) by {
            if i > 0 {
                assert(text_before(keys[i - 1], keys[j - 1]));
            } else if j > 1 {
                assert(text_before(keys[0], keys[j - 1]));
                lemma_text_before_transitive(key, keys[0], keys[j - 1]);
            }
        }
        assert forall|k: Seq<char>| #[trigger] out.contains(k) <==> keys.contains(k) || k == key by {
            if out.contains(k) {
                let x = choose|x: int| 0 <= x < out.len() && out[x] == k;
                if x > 0 {
                    assert(keys[x - 1] == k);
                }
            }
            if keys.contains(k) {
                let x = choose|x: int| 0 <= x < keys.len() && keys[x] == k;
                assert(out[x + 1] == k);
            }
            assert(out[0] == key);
        }
    } else {
        let rest = keys.drop_first();
        assert(keys.contains(keys[0]));
        lemma_text_before_total(key, keys[0]);
        assert forall|i: int, j: int| 0 <= i < j < rest.len() implies text_before(
            #[trigger] rest[i],
            #[trigger] rest[j],
        ) by {
            assert(text_before(keys[i + 1], keys[j + 1]));
        }
        assert(!rest.contains(key)) by {
            if rest.contains(key) {
                let x = choose|x: int| 0 <= x < rest.len() && rest[x] == key;
                assert(keys[x + 1] == key);
            }
        }
        lemma_insert_in_order(rest, key);
        let tail = insert_in_order(rest, key);
        assert forall|i: int, j: int| 0 <= i < j < out.len() implies text_before(
            #[trigger] out[i],
            #[trigger] out[j],
        ) by {
            if i > 0 {
                assert(text_before(tail[i - 1], tail[j - 1]));
            } else {
                assert(tail.contains(tail[j - 1]));
                if out[j] != key {
                    assert(rest.contains(out[j]));
                    let x = choose|x: int| 0 <= x < rest.len() && rest[x] == out[j];
                    assert(text_before(keys[0], keys[x + 1]));
                }
            }
        }
        assert forall|k: Seq<char>| #[trigger] out.contains(k) <==> keys.contains(k) || k == key by {
            if out.contains(k) {
                let x = choose|x: int| 0 <= x < out.len() && out[x] == k;
                if x > 0 {
                    assert(tail[x - 1] == k);
                    assert(tail.contains(k));
                    if k != key {
                        let y = choose|y: int| 0 <= y < rest.len() && rest[y] == k;
                        assert(keys[y + 1] == k);
                    }
                }
            }
            if keys.contains(k) {
                let x = choose|x: int| 0 <= x < keys.len() && keys[x] == k;
                if x > 0 {
                    assert(rest[x - 1] == k);
                    assert(tail.contains(k));
                    let y = choose|y: int| 0 <= y < tail.len() && tail[y] == k;
                    assert(out[y + 1] == k);
                } else {
                    assert(out[0] == k);
                }
            }
            if k == key {
                assert(tail.contains(k));
                let y = choose|y: int| 0 <= y < tail.len() && tail[y] == k;
                assert(out[y + 1] == k);
            }
        }
    }
}

/// Every finite set of texts has an ascending listing, and `sorted_keys` is it.
pub proof fn lemma_sorted_keys_lists(dom: Set<Seq<char>>)
    requires
        dom.finite(),
    ensures
        lists(sorted_keys(dom), dom),
    decreases dom.len(),
{
    if dom.len() == 0 {
        assert(dom =~= Set::empty());
        assert(lists(Seq::empty(), dom));
    } else {
        let key = dom.choose();
        let rest = dom.remove(key);
        lemma_sorted_keys_lists(rest);
        let keys = sorted_keys(rest);
        assert(rest.contains(key) <==> keys.contains(key));
        lemma_insert_in_order(keys, key);
        let out = insert_in_order(keys, key);
        assert forall|k: Seq<char>| #[trigger] dom.contains(k) <==> out.contains(k) by {
            assert(rest.contains(k) <==> keys.contains(k));
        }
        assert(lists(out, dom));
    }
}

/// An ascending list has no text twice.
pub proof fn lemma_ascending_no_duplicates(keys: Seq<Seq<char>>)
    requires
        ascending(keys),
    ensures
        keys.no_duplicates(),
{
    assert forall|i: int, j: int| 0 <= i < keys.len() && 0 <= j < keys.len() && i != j implies keys[i]
        != keys[j] by {
        lemma_text_before_irreflexive(keys[i]);
        if i < j {
            assert(text_before(keys[i], keys[j]));
        } else {
            assert(text_before(keys[j], keys[i]));
        }
    }
}

/// An ascending list stays a listing when one of its texts is taken out of it and of
/// the set.
pub proof fn lemma_listing_without(ids: Seq<Seq<char>>, dom: Set<Seq<char>>, k: int)
    requires
        lists(ids, dom),
        0 <= k < ids.len(),
    ensures
        lists(ids.remove(k), dom.remove(ids[k])),
{
    let rest = ids.remove(k);
    lemma_ascending_no_duplicates(ids);
    assert forall|i: int, j: int| 0 <= i < j < rest.len() implies text_before(
        #[trigger] rest[i],
        #[trigger] rest[j],
    ) by {
        let a = if i < k {
            i
        } else {
            i + 1
        };
        let b = if j < k {
            j
        } else {
            j + 1
        };
        assert(rest[i] == ids[a] && rest[j] == ids[b]);
    }
    assert forall|id: Seq<char>| #[trigger] dom.remove(ids[k]).contains(id) <==> rest.contains(
        id,
    ) by {
        assert(dom.contains(id) <==> ids.contains(id));
        if dom.remove(ids[k]).contains(id) {
            let i = choose|i: int| 0 <= i < ids.len() && ids[i] == id;
            if i < k {
                assert(rest[i] == id);
            } else {
                assert(rest[i - 1] == id);
            }
        }
        if rest.contains(id) {
            let i = choose|i: int| 0 <= i < rest.len() && rest[i] == id;
            if i < k {
                assert(ids[i] == id);
            } else {
                assert(ids[i + 1] == id);
            }
        }
    }
}

/// One key more makes the set of the first keys of an ascending list larger by it.
pub proof fn lemma_take_one_more(keys: Seq<Seq<char>>, n: int)
    requires
        ascending(keys),
        0 < n <= keys.len(),
    ensures
        keys.take(n).to_set() == keys.take(n - 1).to_set().insert(keys[n - 1]),
        !keys.take(n - 1).to_set().contains(keys[n - 1]),
{
    let key = keys[n - 1];
    let front = keys.take(n - 1);
    let longer = keys.take(n);
    assert forall|k: Seq<char>| longer.contains(k) <==> (front.contains(k) || k == key) by {
        if longer.contains(k) {
            let j = choose|j: int| 0 <= j < longer.len() && longer[j] == k;
            if j < n - 1 {
                assert(front[j] == k);
            }
        }
        if front.contains(k) {
            let j = choose|j: int| 0 <= j < front.len() && front[j] == k;
            assert(longer[j] == k);
        }
        assert(longer[n - 1] == key);
    }
    assert(longer.to_set() =~= front.to_set().insert(key));
    lemma_ascending_no_duplicates(keys);
    if front.contains(key) {
        let j = choose|j: int| 0 <= j < front.len() && front[j] == key;
        assert(keys[j] == keys[n - 1]);
    }
}

/// How many of the first `n` keys have a property.
pub open spec fn count_keys(keys: Seq<Seq<char>>, n: int, p: spec_fn(Seq<char>) -> bool) -> nat
    decreases n,
{
    if n <= 0 {
        0
    } else {
        let before = count_keys(keys, n - 1, p);
        if p(keys[n - 1]) {
            before + 1
        } else {
            before
        }
    }
}

/// Counting keys one by one gives the size of the set of those with the property.
pub proof fn lemma_count_first_keys(
    keys: Seq<Seq<char>>,
    n: int,
    p: spec_fn(Seq<char>) -> bool,
)
    requires
        ascending(keys),
        0 <= n <= keys.len(),
    ensures
        count_keys(keys, n, p) <= n,
        keys.take(n).to_set().filter(p).finite(),
        count_keys(keys, n, p) == keys.take(n).to_set().filter(p).len(),
    decreases n,
{
    if n == 0 {
        assert(keys.take(0).to_set().filter(p) =~= Set::empty());
    } else {
        lemma_count_first_keys(keys, n - 1, p);
        let key = keys[n - 1];
        let before = keys.take(n - 1).to_set();
        let after = keys.take(n).to_set();
        lemma_take_one_more(keys, n);
        if p(key) {
            assert(after.filter(p) =~= before.filter(p).insert(key));
        } else {
            assert(after.filter(p) =~= before.filter(p));
        }
    }
}

/// Counting all keys of a set gives the number of its members with the property.
pub proof fn lemma_count_all_keys(
    keys: Seq<Seq<char>>,
    dom: Set<Seq<char>>,
    p: spec_fn(Seq<char>) -> bool,
)
    requires
        lists(keys, dom),
    ensures
        count_keys(keys, keys.len() as int, p) == dom.filter(p).len(),
        dom.filter(p).len() <= keys.len(),
{
    lemma_count_first_keys(keys, keys.len() as int, p);
    assert(keys.take(keys.len() as int) =~= keys);
    assert(keys.to_set() =~= dom);
}

// ---------------------------------------------------------------------------
// Maps
// ---------------------------------------------------------------------------

/// The map that a list of entries stands for.
pub open spec fn entries_map<V>(entries: Seq<(String, V)>) -> Map<Seq<char>, V>
    decreases entries.len(),
{
    if entries.len() == 0 {
        Map::empty()
    } else {
        entries_map(entries.drop_last()).insert(entries.last().0@, entries.last().1)
    }
}

/// The keys of a list of entries.
pub open spec fn entry_keys<V>(entries: Seq<(String, V)>) -> Seq<Seq<char>> {
    entries.map_values(|entry: (String, V)| entry.0@)
}

/// What the map of an ascending list of entries holds.
pub proof fn lemma_entries_map<V>(entries: Seq<(String, V)>)
    requires
        ascending(entry_keys(entries)),
    ensures
        entries_map(entries).dom().finite(),
        entries_map(entries).len() == entries.len(),
        lists(entry_keys(entries), entries_map(entries).dom()),
        forall|i: int|
            0 <= i < entries.len() ==> entries_map(entries).contains_key(
                (#[trigger] entries[i]).0@,
            ) && entries_map(entries)[entries[i].0@] == entries[i].1,
        forall|k: Seq<char>| #[trigger]
            entries_map(entries).contains_key(k) ==> exists|i: int|
                0 <= i < entries.len() && #[trigger] entries[i].0@ == k,
    decreases entries.len(),
{
    let keys = entry_keys(entries);
    if entries.len() > 0 {
        let front = entries.drop_last();
        let last = entries.last();
        assert(entry_keys(front) =~= keys.drop_last());
        assert forall|i: int, j: int| 0 <= i < j < entry_keys(front).len() implies text_before(
            #[trigger] entry_keys(front)[i],
            #[trigger] entry_keys(front)[j],
        ) by {
            assert(text_before(keys[i], keys[j]));
        }
        lemma_entries_map(front);
        assert(!entries_map(front).contains_key(last.0@)) by {
            if entries_map(front).contains_key(last.0@) {
                let i = choose|i: int| 0 <= i < front.len() && #[trigger] front[i].0@ == last.0@;
                assert(text_before(keys[i], keys[keys.len() - 1]));
                lemma_text_before_irreflexive(last.0@);
            }
        }
        assert forall|i: int| 0 <= i < entries.len() implies entries_map(entries).contains_key(
            (#[trigger] entries[i]).0@,
        ) && entries_map(entries)[entries[i].0@] == entries[i].1 by {
            if i < front.len() {
                assert(front[i] == entries[i]);
            }
        }
        assert forall|k: Seq<char>| #[trigger] entries_map(entries).contains_key(k) implies exists|
            i: int,
        |
            0 <= i < entries.len() && #[trigger] entries[i].0@ == k by {
            if k == last.0@ {
                assert(entries[entries.len() - 1].0@ == k);
            } else {
                assert(entries_map(front).contains_key(k));
                let i = choose|i: int| 0 <= i < front.len() && #[trigger] front[i].0@ == k;
                assert(entries[i].0@ == k);
            }
        }
    }
    assert forall|k: Seq<char>| #[trigger] entries_map(entries).dom().contains(k) <==> keys.contains(
        k,
    ) by {
        if entries_map(entries).dom().contains(k) {
            assert(entries_map(entries).contains_key(k));
            let i = choose|i: int| 0 <= i < entries.len() && #[trigger] entries[i].0@ == k;
            assert(keys[i] == k);
        }
        if keys.contains(k) {
            let i = choose|i: int| 0 <= i < keys.len() && keys[i] == k;
            assert(entries[i].0@ == k);
        }
    }
}

/// A map from texts to values whose entries are kept in dictionary order.
#[derive(Debug, PartialEq, Eq)]
pub struct OrderedMap<V> {
    pub(crate) entries: Vec<(String, V)>,
}

impl<V> View for OrderedMap<V> {
    type V = Map<Seq<char>, V>;

    closed spec fn view(&self) -> Map<Seq<char>, V> {
        entries_map(self.entries@)
    }
}

impl<V> OrderedMap<V> {
    #[verifier::type_invariant]
    pub(crate) closed spec fn in_order(self) -> bool {
        ascending(entry_keys(self.entries@))
    }

    /// The map is the one that its entries stand for.
    pub(crate) proof fn lemma_view_is_entries(self)
        ensures
            self@ == entries_map(self.entries@),
    {
    }

    /// The map without entries.
    pub fn new() -> (r: OrderedMap<V>)
        ensures
            r@ == Map::<Seq<char>, V>::empty(),
    {
        OrderedMap { entries: Vec::new() }
    }

    /// The number of entries.
    pub fn len(&self) -> (r: usize)
        ensures
            self@.dom().finite(),
            r == self@.len(),
            r == sorted_keys(self@.dom()).len(),
            lists(sorted_keys(self@.dom()), self@.dom()),
    {
        proof {
            use_type_invariant(self);
            lemma_entries_map(self.entries@);
            lemma_sorted_keys_is(entry_keys(self.entries@), self@.dom());
        }
        self.entries.len()
    }

    /// The key and the value at a place in the order.
    pub fn entry(&self, i: usize) -> (r: (&String, &V))
        requires
            i < sorted_keys(self@.dom()).len(),
        ensures
            r.0@ == sorted_keys(self@.dom())[i as int],
            self@.contains_key(r.0@),
            *r.1 == self@[r.0@],
            decreases_to!(*self => *r.1),
    {
        proof {
            use_type_invariant(self);
            lemma_entries_map(self.entries@);
            lemma_sorted_keys_is(entry_keys(self.entries@), self@.dom());
        }
        let e = &self.entries[i];
        assert(self.entries@[i as int] == *e);
        (&e.0, &e.1)
    }

    /// The keys in their order.
    pub fn keys(&self) -> (r: Vec<String>)
        ensures
            texts(r@) == sorted_keys(self@.dom()),
            lists(texts(r@), self@.dom()),
    {
        proof {
            use_type_invariant(self);
            lemma_entries_map(self.entries@);
            lemma_sorted_keys_is(entry_keys(self.entries@), self@.dom());
        }
        let mut out: Vec<String> = Vec::new();
        let mut i: usize = 0;
        while i < self.entries.len()
            invariant
                i <= self.entries@.len(),
                out@.len() == i,
                forall|j: int| 0 <= j < i ==> out@[j]@ == self.entries@[j].0@,
            decreases self.entries@.len() - i,
        {
            out.push(self.entries[i].0.clone());
            i = i + 1;
        }
        assert(texts(out@) =~= entry_keys(self.entries@));
        out
    }

    /// The place of a key, or the place at which it would stand.
    fn place(&self, key: &str) -> (r: (usize, bool))
        ensures
            r.0 <= self.entries@.len(),
            forall|j: int| 0 <= j < r.0 ==> text_before((#[trigger] self.entries@[j]).0@, key@),
            r.1 ==> r.0 < self.entries@.len() && self.entries@[r.0 as int].0@ == key@,
            !r.1 ==> forall|j: int|
                r.0 <= j < self.entries@.len() ==> text_before(
                    key@,
                    (#[trigger] self.entries@[j]).0@,
                ),
            r.1 == self@.contains_key(key@),
    {
        proof {
            use_type_invariant(self);
            lemma_entries_map(self.entries@);
        }
        let ghost keys = entry_keys(self.entries@);
        let mut i: usize = 0;
        while i < self.entries.len() && comes_before(self.entries[i].0.as_str(), key)
            invariant
                i <= self.entries@.len(),
                forall|j: int| 0 <= j < i ==> text_before((#[trigger] self.entries@[j]).0@, key@),
            decreases self.entries@.len() - i,
        {
            i = i + 1;
        }
        if i < self.entries.len() && same_text(self.entries[i].0.as_str(), key) {
            (i, true)
        } else {
            proof {
                if i < self.entries@.len() {
                    lemma_text_before_total(self.entries@[i as int].0@, key@);
                }
                assert forall|j: int| i <= j < self.entries@.len() implies text_before(
                    key@,
                    (#[trigger] self.entries@[j]).0@,
                ) by {
                    if j > i {
                        assert(text_before(keys[i as int], keys[j]));
                        lemma_text_before_transitive(key@, keys[i as int], keys[j]);
                    }
                }
                if self@.contains_key(key@) {
                    let j = choose|j: int|
                        0 <= j < self.entries@.len() && #[trigger] self.entries@[j].0@ == key@;
                    lemma_text_before_irreflexive(key@);
                }
            }
            (i, false)
        }
    }

    /// The value of a key.
    pub fn get(&self, key: &str) -> (r: Option<&V>)
        ensures
            match r {
                Some(v) => self@.contains_key(key@) && *v == self@[key@],
                None => !self@.contains_key(key@),
            },
    {
        let (i, found) = self.place(key);
        proof {
            use_type_invariant(self);
            lemma_entries_map(self.entries@);
        }
        if found {
            Some(&self.entries[i].1)
        } else {
            None
        }
    }

    /// Whether the key has a value.
    pub fn contains_key(&self, key: &str) -> (r: bool)
        ensures
            r == self@.contains_key(key@),
    {
        self.place(key).1
    }

    /// Gives the key a value, and hands back the one it had.
    pub fn insert(&mut self, key: String, value: V) -> (r: Option<V>)
        ensures
            final(self)@ == old(self)@.insert(key@, value),
            match r {
                Some(v) => old(self)@.contains_key(key@) && v == old(self)@[key@],
                None => !old(self)@.contains_key(key@),
            },
    {
        let (i, found) = self.place(key.as_str());
        proof {
            use_type_invariant(&*self);
            lemma_entries_map(self.entries@);
        }
        let mut entries: Vec<(String, V)> = Vec::new();
        core::mem::swap(&mut self.entries, &mut entries);
        let ghost before = entries@;
        let ghost text = key@;
        let ghost keys = entry_keys(before);
        if found {
            let old_entry = entries.remove(i);
            entries.insert(i, (key, value));
            proof {
                assert(entries@ =~= before.update(i as int, (key, value)));
                assert(entry_keys(entries@) =~= keys);
                lemma_entries_map(entries@);
                lemma_ascending_no_duplicates(keys);
                let after = entries@;
                let whole = entries_map(before).insert(text, value);
                assert forall|j: int| 0 <= j < after.len() implies whole.contains_key(
                    (#[trigger] after[j]).0@,
                ) && whole[after[j].0@] == after[j].1 by {
                    if j != i {
                        assert(after[j] == before[j]);
                        assert(keys[j] != keys[i as int]);
                    }
                }
                assert forall|k: Seq<char>| #[trigger] whole.contains_key(k) implies exists|j: int|
                    0 <= j < after.len() && (#[trigger] after[j]).0@ == k by {
                    assert(entries_map(before).contains_key(k));
                    let j = choose|j: int| 0 <= j < before.len() && #[trigger] before[j].0@ == k;
                    assert(after[j].0@ == k);
                }
                lemma_same_map(after, whole);
            }
            core::mem::swap(&mut self.entries, &mut entries);
            Some(old_entry.1)
        } else {
            entries.insert(i, (key, value));
            proof {
                let after = entries@;
                assert(after =~= before.insert(i as int, (key, value)));
                let new_keys = entry_keys(after);
                assert(new_keys =~= keys.insert(i as int, text));
                assert forall|a: int, b: int| 0 <= a < b < new_keys.len() implies text_before(
                    #[trigger] new_keys[a],
                    #[trigger] new_keys[b],
                ) by {
                    if a == i {
                        assert(new_keys[b] == before[b - 1].0@);
                    } else if b == i {
                        assert(new_keys[a] == before[a].0@);
                    } else {
                        let a2 = if a < i { a } else { a - 1 };
                        let b2 = if b < i { b } else { b - 1 };
                        assert(new_keys[a] == keys[a2]);
                        assert(new_keys[b] == keys[b2]);
                    }
                }
                lemma_entries_map(after);
                let whole = entries_map(before).insert(text, value);
                assert forall|k: Seq<char>| #[trigger] whole.contains_key(k) implies exists|j: int|
                    0 <= j < after.len() && (#[trigger] after[j]).0@ == k by {
                    if k == text {
                        assert(after[i as int].0@ == k);
                    } else {
                        assert(entries_map(before).contains_key(k));
                        let j = choose|j: int| 0 <= j < before.len() && #[trigger] before[j].0@ == k;
                        if j < i {
                            assert(after[j].0@ == k);
                        } else {
                            assert(after[j + 1].0@ == k);
                        }
                    }
                }
                assert forall|j: int| 0 <= j < after.len() implies whole.contains_key(
                    (#[trigger] after[j]).0@,
                ) && whole[after[j].0@] == after[j].1 by {
                    if j < i {
                        assert(after[j] == before[j]);
                        lemma_text_before_irreflexive(text);
                    } else if j > i {
                        assert(after[j] == before[j - 1]);
                        lemma_text_before_irreflexive(text);
                    }
                }
                lemma_same_map(after, whole);
            }
            core::mem::swap(&mut self.entries, &mut entries);
            None
        }
    }

    /// Takes the key and its value out of the map.
    pub fn remove(&mut self, key: &str) -> (r: Option<V>)
        ensures
            final(self)@ == old(self)@.remove(key@),
            match r {
                Some(v) => old(self)@.contains_key(key@) && v == old(self)@[key@],
                None => !old(self)@.contains_key(key@),
            },
    {
        let (i, found) = self.place(key);
        proof {
            use_type_invariant(&*self);
            lemma_entries_map(self.entries@);
        }
        if !found {
            assert(self@.remove(key@) =~= self@);
            return None;
        }
        let mut entries: Vec<(String, V)> = Vec::new();
        core::mem::swap(&mut self.entries, &mut entries);
        let ghost before = entries@;
        let ghost keys = entry_keys(before);
        let old_entry = entries.remove(i);
        proof {
            let after = entries@;
            assert(after =~= before.remove(i as int));
            let new_keys = entry_keys(after);
            assert(new_keys =~= keys.remove(i as int));
            assert forall|a: int, b: int| 0 <= a < b < new_keys.len() implies text_before(
                #[trigger] new_keys[a],
                #[trigger] new_keys[b],
            ) by {
                let a2 = if a < i { a } else { a + 1 };
                let b2 = if b < i { b } else { b + 1 };
                assert(new_keys[a] == keys[a2]);
                assert(new_keys[b] == keys[b2]);
            }
            lemma_entries_map(after);
            let whole = entries_map(before).remove(key@);
            lemma_ascending_no_duplicates(keys);
            assert forall|k: Seq<char>| #[trigger] whole.contains_key(k) implies exists|j: int|
                0 <= j < after.len() && (#[trigger] after[j]).0@ == k by {
                assert(entries_map(before).contains_key(k));
                let j = choose|j: int| 0 <= j < before.len() && #[trigger] before[j].0@ == k;
                if j < i {
                    assert(after[j].0@ == k);
                } else {
                    assert(after[j - 1].0@ == k);
                }
            }
            assert forall|j: int| 0 <= j < after.len() implies whole.contains_key(
                (#[trigger] after[j]).0@,
            ) && whole[after[j].0@] == after[j].1 by {
                let j2 = if j < i { j } else { j + 1 };
                assert(after[j] == before[j2]);
                assert(keys[j2] != keys[i as int]);
            }
            lemma_same_map(after, whole);
        }
        core::mem::swap(&mut self.entries, &mut entries);
        Some(old_entry.1)
    }
}

impl<V: Clone> Clone for OrderedMap<V> {
    fn clone(&self) -> (r: OrderedMap<V>)
        ensures
            r@.dom() == self@.dom(),
            forall|k: Seq<char>| #[trigger] r@.contains_key(k) ==> cloned::<V>(self@[k], r@[k]),
    {
        proof {
            use_type_invariant(self);
            lemma_entries_map(self.entries@);
        }
        let mut out: Vec<(String, V)> = Vec::new();
        let mut i: usize = 0;
        while i < self.entries.len()
            invariant
                i <= self.entries@.len(),
                out@.len() == i,
                forall|j: int|
                    0 <= j < i ==> (#[trigger] out@[j]).0@ == self.entries@[j].0@ && cloned::<V>(
                        self.entries@[j].1,
                        out@[j].1,
                    ),
            decreases self.entries@.len() - i,
        {
            let entry = &self.entries[i];
            let copy = entry.1.clone();
            out.push((entry.0.clone(), copy));
            i = i + 1;
        }
        proof {
            assert(entry_keys(out@) =~= entry_keys(self.entries@));
            lemma_entries_map(out@);
            let copies = entries_map(out@);
            assert forall|k: Seq<char>| copies.contains_key(k) == self@.contains_key(k) by {
                assert(copies.dom().contains(k) <==> entry_keys(out@).contains(k));
                assert(self@.dom().contains(k) <==> entry_keys(self.entries@).contains(k));
            }
            assert(copies.dom() =~= self@.dom());
            assert forall|k: Seq<char>| #[trigger] copies.contains_key(k) implies cloned::<V>(
                self@[k],
                copies[k],
            ) by {
                let j = choose|j: int| 0 <= j < out@.len() && #[trigger] out@[j].0@ == k;
                assert(self.entries@[j].0@ == k);
            }
        }
        OrderedMap { entries: out }
    }
}

/// Entries that list exactly what a map holds stand for that map.
pub proof fn lemma_same_map<V>(entries: Seq<(String, V)>, whole: Map<Seq<char>, V>)
    requires
        ascending(entry_keys(entries)),
        forall|k: Seq<char>| #[trigger]
            whole.contains_key(k) ==> exists|j: int|
                0 <= j < entries.len() && (#[trigger] entries[j]).0@ == k,
        forall|j: int|
            0 <= j < entries.len() ==> whole.contains_key((#[trigger] entries[j]).0@)
                && whole[entries[j].0@] == entries[j].1,
    ensures
        entries_map(entries) == whole,
{
    lemma_entries_map(entries);
    let found = entries_map(entries);
    assert forall|k: Seq<char>| found.contains_key(k) == whole.contains_key(k) && (found.contains_key(
        k,
    ) ==> found[k] == whole[k]) by {
        if whole.contains_key(k) {
            let j = choose|j: int| 0 <= j < entries.len() && (#[trigger] entries[j]).0@ == k;
            assert(found.contains_key(entries[j].0@));
        }
        if found.contains_key(k) {
            let j = choose|j: int| 0 <= j < entries.len() && #[trigger] entries[j].0@ == k;
            assert(whole.contains_key(entries[j].0@));
        }
    }
    assert(found =~= whole);
}

/// The keys of a map are finitely many.
pub proof fn lemma_map_finite<V>(map: OrderedMap<V>)
    ensures
        map@.dom().finite(),
{
    lemma_entries_finite(map.entries@);
}

proof fn lemma_entries_finite<V>(entries: Seq<(String, V)>)
    ensures
        entries_map(entries).dom().finite(),
    decreases entries.len(),
{
    if entries.len() > 0 {
        lemma_entries_finite(entries.drop_last());
    }
}

// ---------------------------------------------------------------------------
// Sets
// ---------------------------------------------------------------------------

/// A set of texts kept in dictionary order.
#[derive(Debug, PartialEq, Eq)]
pub struct OrderedSet {
    pub(crate) members: OrderedMap<()>,
}

impl View for OrderedSet {
    type V = Set<Seq<char>>;

    closed spec fn view(&self) -> Set<Seq<char>> {
        self.members@.dom()
    }
}

impl Clone for OrderedSet {
    fn clone(&self) -> (r: OrderedSet)
        ensures
            r@ == self@,
    {
        OrderedSet { members: self.members.clone() }
    }
}

impl OrderedSet {
    /// The set without members.
    pub fn new() -> (r: OrderedSet)
        ensures
            r@ == Set::<Seq<char>>::empty(),
    {
        OrderedSet { members: OrderedMap::new() }
    }

    /// The number of members.
    pub fn len(&self) -> (r: usize)
        ensures
            self@.finite(),
            r == self@.len(),
    {
        self.members.len()
    }

    /// Whether the text is a member.
    pub fn contains(&self, key: &str) -> (r: bool)
        ensures
            r == self@.contains(key@),
    {
        self.members.contains_key(key)
    }

    /// Adds a text, and says whether it was new.
    pub fn insert(&mut self, key: String) -> (r: bool)
        ensures
            final(self)@ == old(self)@.insert(key@),
            r == !old(self)@.contains(key@),
    {
        let earlier = self.members.insert(key, ());
        assert(self@ =~= old(self)@.insert(key@));
        earlier.is_none()
    }

    /// Takes a text out, and says whether it was there.
    pub fn remove(&mut self, key: &str) -> (r: bool)
        ensures
            final(self)@ == old(self)@.remove(key@),
            r == old(self)@.contains(key@),
    {
        let earlier = self.members.remove(key);
        assert(self@ =~= old(self)@.remove(key@));
        earlier.is_some()
    }

    /// The members in their order.
    pub fn keys(&self) -> (r: Vec<String>)
        ensures
            texts(r@) == sorted_keys(self@),
            lists(texts(r@), self@),
    {
        self.members.keys()
    }
}

} // verus!
