//! A map keyed by text, kept as a vector of entries with distinct keys.
//! Iteration follows insertion order; lookups are linear.

use vstd::prelude::*;

use crate::text::str_eq;

verus! {

/// A map from strings to values, keys compared as text. The index keys its
/// path maps by the normalized paths of its [`crate::engine::index::FileSet`],
/// and normalized paths are equal exactly when their components are.
pub struct TextMap<V> {
    entries: Vec<(String, V)>,
}

/// Some entry of `e` has key `k`.
pub open spec fn has_key<V>(e: Seq<(String, V)>, k: Seq<char>) -> bool {
    exists|i: int| 0 <= i < e.len() && #[trigger] e[i].0@ == k
}

/// The mathematical map an entry sequence with distinct keys denotes.
pub open spec fn entries_map<V>(e: Seq<(String, V)>) -> Map<Seq<char>, V> {
    Map::new(
        |k: Seq<char>| has_key(e, k),
        |k: Seq<char>| e[choose|i: int| 0 <= i < e.len() && #[trigger] e[i].0@ == k].1,
    )
}

/// Distinct keys: each key text occurs at one index only.
pub open spec fn keys_distinct<V>(e: Seq<(String, V)>) -> bool {
    forall|i: int, j: int| 0 <= i < e.len() && 0 <= j < e.len() && #[trigger] e[i].0@ == #[trigger] e[j].0@ ==> i == j
}

/// With distinct keys, the map sends each entry's key to its value.
pub proof fn lemma_entries_map<V>(e: Seq<(String, V)>)
    requires
        keys_distinct(e),
    ensures
        forall|i: int| 0 <= i < e.len() ==> #[trigger] entries_map(e).contains_key(e[i].0@)
            && entries_map(e)[e[i].0@] == e[i].1,
        forall|k: Seq<char>| #[trigger] entries_map(e).contains_key(k) <==> has_key(e, k),
{
    assert forall|i: int| 0 <= i < e.len() implies #[trigger] entries_map(e).contains_key(e[i].0@)
        && entries_map(e)[e[i].0@] == e[i].1 by {
        assert(e[i].0@ == e[i].0@);
        let j = choose|j: int| 0 <= j < e.len() && #[trigger] e[j].0@ == e[i].0@;
        assert(i == j);
    }
}

/// Pushing a fresh key inserts it into the map.
pub proof fn lemma_entries_push<V>(e: Seq<(String, V)>, k: String, v: V)
    requires
        keys_distinct(e),
        !has_key(e, k@),
    ensures
        keys_distinct(e.push((k, v))),
        entries_map(e.push((k, v))) == entries_map(e).insert(k@, v),
{
    let f = e.push((k, v));
    assert forall|i: int, j: int| 0 <= i < f.len() && 0 <= j < f.len() && #[trigger] f[i].0@ == #[trigger] f[j].0@ implies i == j by {
        if i < e.len() && j < e.len() {
            assert(e[i].0@ == e[j].0@);
        } else if i < e.len() {
            assert(e[i].0@ == k@);
        } else if j < e.len() {
            assert(e[j].0@ == k@);
        }
    }
    lemma_entries_map(e);
    lemma_entries_map(f);
    assert forall|q: Seq<char>| has_key(f, q) <==> has_key(e, q) || q == k@ by {
        if has_key(f, q) {
            let i = choose|i: int| 0 <= i < f.len() && #[trigger] f[i].0@ == q;
            if i < e.len() {
                assert(e[i].0@ == q);
            }
        }
        if has_key(e, q) {
            let i = choose|i: int| 0 <= i < e.len() && #[trigger] e[i].0@ == q;
            assert(f[i].0@ == q);
        }
        if q == k@ {
            assert(f[e.len() as int].0@ == q);
        }
    }
    assert forall|q: Seq<char>| entries_map(f).contains_key(q) implies entries_map(f)[q] == entries_map(e).insert(k@, v)[q] by {
        let i = choose|i: int| 0 <= i < f.len() && #[trigger] f[i].0@ == q;
        if i < e.len() {
            assert(e[i].0@ == q);
        }
    }
    assert(entries_map(f) =~= entries_map(e).insert(k@, v));
}

/// Replacing the value at an existing key updates the map.
pub proof fn lemma_entries_update<V>(e: Seq<(String, V)>, i: int, v: V)
    requires
        keys_distinct(e),
        0 <= i < e.len(),
    ensures
        keys_distinct(e.update(i, (e[i].0, v))),
        entries_map(e.update(i, (e[i].0, v))) == entries_map(e).insert(e[i].0@, v),
{
    let f = e.update(i, (e[i].0, v));
    assert forall|a: int, b: int| 0 <= a < f.len() && 0 <= b < f.len() && #[trigger] f[a].0@ == #[trigger] f[b].0@ implies a == b by {
        assert(f[a].0 == e[a].0 && f[b].0 == e[b].0);
        assert(e[a].0@ == e[b].0@);
    }
    lemma_entries_map(e);
    lemma_entries_map(f);
    assert forall|q: Seq<char>| has_key(f, q) <==> has_key(e, q) by {
        if has_key(f, q) {
            let a = choose|a: int| 0 <= a < f.len() && #[trigger] f[a].0@ == q;
            assert(e[a].0@ == q);
        }
        if has_key(e, q) {
            let a = choose|a: int| 0 <= a < e.len() && #[trigger] e[a].0@ == q;
            assert(f[a].0@ == q);
        }
    }
    assert forall|q: Seq<char>| entries_map(f).contains_key(q) implies entries_map(f)[q] == entries_map(e).insert(e[i].0@, v)[q] by {
        let a = choose|a: int| 0 <= a < f.len() && #[trigger] f[a].0@ == q;
        assert(e[a].0@ == q);
    }
    assert(entries_map(f) =~= entries_map(e).insert(e[i].0@, v));
}

/// Removing the entry at an index removes its key from the map.
pub proof fn lemma_entries_remove<V>(e: Seq<(String, V)>, i: int)
    requires
        keys_distinct(e),
        0 <= i < e.len(),
    ensures
        keys_distinct(e.remove(i)),
        entries_map(e.remove(i)) == entries_map(e).remove(e[i].0@),
{
    let f = e.remove(i);
    let sh = |a: int| if a < i { a } else { a + 1 };
    assert forall|a: int, b: int| 0 <= a < f.len() && 0 <= b < f.len() && #[trigger] f[a].0@ == #[trigger] f[b].0@ implies a == b by {
        assert(f[a] == e[sh(a)] && f[b] == e[sh(b)]);
    }
    lemma_entries_map(e);
    lemma_entries_map(f);
    assert forall|q: Seq<char>| has_key(f, q) <==> has_key(e, q) && q != e[i].0@ by {
        if has_key(f, q) {
            let a = choose|a: int| 0 <= a < f.len() && #[trigger] f[a].0@ == q;
            assert(f[a] == e[sh(a)]);
            assert(e[sh(a)].0@ == q);
        }
        if has_key(e, q) && q != e[i].0@ {
            let a = choose|a: int| 0 <= a < e.len() && #[trigger] e[a].0@ == q;
            let b = if a < i { a } else { a - 1 };
            assert(f[b] == e[a]);
            assert(f[b].0@ == q);
        }
    }
    assert forall|q: Seq<char>| entries_map(f).contains_key(q) implies entries_map(f)[q] == entries_map(e).remove(e[i].0@)[q] by {
        let a = choose|a: int| 0 <= a < f.len() && #[trigger] f[a].0@ == q;
        assert(f[a] == e[sh(a)]);
        assert(e[sh(a)].0@ == q);
    }
    assert(entries_map(f) =~= entries_map(e).remove(e[i].0@));
}

impl<V> View for TextMap<V> {
    type V = Map<Seq<char>, V>;

    open spec fn view(&self) -> Map<Seq<char>, V> {
        entries_map(self.entries_spec())
    }
}

impl<V> TextMap<V> {
    /// The entries, in insertion order.
    pub closed spec fn entries_spec(&self) -> Seq<(String, V)> {
        self.entries@
    }

    #[verifier::type_invariant]
    closed spec fn distinct(&self) -> bool {
        keys_distinct(self.entries@)
    }

    /// The entries have distinct keys, and the map is what they denote
    /// (a no-op at run time).
    pub fn view_facts(&self)
        ensures
            keys_distinct(self.entries_spec()),
            forall|i: int| 0 <= i < self.entries_spec().len() ==> #[trigger] self@.contains_key(self.entries_spec()[i].0@)
                && self@[self.entries_spec()[i].0@] == self.entries_spec()[i].1,
            forall|k: Seq<char>| #[trigger] self@.contains_key(k) <==> has_key(self.entries_spec(), k),
            self@.dom().finite(),
            self@.len() == self.entries_spec().len(),
    {
        proof {
            use_type_invariant(self);
            lemma_entries_map(self.entries@);
            lemma_dom_len(self.entries@);
        }
    }

    /// An empty map.
    pub fn new() -> (r: Self)
        ensures
            r.entries_spec() == Seq::<(String, V)>::empty(),
            r@ == Map::<Seq<char>, V>::empty(),
    {
        let r = TextMap { entries: Vec::new() };
        assert(entries_map(r.entries@) =~= Map::<Seq<char>, V>::empty());
        r
    }

    /// The entries, in insertion order.
    pub fn entries(&self) -> (r: &Vec<(String, V)>)
        ensures
            r@ == self.entries_spec(),
            keys_distinct(r@),
    {
        proof {
            use_type_invariant(self);
        }
        &self.entries
    }

    /// Number of entries.
    pub fn len(&self) -> (r: usize)
        ensures
            r == self.entries_spec().len(),
            r == self@.len(),
    {
        self.view_facts();
        self.entries.len()
    }

    /// Position of `key`, if present.
    pub fn position(&self, key: &str) -> (r: Option<usize>)
        ensures
            match r {
                Some(i) => i < self.entries_spec().len() && self.entries_spec()[i as int].0@ == key@,
                None => !has_key(self.entries_spec(), key@),
            },
    {
        let mut i: usize = 0;
        while i < self.entries.len()
            invariant
                i <= self.entries@.len(),
                forall|j: int| 0 <= j < i ==> (#[trigger] self.entries@[j]).0@ != key@,
            decreases self.entries.len() - i,
        {
            if str_eq(self.entries[i].0.as_str(), key) {
                return Some(i);
            }
            i += 1;
        }
        None
    }

    /// The value stored under `key`.
    pub fn get(&self, key: &str) -> (r: Option<&V>)
        ensures
            match r {
                Some(v) => self@.contains_key(key@) && self@[key@] == *v,
                None => !self@.contains_key(key@),
            },
    {
        self.view_facts();
        match self.position(key) {
            Some(i) => Some(&self.entries[i].1),
            None => None,
        }
    }

    /// Whether `key` is present.
    pub fn contains_key(&self, key: &str) -> (r: bool)
        ensures
            r == self@.contains_key(key@),
    {
        self.view_facts();
        match self.position(key) {
            Some(i) => true,
            None => false,
        }
    }

    /// Store `value` under `key`, replacing (and returning) any previous
    /// value; a new key is appended after the existing ones.
    pub fn insert(&mut self, key: String, value: V) -> (r: Option<V>)
        ensures
            final(self)@ == old(self)@.insert(key@, value),
            match r {
                Some(v) => old(self)@.contains_key(key@) && old(self)@[key@] == v
                    && exists|i: int| 0 <= i < old(self).entries_spec().len()
                    && old(self).entries_spec()[i].0@ == key@
                    && final(self).entries_spec() == old(self).entries_spec().update(i, (old(self).entries_spec()[i].0, value)),
                None => !old(self)@.contains_key(key@)
                    && final(self).entries_spec() == old(self).entries_spec().push((key, value)),
            },
    {
        proof {
            use_type_invariant(&*self);
            lemma_entries_map(self.entries@);
        }
        let ghost before = self.entries@;
        match self.position(key.as_str()) {
            Some(i) => {
                let mut entries = Vec::new();
                std::mem::swap(&mut entries, &mut self.entries);
                let (k, old_v) = entries.remove(i);
                entries.insert(i, (k, value));
                assert(entries@ =~= before.update(i as int, (before[i as int].0, value)));
                proof {
                    lemma_entries_update(before, i as int, value);
                }
                self.entries = entries;
                Some(old_v)
            },
            None => {
                let mut entries = Vec::new();
                std::mem::swap(&mut entries, &mut self.entries);
                let ghost kk = key;
                entries.push((key, value));
                proof {
                    lemma_entries_push(before, kk, value);
                }
                self.entries = entries;
                None
            },
        }
    }

    /// Remove `key`, returning its value.
    pub fn remove(&mut self, key: &str) -> (r: Option<V>)
        ensures
            final(self)@ == old(self)@.remove(key@),
            match r {
                Some(v) => old(self)@.contains_key(key@) && old(self)@[key@] == v,
                None => !old(self)@.contains_key(key@),
            },
    {
        proof {
            use_type_invariant(&*self);
            lemma_entries_map(self.entries@);
        }
        let ghost before = self.entries@;
        match self.position(key) {
            Some(i) => {
                let mut entries = Vec::new();
                std::mem::swap(&mut entries, &mut self.entries);
                let (_, v) = entries.remove(i);
                proof {
                    lemma_entries_remove(before, i as int);
                }
                self.entries = entries;
                Some(v)
            },
            None => {
                assert(entries_map(before).remove(key@) =~= entries_map(before));
                None
            },
        }
    }
}

/// The map of distinct entries has as many keys as entries.
pub proof fn lemma_dom_len<V>(e: Seq<(String, V)>)
    requires
        keys_distinct(e),
    ensures
        entries_map(e).dom().finite(),
        entries_map(e).len() == e.len(),
    decreases e.len(),
{
    if e.len() == 0 {
        assert(entries_map(e) =~= Map::<Seq<char>, V>::empty());
    } else {
        let d = e.drop_last();
        assert(keys_distinct(d)) by {
            assert forall|i: int, j: int| 0 <= i < d.len() && 0 <= j < d.len() && #[trigger] d[i].0@ == #[trigger] d[j].0@ implies i == j by {
                assert(e[i].0@ == e[j].0@);
            }
        }
        lemma_dom_len(d);
        assert(!has_key(d, e.last().0@)) by {
            if has_key(d, e.last().0@) {
                let i = choose|i: int| 0 <= i < d.len() && #[trigger] d[i].0@ == e.last().0@;
                assert(e[i].0@ == e[e.len() - 1].0@);
            }
        }
        lemma_entries_push(d, e.last().0, e.last().1);
        assert(d.push((e.last().0, e.last().1)) =~= e);
    }
}

impl<V> Default for TextMap<V> {
    fn default() -> (r: Self)
        ensures
            r.entries_spec() == Seq::<(String, V)>::empty(),
            r@ == Map::<Seq<char>, V>::empty(),
    {
        TextMap::new()
    }
}

} // verus!
