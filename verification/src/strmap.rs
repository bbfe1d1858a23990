//! A map keyed by strings, kept as a list of entries with distinct keys.
//! It stands where the package documents hold name-keyed maps.
use vstd::prelude::*;

verus! {

/// Entry `i` of `s` has the key `k`.
pub open spec fn key_at<V>(s: Seq<(String, V)>, i: int, k: Seq<char>) -> bool {
    0 <= i < s.len() && s[i].0@ == k
}

/// No two entries of `s` have the same key.
pub open spec fn distinct_keys<V>(s: Seq<(String, V)>) -> bool {
    forall|i: int, j: int| 0 <= i < j < s.len() ==> s[i].0@ != s[j].0@
}

/// The map that the entries `s` stand for: each key to the value next to it.
pub open spec fn pairs_map<V>(s: Seq<(String, V)>) -> Map<Seq<char>, V> {
    Map::new(
        |k: Seq<char>| exists|i: int| key_at(s, i, k),
        |k: Seq<char>| s[choose|i: int| key_at(s, i, k)].1,
    )
}

/// With distinct keys, the value of the key of entry `i` is the value of entry `i`.
pub proof fn lemma_pairs_map_at<V>(s: Seq<(String, V)>, i: int)
    requires
        distinct_keys(s),
        0 <= i < s.len(),
    ensures
        pairs_map(s).dom().contains(s[i].0@),
        pairs_map(s)[s[i].0@] == s[i].1,
{
    let k: Seq<char> = s[i].0@;
    assert(key_at(s, i, k));
    let j: int = choose|j: int| key_at(s, j, k);
    assert(key_at(s, j, k));
    if j != i {
        if j < i {
            assert(s[j].0@ != s[i].0@);
        } else {
            assert(s[i].0@ != s[j].0@);
        }
    }
}

/// Appending an entry with a new key adds that key to the map.
pub proof fn lemma_pairs_map_push<V>(s: Seq<(String, V)>, key: String, value: V)
    requires
        distinct_keys(s),
        !pairs_map(s).dom().contains(key@),
    ensures
        distinct_keys(s.push((key, value))),
        pairs_map(s.push((key, value))) == pairs_map(s).insert(key@, value),
{
    let t: Seq<(String, V)> = s.push((key, value));
    assert forall|i: int, j: int| 0 <= i < j < t.len() implies t[i].0@ != t[j].0@ by {
        if j == s.len() {
            if t[i].0@ == key@ {
                assert(key_at(s, i, key@));
            }
        }
    }
    lemma_pairs_map_at(t, s.len() as int);
    assert forall|k: Seq<char>| #[trigger] pairs_map(t).dom().contains(k) <==> pairs_map(
        s,
    ).insert(key@, value).dom().contains(k) by {
        if pairs_map(s).dom().contains(k) {
            let i: int = choose|i: int| key_at(s, i, k);
            assert(key_at(t, i, k));
        }
        if pairs_map(t).dom().contains(k) && k != key@ {
            let i: int = choose|i: int| key_at(t, i, k);
            assert(key_at(s, i, k));
        }
    }
    assert forall|k: Seq<char>| #[trigger] pairs_map(t).dom().contains(k) implies pairs_map(t)[k]
        == pairs_map(s).insert(key@, value)[k] by {
        if k != key@ {
            let i: int = choose|i: int| key_at(t, i, k);
            assert(key_at(s, i, k));
            lemma_pairs_map_at(t, i);
            lemma_pairs_map_at(s, i);
        }
    }
    assert(pairs_map(t) =~= pairs_map(s).insert(key@, value));
}

/// Replacing the value of entry `i`, keeping its key, replaces the value of that key.
pub proof fn lemma_pairs_map_update<V>(s: Seq<(String, V)>, i: int, key: String, value: V)
    requires
        distinct_keys(s),
        0 <= i < s.len(),
        s[i].0@ == key@,
    ensures
        distinct_keys(s.update(i, (key, value))),
        pairs_map(s.update(i, (key, value))) == pairs_map(s).insert(key@, value),
{
    let t: Seq<(String, V)> = s.update(i, (key, value));
    assert forall|a: int, b: int| 0 <= a < b < t.len() implies t[a].0@ != t[b].0@ by {
        assert(s[a].0@ != s[b].0@);
    }
    lemma_pairs_map_at(t, i);
    lemma_pairs_map_at(s, i);
    assert forall|k: Seq<char>| #[trigger] pairs_map(t).dom().contains(k) <==> pairs_map(
        s,
    ).insert(key@, value).dom().contains(k) by {
        if pairs_map(s).dom().contains(k) {
            let j: int = choose|j: int| key_at(s, j, k);
            assert(key_at(t, j, k));
        }
        if pairs_map(t).dom().contains(k) {
            let j: int = choose|j: int| key_at(t, j, k);
            assert(key_at(s, j, k));
        }
    }
    assert forall|k: Seq<char>| #[trigger] pairs_map(t).dom().contains(k) implies pairs_map(t)[k]
        == pairs_map(s).insert(key@, value)[k] by {
        if k != key@ {
            let j: int = choose|j: int| key_at(t, j, k);
            assert(key_at(s, j, k));
            lemma_pairs_map_at(t, j);
            lemma_pairs_map_at(s, j);
        }
    }
    assert(pairs_map(t) =~= pairs_map(s).insert(key@, value));
}

/// A map from strings to values, kept as entries with distinct keys in the
/// order in which the keys were first inserted.
#[derive(Debug)]
pub struct StringMap<V> {
    entries: Vec<(String, V)>,
}

impl<V> View for StringMap<V> {
    type V = Map<Seq<char>, V>;

    closed spec fn view(&self) -> Map<Seq<char>, V> {
        pairs_map(self.entries@)
    }
}

impl<V> StringMap<V> {
    #[verifier::type_invariant]
    spec fn keys_are_distinct(self) -> bool {
        distinct_keys(self.entries@)
    }

    /// The empty map.
    pub fn new() -> (r: Self)
        ensures
            r@ == Map::<Seq<char>, V>::empty(),
    {
        let r: Self = StringMap { entries: Vec::new() };
        assert(r@ =~= Map::<Seq<char>, V>::empty());
        r
    }

    /// The position of the entry whose key is `key`, if there is one.
    fn find(&self, key: &String) -> (r: Option<usize>)
        ensures
            match r {
                Some(i) => key_at(self.entries@, i as int, key@),
                None => !self@.dom().contains(key@),
            },
    {
        let mut i: usize = 0;
        while i < self.entries.len()
            invariant
                i <= self.entries@.len(),
                forall|j: int| 0 <= j < i ==> self.entries@[j].0@ != key@,
            decreases self.entries@.len() - i,
        {
            if self.entries[i].0 == *key {
                return Some(i);
            }
            i = i + 1;
        }
        proof {
            if self@.dom().contains(key@) {
                let j: int = choose|j: int| key_at(self.entries@, j, key@);
                assert(self.entries@[j].0@ == key@);
            }
        }
        None
    }

    /// Whether `key` has a value.
    pub fn contains_key(&self, key: &String) -> (r: bool)
        ensures
            r == self@.dom().contains(key@),
    {
        proof {
            use_type_invariant(self);
        }
        match self.find(key) {
            Some(i) => {
                proof {
                    lemma_pairs_map_at(self.entries@, i as int);
                }
                true
            },
            None => false,
        }
    }

    /// The value of `key`, if it has one.
    pub fn get(&self, key: &String) -> (r: Option<&V>)
        ensures
            match r {
                Some(v) => self@.dom().contains(key@) && *v == self@[key@],
                None => !self@.dom().contains(key@),
            },
    {
        proof {
            use_type_invariant(self);
        }
        match self.find(key) {
            Some(i) => {
                proof {
                    lemma_pairs_map_at(self.entries@, i as int);
                }
                Some(&self.entries[i].1)
            },
            None => None,
        }
    }

    /// Gives `key` the value `value`, in place of any value it had.
    pub fn insert(&mut self, key: String, value: V)
        ensures
            final(self)@ == old(self)@.insert(key@, value),
            old(self)@.dom().contains(key@) ==> exists|i: int|
                key_at(old(self).entry_list(), i, key@) && final(self).entry_list() == old(
                    self,
                ).entry_list().update(i, (key, value)),
            !old(self)@.dom().contains(key@) ==> final(self).entry_list() == old(
                self,
            ).entry_list().push((key, value)),
    {
        proof {
            use_type_invariant(&*self);
        }
        let found: Option<usize> = self.find(&key);
        let ghost old_entries: Seq<(String, V)> = self.entries@;
        let ghost entry: (String, V) = (key, value);
        let mut entries: Vec<(String, V)> = Vec::new();
        std::mem::swap(&mut entries, &mut self.entries);
        match found {
            Some(i) => {
                proof {
                    lemma_pairs_map_update(entries@, i as int, key, value);
                }
                entries.set(i, (key, value));
            },
            None => {
                proof {
                    lemma_pairs_map_push(entries@, key, value);
                }
                entries.push((key, value));
            },
        }
        self.entries = entries;
        proof {
            if let Some(i) = found {
                assert(key_at(old_entries, i as int, entry.0@));
                assert(self.entries@ =~= old_entries.update(i as int, entry));
                assert(key_at(old(self).entry_list(), i as int, entry.0@) && self.entry_list() == old(
                    self,
                ).entry_list().update(i as int, entry));
                assert(exists|j: int|
                    key_at(old(self).entry_list(), j, entry.0@) && self.entry_list() == old(
                        self,
                    ).entry_list().update(j, entry));
            }
        }
    }

    /// Whether the map has no key.
    pub fn is_empty(&self) -> (r: bool)
        ensures
            r == (self@ == Map::<Seq<char>, V>::empty()),
    {
        proof {
            use_type_invariant(self);
        }
        if self.entries.len() == 0 {
            assert(self@ =~= Map::<Seq<char>, V>::empty());
            true
        } else {
            proof {
                lemma_pairs_map_at(self.entries@, 0int);
            }
            assert(self@.dom().contains(self.entries@[0].0@));
            false
        }
    }

    /// The number of keys.
    pub fn len(&self) -> (r: usize)
        ensures
            r == self.entry_list().len(),
            r == self@.dom().len(),
    {
        proof {
            use_type_invariant(self);
            let keys: Seq<Seq<char>> = self.entries@.map_values(|e: (String, V)| e.0@);
            assert(keys.no_duplicates()) by {
                assert forall|i: int, j: int|
                    0 <= i < keys.len() && 0 <= j < keys.len() && i != j implies keys[i]
                    != keys[j] by {
                    if i < j {
                        assert(self.entries@[i].0@ != self.entries@[j].0@);
                    } else {
                        assert(self.entries@[j].0@ != self.entries@[i].0@);
                    }
                }
            }
            keys.unique_seq_to_set();
            assert forall|k: Seq<char>| #[trigger] keys.to_set().contains(k) <==> self@.dom().contains(
                k,
            ) by {
                if keys.to_set().contains(k) {
                    let i: int = choose|i: int| 0 <= i < keys.len() && keys[i] == k;
                    assert(key_at(self.entries@, i, k));
                }
                if self@.dom().contains(k) {
                    let i: int = choose|i: int| key_at(self.entries@, i, k);
                    assert(keys[i] == k);
                }
            }
            assert(keys.to_set() =~= self@.dom());
        }
        self.entries.len()
    }

    /// The entries, in insertion order of their keys.
    pub closed spec fn entry_list(&self) -> Seq<(String, V)> {
        self.entries@
    }

    /// The entries, in insertion order of their keys.
    pub fn entries(&self) -> (r: &Vec<(String, V)>)
        ensures
            r@ == self.entry_list(),
            distinct_keys(r@),
            pairs_map(r@) == self@,
    {
        proof {
            use_type_invariant(self);
        }
        &self.entries
    }

    /// The entries, in insertion order of their keys, consuming the map.
    pub fn into_entries(self) -> (r: Vec<(String, V)>)
        ensures
            r@ == self.entry_list(),
            distinct_keys(r@),
            pairs_map(r@) == self@,
    {
        proof {
            use_type_invariant(&self);
        }
        self.entries
    }
}

impl<V: Clone> StringMap<V> {
    /// A copy of the map: the same keys, in the same order, each with a clone
    /// of its value.
    pub fn clone_map(&self) -> (r: Self)
        ensures
            r.entry_list().len() == self.entry_list().len(),
            forall|i: int|
                0 <= i < self.entry_list().len() ==> #[trigger] r.entry_list()[i].0
                    == self.entry_list()[i].0 && cloned(
                    self.entry_list()[i].1,
                    r.entry_list()[i].1,
                ),
            r@.dom() == self@.dom(),
            forall|k: Seq<char>| #[trigger] self@.dom().contains(k) ==> cloned(self@[k], r@[k]),
    {
        proof {
            use_type_invariant(self);
        }
        let mut entries: Vec<(String, V)> = Vec::new();
        let mut i: usize = 0;
        while i < self.entries.len()
            invariant
                i <= self.entries@.len(),
                distinct_keys(self.entries@),
                entries@.len() == i,
                forall|j: int|
                    0 <= j < i ==> #[trigger] entries@[j].0 == self.entries@[j].0 && cloned(
                        self.entries@[j].1,
                        entries@[j].1,
                    ),
            decreases self.entries@.len() - i,
        {
            let key: String = self.entries[i].0.clone();
            let value: V = self.entries[i].1.clone();
            entries.push((key, value));
            i = i + 1;
        }
        let r: Self = StringMap { entries };
        assert forall|k: Seq<char>| #[trigger] r@.dom().contains(k) <==> self@.dom().contains(k) by {
            if r@.dom().contains(k) {
                let j: int = choose|j: int| key_at(r.entries@, j, k);
                assert(key_at(self.entries@, j, k));
            }
            if self@.dom().contains(k) {
                let j: int = choose|j: int| key_at(self.entries@, j, k);
                assert(key_at(r.entries@, j, k));
            }
        }
        assert(r@.dom() =~= self@.dom());
        assert forall|k: Seq<char>| #[trigger] self@.dom().contains(k) implies cloned(
            self@[k],
            r@[k],
        ) by {
            let j: int = choose|j: int| key_at(self.entries@, j, k);
            assert(key_at(r.entries@, j, k));
            lemma_pairs_map_at(self.entries@, j);
            lemma_pairs_map_at(r.entries@, j);
        }
        r
    }

}

impl<V: Clone> Clone for StringMap<V> {
    /// A copy with the same keys in the same order; `clone_map` states that
    /// each value is a clone.
    fn clone(&self) -> (r: Self)
        ensures
            r.entry_list().len() == self.entry_list().len(),
            forall|i: int|
                0 <= i < self.entry_list().len() ==> #[trigger] r.entry_list()[i].0
                    == self.entry_list()[i].0,
            r@.dom() == self@.dom(),
    {
        self.clone_map()
    }
}

} // verus!
