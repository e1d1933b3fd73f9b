use vstd::prelude::*;

use crate::hash::CryptoHash;

verus! {

/// A map from identities to values, kept as a list of entries whose keys are
/// pairwise distinct. Lookups are by exact identity; entries have no order
/// that the map promises.
pub struct Store<T> {
    entries: Vec<(CryptoHash, T)>,
}

/// Keys of a list of entries are pairwise distinct.
pub open spec fn keys_distinct<T>(s: Seq<(CryptoHash, T)>) -> bool {
    forall|i: int, j: int| 0 <= i < j < s.len() ==> s[i].0@ != s[j].0@
}

/// The list has an entry under key `k`.
pub open spec fn holds_key<T>(s: Seq<(CryptoHash, T)>, k: Seq<u8>) -> bool {
    exists|i: int| 0 <= i < s.len() && #[trigger] s[i].0@ == k
}

/// Position of the entry under key `k`.
pub open spec fn slot_of<T>(s: Seq<(CryptoHash, T)>, k: Seq<u8>) -> int {
    choose|i: int| 0 <= i < s.len() && #[trigger] s[i].0@ == k
}

/// The map that a list of entries with distinct keys stands for.
pub open spec fn map_of<T>(s: Seq<(CryptoHash, T)>) -> Map<Seq<u8>, T> {
    Map::new(|k: Seq<u8>| holds_key(s, k), |k: Seq<u8>| s[slot_of(s, k)].1)
}

proof fn lemma_entry_in_map<T>(s: Seq<(CryptoHash, T)>, i: int)
    requires
        keys_distinct(s),
        0 <= i < s.len(),
    ensures
        map_of(s).contains_key(s[i].0@),
        map_of(s)[s[i].0@] == s[i].1,
{
    let k = s[i].0@;
    assert(holds_key(s, k));
    let j = slot_of(s, k);
    assert(s[j].0@ == k);
    if j != i {
        if j < i {
            assert(s[j].0@ != s[i].0@);
        } else {
            assert(s[i].0@ != s[j].0@);
        }
    }
}

proof fn lemma_map_of_update<T>(s: Seq<(CryptoHash, T)>, i: int, k: CryptoHash, v: T)
    requires
        keys_distinct(s),
        0 <= i < s.len(),
        s[i].0@ == k@,
    ensures
        keys_distinct(s.update(i, (k, v))),
        map_of(s.update(i, (k, v))) == map_of(s).insert(k@, v),
{
    let t = s.update(i, (k, v));
    assert forall|a: int, b: int| 0 <= a < b < t.len() implies t[a].0@ != t[b].0@ by {
        assert(t[a].0@ == s[a].0@);
        assert(t[b].0@ == s[b].0@);
    }
    assert forall|key: Seq<u8>| #[trigger] map_of(t).contains_key(key) == map_of(s).insert(k@, v).contains_key(key) by {
        if holds_key(s, key) {
            let j = slot_of(s, key);
            assert(t[j].0@ == key);
        }
        if holds_key(t, key) {
            let j = slot_of(t, key);
            assert(s[j].0@ == key);
        }
    }
    assert forall|key: Seq<u8>| #[trigger] map_of(t).contains_key(key) implies map_of(t)[key] == map_of(s).insert(k@, v)[key] by {
        let j = slot_of(t, key);
        lemma_entry_in_map(t, j);
        if key != k@ {
            assert(j != i);
            assert(t[j] == s[j]);
            lemma_entry_in_map(s, j);
        }
    }
    assert(map_of(t) =~= map_of(s).insert(k@, v));
}

proof fn lemma_map_of_push<T>(s: Seq<(CryptoHash, T)>, k: CryptoHash, v: T)
    requires
        keys_distinct(s),
        !holds_key(s, k@),
    ensures
        keys_distinct(s.push((k, v))),
        map_of(s.push((k, v))) == map_of(s).insert(k@, v),
{
    let t = s.push((k, v));
    assert forall|a: int, b: int| 0 <= a < b < t.len() implies t[a].0@ != t[b].0@ by {
        if b == s.len() {
            assert(s[a].0@ == t[a].0@);
        }
    }
    assert forall|key: Seq<u8>| #[trigger] map_of(t).contains_key(key) == map_of(s).insert(k@, v).contains_key(key) by {
        if holds_key(s, key) {
            let j = slot_of(s, key);
            assert(t[j].0@ == key);
        }
        if holds_key(t, key) && key != k@ {
            let j = slot_of(t, key);
            assert(s[j].0@ == key);
        }
        if key == k@ {
            assert(t[s.len() as int].0@ == key);
        }
    }
    assert forall|key: Seq<u8>| #[trigger] map_of(t).contains_key(key) implies map_of(t)[key] == map_of(s).insert(k@, v)[key] by {
        let j = slot_of(t, key);
        lemma_entry_in_map(t, j);
        if key != k@ {
            assert(j != s.len());
            assert(t[j] == s[j]);
            lemma_entry_in_map(s, j);
        } else {
            lemma_entry_in_map(t, s.len() as int);
        }
    }
    assert(map_of(t) =~= map_of(s).insert(k@, v));
}

proof fn lemma_map_of_remove<T>(s: Seq<(CryptoHash, T)>, i: int)
    requires
        keys_distinct(s),
        0 <= i < s.len(),
    ensures
        keys_distinct(s.remove(i)),
        map_of(s.remove(i)) == map_of(s).remove(s[i].0@),
{
    let t = s.remove(i);
    let k = s[i].0@;
    assert forall|a: int| 0 <= a < t.len() implies #[trigger] t[a] == s[if a < i { a } else { a + 1 }] by {}
    assert forall|a: int, b: int| 0 <= a < b < t.len() implies t[a].0@ != t[b].0@ by {
        let a2 = if a < i { a } else { a + 1 };
        let b2 = if b < i { b } else { b + 1 };
        assert(t[a] == s[a2]);
        assert(t[b] == s[b2]);
    }
    assert forall|key: Seq<u8>| #[trigger] map_of(t).contains_key(key) == map_of(s).remove(k).contains_key(key) by {
        if holds_key(s, key) && key != k {
            let j = slot_of(s, key);
            assert(j != i);
            let j2 = if j < i { j } else { j - 1 };
            assert(t[j2] == s[j]);
        }
        if holds_key(t, key) {
            let j = slot_of(t, key);
            let j2 = if j < i { j } else { j + 1 };
            assert(t[j] == s[j2]);
            assert(s[j2].0@ == key);
            if key == k {
                assert(j2 != i);
                if j2 < i {
                    assert(s[j2].0@ != s[i].0@);
                } else {
                    assert(s[i].0@ != s[j2].0@);
                }
            }
        }
    }
    assert forall|key: Seq<u8>| #[trigger] map_of(t).contains_key(key) implies map_of(t)[key] == map_of(s).remove(k)[key] by {
        let j = slot_of(t, key);
        lemma_entry_in_map(t, j);
        let j2 = if j < i { j } else { j + 1 };
        assert(t[j] == s[j2]);
        lemma_entry_in_map(s, j2);
    }
    assert(map_of(t) =~= map_of(s).remove(k));
}

impl<T> Store<T> {
    #[verifier::type_invariant]
    spec fn well_formed(self) -> bool {
        keys_distinct(self.entries@)
    }
}

impl<T: Clone> Clone for Store<T> {
    /// A copy under the same keys, each value cloned.
    fn clone(&self) -> (r: Store<T>)
        ensures
            r@.dom() == self@.dom(),
            forall|k: Seq<u8>| #[trigger] r@.contains_key(k) ==> cloned(self@[k], r@[k]),
    {
        proof {
            use_type_invariant(self);
        }
        let mut entries: Vec<(CryptoHash, T)> = Vec::new();
        let mut i: usize = 0;
        while i < self.entries.len()
            invariant
                0 <= i <= self.entries@.len(),
                keys_distinct(self.entries@),
                entries@.len() == i,
                forall|k: int| 0 <= k < i ==> #[trigger] entries@[k].0@ == self.entries@[k].0@,
                forall|k: int| 0 <= k < i ==> cloned(self.entries@[k].1, #[trigger] entries@[k].1),
            decreases self.entries@.len() - i,
        {
            let key = self.entries[i].0;
            let value = self.entries[i].1.clone();
            entries.push((key, value));
            i = i + 1;
        }
        let r = Store { entries };
        proof {
            let a = r.entries@;
            let b = self.entries@;
            assert forall|x: int, y: int| 0 <= x < y < a.len() implies a[x].0@ != a[y].0@ by {
                assert(a[x].0@ == b[x].0@);
                assert(a[y].0@ == b[y].0@);
            }
            assert forall|k: Seq<u8>| holds_key(a, k) == holds_key(b, k) by {
                if holds_key(a, k) {
                    let j = slot_of(a, k);
                    assert(b[j].0@ == k);
                }
                if holds_key(b, k) {
                    let j = slot_of(b, k);
                    assert(a[j].0@ == k);
                }
            }
            assert(r@.dom() =~= self@.dom());
            assert forall|k: Seq<u8>| #[trigger] r@.contains_key(k) implies cloned(self@[k], r@[k]) by {
                let j = slot_of(a, k);
                lemma_entry_in_map(a, j);
                lemma_entry_in_map(b, j);
            }
        }
        r
    }
}

impl<T> View for Store<T> {
    type V = Map<Seq<u8>, T>;

    closed spec fn view(&self) -> Map<Seq<u8>, T> {
        map_of(self.entries@)
    }
}

impl<T> Store<T> {
    /// Number of entries held.
    pub closed spec fn count(&self) -> nat {
        self.entries@.len()
    }

    /// An empty map.
    pub fn new() -> (r: Store<T>)
        ensures
            r@ == Map::<Seq<u8>, T>::empty(),
    {
        let r = Store { entries: Vec::new() };
        assert(r@ =~= Map::<Seq<u8>, T>::empty());
        r
    }

    fn find(&self, k: &CryptoHash) -> (r: Option<usize>)
        ensures
            match r {
                Some(i) => i < self.entries@.len() && self.entries@[i as int].0@ == k@,
                None => !holds_key(self.entries@, k@),
            },
    {
        let mut i: usize = 0;
        while i < self.entries.len()
            invariant
                0 <= i <= self.entries@.len(),
                forall|j: int| 0 <= j < i ==> self.entries@[j].0@ != k@,
            decreases self.entries@.len() - i,
        {
            if self.entries[i].0 == *k {
                return Some(i);
            }
            i = i + 1;
        }
        None
    }

    /// The entries, in no promised order; their keys are distinct.
    pub fn entries(&self) -> (r: &Vec<(CryptoHash, T)>)
        ensures
            keys_distinct(r@),
            map_of(r@) == self@,
    {
        proof {
            use_type_invariant(self);
        }
        &self.entries
    }

    /// Whether `k` has an entry.
    pub fn contains_key(&self, k: &CryptoHash) -> (r: bool)
        ensures
            r == self@.contains_key(k@),
    {
        self.find(k).is_some()
    }

    /// The value under `k`, if any.
    pub fn get(&self, k: &CryptoHash) -> (r: Option<&T>)
        ensures
            match r {
                Some(v) => self@.contains_key(k@) && *v == self@[k@],
                None => !self@.contains_key(k@),
            },
    {
        proof {
            use_type_invariant(self);
        }
        match self.find(k) {
            Some(i) => {
                proof {
                    lemma_entry_in_map(self.entries@, i as int);
                }
                Some(&self.entries[i].1)
            },
            None => None,
        }
    }

    /// Sets the value under `k`, replacing any earlier one.
    pub fn insert(&mut self, k: CryptoHash, v: T)
        ensures
            final(self)@ == old(self)@.insert(k@, v),
    {
        proof {
            use_type_invariant(&*self);
        }
        let found = self.find(&k);
        let mut entries: Vec<(CryptoHash, T)> = Vec::new();
        std::mem::swap(&mut entries, &mut self.entries);
        match found {
            Some(i) => {
                proof {
                    lemma_map_of_update(entries@, i as int, k, v);
                }
                entries.set(i, (k, v));
            },
            None => {
                proof {
                    lemma_map_of_push(entries@, k, v);
                }
                entries.push((k, v));
            },
        }
        self.entries = entries;
    }

    /// Drops the entry under `k`; no effect where there is none.
    pub fn remove(&mut self, k: &CryptoHash)
        ensures
            final(self)@ == old(self)@.remove(k@),
    {
        proof {
            use_type_invariant(&*self);
        }
        match self.find(k) {
            Some(i) => {
                let mut entries: Vec<(CryptoHash, T)> = Vec::new();
                std::mem::swap(&mut entries, &mut self.entries);
                proof {
                    lemma_map_of_remove(entries@, i as int);
                }
                entries.remove(i);
                self.entries = entries;
            },
            None => {
                assert(old(self)@ =~= old(self)@.remove(k@));
            },
        }
    }

    /// Takes some entry out of the map, or gives `None` when it is empty.
    pub fn pop_entry(&mut self) -> (r: Option<(CryptoHash, T)>)
        ensures
            match r {
                Some((k, v)) => old(self)@.contains_key(k@) && old(self)@[k@] == v
                    && final(self)@ == old(self)@.remove(k@)
                    && final(self).count() + 1 == old(self).count(),
                None => old(self)@ == Map::<Seq<u8>, T>::empty() && final(self)@ == old(self)@,
            },
    {
        proof {
            use_type_invariant(&*self);
        }
        let mut entries: Vec<(CryptoHash, T)> = Vec::new();
        std::mem::swap(&mut entries, &mut self.entries);
        let ghost s = entries@;
        let r = entries.pop();
        proof {
            if s.len() > 0 {
                let i = s.len() - 1;
                lemma_entry_in_map(s, i);
                lemma_map_of_remove(s, i);
                assert(s.remove(i) =~= entries@);
            } else {
                assert(map_of(s) =~= Map::<Seq<u8>, T>::empty());
            }
        }
        self.entries = entries;
        r
    }
}

} // verus!
