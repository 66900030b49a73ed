//! A map from text keys to values, kept as two vectors without repeated keys.

use crate::text::{contains_text, occurs_in, same_text};
use vstd::prelude::*;

verus! {

/// Entries are stored in insertion order; a key occurs at most once.
pub struct Table<V> {
    keys: Vec<String>,
    vals: Vec<V>,
}

impl<V> Table<V> {
    pub closed spec fn key_seq(&self) -> Seq<Seq<char>> {
        self.keys@.map_values(|k: String| k@)
    }

    pub closed spec fn value_seq(&self) -> Seq<V> {
        self.vals@
    }

    pub closed spec fn wf(&self) -> bool {
        &&& self.keys@.len() == self.vals@.len()
        &&& forall|i: int, j: int|
            0 <= i < self.keys@.len() && 0 <= j < self.keys@.len() && i != j
                ==> #[trigger] self.keys@[i]@ != #[trigger] self.keys@[j]@
    }

    pub closed spec fn has(&self, k: Seq<char>) -> bool {
        exists|i: int| 0 <= i < self.keys@.len() && #[trigger] self.keys@[i]@ == k
    }

    pub closed spec fn index_of(&self, k: Seq<char>) -> int {
        choose|i: int| 0 <= i < self.keys@.len() && #[trigger] self.keys@[i]@ == k
    }

    /// The table as a map from keys to values.
    pub closed spec fn view(&self) -> Map<Seq<char>, V> {
        Map::new(|k: Seq<char>| self.has(k), |k: Seq<char>| self.vals@[self.index_of(k)])
    }

    /// The entries in storage order: keys and values side by side, each key
    /// once, and together exactly the map.
    pub proof fn lemma_entries(&self)
        requires
            self.wf(),
        ensures
            self.key_seq().len() == self.value_seq().len(),
            self.key_seq().no_duplicates(),
            forall|i: int|
                0 <= i < self.key_seq().len() ==> #[trigger] self.view().contains_key(self.key_seq()[i])
                    && self.view()[self.key_seq()[i]] == self.value_seq()[i],
            forall|k: Seq<char>| #[trigger] self.view().contains_key(k) ==> self.key_seq().contains(k),
    {
        assert forall|i: int| 0 <= i < self.key_seq().len() implies #[trigger] self.view().contains_key(self.key_seq()[i])
            && self.view()[self.key_seq()[i]] == self.value_seq()[i] by {
            self.lemma_index(i);
        }
        assert forall|k: Seq<char>| #[trigger] self.view().contains_key(k) implies self.key_seq().contains(k) by {
            let i = self.index_of(k);
            assert(self.key_seq()[i] == k);
        }
        assert forall|i: int, j: int| 0 <= i < j < self.key_seq().len() implies self.key_seq()[i] != self.key_seq()[j] by {
            assert(self.keys@[i]@ != self.keys@[j]@);
        }
    }

    proof fn lemma_index(&self, i: int)
        requires
            self.wf(),
            0 <= i < self.keys@.len(),
        ensures
            self.has(self.keys@[i]@),
            self.index_of(self.keys@[i]@) == i,
    {
        let k = self.keys@[i]@;
        assert(self.has(k));
        let j = self.index_of(k);
        if j != i {
            assert(self.keys@[i]@ != self.keys@[j]@);
        }
    }

    pub fn new() -> (t: Self)
        ensures
            t.wf(),
            t@ == Map::<Seq<char>, V>::empty(),
    {
        let t = Table { keys: Vec::new(), vals: Vec::new() };
        assert(t@ =~= Map::<Seq<char>, V>::empty());
        t
    }

    pub fn len(&self) -> (n: usize)
        requires
            self.wf(),
        ensures
            n == self.value_seq().len(),
    {
        self.vals.len()
    }

    /// The value stored at position `i`.
    pub fn value_at(&self, i: usize) -> (v: &V)
        requires
            self.wf(),
            i < self.value_seq().len(),
        ensures
            *v == self.value_seq()[i as int],
    {
        &self.vals[i]
    }

    /// The key stored at position `i`.
    pub fn key_at(&self, i: usize) -> (k: &String)
        requires
            self.wf(),
            i < self.value_seq().len(),
        ensures
            k@ == self.key_seq()[i as int],
    {
        &self.keys[i]
    }

    /// The position of `key`, if it is present.
    pub fn find(&self, key: &str) -> (r: Option<usize>)
        requires
            self.wf(),
        ensures
            match r {
                Some(i) => i < self.value_seq().len() && self.key_seq()[i as int] == key@
                    && self.view().contains_key(key@) && self.view()[key@] == self.value_seq()[i as int],
                None => !self.view().contains_key(key@),
            },
    {
        let mut i: usize = 0;
        while i < self.keys.len()
            invariant
                self.wf(),
                i <= self.keys@.len(),
                forall|j: int| 0 <= j < i ==> #[trigger] self.keys@[j]@ != key@,
            decreases self.keys@.len() - i,
        {
            if same_text(self.keys[i].as_str(), key) {
                proof {
                    self.lemma_index(i as int);
                }
                return Some(i);
            }
            i = i + 1;
        }
        None
    }

    /// The value stored under `key`.
    pub fn get(&self, key: &str) -> (r: Option<&V>)
        requires
            self.wf(),
        ensures
            match r {
                Some(v) => self.view().contains_key(key@) && *v == self.view()[key@],
                None => !self.view().contains_key(key@),
            },
    {
        match self.find(key) {
            Some(i) => Some(&self.vals[i]),
            None => None,
        }
    }

    /// Whether `key` is present.
    pub fn contains_key(&self, key: &str) -> (r: bool)
        requires
            self.wf(),
        ensures
            r == self.view().contains_key(key@),
    {
        self.find(key).is_some()
    }

    /// Stores `v` under `key`, replacing any value stored there.
    pub fn insert(&mut self, key: String, v: V)
        requires
            old(self).wf(),
        ensures
            final(self).wf(),
            final(self).view() == old(self).view().insert(key@, v),
    {
        match self.find(key.as_str()) {
            Some(i) => {
                self.set_value_at(i, v);
            },
            None => {
                let ghost before = *self;
                let ghost k0 = key@;
                self.keys.push(key);
                self.vals.push(v);
                proof {
                    let n = before.keys@.len();
                    assert forall|i: int, j: int|
                        0 <= i < self.keys@.len() && 0 <= j < self.keys@.len() && i != j
                            implies #[trigger] self.keys@[i]@ != #[trigger] self.keys@[j]@ by {
                        if i < n && j < n {
                            assert(self.keys@[i] == before.keys@[i]);
                            assert(self.keys@[j] == before.keys@[j]);
                        } else if i < n {
                            before.lemma_index(i);
                        } else {
                            before.lemma_index(j);
                        }
                    }
                    assert forall|k: Seq<char>| #[trigger] self.has(k) == (before.has(k) || k == k0) by {
                        if before.has(k) {
                            let j = before.index_of(k);
                            assert(self.keys@[j] == before.keys@[j]);
                        }
                        if self.has(k) && k != k0 {
                            let j = self.index_of(k);
                            assert(j < n);
                            assert(self.keys@[j] == before.keys@[j]);
                        }
                        if k == k0 {
                            assert(self.keys@[n as int]@ == k0);
                        }
                    }
                    assert forall|k: Seq<char>| #[trigger] self.has(k) implies self.vals@[self.index_of(k)]
                        == (if k == k0 { v } else { before.vals@[before.index_of(k)] }) by {
                        let j = self.index_of(k);
                        self.lemma_index(j);
                        if k != k0 {
                            assert(j < n);
                            assert(before.keys@[j] == self.keys@[j]);
                            before.lemma_index(j);
                        } else {
                            self.lemma_index(n as int);
                        }
                    }
                    assert(self.view() =~= before.view().insert(key@, v));
                }
            },
        }
    }

    /// Replaces the value at position `i`, keeping its key.
    pub fn set_value_at(&mut self, i: usize, v: V)
        requires
            old(self).wf(),
            i < old(self).value_seq().len(),
        ensures
            final(self).wf(),
            final(self).key_seq() == old(self).key_seq(),
            final(self).value_seq() == old(self).value_seq().update(i as int, v),
            final(self).view() == old(self).view().insert(old(self).key_seq()[i as int], v),
    {
        let ghost before = *self;
        self.vals.set(i, v);
        proof {
            assert forall|k: Seq<char>| self.has(k) == before.has(k) by {
                if before.has(k) {
                    let j = before.index_of(k);
                    assert(self.keys@[j]@ == k);
                }
                if self.has(k) {
                    let j = self.index_of(k);
                    assert(before.keys@[j]@ == k);
                }
            }
            assert forall|k: Seq<char>| #[trigger] self.has(k) implies self.index_of(k) == before.index_of(k) by {
                let j = self.index_of(k);
                self.lemma_index(j);
                before.lemma_index(j);
            }
            before.lemma_index(i as int);
            assert(self.key_seq() =~= before.key_seq());
            assert(self.view() =~= before.view().insert(before.key_seq()[i as int], v));
        }
    }

    /// Removes every entry whose key occurs in `text`, as
    /// `retain(|key, _| !text.contains(key))` does.
    pub fn remove_keys_in(&mut self, text: &str)
        requires
            old(self).wf(),
        ensures
            final(self).wf(),
            final(self).view() == old(self).view().remove_keys(
                Set::new(|k: Seq<char>| occurs_in(k, text@)),
            ),
    {
        let ghost before = *self;
        let ghost gone = Set::new(|k: Seq<char>| occurs_in(k, text@));
        let mut i: usize = 0;
        while i < self.keys.len()
            invariant
                self.wf(),
                i <= self.keys@.len(),
                gone == Set::new(|k: Seq<char>| occurs_in(k, text@)),
                forall|j: int| 0 <= j < i ==> !occurs_in(#[trigger] self.keys@[j]@, text@),
                forall|k: Seq<char>| #[trigger] self.has(k) ==> before.has(k),
                forall|k: Seq<char>| #[trigger] before.has(k) && !gone.contains(k) ==> self.has(k),
                forall|k: Seq<char>| #[trigger] self.has(k) ==> self.vals@[self.index_of(k)] == before.vals@[before.index_of(k)],
            decreases self.keys@.len() - i,
        {
            if contains_text(text, self.keys[i].as_str()) {
                let ghost mid = *self;
                let ghost removed = self.keys@[i as int]@;
                self.keys.remove(i);
                self.vals.remove(i);
                proof {
                    assert forall|a: int, b: int|
                        0 <= a < self.keys@.len() && 0 <= b < self.keys@.len() && a != b
                            implies #[trigger] self.keys@[a]@ != #[trigger] self.keys@[b]@ by {
                        let a0 = if a < i { a } else { a + 1 };
                        let b0 = if b < i { b } else { b + 1 };
                        assert(self.keys@[a] == mid.keys@[a0]);
                        assert(self.keys@[b] == mid.keys@[b0]);
                    }
                    assert forall|k: Seq<char>| #[trigger] self.has(k) implies mid.has(k) && k != removed
                        && self.vals@[self.index_of(k)] == mid.vals@[mid.index_of(k)] by {
                        let j = self.index_of(k);
                        self.lemma_index(j);
                        let j0 = if j < i { j } else { j + 1 };
                        assert(self.keys@[j] == mid.keys@[j0]);
                        mid.lemma_index(j0);
                        mid.lemma_index(i as int);
                    }
                    assert forall|k: Seq<char>| #[trigger] mid.has(k) && k != removed implies self.has(k) by {
                        let j0 = mid.index_of(k);
                        mid.lemma_index(j0);
                        assert(j0 != i);
                        let j = if j0 < i { j0 } else { j0 - 1 };
                        assert(self.keys@[j] == mid.keys@[j0]);
                    }
                    assert(gone.contains(removed));
                    assert forall|j: int| 0 <= j < i implies !occurs_in(#[trigger] self.keys@[j]@, text@) by {
                        assert(self.keys@[j] == mid.keys@[j]);
                    }
                }
            } else {
                i = i + 1;
            }
        }
        proof {
            assert forall|k: Seq<char>| #[trigger] self.has(k) implies !gone.contains(k) by {
                let j = self.index_of(k);
                assert(!occurs_in(self.keys@[j]@, text@));
            }
            assert(self.view() =~= before.view().remove_keys(gone));
        }
    }
}

} // verus!
