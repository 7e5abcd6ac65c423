//! A map from textual identifiers to values.

use crate::text::same_text;
use vstd::prelude::*;

verus! {

/// A map whose keys are texts.
pub struct Registry<V> {
    entries: Vec<(String, V)>,
}

/// Whether no two entries have the same key.
pub open spec fn distinct_keys<V>(entries: Seq<(String, V)>) -> bool {
    forall|i: int, j: int|
        0 <= i < j < entries.len() ==> (#[trigger] entries[i]).0@ != (#[trigger] entries[j]).0@
}

/// Whether some entry has the key `k`.
pub open spec fn has_key<V>(entries: Seq<(String, V)>, k: Seq<char>) -> bool {
    exists|i: int| 0 <= i < entries.len() && (#[trigger] entries[i]).0@ == k
}

/// Where the key `k` stands.
pub open spec fn key_index<V>(entries: Seq<(String, V)>, k: Seq<char>) -> int {
    choose|i: int| 0 <= i < entries.len() && (#[trigger] entries[i]).0@ == k
}

/// The map that a sequence of entries with distinct keys stands for.
pub open spec fn entries_map<V>(entries: Seq<(String, V)>) -> Map<Seq<char>, V> {
    Map::new(|k: Seq<char>| has_key(entries, k), |k: Seq<char>| entries[key_index(entries, k)].1)
}

/// With distinct keys, an entry's value is what the map holds at its key.
proof fn lemma_entry<V>(entries: Seq<(String, V)>, i: int)
    requires
        distinct_keys(entries),
        0 <= i < entries.len(),
    ensures
        entries_map(entries).contains_key(entries[i].0@),
        entries_map(entries)[entries[i].0@] == entries[i].1,
{
    let k = entries[i].0@;
    assert(has_key(entries, k));
    let j = key_index(entries, k);
    assert(0 <= j < entries.len() && entries[j].0@ == k);
    assert(i == j);
}

impl<V> View for Registry<V> {
    type V = Map<Seq<char>, V>;

    closed spec fn view(&self) -> Map<Seq<char>, V> {
        entries_map(self.entries@)
    }
}

impl<V> Registry<V> {
    #[verifier::type_invariant]
    spec fn well_formed(self) -> bool {
        distinct_keys(self.entries@)
    }

    /// The keys, in some order.
    pub closed spec fn keys(&self) -> Seq<Seq<char>> {
        Seq::new(self.entries@.len(), |i: int| self.entries@[i].0@)
    }

    /// A map with no keys.
    pub fn new() -> (r: Self)
        ensures
            r@ == Map::<Seq<char>, V>::empty(),
    {
        let r = Registry { entries: Vec::new() };
        assert(r@ =~= Map::<Seq<char>, V>::empty());
        r
    }

    /// Number of keys. The keys listed are those of the map, each once.
    pub fn len(&self) -> (n: usize)
        ensures
            n == self.keys().len(),
            self.keys().no_duplicates(),
            forall|k: Seq<char>| self.keys().contains(k) <==> self@.contains_key(k),
    {
        proof {
            use_type_invariant(self);
            assert forall|k: Seq<char>| self.keys().contains(k) <==> self@.contains_key(k) by {
                if self.keys().contains(k) {
                    let i = choose|i: int| 0 <= i < self.keys().len() && self.keys()[i] == k;
                    assert(self.entries@[i].0@ == k);
                }
                if self@.contains_key(k) {
                    let i = key_index(self.entries@, k);
                    assert(self.keys()[i] == k);
                }
            }
        }
        self.entries.len()
    }

    /// The value of the `i`-th key.
    pub fn value_at(&self, i: usize) -> (v: &V)
        requires
            i < self.keys().len(),
        ensures
            self@.contains_key(self.keys()[i as int]),
            *v == self@[self.keys()[i as int]],
    {
        proof {
            use_type_invariant(self);
            lemma_entry(self.entries@, i as int);
        }
        &self.entries[i].1
    }

    fn position(&self, id: &str) -> (r: Option<usize>)
        ensures
            match r {
                Some(i) => i < self.entries@.len() && self.entries@[i as int].0@ == id@,
                None => !has_key(self.entries@, id@),
            },
    {
        let mut i: usize = 0;
        while i < self.entries.len()
            invariant
                i <= self.entries@.len(),
                forall|j: int| 0 <= j < i ==> (#[trigger] self.entries@[j]).0@ != id@,
            decreases self.entries@.len() - i,
        {
            if same_text(self.entries[i].0.as_str(), id) {
                return Some(i);
            }
            i = i + 1;
        }
        None
    }

    /// The value of the key `id`.
    pub fn get(&self, id: &str) -> (r: Option<&V>)
        ensures
            match r {
                Some(v) => self@.contains_key(id@) && *v == self@[id@],
                None => !self@.contains_key(id@),
            },
    {
        proof {
            use_type_invariant(self);
        }
        match self.position(id) {
            Some(i) => {
                proof {
                    lemma_entry(self.entries@, i as int);
                }
                Some(&self.entries[i].1)
            },
            None => None,
        }
    }

    /// Whether `id` is a key.
    pub fn contains_key(&self, id: &str) -> (r: bool)
        ensures
            r == self@.contains_key(id@),
    {
        self.get(id).is_some()
    }

    /// Sets the value of the key `id`.
    pub fn insert(&mut self, id: String, value: V)
        ensures
            final(self)@ == old(self)@.insert(id@, value),
    {
        proof {
            use_type_invariant(&*self);
        }
        let found = self.position(id.as_str());
        let mut entries: Vec<(String, V)> = Vec::new();
        std::mem::swap(&mut entries, &mut self.entries);
        let ghost before = entries@;
        match found {
            Some(i) => {
                proof {
                    lemma_entry(before, i as int);
                }
                entries[i] = (id, value);
                proof {
                    assert(entries@ == before.update(i as int, (id, value)));
                    assert forall|a: int, b: int| 0 <= a < b < entries@.len() implies (
                    #[trigger] entries@[a]).0@ != (#[trigger] entries@[b]).0@ by {
                        assert(entries@[a].0@ == before[a].0@);
                        assert(entries@[b].0@ == before[b].0@);
                    }
                }
            },
            None => {
                entries.push((id, value));
            },
        }
        proof {
            let after = entries@;
            assert(distinct_keys(after));
            let target = entries_map(before).insert(id@, value);
            assert forall|k: Seq<char>| has_key(after, k) <==> target.contains_key(k) by {
                if has_key(before, k) {
                    let i = key_index(before, k);
                    assert(after[i].0@ == k);
                }
                if k == id@ {
                    if found is Some {
                        assert(after[found->0 as int].0@ == k);
                    } else {
                        assert(after[before.len() as int].0@ == k);
                    }
                }
                if has_key(after, k) && k != id@ {
                    let i = key_index(after, k);
                    assert(before[i].0@ == k);
                }
            }
            assert forall|k: Seq<char>| has_key(after, k) implies entries_map(after)[k]
                == target[k] by {
                let i = key_index(after, k);
                assert(after[i].0@ == k);
                if k != id@ {
                    assert(before[i].0@ == k);
                    lemma_entry(before, i);
                }
            }
            assert(entries_map(after) =~= target);
        }
        self.entries = entries;
    }

    /// Removes the key `id` with its value, where it is one.
    pub fn remove(&mut self, id: &str)
        ensures
            final(self)@ == old(self)@.remove(id@),
    {
        proof {
            use_type_invariant(&*self);
        }
        let found = self.position(id);
        let mut entries: Vec<(String, V)> = Vec::new();
        std::mem::swap(&mut entries, &mut self.entries);
        let ghost before = entries@;
        if let Some(i) = found {
            let _gone = entries.remove(i);
            proof {
                let after = entries@;
                let at = i as int;
                assert(after == before.remove(at));
                assert forall|a: int| 0 <= a < after.len() implies (#[trigger] after[a])
                    == before[if a < at { a } else { a + 1 }] by {}
                assert(distinct_keys(after));
                let target = entries_map(before).remove(id@);
                assert forall|k: Seq<char>| has_key(after, k) <==> target.contains_key(k) by {
                    if has_key(after, k) {
                        let a = key_index(after, k);
                        assert(after[a].0@ == k);
                        let b = if a < at { a } else { a + 1 };
                        assert(before[b].0@ == k);
                        assert(before[at].0@ == id@);
                    }
                    if has_key(before, k) && k != id@ {
                        let b = key_index(before, k);
                        assert(before[b].0@ == k);
                        let a = if b < at { b } else { b - 1 };
                        assert(after[a].0@ == k);
                    }
                }
                assert forall|k: Seq<char>| has_key(after, k) implies entries_map(after)[k]
                    == target[k] by {
                    let a = key_index(after, k);
                    assert(after[a].0@ == k);
                    let b = if a < at { a } else { a + 1 };
                    assert(before[b] == after[a]);
                    lemma_entry(before, b);
                }
                assert(entries_map(after) =~= target);
            }
        } else {
            assert(entries_map(before) =~= entries_map(before).remove(id@));
        }
        self.entries = entries;
    }

    /// Removes every key.
    pub fn clear(&mut self)
        ensures
            final(self)@ == Map::<Seq<char>, V>::empty(),
    {
        self.entries = Vec::new();
        assert(self@ =~= Map::<Seq<char>, V>::empty());
    }
}

} // verus!
