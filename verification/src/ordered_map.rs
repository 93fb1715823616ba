//! A map from text keys to values that remembers the order of first insertion.

use vstd::prelude::*;

verus! {

/// A map from text keys to values, in the order in which the keys came.
#[derive(Debug, PartialEq)]
pub struct OrderedMap<V> {
    pub entries: Vec<(String, V)>,
}

/// The index of the first entry whose key is `key`, or the number of entries.
pub open spec fn key_index<V>(entries: Seq<(String, V)>, key: Seq<char>, from: int) -> int
    decreases entries.len() - from,
{
    if from < 0 || from >= entries.len() {
        entries.len() as int
    } else if entries[from].0@ == key {
        from
    } else {
        key_index(entries, key, from + 1)
    }
}

/// The index of a key is the first index that holds it.
pub proof fn lemma_key_index<V>(entries: Seq<(String, V)>, key: Seq<char>, from: int)
    requires
        0 <= from <= entries.len(),
    ensures
        from <= key_index(entries, key, from) <= entries.len(),
        key_index(entries, key, from) < entries.len() ==> entries[key_index(
            entries,
            key,
            from,
        )].0@ == key,
        forall|k: int| from <= k < key_index(entries, key, from) ==> entries[k].0@ != key,
    decreases entries.len() - from,
{
    if from < entries.len() && entries[from].0@ != key {
        lemma_key_index(entries, key, from + 1);
    }
}

impl<V> OrderedMap<V> {
    /// No key occurs twice.
    pub open spec fn wf(&self) -> bool {
        forall|i: int, j: int|
            0 <= i < j < self.entries@.len() ==> self.entries@[i].0@ != self.entries@[j].0@
    }

    /// Whether there is an entry under `key`.
    pub open spec fn contains(&self, key: Seq<char>) -> bool {
        key_index(self.entries@, key, 0) < self.entries@.len()
    }

    /// The keys, in the order of first insertion.
    pub open spec fn keys(&self) -> Seq<Seq<char>> {
        Seq::new(self.entries@.len(), |i: int| self.entries@[i].0@)
    }

    /// An empty map.
    pub fn new() -> (m: Self)
        ensures
            m.entries@.len() == 0,
            m.wf(),
    {
        OrderedMap { entries: Vec::new() }
    }

    /// The number of entries.
    pub fn len(&self) -> (n: usize)
        ensures
            n == self.entries@.len(),
    {
        self.entries.len()
    }

    /// Whether the map has no entry.
    pub fn is_empty(&self) -> (b: bool)
        ensures
            b == (self.entries@.len() == 0),
    {
        self.entries.len() == 0
    }

    /// The index of the entry with this key.
    pub fn position(&self, key: &String) -> (r: Option<usize>)
        ensures
            match r {
                Some(i) => i == key_index(self.entries@, key@, 0) && i < self.entries@.len(),
                None => !self.contains(key@),
            },
    {
        let mut i: usize = 0;
        while i < self.entries.len()
            invariant
                i <= self.entries@.len(),
                key_index(self.entries@, key@, i as int) == key_index(self.entries@, key@, 0),
            decreases self.entries.len() - i,
        {
            if self.entries[i].0 == *key {
                return Some(i);
            }
            i += 1;
        }
        None
    }

    /// Whether there is an entry under `key`.
    pub fn contains_key(&self, key: &String) -> (b: bool)
        ensures
            b == self.contains(key@),
    {
        self.position(key).is_some()
    }

    /// The value stored under `key`.
    pub fn get(&self, key: &String) -> (r: Option<&V>)
        ensures
            match r {
                Some(v) => self.contains(key@) && *v == self.entries@[key_index(
                    self.entries@,
                    key@,
                    0,
                )].1,
                None => !self.contains(key@),
            },
    {
        match self.position(key) {
            Some(i) => Some(&self.entries[i].1),
            None => None,
        }
    }

    /// Stores `value` under `key`. A key that is already there keeps its place
    /// and gets the new value; a new key goes to the end.
    pub fn insert(&mut self, key: String, value: V)
        ensures
            old(self).wf() ==> final(self).wf(),
            old(self).contains(key@) ==> final(self).entries@ == old(self).entries@.update(
                key_index(old(self).entries@, key@, 0),
                (old(self).entries@[key_index(old(self).entries@, key@, 0)].0, value),
            ),
            !old(self).contains(key@) ==> final(self).entries@ == old(self).entries@.push(
                (key, value),
            ),
    {
        proof {
            lemma_key_index(self.entries@, key@, 0);
        }
        match self.position(&key) {
            Some(i) => {
                let ghost before = self.entries@;
                let (k, _) = self.entries.remove(i);
                self.entries.insert(i, (k, value));
                assert(self.entries@ =~= before.update(i as int, (before[i as int].0, value)));
            },
            None => {
                self.entries.push((key, value));
            },
        }
    }
}

} // verus!
