//! Small tables, looked up by key.

use crate::net::{Address, Ip};
use crate::protocol::DeviceId;
use vstd::prelude::*;

verus! {

/// Something to look up by.
pub trait Key: Copy {
    fn same(&self, other: &Self) -> (yes: bool)
        ensures
            yes == (*self == *other),
    ;
}

impl Key for u64 {
    fn same(&self, other: &u64) -> (yes: bool) {
        *self == *other
    }
}

impl Key for u16 {
    fn same(&self, other: &u16) -> (yes: bool) {
        *self == *other
    }
}

impl Key for Ip {
    fn same(&self, other: &Ip) -> (yes: bool) {
        *self == *other
    }
}

impl Key for Address {
    fn same(&self, other: &Address) -> (yes: bool) {
        *self == *other
    }
}

impl Key for DeviceId {
    fn same(&self, other: &DeviceId) -> (yes: bool) {
        *self == *other
    }
}

/// A table of values, each under a key of its own.
#[derive(Debug)]
#[verifier::reject_recursive_types(K)]
#[verifier::reject_recursive_types(V)]
pub struct Table<K: Key, V> {
    entries: Vec<(K, V)>,
}

spec fn distinct<K, V>(entries: Seq<(K, V)>) -> bool {
    forall|i: int, j: int|
        0 <= i < entries.len() && 0 <= j < entries.len() && i != j ==> (#[trigger] entries[i]).0 != (
        #[trigger] entries[j]).0
}

spec fn listed<K, V>(entries: Seq<(K, V)>, key: K) -> bool {
    exists|i: int| 0 <= i < entries.len() && (#[trigger] entries[i]).0 == key
}

spec fn value<K, V>(entries: Seq<(K, V)>, key: K) -> V {
    entries[choose|i: int| 0 <= i < entries.len() && (#[trigger] entries[i]).0 == key].1
}

spec fn contents<K, V>(entries: Seq<(K, V)>) -> Map<K, V> {
    Map::new(|key: K| listed(entries, key), |key: K| value(entries, key))
}

proof fn lemma_at<K, V>(entries: Seq<(K, V)>, i: int)
    requires
        distinct(entries),
        0 <= i < entries.len(),
    ensures
        contents(entries).contains_key(entries[i].0),
        contents(entries)[entries[i].0] == entries[i].1,
{
    let key = entries[i].0;
    let j = choose|j: int| 0 <= j < entries.len() && (#[trigger] entries[j]).0 == key;
    assert(listed(entries, key));
    assert(entries[j].0 == key);
    assert(i == j);
}

impl<K: Key, V> View for Table<K, V> {
    type V = Map<K, V>;

    closed spec fn view(&self) -> Map<K, V> {
        contents(self.entries@)
    }
}

impl<K: Key, V> Table<K, V> {
    #[verifier::type_invariant]
    spec fn wf(self) -> bool {
        distinct(self.entries@)
    }

    pub fn new() -> (table: Table<K, V>)
        ensures
            table@ == Map::<K, V>::empty(),
    {
        let table = Table { entries: Vec::new() };
        assert(table@ =~= Map::<K, V>::empty());
        table
    }

    fn position(&self, key: &K) -> (at: Option<usize>)
        ensures
            match at {
                Some(i) => i < self.entries@.len() && self.entries@[i as int].0 == *key,
                None => !listed(self.entries@, *key),
            },
    {
        let mut i: usize = 0;
        while i < self.entries.len()
            invariant
                i <= self.entries@.len(),
                forall|j: int| 0 <= j < i ==> (#[trigger] self.entries@[j]).0 != *key,
            decreases self.entries.len() - i,
        {
            if self.entries[i].0.same(key) {
                return Some(i);
            }
            i = i + 1;
        }
        None
    }

    pub fn get(&self, key: &K) -> (found: Option<&V>)
        ensures
            match found {
                Some(value) => self@.contains_key(*key) && self@[*key] == *value,
                None => !self@.contains_key(*key),
            },
    {
        proof {
            use_type_invariant(self);
        }
        match self.position(key) {
            Some(i) => {
                proof {
                    lemma_at(self.entries@, i as int);
                }
                Some(&self.entries[i].1)
            },
            None => None,
        }
    }

    pub fn contains(&self, key: &K) -> (yes: bool)
        ensures
            yes == self@.contains_key(*key),
    {
        self.get(key).is_some()
    }

    pub fn remove(&mut self, key: &K) -> (removed: Option<V>)
        ensures
            final(self)@ == old(self)@.remove(*key),
            match removed {
                Some(value) => old(self)@.contains_key(*key) && old(self)@[*key] == value,
                None => !old(self)@.contains_key(*key),
            },
    {
        proof {
            use_type_invariant(&*self);
        }
        let ghost before = self.entries@;
        match self.position(key) {
            Some(i) => {
                let mut entries: Vec<(K, V)> = Vec::new();
                std::mem::swap(&mut entries, &mut self.entries);
                let (_, value) = entries.remove(i);
                proof {
                    lemma_at(before, i as int);
                    let after = entries@;
                    assert(after =~= before.remove(i as int));
                    assert forall|a: int, b: int|
                        0 <= a < after.len() && 0 <= b < after.len() && a != b implies (
                    #[trigger] after[a]).0 != (#[trigger] after[b]).0 by {
                        let x = if a < i {
                            a
                        } else {
                            a + 1
                        };
                        let y = if b < i {
                            b
                        } else {
                            b + 1
                        };
                        assert(before[x] == after[a]);
                        assert(before[y] == after[b]);
                    }
                    assert forall|k: K| #[trigger] listed(after, k) == (k != *key && listed(
                        before,
                        k,
                    )) by {
                        if listed(after, k) {
                            let a = choose|a: int|
                                0 <= a < after.len() && (#[trigger] after[a]).0 == k;
                            let x = if a < i {
                                a
                            } else {
                                a + 1
                            };
                            assert(before[x] == after[a]);
                        }
                        if k != *key && listed(before, k) {
                            let x = choose|x: int|
                                0 <= x < before.len() && (#[trigger] before[x]).0 == k;
                            let a = if x < i {
                                x
                            } else {
                                x - 1
                            };
                            assert(after[a] == before[x]);
                        }
                    }
                    assert forall|k: K| listed(after, k) implies #[trigger] contents(after)[k]
                        == contents(before)[k] by {
                        let a = choose|a: int| 0 <= a < after.len() && (#[trigger] after[a]).0 == k;
                        let x = if a < i {
                            a
                        } else {
                            a + 1
                        };
                        assert(before[x] == after[a]);
                        lemma_at(after, a);
                        lemma_at(before, x);
                    }
                    assert(contents(after) =~= contents(before).remove(*key));
                }
                self.entries = entries;
                Some(value)
            },
            None => {
                assert(contents(before) =~= contents(before).remove(*key));
                None
            },
        }
    }

    /// Put a value under a key, in place of what was there.
    pub fn insert(&mut self, key: K, value: V)
        ensures
            final(self)@ == old(self)@.insert(key, value),
    {
        let _ = self.remove(&key);
        proof {
            use_type_invariant(&*self);
        }
        let ghost before = self.entries@;
        let ghost map = old(self)@;
        assert(!contents(before).contains_key(key));
        let mut entries: Vec<(K, V)> = Vec::new();
        std::mem::swap(&mut entries, &mut self.entries);
        entries.push((key, value));
        proof {
            let after = entries@;
            assert forall|k: K| #[trigger] listed(after, k) == (k == key || listed(before, k)) by {
                if listed(before, k) {
                    let x = choose|x: int| 0 <= x < before.len() && (#[trigger] before[x]).0 == k;
                    assert(after[x] == before[x]);
                }
                assert(after[before.len() as int].0 == key);
            }
            assert forall|a: int, b: int|
                0 <= a < after.len() && 0 <= b < after.len() && a != b implies (
            #[trigger] after[a]).0 != (#[trigger] after[b]).0 by {
                if a < before.len() {
                    assert(before[a] == after[a]);
                    assert(listed(before, before[a].0));
                }
                if b < before.len() {
                    assert(before[b] == after[b]);
                    assert(listed(before, before[b].0));
                }
            }
            lemma_at(after, before.len() as int);
            assert forall|k: K| listed(before, k) implies #[trigger] contents(after)[k]
                == contents(before)[k] by {
                let x = choose|x: int| 0 <= x < before.len() && (#[trigger] before[x]).0 == k;
                assert(after[x] == before[x]);
                lemma_at(before, x);
                lemma_at(after, x);
            }
            assert(contents(after) =~= contents(before).insert(key, value));
            assert(map.remove(key).insert(key, value) =~= map.insert(key, value));
        }
        self.entries = entries;
    }

    /// Take everything out.
    pub fn clear(&mut self)
        ensures
            final(self)@ == Map::<K, V>::empty(),
    {
        self.entries = Vec::new();
        assert(self@ =~= Map::<K, V>::empty());
    }
}

}
