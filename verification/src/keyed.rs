use vstd::prelude::*;

verus! {

/// A key of a `KeyedTable`: copyable, compared by value.
pub trait TableKey: Copy + Sized {
    fn same(&self, other: &Self) -> (b: bool)
        ensures
            b == (*self == *other),
    ;
}

impl TableKey for u16 {
    fn same(&self, other: &Self) -> (b: bool) {
        *self == *other
    }
}

impl TableKey for u64 {
    fn same(&self, other: &Self) -> (b: bool) {
        *self == *other
    }
}

/// A process and one of its ports.
#[derive(Clone, Copy, Debug, PartialEq, Eq, Structural)]
pub struct PortKey {
    pub pid: u64,
    pub port: u16,
}

impl TableKey for PortKey {
    fn same(&self, other: &Self) -> (b: bool) {
        self.pid == other.pid && self.port == other.port
    }
}

/// A finite map held as a list of distinct keys with their values.
#[verifier::reject_recursive_types(K)]
pub struct KeyedTable<K, V> {
    entries: Vec<(K, V)>,
    contents: Ghost<Map<K, V>>,
}

impl<K: TableKey, V> KeyedTable<K, V> {
    /// The map the table holds.
    pub closed spec fn view(&self) -> Map<K, V> {
        self.contents@
    }

    /// The keys are distinct and give exactly the map's entries.
    pub closed spec fn wf(&self) -> bool {
        &&& forall|i: int, j: int| 0 <= i < j < self.entries@.len()
            ==> (#[trigger] self.entries@[i]).0 != (#[trigger] self.entries@[j]).0
        &&& forall|i: int| 0 <= i < self.entries@.len()
            ==> self.contents@.contains_key((#[trigger] self.entries@[i]).0)
                && self.contents@[self.entries@[i].0] == self.entries@[i].1
        &&& forall|k: K| #[trigger] self.contents@.contains_key(k)
            ==> exists|i: int| 0 <= i < self.entries@.len() && (#[trigger] self.entries@[i]).0 == k
        &&& self.contents@.dom().finite()
    }

    pub fn new() -> (t: Self)
        ensures
            t.wf(),
            t.view() == Map::<K, V>::empty(),
    {
        KeyedTable { entries: Vec::new(), contents: Ghost(Map::empty()) }
    }

    /// Index of `k` in the list, if present.
    fn find(&self, k: &K) -> (r: Option<usize>)
        requires
            self.wf(),
        ensures
            r is None <==> !self.view().contains_key(*k),
            r matches Some(i) ==> i < self.entries@.len() && self.entries@[i as int].0 == *k,
    {
        let mut i: usize = 0;
        while i < self.entries.len()
            invariant
                self.wf(),
                i <= self.entries@.len(),
                forall|j: int| 0 <= j < i ==> (#[trigger] self.entries@[j]).0 != *k,
            decreases self.entries@.len() - i,
        {
            if self.entries[i].0.same(k) {
                return Some(i);
            }
            i = i + 1;
        }
        None
    }

    pub fn contains_key(&self, k: &K) -> (b: bool)
        requires
            self.wf(),
        ensures
            b == self.view().contains_key(*k),
    {
        self.find(k).is_some()
    }

    pub fn get(&self, k: &K) -> (r: Option<&V>)
        requires
            self.wf(),
        ensures
            r is Some <==> self.view().contains_key(*k),
            r matches Some(v) ==> *v == self.view()[*k],
    {
        match self.find(k) {
            Some(i) => Some(&self.entries[i].1),
            None => None,
        }
    }

    pub fn insert(&mut self, k: K, v: V)
        requires
            old(self).wf(),
        ensures
            final(self).wf(),
            final(self).view() == old(self).view().insert(k, v),
    {
        let ghost m = self.contents@.insert(k, v);
        match self.find(&k) {
            Some(i) => {
                let ghost old_entries = self.entries@;
                self.entries.set(i, (k, v));
                self.contents = Ghost(m);
                proof {
                    assert forall|k2: K| #[trigger] m.contains_key(k2)
                        implies exists|j: int| 0 <= j < self.entries@.len() && (#[trigger] self.entries@[j]).0 == k2 by {
                        if k2 == k {
                            assert(self.entries@[i as int].0 == k2);
                        } else {
                            let j = choose|j: int| 0 <= j < old_entries.len() && (#[trigger] old_entries[j]).0 == k2;
                            assert(self.entries@[j].0 == k2);
                        }
                    }
                }
            },
            None => {
                let ghost old_entries = self.entries@;
                self.entries.push((k, v));
                self.contents = Ghost(m);
                proof {
                    assert forall|k2: K| #[trigger] m.contains_key(k2)
                        implies exists|j: int| 0 <= j < self.entries@.len() && (#[trigger] self.entries@[j]).0 == k2 by {
                        if k2 == k {
                            assert(self.entries@[old_entries.len() as int].0 == k2);
                        } else {
                            let j = choose|j: int| 0 <= j < old_entries.len() && (#[trigger] old_entries[j]).0 == k2;
                            assert(self.entries@[j].0 == k2);
                        }
                    }
                }
            },
        }
    }

    pub fn remove(&mut self, k: &K) -> (r: Option<V>)
        requires
            old(self).wf(),
        ensures
            final(self).wf(),
            final(self).view() == old(self).view().remove(*k),
            r is Some <==> old(self).view().contains_key(*k),
            r matches Some(v) ==> v == old(self).view()[*k],
    {
        match self.find(k) {
            Some(i) => {
                let ghost old_entries = self.entries@;
                let ghost m = self.contents@.remove(*k);
                let (_, v) = self.entries.swap_remove(i);
                self.contents = Ghost(m);
                proof {
                    let n = old_entries.len() - 1;
                    assert forall|a: int| 0 <= a < self.entries@.len() implies
                        (#[trigger] self.entries@[a]) == (if a == i { old_entries[n] } else { old_entries[a] }) by {}
                    assert forall|k2: K| #[trigger] m.contains_key(k2)
                        implies exists|j: int| 0 <= j < self.entries@.len() && (#[trigger] self.entries@[j]).0 == k2 by {
                        let j = choose|j: int| 0 <= j < old_entries.len() && (#[trigger] old_entries[j]).0 == k2;
                        if j == n {
                            assert(self.entries@[i as int].0 == k2);
                        } else {
                            assert(j != i);
                            assert(self.entries@[j].0 == k2);
                        }
                    }
                }
                Some(v)
            },
            None => {
                assert(self.contents@.remove(*k) =~= self.contents@);
                None
            },
        }
    }

    /// The keys, each once, in no particular order.
    pub fn keys(&self) -> (v: Vec<K>)
        requires
            self.wf(),
        ensures
            forall|i: int, j: int| 0 <= i < j < v@.len() ==> v@[i] != v@[j],
            forall|k: K| #[trigger] self.view().contains_key(k) <==> v@.contains(k),
    {
        let mut v: Vec<K> = Vec::new();
        let mut i: usize = 0;
        while i < self.entries.len()
            invariant
                self.wf(),
                i <= self.entries@.len(),
                v@.len() == i,
                forall|j: int| 0 <= j < i ==> v@[j] == (#[trigger] self.entries@[j]).0,
            decreases self.entries@.len() - i,
        {
            v.push(self.entries[i].0);
            i = i + 1;
        }
        proof {
            assert forall|k: K| #[trigger] self.view().contains_key(k) <==> v@.contains(k) by {
                if self.view().contains_key(k) {
                    let j = choose|j: int| 0 <= j < self.entries@.len() && (#[trigger] self.entries@[j]).0 == k;
                    assert(v@[j] == k);
                }
                if v@.contains(k) {
                    let j = choose|j: int| 0 <= j < v@.len() && v@[j] == k;
                    assert(self.entries@[j].0 == k);
                }
            }
            assert forall|a: int, b: int| 0 <= a < b < v@.len() implies v@[a] != v@[b] by {
                assert(v@[a] == self.entries@[a].0);
                assert(v@[b] == self.entries@[b].0);
            }
        }
        v
    }

    pub fn len(&self) -> (n: usize)
        requires
            self.wf(),
        ensures
            n == self.view().len(),
    {
        proof {
            self.lemma_len();
        }
        self.entries.len()
    }

    /// A list of the distinct keys is as long as the map.
    pub proof fn lemma_keys_len(&self, ks: Seq<K>)
        requires
            self.wf(),
            forall|i: int, j: int| 0 <= i < j < ks.len() ==> ks[i] != ks[j],
            forall|k: K| #[trigger] self.view().contains_key(k) <==> ks.contains(k),
        ensures
            ks.len() == self.view().len(),
    {
        assert(ks.no_duplicates()) by {
            assert forall|i: int, j: int| 0 <= i < ks.len() && 0 <= j < ks.len() && i != j
                implies ks[i] != ks[j] by {
                if i < j {
                    assert(ks[i] != ks[j]);
                } else {
                    assert(ks[j] != ks[i]);
                }
            }
        }
        assert(ks.to_set() =~= self.view().dom());
        ks.unique_seq_to_set();
    }

    proof fn lemma_len(&self)
        requires
            self.wf(),
        ensures
            self.entries@.len() == self.view().len(),
    {
        let keys = self.entries@.map_values(|e: (K, V)| e.0);
        assert(keys.no_duplicates()) by {
            assert forall|i: int, j: int| 0 <= i < keys.len() && 0 <= j < keys.len() && i != j
                implies keys[i] != keys[j] by {
                if i < j {
                    assert(self.entries@[i].0 != self.entries@[j].0);
                } else {
                    assert(self.entries@[j].0 != self.entries@[i].0);
                }
            }
        }
        assert(keys.to_set() =~= self.view().dom()) by {
            assert forall|k: K| keys.to_set().contains(k) <==> self.view().dom().contains(k) by {
                if self.view().contains_key(k) {
                    let j = choose|j: int| 0 <= j < self.entries@.len() && (#[trigger] self.entries@[j]).0 == k;
                    assert(keys[j] == k);
                }
                if keys.to_set().contains(k) {
                    let j = choose|j: int| 0 <= j < keys.len() && keys[j] == k;
                    assert(self.entries@[j].0 == k);
                }
            }
        }
        keys.unique_seq_to_set();
    }
}

} // verus!
