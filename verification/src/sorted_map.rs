//! A map from cache keys to values, kept in address order.

use crate::address::CacheKey;
use vstd::prelude::*;

verus! {

/// A finite map whose keys are held in strictly increasing address order.
pub struct SortedMap<K, V> {
    keys: Vec<K>,
    values: Vec<V>,
}

/// Whether the ranks of `keys` increase strictly from left to right.
pub open spec fn strictly_ranked<K: CacheKey>(keys: Seq<K>) -> bool {
    forall|i: int, j: int| 0 <= i < j < keys.len() ==> keys[i].rank() < keys[j].rank()
}

impl<K: CacheKey, V> View for SortedMap<K, V> {
    type V = Map<K, V>;

    closed spec fn view(&self) -> Map<K, V> {
        Map::new(
            |k: K| self.keys@.contains(k),
            |k: K| self.values@[self.keys@.index_of(k)],
        )
    }
}

impl<K: CacheKey, V> SortedMap<K, V> {
    /// The invariant of the representation: one value per key, keys in address order.
    pub closed spec fn wf(&self) -> bool {
        &&& self.keys@.len() == self.values@.len()
        &&& strictly_ranked(self.keys@)
    }

    /// The keys of the map, in address order.
    pub closed spec fn keys(&self) -> Seq<K> {
        self.keys@
    }

    /// The values of the map, each at the position of its key in `keys`.
    pub closed spec fn values(&self) -> Seq<V> {
        self.values@
    }

    /// How the map relates to its keys and values in address order.
    pub proof fn lemma_ordered(&self)
        requires
            self.wf(),
        ensures
            self.keys().len() == self.values().len(),
            strictly_ranked(self.keys()),
            self@.dom().finite(),
            self@.dom() == self.keys().to_set(),
            forall|i: int|
                0 <= i < self.keys().len() ==> self@.contains_key(#[trigger] self.keys()[i])
                    && self@[self.keys()[i]] == self.values()[i],
            forall|k: K|
                self@.contains_key(k) ==> exists|i: int|
                    0 <= i < self.keys().len() && #[trigger] self.keys()[i] == k,
    {
        vstd::seq_lib::seq_to_set_is_finite(self.keys@);
        assert(self@.dom() =~= self.keys@.to_set());
        assert forall|i: int| 0 <= i < self.keys@.len() implies self@.contains_key(
            #[trigger] self.keys@[i],
        ) && self@[self.keys@[i]] == self.values@[i] by {
            let k = self.keys@[i];
            assert(self.keys@.contains(k));
            let j = self.keys@.index_of(k);
            assert(self.keys@[j] == k);
            if j < i {
                assert(self.keys@[j].rank() < self.keys@[i].rank());
            }
            if i < j {
                assert(self.keys@[i].rank() < self.keys@[j].rank());
            }
        }
    }

    /// An empty map.
    pub fn new() -> (r: Self)
        ensures
            r.wf(),
            r@ == Map::<K, V>::empty(),
    {
        let r = SortedMap { keys: Vec::new(), values: Vec::new() };
        assert(r@ =~= Map::<K, V>::empty());
        r
    }

    /// The number of keys.
    pub fn len(&self) -> (n: usize)
        requires
            self.wf(),
        ensures
            n == self.keys().len(),
            n == self@.dom().len(),
    {
        proof {
            self.lemma_ordered();
            self.keys@.unique_seq_to_set();
        }
        self.keys.len()
    }

    /// The position of the first key that does not come before `key`.
    fn position(&self, key: &K) -> (p: usize)
        requires
            self.wf(),
        ensures
            p <= self.keys@.len(),
            forall|i: int| 0 <= i < p ==> self.keys@[i].rank() < key.rank(),
            forall|i: int| p <= i < self.keys@.len() ==> key.rank() <= self.keys@[i].rank(),
    {
        let mut lo: usize = 0;
        let mut hi: usize = self.keys.len();
        while lo < hi
            invariant
                self.wf(),
                lo <= hi <= self.keys@.len(),
                forall|i: int| 0 <= i < lo ==> self.keys@[i].rank() < key.rank(),
                forall|i: int| hi <= i < self.keys@.len() ==> key.rank() <= self.keys@[i].rank(),
            decreases hi - lo,
        {
            let mid: usize = lo + (hi - lo) / 2;
            if self.keys[mid].precedes(key) {
                assert forall|i: int| 0 <= i < mid + 1 implies self.keys@[i].rank()
                    < key.rank() by {
                    if i < mid {
                        assert(self.keys@[i].rank() < self.keys@[mid as int].rank());
                    }
                }
                lo = mid + 1;
            } else {
                assert forall|i: int| mid <= i < self.keys@.len() implies key.rank()
                    <= self.keys@[i].rank() by {
                    if mid < i {
                        assert(self.keys@[mid as int].rank() < self.keys@[i].rank());
                    }
                }
                hi = mid;
            }
        }
        lo
    }

    /// Where `key` stands among the keys, if it is one of them.
    fn find(&self, key: &K) -> (r: Option<usize>)
        requires
            self.wf(),
        ensures
            match r {
                Some(i) => i < self.keys@.len() && self.keys@[i as int] == *key,
                None => !self.keys@.contains(*key),
            },
            r.is_some() == self@.contains_key(*key),
    {
        let p = self.position(key);
        if p < self.keys.len() && !key.precedes(&self.keys[p]) {
            proof {
                K::rank_injective(self.keys@[p as int], *key);
            }
            Some(p)
        } else {
            assert(!self.keys@.contains(*key)) by {
                if self.keys@.contains(*key) {
                    let j = self.keys@.index_of(*key);
                    assert(self.keys@[j] == *key);
                    if j < p {
                        assert(self.keys@[j].rank() < key.rank());
                    } else {
                        assert(key.rank() <= self.keys@[j].rank());
                        if p < j {
                            assert(self.keys@[p as int].rank() < self.keys@[j].rank());
                        }
                    }
                }
            }
            None
        }
    }

    /// Whether `key` is in the map.
    pub fn contains_key(&self, key: &K) -> (r: bool)
        requires
            self.wf(),
        ensures
            r == self@.contains_key(*key),
    {
        self.find(key).is_some()
    }

    /// The value at `key`, if there is one.
    pub fn get(&self, key: &K) -> (r: Option<&V>)
        requires
            self.wf(),
        ensures
            match r {
                Some(v) => self@.contains_key(*key) && *v == self@[*key],
                None => !self@.contains_key(*key),
            },
    {
        match self.find(key) {
            Some(i) => {
                proof {
                    self.lemma_ordered();
                }
                Some(&self.values[i])
            },
            None => None,
        }
    }

    /// The key at position `i` in address order.
    pub fn key_at(&self, i: usize) -> (k: K)
        requires
            self.wf(),
            i < self.keys().len(),
        ensures
            k == self.keys()[i as int],
    {
        self.keys[i]
    }

    /// The value at position `i` in address order.
    pub fn value_at(&self, i: usize) -> (v: &V)
        requires
            self.wf(),
            i < self.keys().len(),
        ensures
            *v == self.values()[i as int],
    {
        &self.values[i]
    }

    /// Replacing the value at one position replaces the value at its key.
    proof fn lemma_updated(before: Self, after: Self, i: int)
        requires
            before.wf(),
            0 <= i < before.keys@.len(),
            after.keys@ == before.keys@,
            after.values@ == before.values@.update(i, after.values@[i]),
        ensures
            after.wf(),
            after@ == before@.insert(before.keys@[i], after.values@[i]),
    {
        before.lemma_ordered();
        after.lemma_ordered();
        assert forall|k: K| #[trigger] after@.contains_key(k) implies after@[k] == before@.insert(
            before.keys@[i],
            after.values@[i],
        )[k] by {
            let j = choose|j: int| 0 <= j < after.keys@.len() && after.keys@[j] == k;
            assert(after@[after.keys()[j]] == after.values()[j]);
            assert(before@[before.keys()[j]] == before.values()[j]);
        }
        assert(after@ =~= before@.insert(before.keys@[i], after.values@[i]));
    }

    /// A mutable reference to the value at `key`, if there is one.
    pub fn get_mut(&mut self, key: &K) -> (r: Option<&mut V>)
        requires
            old(self).wf(),
        ensures
            final(self).wf(),
            match r {
                Some(v) => old(self)@.contains_key(*key) && *v == old(self)@[*key] && final(self)@
                    == old(self)@.insert(*key, *final(v)),
                None => !old(self)@.contains_key(*key) && final(self)@ == old(self)@,
            },
    {
        match self.find(key) {
            Some(i) => {
                proof {
                    self.lemma_ordered();
                    let before = *self;
                    assert forall|after: Self|
                        after.keys@ == before.keys@ && after.values@ == before.values@.update(
                            i as int,
                            after.values@[i as int],
                        ) implies #[trigger] after.wf() && after@ == before@.insert(
                        *key,
                        after.values@[i as int],
                    ) by {
                        Self::lemma_updated(before, after, i as int);
                    }
                }
                Some(&mut self.values[i])
            },
            None => None,
        }
    }

    /// Puts `value` at `key` and returns the value that was there.
    pub fn insert(&mut self, key: K, value: V) -> (previous: Option<V>)
        requires
            old(self).wf(),
        ensures
            final(self).wf(),
            final(self)@ == old(self)@.insert(key, value),
            previous == if old(self)@.contains_key(key) {
                Some(old(self)@[key])
            } else {
                None
            },
    {
        let p = self.position(&key);
        proof {
            self.lemma_ordered();
        }
        if p < self.keys.len() && !key.precedes(&self.keys[p]) {
            proof {
                K::rank_injective(self.keys@[p as int], key);
            }
            let ghost before = *self;
            let mut value = value;
            std::mem::swap(&mut self.values[p], &mut value);
            proof {
                Self::lemma_updated(before, *self, p as int);
            }
            Some(value)
        } else {
            let ghost before = *self;
            self.keys.insert(p, key);
            self.values.insert(p, value);
            proof {
                assert(strictly_ranked(self.keys@)) by {
                    assert forall|i: int, j: int| 0 <= i < j < self.keys@.len() implies
                        self.keys@[i].rank() < self.keys@[j].rank() by {
                        if i < p && j > p {
                            assert(before.keys@[i].rank() < before.keys@[j - 1].rank()
                                || i == j - 1);
                        }
                    }
                }
                self.lemma_ordered();
                assert(!before@.contains_key(key)) by {
                    if before@.contains_key(key) {
                        let j = choose|j: int| 0 <= j < before.keys@.len() && before.keys@[j] == key;
                        if p < j {
                            assert(before.keys@[p as int].rank() < before.keys@[j].rank());
                        }
                    }
                }
                assert forall|k: K| before@.insert(key, value).contains_key(k) implies
                    #[trigger] self@.contains_key(k) && self@[k] == before@.insert(key, value)[k] by {
                    if k == key {
                        assert(self.keys()[p as int] == key);
                        assert(self@[self.keys()[p as int]] == self.values()[p as int]);
                    } else {
                        let j = choose|j: int| 0 <= j < before.keys@.len() && before.keys@[j] == k;
                        assert(before@[before.keys()[j]] == before.values()[j]);
                        let j2 = if j < p { j } else { j + 1 };
                        assert(self.keys()[j2] == k);
                        assert(self@[self.keys()[j2]] == self.values()[j2]);
                    }
                }
                assert forall|k: K| #[trigger] self@.contains_key(k) implies before@.insert(
                    key,
                    value,
                ).contains_key(k) by {
                    let j = choose|j: int| 0 <= j < self.keys@.len() && self.keys@[j] == k;
                    if j < p {
                        assert(before@.contains_key(before.keys()[j]));
                    } else if j > p {
                        assert(before@.contains_key(before.keys()[j - 1]));
                    }
                }
                assert(self@ =~= before@.insert(key, value));
            }
            None
        }
    }

    /// Removing one position removes its key and leaves the other keys as they were.
    proof fn lemma_removed(before: Self, after: Self, i: int)
        requires
            before.wf(),
            0 <= i < before.keys@.len(),
            after.keys@ == before.keys@.remove(i),
            after.values@ == before.values@.remove(i),
        ensures
            after.wf(),
            after@ == before@.remove(before.keys@[i]),
    {
        assert(strictly_ranked(after.keys@)) by {
            assert forall|a: int, b: int| 0 <= a < b < after.keys@.len() implies
                after.keys@[a].rank() < after.keys@[b].rank() by {
                let a2 = if a < i { a } else { a + 1 };
                let b2 = if b < i { b } else { b + 1 };
                assert(before.keys@[a2].rank() < before.keys@[b2].rank());
            }
        }
        before.lemma_ordered();
        after.lemma_ordered();
        let gone = before.keys@[i];
        assert forall|k: K| before@.remove(gone).contains_key(k) implies
            #[trigger] after@.contains_key(k) && after@[k] == before@.remove(gone)[k] by {
            let j = choose|j: int| 0 <= j < before.keys@.len() && before.keys@[j] == k;
            assert(before@[before.keys()[j]] == before.values()[j]);
            if j < i {
                assert(after.keys()[j] == k);
                assert(after@[after.keys()[j]] == after.values()[j]);
            } else {
                assert(j != i);
                assert(after.keys()[j - 1] == k);
                assert(after@[after.keys()[j - 1]] == after.values()[j - 1]);
            }
        }
        assert forall|k: K| #[trigger] after@.contains_key(k) implies before@.remove(
            gone,
        ).contains_key(k) by {
            let j = choose|j: int| 0 <= j < after.keys@.len() && after.keys@[j] == k;
            let j2 = if j < i { j } else { j + 1 };
            assert(before@.contains_key(before.keys()[j2]));
            if j2 < i {
                assert(before.keys@[j2].rank() < before.keys@[i].rank());
            } else {
                assert(before.keys@[i].rank() < before.keys@[j2].rank());
            }
        }
        assert(after@ =~= before@.remove(gone));
    }

    /// Takes `key` out of the map and returns the value that was there.
    pub fn remove(&mut self, key: &K) -> (previous: Option<V>)
        requires
            old(self).wf(),
        ensures
            final(self).wf(),
            final(self)@ == old(self)@.remove(*key),
            previous == if old(self)@.contains_key(*key) {
                Some(old(self)@[*key])
            } else {
                None
            },
    {
        match self.find(key) {
            Some(i) => {
                let ghost before = *self;
                proof {
                    self.lemma_ordered();
                }
                self.keys.remove(i);
                let value = self.values.remove(i);
                proof {
                    Self::lemma_removed(before, *self, i as int);
                }
                Some(value)
            },
            None => {
                assert(self@.remove(*key) =~= self@);
                None
            },
        }
    }

    /// Takes the last key in address order out of the map, with its value.
    pub fn pop_last(&mut self) -> (last: Option<(K, V)>)
        requires
            old(self).wf(),
        ensures
            final(self).wf(),
            match last {
                Some((k, v)) => old(self)@.contains_key(k) && old(self)@[k] == v && final(self)@
                    == old(self)@.remove(k) && final(self).keys() == old(self).keys().drop_last()
                    && k == old(self).keys().last(),
                None => old(self)@ == Map::<K, V>::empty() && final(self)@ == old(self)@
                    && old(self).keys().len() == 0,
            },
    {
        let ghost before = *self;
        proof {
            self.lemma_ordered();
        }
        let n = self.keys.len();
        if n == 0 {
            assert(self@ =~= Map::<K, V>::empty());
            return None;
        }
        let k = self.keys.remove(n - 1);
        let v = self.values.remove(n - 1);
        proof {
            Self::lemma_removed(before, *self, n - 1);
            assert(self.keys@ =~= before.keys@.drop_last());
        }
        Some((k, v))
    }

    /// A map with the same keys, whose value at each key is what `copy` made
    /// of the value here.
    pub fn copy_with<F: Fn(&V) -> V>(&self, copy: &F) -> (r: Self)
        requires
            forall|v: &V| call_requires(copy, (v,)),
        ensures
            r.keys() == self.keys(),
            r.values().len() == self.values().len(),
            forall|i: int|
                0 <= i < self.values().len() ==> call_ensures(
                    copy,
                    (&self.values()[i],),
                    #[trigger] r.values()[i],
                ),
            self.wf() ==> r.wf(),
    {
        let mut keys: Vec<K> = Vec::new();
        let mut i: usize = 0;
        while i < self.keys.len()
            invariant
                i <= self.keys@.len(),
                keys@ == self.keys@.take(i as int),
            decreases self.keys@.len() - i,
        {
            keys.push(self.keys[i]);
            i = i + 1;
            assert(keys@ =~= self.keys@.take(i as int));
        }
        assert(keys@ =~= self.keys@);
        let mut values: Vec<V> = Vec::new();
        let mut j: usize = 0;
        while j < self.values.len()
            invariant
                j <= self.values@.len(),
                values@.len() == j,
                forall|v: &V| call_requires(copy, (v,)),
                forall|i: int|
                    0 <= i < j ==> call_ensures(copy, (&self.values@[i],), #[trigger] values@[i]),
            decreases self.values@.len() - j,
        {
            let value = copy(&self.values[j]);
            values.push(value);
            j = j + 1;
        }
        SortedMap { keys, values }
    }
}

} // verus!
