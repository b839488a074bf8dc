//! The mathematical model of a write-back cache.
//!
//! A cache is a finite map from addresses to entries, with a stack of checkpoint
//! frames. Every operation of the cache is a function on this model, and the
//! laws of the cache are stated over these functions.

use crate::address::CacheKey;
use vstd::prelude::*;

verus! {

/// What the cache alone can say about an address.
#[derive(Debug, PartialEq, Eq)]
pub enum Lookup<R> {
    /// The address is resident: the store need not be asked.
    Resident(R),
    /// The address has not been loaded: the caller reads it from the store
    /// and hands the answer to the cache.
    Missing,
}

/// One slot of the cache.
pub struct EntryModel<V> {
    /// The record, or `None` for a tombstone.
    pub value: Option<V>,
    /// Whether the value may differ from what the store holds.
    pub dirty: bool,
}

/// A checkpoint frame: for each address changed since the checkpoint, the
/// entry to put back on a revert, or `None` where the address was not resident.
pub type FrameModel<K, V> = Map<K, Option<EntryModel<V>>>;

/// The state of a cache.
#[verifier::reject_recursive_types(K)]
pub struct CacheModel<K, V> {
    /// The resident addresses and their entries.
    pub entries: Map<K, EntryModel<V>>,
    /// The checkpoint frames, the most recent last.
    pub checkpoints: Seq<FrameModel<K, V>>,
}

/// The store behind a cache: the records it holds, by address.
pub type StoreModel<K, V> = Map<K, V>;

/// What the store answers when it is asked for `a`.
pub open spec fn store_get<K, V>(store: StoreModel<K, V>, a: K) -> Option<V> {
    if store.contains_key(a) {
        Some(store[a])
    } else {
        None
    }
}

/// The store after one write of a commit: an insert for a record, a removal for a tombstone.
pub open spec fn store_put<K, V>(store: StoreModel<K, V>, a: K, value: Option<V>) -> StoreModel<
    K,
    V,
> {
    match value {
        Some(v) => store.insert(a, v),
        None => store.remove(a),
    }
}

/// The entries of a cache seeded with `seed`: every pair clean, a later pair
/// replacing an earlier one with the same address.
pub open spec fn seeded_entries<K, V>(seed: Seq<(K, V)>) -> Map<K, EntryModel<V>>
    decreases seed.len(),
{
    if seed.len() == 0 {
        Map::empty()
    } else {
        seeded_entries(seed.drop_last()).insert(
            seed.last().0,
            EntryModel { value: Some(seed.last().1), dirty: false },
        )
    }
}

/// The entries after a frame is put back: each address of the frame takes the
/// entry saved for it, or leaves the cache where none was saved.
pub open spec fn restored<K, V>(entries: Map<K, EntryModel<V>>, frame: FrameModel<K, V>) -> Map<
    K,
    EntryModel<V>,
> {
    Map::new(
        |k: K|
            if frame.contains_key(k) {
                frame[k].is_some()
            } else {
                entries.contains_key(k)
            },
        |k: K|
            if frame.contains_key(k) {
                frame[k].unwrap()
            } else {
                entries[k]
            },
    )
}

impl<K, V> CacheModel<K, V> {
    /// Whether the cache holds finitely many entries and snapshots.
    pub open spec fn wf(self) -> bool {
        &&& self.entries.dom().finite()
        &&& forall|i: int|
            0 <= i < self.checkpoints.len() ==> (#[trigger] self.checkpoints[i]).dom().finite()
    }

    /// The cache seeded with `seed`: every pair clean, no checkpoint open.
    pub open spec fn seeded(seed: Seq<(K, V)>) -> Self {
        CacheModel { entries: seeded_entries(seed), checkpoints: Seq::empty() }
    }

    /// Whether `a` is resident.
    pub open spec fn resident(self, a: K) -> bool {
        self.entries.contains_key(a)
    }

    /// The number of open checkpoints.
    pub open spec fn depth(self) -> nat {
        self.checkpoints.len()
    }

    /// What the cache alone says about `a`.
    pub open spec fn lookup(self, a: K) -> Lookup<Option<V>> {
        if self.resident(a) {
            Lookup::Resident(self.entries[a].value)
        } else {
            Lookup::Missing
        }
    }

    /// The cache after the store has answered `fetched` for `a`: a clean entry
    /// where `a` was not resident, no change where it was.
    pub open spec fn loaded(self, a: K, fetched: Option<V>) -> Self {
        if self.resident(a) {
            self
        } else {
            CacheModel {
                entries: self.entries.insert(a, EntryModel { value: fetched, dirty: false }),
                ..self
            }
        }
    }

    /// What a read of `a` through the cache returns, with `store` behind it.
    pub open spec fn read(self, store: StoreModel<K, V>, a: K) -> Option<V> {
        self.loaded(a, store_get(store, a)).entries[a].value
    }

    /// What a checkpoint saves for `a`: its entry, or `None` where it is not resident.
    pub open spec fn snapshot(self, a: K) -> Option<EntryModel<V>> {
        if self.resident(a) {
            Some(self.entries[a])
        } else {
            None
        }
    }

    /// The cache after `a` is noted in the open checkpoint: the most recent
    /// frame saves the entry of `a`, unless it has saved one already.
    pub open spec fn noted(self, a: K) -> Self {
        if self.checkpoints.len() == 0 || self.checkpoints.last().contains_key(a) {
            self
        } else {
            CacheModel {
                checkpoints: self.checkpoints.update(
                    self.checkpoints.len() - 1,
                    self.checkpoints.last().insert(a, self.snapshot(a)),
                ),
                ..self
            }
        }
    }

    /// The record that a writer of the resident address `a` starts from:
    /// the record in the cache, or `fresh` in place of a tombstone.
    pub open spec fn working_value(self, a: K, fresh: V) -> V {
        match self.entries[a].value {
            Some(v) => v,
            None => fresh,
        }
    }

    /// The cache after a writer has left the record `v` at `a`: `a` is noted
    /// in the open checkpoint, holds `v` and is dirty.
    pub open spec fn modified(self, a: K, v: V) -> Self {
        CacheModel {
            entries: self.entries.insert(a, EntryModel { value: Some(v), dirty: true }),
            ..self.noted(a)
        }
    }

    /// The cache after `a` is removed: `a` is noted in the open checkpoint,
    /// holds a tombstone and is dirty.
    pub open spec fn removed(self, a: K) -> Self {
        CacheModel {
            entries: self.entries.insert(a, EntryModel { value: None, dirty: true }),
            ..self.noted(a)
        }
    }

    /// The cache after a checkpoint: one more frame, empty.
    pub open spec fn checkpointed(self) -> Self {
        CacheModel { checkpoints: self.checkpoints.push(Map::empty()), ..self }
    }

    /// The cache after the most recent checkpoint is discarded: its frame is
    /// merged into the one below, where the older snapshot of an address wins.
    /// The entries stay as they are.
    pub open spec fn discarded(self) -> Self {
        if self.checkpoints.len() == 0 {
            self
        } else if self.checkpoints.len() == 1 {
            CacheModel { checkpoints: Seq::empty(), ..self }
        } else {
            let top = self.checkpoints.last();
            let rest = self.checkpoints.drop_last();
            CacheModel {
                checkpoints: rest.update(rest.len() - 1, top.union_prefer_right(rest.last())),
                ..self
            }
        }
    }

    /// The cache after a revert to the most recent checkpoint: the frame is
    /// dropped and every entry it saved is put back.
    pub open spec fn reverted(self) -> Self {
        CacheModel {
            entries: restored(self.entries, self.checkpoints.last()),
            checkpoints: self.checkpoints.drop_last(),
        }
    }

    /// The cache after the store has taken the write for `a`: the entry is clean.
    pub open spec fn flushed(self, a: K) -> Self {
        if self.resident(a) {
            CacheModel {
                entries: self.entries.insert(
                    a,
                    EntryModel { value: self.entries[a].value, dirty: false },
                ),
                ..self
            }
        } else {
            self
        }
    }

    /// Whether this cache holds what `other` holds: the same addresses with
    /// the same records and the same checkpoints. The two differ in their
    /// dirty flags at most.
    pub open spec fn holds_what(self, other: Self) -> bool {
        &&& self.checkpoints == other.checkpoints
        &&& self.entries.dom() == other.entries.dom()
        &&& forall|a: K|
            other.entries.contains_key(a) ==> (#[trigger] self.entries[a]).value
                == other.entries[a].value
    }

    /// Whether no entry is dirty.
    pub open spec fn all_clean(self) -> bool {
        forall|a: K| self.entries.contains_key(a) ==> !(#[trigger] self.entries[a]).dirty
    }
}

/// Whether `items` lists `entries`: every resident address once, with its
/// record or `None` for a tombstone, in address order.
pub open spec fn lists<K: CacheKey, V>(
    items: Seq<(K, Option<V>)>,
    entries: Map<K, EntryModel<V>>,
) -> bool {
    &&& forall|i: int|
        0 <= i < items.len() ==> entries.contains_key((#[trigger] items[i]).0)
            && entries[items[i].0].value == items[i].1
    &&& forall|i: int, j: int|
        0 <= i < j < items.len() ==> (#[trigger] items[i]).0.rank() < (#[trigger] items[j]).0.rank()
    &&& forall|k: K|
        entries.contains_key(k) ==> exists|i: int|
            0 <= i < items.len() && (#[trigger] items[i]).0 == k
}

impl<K: CacheKey, V> CacheModel<K, V> {
    /// Whether `a` is the write that a commit makes next: the first dirty
    /// address in address order.
    pub open spec fn next_write(self, a: K) -> bool {
        &&& self.entries.contains_key(a)
        &&& self.entries[a].dirty
        &&& forall|b: K|
            self.entries.contains_key(b) && (#[trigger] self.entries[b]).dirty ==> a.rank()
                <= b.rank()
    }

    /// The dirty addresses.
    pub open spec fn dirty_addresses(self) -> Set<K> {
        self.entries.dom().filter(|a: K| self.entries[a].dirty)
    }

    /// The cache after a commit has made its first `writes` writes, or all of
    /// them where there are fewer: each write leaves its entry clean. A commit
    /// that the store fails stops after the writes made so far; one that
    /// succeeds makes them all.
    pub open spec fn flushed_first(self, writes: nat) -> Self
        decreases writes,
    {
        if writes == 0 || !exists|a: K| self.next_write(a) {
            self
        } else {
            let a = choose|a: K| self.next_write(a);
            self.flushed(a).flushed_first((writes - 1) as nat)
        }
    }

    /// The store after a commit has made its first `writes` writes, or all of
    /// them where there are fewer: each write puts the record of its entry in
    /// the store, or takes the address out of it for a tombstone.
    pub open spec fn stored_first(self, store: StoreModel<K, V>, writes: nat) -> StoreModel<K, V>
        decreases writes,
    {
        if writes == 0 || !exists|a: K| self.next_write(a) {
            store
        } else {
            let a = choose|a: K| self.next_write(a);
            self.flushed(a).stored_first(
                store_put(store, a, self.entries[a].value),
                (writes - 1) as nat,
            )
        }
    }
}

} // verus!
