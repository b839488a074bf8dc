//! The laws of the write-back cache, proved of its model.

use crate::address::CacheKey;
use crate::model::{
    lists, seeded_entries, store_get, store_put, CacheModel, EntryModel, Lookup, StoreModel,
};
use crate::top_cache::{TopAddress, TopModel};
use vstd::prelude::*;

verus! {

/// Once an address is removed, a read of it finds a tombstone in the cache and
/// returns nothing, whatever the cache and the store held for it before; and
/// removing it again changes nothing.
pub proof fn law_remove_then_get<K, V>(c: CacheModel<K, V>, store: StoreModel<K, V>, k: K)
    ensures
        c.removed(k).lookup(k) == Lookup::Resident(None::<V>),
        c.removed(k).read(store, k) == None::<V>,
        c.removed(k).entries[k].dirty,
        c.removed(k).removed(k) == c.removed(k),
{
    let once = c.removed(k);
    let twice = once.removed(k);
    assert(twice.entries =~= once.entries);
    assert(twice.checkpoints =~= once.checkpoints);
}

/// A checkpoint that is reverted at once leaves no trace.
pub proof fn law_checkpoint_then_revert<K, V>(c: CacheModel<K, V>)
    ensures
        c.checkpointed().reverted() == c,
        c.checkpointed().discarded() == c,
{
    assert(c.checkpointed().reverted().entries =~= c.entries);
    assert(c.checkpointed().reverted().checkpoints =~= c.checkpoints);
    let pushed = c.checkpointed().checkpoints;
    assert(pushed.drop_last() =~= c.checkpoints);
    if c.checkpoints.len() > 0 {
        assert(pushed.last().union_prefer_right(c.checkpoints.last()) =~= c.checkpoints.last());
    }
    assert(c.checkpointed().discarded().checkpoints =~= c.checkpoints);
}

/// A revert forgets every write made under the checkpoint: whatever was
/// written or removed since, the revert ends in the same state.
pub proof fn law_revert_forgets_writes<K, V>(c: CacheModel<K, V>, k: K, v: V)
    requires
        c.depth() > 0,
    ensures
        c.modified(k, v).reverted() == c.reverted(),
        c.removed(k).reverted() == c.reverted(),
{
    assert(c.modified(k, v).reverted().entries =~= c.reverted().entries);
    assert(c.modified(k, v).reverted().checkpoints =~= c.reverted().checkpoints);
    assert(c.removed(k).reverted().entries =~= c.reverted().entries);
    assert(c.removed(k).reverted().checkpoints =~= c.reverted().checkpoints);
}

/// A revert keeps what was read under the checkpoint: an address that the
/// checkpoint has not noted, and that was loaded since, is resident and clean
/// after the revert, as if it had been loaded after it.
pub proof fn law_revert_keeps_loads<K, V>(c: CacheModel<K, V>, k: K, fetched: Option<V>)
    requires
        c.depth() > 0,
        !c.checkpoints.last().contains_key(k),
    ensures
        c.loaded(k, fetched).reverted() == c.reverted().loaded(k, fetched),
{
    assert(c.loaded(k, fetched).reverted().entries =~= c.reverted().loaded(k, fetched).entries);
}

/// A discard folds two checkpoints into one: reverting after it ends where
/// two reverts would have ended without it.
pub proof fn law_discard_then_revert<K, V>(c: CacheModel<K, V>)
    requires
        c.depth() >= 2,
    ensures
        c.discarded().reverted() == c.reverted().reverted(),
{
    assert(c.discarded().reverted().entries =~= c.reverted().reverted().entries);
    assert(c.discarded().reverted().checkpoints =~= c.reverted().reverted().checkpoints);
}

/// A snapshot, once taken, stays as it is: reads, writes, removals and
/// commits add to the most recent frame at most, and never change or drop
/// what a frame has saved.
pub proof fn law_snapshots_are_kept<K, V>(
    c: CacheModel<K, V>,
    k: K,
    v: V,
    fetched: Option<V>,
    i: int,
    a: K,
)
    requires
        0 <= i < c.depth(),
        c.checkpoints[i].contains_key(a),
    ensures
        c.modified(k, v).depth() == c.depth(),
        c.modified(k, v).checkpoints[i].contains_key(a),
        c.modified(k, v).checkpoints[i][a] == c.checkpoints[i][a],
        c.removed(k).depth() == c.depth(),
        c.removed(k).checkpoints[i].contains_key(a),
        c.removed(k).checkpoints[i][a] == c.checkpoints[i][a],
        c.loaded(k, fetched).checkpoints == c.checkpoints,
        c.flushed(k).checkpoints == c.checkpoints,
{
}

/// A revert undoes a write exactly. Opening a checkpoint, writing `v1` to `k`
/// and reverting leaves the cache as it is after a plain read of `k`: the same
/// record, the same dirty flag, the same checkpoints.
pub proof fn law_revert_undoes_write<K, V>(
    c: CacheModel<K, V>,
    store: StoreModel<K, V>,
    k: K,
    v1: V,
)
    ensures
        ({
            let found = store_get(store, k);
            let after = c.checkpointed().loaded(k, found).modified(k, v1).reverted();
            &&& after == c.loaded(k, found)
            &&& after.read(store, k) == c.read(store, k)
            &&& after.entries[k].dirty == c.loaded(k, found).entries[k].dirty
        }),
{
    let found = store_get(store, k);
    let read = c.loaded(k, found);
    let after = c.checkpointed().loaded(k, found).modified(k, v1).reverted();
    assert(after.entries =~= read.entries);
    assert(after.checkpoints =~= read.checkpoints);
}

/// A revert undoes a removal exactly: an address that was resident has its
/// entry back, one that was not is not resident again.
pub proof fn law_revert_undoes_remove<K, V>(c: CacheModel<K, V>, k: K)
    ensures
        c.checkpointed().removed(k).reverted() == c,
{
    let after = c.checkpointed().removed(k).reverted();
    assert(after.entries =~= c.entries);
    assert(after.checkpoints =~= c.checkpoints);
}

/// Checkpoints nest. After a write of `v1` under one checkpoint and a write of
/// `v2` under a second, the first revert brings back `v1` and the state under
/// the first checkpoint, the second revert brings back the state before both.
pub proof fn law_nested_checkpoints<K, V>(
    c: CacheModel<K, V>,
    store: StoreModel<K, V>,
    k: K,
    v1: V,
    v2: V,
)
    ensures
        ({
            let found = store_get(store, k);
            let outer = c.checkpointed().loaded(k, found).modified(k, v1);
            let inner = outer.checkpointed().loaded(k, found).modified(k, v2);
            &&& inner.read(store, k) == Some(v2)
            &&& inner.reverted() == outer
            &&& inner.reverted().read(store, k) == Some(v1)
            &&& inner.reverted().reverted() == c.loaded(k, found)
            &&& inner.reverted().reverted().read(store, k) == c.read(store, k)
        }),
{
    let found = store_get(store, k);
    let read = c.loaded(k, found);
    let outer = c.checkpointed().loaded(k, found).modified(k, v1);
    let inner = outer.checkpointed().loaded(k, found).modified(k, v2);
    assert(inner.reverted().entries =~= outer.entries);
    assert(inner.reverted().checkpoints =~= outer.checkpoints);
    assert(outer.reverted().entries =~= read.entries);
    assert(outer.reverted().checkpoints =~= read.checkpoints);
}

/// A discard keeps the writes and keeps the outer checkpoint whole. After a
/// write of `v1` under one checkpoint and a write of `v2` under a second, a
/// discard of the second leaves `v2` in the cache, and a revert of the first
/// still brings back the state before both.
pub proof fn law_discard_keeps_outer_revert<K, V>(
    c: CacheModel<K, V>,
    store: StoreModel<K, V>,
    k: K,
    v1: V,
    v2: V,
)
    ensures
        ({
            let found = store_get(store, k);
            let outer = c.checkpointed().loaded(k, found).modified(k, v1);
            let inner = outer.checkpointed().loaded(k, found).modified(k, v2);
            &&& inner.discarded().entries == inner.entries
            &&& inner.discarded().read(store, k) == Some(v2)
            &&& inner.discarded().depth() == c.depth() + 1
            &&& inner.discarded().reverted() == c.loaded(k, found)
            &&& inner.discarded().reverted().read(store, k) == c.read(store, k)
        }),
{
    let found = store_get(store, k);
    let read = c.loaded(k, found);
    let outer = c.checkpointed().loaded(k, found).modified(k, v1);
    let inner = outer.checkpointed().loaded(k, found).modified(k, v2);
    let kept = inner.discarded();
    assert(kept.checkpoints.last() =~= outer.checkpoints.last());
    assert(kept.reverted().entries =~= read.entries);
    assert(kept.reverted().checkpoints =~= read.checkpoints);
}

/// A discard changes no entry and closes one checkpoint, if one is open.
pub proof fn law_discard_keeps_entries<K, V>(c: CacheModel<K, V>)
    ensures
        c.discarded().entries == c.entries,
        c.depth() > 0 ==> c.discarded().depth() == c.depth() - 1,
        c.depth() == 0 ==> c.discarded() == c,
{
}

/// A finite, non-empty set of addresses has a first one in address order.
proof fn lemma_first_address<K: CacheKey>(s: Set<K>)
    requires
        s.finite(),
        s.len() > 0,
    ensures
        exists|a: K| s.contains(a) && forall|b: K| s.contains(b) ==> a.rank() <= b.rank(),
    decreases s.len(),
{
    let x = s.choose();
    let rest = s.remove(x);
    if rest.len() == 0 {
        assert forall|b: K| s.contains(b) implies x.rank() <= b.rank() by {
            if b != x {
                assert(rest.contains(b));
            }
        }
    } else {
        lemma_first_address(rest);
        let m = choose|a: K| rest.contains(a) && forall|b: K| rest.contains(b) ==> a.rank() <= b.rank();
        let least = if x.rank() <= m.rank() { x } else { m };
        assert forall|b: K| s.contains(b) implies least.rank() <= b.rank() by {
            if b != x {
                assert(rest.contains(b));
            }
        }
        assert(s.contains(least));
    }
}

/// While an entry is dirty a commit has a next write, and only one.
pub proof fn law_next_write<K: CacheKey, V>(c: CacheModel<K, V>)
    requires
        c.wf(),
    ensures
        !c.all_clean() ==> exists|a: K| c.next_write(a),
        forall|a: K, b: K| c.next_write(a) && c.next_write(b) ==> a == b,
{
    if !c.all_clean() {
        let d = choose|a: K| c.entries.contains_key(a) && c.entries[a].dirty;
        let dirty = c.dirty_addresses();
        assert(dirty.contains(d));
        c.entries.dom().lemma_len_filter(|a: K| c.entries[a].dirty);
        assert(dirty.finite());
        if dirty.len() == 0 {
            assert(dirty =~= Set::empty());
        }
        lemma_first_address(dirty);
        let first = choose|a: K|
            dirty.contains(a) && forall|b: K| dirty.contains(b) ==> a.rank() <= b.rank();
        assert forall|b: K| c.entries.contains_key(b) && (
        #[trigger] c.entries[b]).dirty implies first.rank() <= b.rank() by {
            assert(dirty.contains(b));
        }
        assert(c.next_write(first));
    }
    assert forall|a: K, b: K| c.next_write(a) && c.next_write(b) implies a == b by {
        assert(c.entries[a].dirty && c.entries[b].dirty);
        K::rank_injective(a, b);
    }
}

/// One write of a commit: the first dirty address goes to the store with its
/// record, or leaves the store where it holds a tombstone, and is clean
/// afterwards. No other entry and no other address of the store changes, and
/// one address fewer is dirty.
pub proof fn law_commit_step<K: CacheKey, V>(c: CacheModel<K, V>, store: StoreModel<K, V>, a: K)
    requires
        c.wf(),
        c.next_write(a),
    ensures
        c.flushed_first(1) == c.flushed(a),
        c.flushed(a).wf(),
        c.stored_first(store, 1) == store_put(store, a, c.entries[a].value),
        store_get(c.stored_first(store, 1), a) == c.entries[a].value,
        !c.flushed(a).entries[a].dirty,
        c.flushed(a).dirty_addresses() == c.dirty_addresses().remove(a),
        c.dirty_addresses().finite(),
        c.dirty_addresses().len() > 0,
        c.flushed(a).dirty_addresses().len() == c.dirty_addresses().len() - 1,
        forall|b: K| b != a ==> store_get(c.stored_first(store, 1), b) == store_get(store, b),
        forall|b: K| b != a && c.entries.contains_key(b) ==> c.flushed(a).entries[b] == c.entries[b],
{
    law_next_write(c);
    let chosen = choose|a: K| c.next_write(a);
    assert(chosen == a);
    let after = c.flushed(a);
    let stored = store_put(store, a, c.entries[a].value);
    assert(after.flushed_first(0) == after);
    assert(after.stored_first(stored, 0) == stored);
    assert(after.dirty_addresses() =~= c.dirty_addresses().remove(a));
    assert(after.entries.dom() =~= c.entries.dom());
    c.entries.dom().lemma_len_filter(|a: K| c.entries[a].dirty);
    assert(c.dirty_addresses().contains(a));
}

/// A commit flushes exactly the dirty entries, as far as it gets.
///
/// After any number of writes no record in the cache has changed and the
/// checkpoints are as they were. Every entry that was dirty is either clean,
/// and the store holds its record (or nothing, for a tombstone), or still dirty,
/// and the store holds for it what it held before. An address that was not
/// dirty is untouched in the store. Once the commit has made as many writes as
/// entries were dirty, no entry is dirty.
pub proof fn law_commit_flushes_dirty<K: CacheKey, V>(
    c: CacheModel<K, V>,
    store: StoreModel<K, V>,
    writes: nat,
)
    requires
        c.wf(),
    ensures
        ({
            let after = c.flushed_first(writes);
            let stored = c.stored_first(store, writes);
            &&& after.wf()
            &&& after.holds_what(c)
            &&& after.checkpoints == c.checkpoints
            &&& after.entries.dom() == c.entries.dom()
            &&& forall|a: K|
                c.entries.contains_key(a) ==> (#[trigger] after.entries[a]).value
                    == c.entries[a].value
            &&& forall|a: K|
                c.entries.contains_key(a) && c.entries[a].dirty ==> if (
                #[trigger] after.entries[a]).dirty {
                    store_get(stored, a) == store_get(store, a)
                } else {
                    store_get(stored, a) == c.entries[a].value
                }
            &&& forall|a: K|
                c.entries.contains_key(a) && !c.entries[a].dirty ==> !(
                #[trigger] after.entries[a]).dirty
            &&& forall|a: K|
                !(c.entries.contains_key(a) && c.entries[a].dirty) ==> #[trigger] store_get(
                    stored,
                    a,
                ) == store_get(store, a)
            &&& writes >= c.dirty_addresses().len() ==> after.all_clean()
            &&& writes <= c.dirty_addresses().len() ==> after.dirty_addresses().len()
                == c.dirty_addresses().len() - writes
        }),
    decreases writes,
{
    let after = c.flushed_first(writes);
    let stored = c.stored_first(store, writes);
    law_next_write(c);
    c.entries.dom().lemma_len_filter(|a: K| c.entries[a].dirty);
    if writes == 0 || !exists|a: K| c.next_write(a) {
        if !c.all_clean() {
            let d = choose|a: K| c.entries.contains_key(a) && c.entries[a].dirty;
            assert(c.dirty_addresses().contains(d));
        } else {
            assert(c.dirty_addresses() =~= Set::empty());
        }
        if c.dirty_addresses().len() == 0 {
            assert(c.dirty_addresses() =~= Set::empty());
            if !c.all_clean() {
                let d = choose|a: K| c.entries.contains_key(a) && c.entries[a].dirty;
                assert(c.dirty_addresses().contains(d));
            }
        }
    } else {
        let a = choose|a: K| c.next_write(a);
        let next = c.flushed(a);
        let put = store_put(store, a, c.entries[a].value);
        law_commit_step(c, store, a);
        assert(next.entries.dom() =~= c.entries.dom());
        law_commit_flushes_dirty(next, put, (writes - 1) as nat);
        assert(after.entries.dom() == c.entries.dom());
        assert forall|b: K| c.entries.contains_key(b) implies (#[trigger] after.entries[b]).value
            == c.entries[b].value by {
            assert(next.entries[b].value == c.entries[b].value);
        }
        assert forall|b: K| c.entries.contains_key(b) && c.entries[b].dirty implies if (
        #[trigger] after.entries[b]).dirty {
            store_get(stored, b) == store_get(store, b)
        } else {
            store_get(stored, b) == c.entries[b].value
        } by {
            if b == a {
                assert(!next.entries[a].dirty);
                assert(!after.entries[a].dirty);
                assert(store_get(stored, a) == store_get(put, a));
            } else {
                assert(next.entries[b] == c.entries[b]);
                assert(store_get(put, b) == store_get(store, b));
            }
        }
        assert forall|b: K| c.entries.contains_key(b) && !c.entries[b].dirty implies !(
        #[trigger] after.entries[b]).dirty by {
            assert(next.entries[b] == c.entries[b]);
        }
        assert forall|b: K| !(c.entries.contains_key(b) && c.entries[b].dirty) implies
            #[trigger] store_get(stored, b) == store_get(store, b) by {
            assert(b != a);
            if next.entries.contains_key(b) {
                assert(next.entries[b] == c.entries[b]);
            }
            assert(store_get(stored, b) == store_get(put, b));
        }
    }
}

/// A commit that stopped can be taken up again: making `first` writes and then
/// `then` more is the same as making `first + then` at once.
pub proof fn law_commit_resumes<K: CacheKey, V>(
    c: CacheModel<K, V>,
    store: StoreModel<K, V>,
    first: nat,
    then: nat,
)
    ensures
        c.flushed_first(first).flushed_first(then) == c.flushed_first(first + then),
        c.flushed_first(first).stored_first(c.stored_first(store, first), then) == c.stored_first(
            store,
            first + then,
        ),
    decreases first,
{
    if first == 0 {
    } else if !exists|a: K| c.next_write(a) {
        if then > 0 {
        }
    } else {
        let a = choose|a: K| c.next_write(a);
        law_commit_resumes(
            c.flushed(a),
            store_put(store, a, c.entries[a].value),
            (first - 1) as nat,
            then,
        );
        assert((first + then - 1) as nat == (first - 1) as nat + then);
    }
}

/// What a seed leaves in the cache: the address of each pair is resident and
/// clean, and holds the record of the last pair with that address.
pub proof fn law_seeded_entries<K, V>(seed: Seq<(K, V)>)
    ensures
        forall|k: K|
            #[trigger] seeded_entries(seed).contains_key(k) <==> exists|i: int|
                0 <= i < seed.len() && (#[trigger] seed[i]).0 == k,
        forall|k: K|
            seeded_entries(seed).contains_key(k) ==> !(#[trigger] seeded_entries(seed)[k]).dirty,
        forall|i: int|
            0 <= i < seed.len() && (forall|j: int| i < j < seed.len() ==> seed[j].0 != seed[i].0)
                ==> (#[trigger] seeded_entries(seed)[seed[i].0]).value == Some(seed[i].1),
        seeded_entries(seed).dom().finite(),
    decreases seed.len(),
{
    if seed.len() > 0 {
        let front = seed.drop_last();
        law_seeded_entries(front);
        let last = seed.last();
        assert forall|k: K| #[trigger] seeded_entries(seed).contains_key(k) implies exists|i: int|
            0 <= i < seed.len() && (#[trigger] seed[i]).0 == k by {
            if k == last.0 {
                assert(seed[seed.len() - 1].0 == k);
            } else {
                assert(seeded_entries(front).contains_key(k));
                let i = choose|i: int| 0 <= i < front.len() && (#[trigger] front[i]).0 == k;
                assert(seed[i].0 == k);
            }
        }
        assert forall|k: K|
            (exists|i: int| 0 <= i < seed.len() && (#[trigger] seed[i]).0 == k) implies
            #[trigger] seeded_entries(seed).contains_key(k) by {
            let i = choose|i: int| 0 <= i < seed.len() && (#[trigger] seed[i]).0 == k;
            if i < seed.len() - 1 {
                assert(front[i].0 == k);
                assert(seeded_entries(front).contains_key(k));
            }
        }
        assert forall|i: int|
            0 <= i < seed.len() && (forall|j: int|
                i < j < seed.len() ==> seed[j].0 != seed[i].0) implies (
        #[trigger] seeded_entries(seed)[seed[i].0]).value == Some(seed[i].1) by {
            if i < seed.len() - 1 {
                assert(seed[seed.len() - 1].0 != seed[i].0);
                assert(front[i] == seed[i]);
                assert forall|j: int| i < j < front.len() implies front[j].0 != front[i].0 by {
                    assert(front[j] == seed[j]);
                }
                assert(seeded_entries(front)[front[i].0].value == Some(front[i].1));
            }
        }
    }
}

/// A cache seeded from the listing of another answers every seeded address
/// by itself, with the record the other held, and holds it clean.
///
/// The seed is any sequence of pairs taken from the entries of `c`: addresses
/// of `c` with the records they hold there.
pub proof fn law_seed_round_trip<K, V>(c: CacheModel<K, V>, seed: Seq<(K, V)>, i: int)
    requires
        forall|j: int|
            0 <= j < seed.len() ==> c.entries.contains_key((#[trigger] seed[j]).0)
                && c.entries[seed[j].0].value == Some(seed[j].1),
        0 <= i < seed.len(),
    ensures
        CacheModel::<K, V>::seeded(seed).lookup(seed[i].0) == Lookup::Resident(Some(seed[i].1)),
        !CacheModel::<K, V>::seeded(seed).entries[seed[i].0].dirty,
        CacheModel::<K, V>::seeded(seed).depth() == 0,
        CacheModel::<K, V>::seeded(seed).wf(),
    decreases seed.len() - i,
{
    law_seeded_entries(seed);
    let k = seed[i].0;
    assert(seeded_entries(seed).contains_key(k));
    if forall|j: int| i < j < seed.len() ==> seed[j].0 != seed[i].0 {
        assert(seeded_entries(seed)[seed[i].0].value == Some(seed[i].1));
    } else {
        let j = choose|j: int| i < j < seed.len() && seed[j].0 == seed[i].0;
        law_seed_round_trip(c, seed, j);
        assert(c.entries[seed[j].0].value == Some(seed[j].1));
        assert(c.entries[seed[i].0].value == Some(seed[i].1));
    }
}

/// In two listings of the same entries, an address stands no earlier in the
/// second than in the first.
proof fn lemma_listed_no_earlier<K: CacheKey, V>(
    first: Seq<(K, Option<V>)>,
    second: Seq<(K, Option<V>)>,
    entries: Map<K, EntryModel<V>>,
    i: int,
)
    requires
        lists(first, entries),
        lists(second, entries),
        0 <= i < first.len(),
    ensures
        exists|j: int| i <= j < second.len() && (#[trigger] second[j]).0 == first[i].0,
    decreases i,
{
    assert(entries.contains_key(first[i].0));
    let j = choose|j: int| 0 <= j < second.len() && (#[trigger] second[j]).0 == first[i].0;
    if i > 0 {
        lemma_listed_no_earlier(first, second, entries, i - 1);
        let before = choose|j: int|
            i - 1 <= j < second.len() && (#[trigger] second[j]).0 == first[i - 1].0;
        assert(first[i - 1].0.rank() < first[i].0.rank());
        if j < before {
            assert(second[j].0.rank() < second[before].0.rank());
        }
    }
    assert(second[j].0 == first[i].0);
}

/// The entries of a cache have one listing only: every resident address
/// once, with what it holds, in address order.
pub proof fn law_listing_is_unique<K: CacheKey, V>(
    first: Seq<(K, Option<V>)>,
    second: Seq<(K, Option<V>)>,
    entries: Map<K, EntryModel<V>>,
)
    requires
        lists(first, entries),
        lists(second, entries),
    ensures
        first == second,
{
    assert forall|i: int| 0 <= i < first.len() implies i < second.len() && first[i]
        == second[i] by {
        lemma_listed_no_earlier(first, second, entries, i);
        let j = choose|j: int| i <= j < second.len() && (#[trigger] second[j]).0 == first[i].0;
        lemma_listed_no_earlier(second, first, entries, j);
        let back = choose|k: int| j <= k < first.len() && (#[trigger] first[k]).0 == second[j].0;
        if back > i {
            assert(first[i].0.rank() < first[back].0.rank());
        }
        assert(entries[first[i].0].value == first[i].1);
        assert(entries[second[j].0].value == second[j].1);
    }
    if first.len() < second.len() {
        lemma_listed_no_earlier(second, first, entries, first.len() as int);
    }
    if second.len() < first.len() {
        lemma_listed_no_earlier(first, second, entries, second.len() as int);
    }
    assert(first =~= second);
}

/// The five caches stay in step: a checkpoint, a discard and a revert each
/// leave them with the same number of open checkpoints.
pub proof fn law_caches_stay_in_step(t: TopModel)
    requires
        t.in_step(),
    ensures
        t.checkpointed().in_step(),
        t.checkpointed().depth() == t.depth() + 1,
        t.discarded().in_step(),
        t.depth() > 0 ==> t.reverted().in_step() && t.reverted().depth() == t.depth() - 1,
{
}

/// While an entry of any kind is dirty a commit of the state has a next
/// write, and only one; when none is dirty it has none.
pub proof fn law_top_next_write(t: TopModel)
    requires
        t.wf(),
    ensures
        !t.all_clean() ==> exists|a: TopAddress| t.next_write(a),
        forall|a: TopAddress, b: TopAddress| t.next_write(a) && t.next_write(b) ==> a == b,
        t.all_clean() <==> t.dirty_count() == 0,
{
    law_next_write(t.account);
    law_next_write(t.regular_account);
    law_next_write(t.metadata);
    law_next_write(t.shard);
    law_next_write(t.action_data);
    lemma_clean_has_no_dirty(t.account);
    lemma_clean_has_no_dirty(t.regular_account);
    lemma_clean_has_no_dirty(t.metadata);
    lemma_clean_has_no_dirty(t.shard);
    lemma_clean_has_no_dirty(t.action_data);
    if !t.account.all_clean() {
        let a = choose|a| t.account.next_write(a);
        assert(t.next_write(TopAddress::Account(a)));
    } else if !t.regular_account.all_clean() {
        let a = choose|a| t.regular_account.next_write(a);
        assert(t.next_write(TopAddress::RegularAccount(a)));
    } else if !t.metadata.all_clean() {
        let a = choose|a| t.metadata.next_write(a);
        assert(t.next_write(TopAddress::Metadata(a)));
    } else if !t.shard.all_clean() {
        let a = choose|a| t.shard.next_write(a);
        assert(t.next_write(TopAddress::Shard(a)));
    } else if !t.action_data.all_clean() {
        let a = choose|a| t.action_data.next_write(a);
        assert(t.next_write(TopAddress::ActionData(a)));
    }
}

/// A cache is clean exactly when its set of dirty addresses is empty.
proof fn lemma_clean_has_no_dirty<K: CacheKey, V>(c: CacheModel<K, V>)
    requires
        c.wf(),
    ensures
        c.dirty_addresses().finite(),
        c.all_clean() <==> c.dirty_addresses().len() == 0,
{
    c.entries.dom().lemma_len_filter(|a: K| c.entries[a].dirty);
    if c.all_clean() {
        assert(c.dirty_addresses() =~= Set::empty());
    } else {
        let d = choose|a: K| c.entries.contains_key(a) && c.entries[a].dirty;
        assert(c.dirty_addresses().contains(d));
        if c.dirty_addresses().len() == 0 {
            assert(c.dirty_addresses() =~= Set::empty());
        }
    }
}

/// One write of a commit of the state: the entry of the next write is clean
/// afterwards, every other entry of every kind is as it was, and one entry
/// fewer is dirty.
pub proof fn law_top_commit_step(t: TopModel, a: TopAddress)
    requires
        t.wf(),
        t.next_write(a),
    ensures
        t.flushed_first(1) == t.flushed(a),
        t.flushed(a).wf(),
        t.dirty_count() > 0,
        t.flushed(a).dirty_count() == t.dirty_count() - 1,
{
    law_top_next_write(t);
    let chosen = choose|a: TopAddress| t.next_write(a);
    assert(chosen == a);
    assert(t.flushed(a).flushed_first(0) == t.flushed(a));
    match a {
        TopAddress::Account(a) => law_commit_step(t.account, Map::empty(), a),
        TopAddress::RegularAccount(a) => law_commit_step(t.regular_account, Map::empty(), a),
        TopAddress::Metadata(a) => law_commit_step(t.metadata, Map::empty(), a),
        TopAddress::Shard(a) => law_commit_step(t.shard, Map::empty(), a),
        TopAddress::ActionData(a) => law_commit_step(t.action_data, Map::empty(), a),
    }
}

/// A commit of the state that stopped can be taken up again: making `first`
/// writes and then `then` more is the same as making `first + then` at once.
pub proof fn law_top_commit_resumes(t: TopModel, first: nat, then: nat)
    ensures
        t.flushed_first(first).flushed_first(then) == t.flushed_first(first + then),
    decreases first,
{
    if first == 0 {
    } else if !exists|a: TopAddress| t.next_write(a) {
        if then > 0 {
        }
    } else {
        let a = choose|a: TopAddress| t.next_write(a);
        law_top_commit_resumes(t.flushed(a), (first - 1) as nat, then);
        assert((first + then - 1) as nat == (first - 1) as nat + then);
    }
}

/// A commit of the state goes through the kinds in order and ends with
/// every entry clean: after as many writes as entries were dirty no entry is
/// dirty, and no record and no checkpoint of any kind has changed.
pub proof fn law_top_commit_cleans(t: TopModel, writes: nat)
    requires
        t.wf(),
    ensures
        t.flushed_first(writes).wf(),
        t.flushed_first(writes).holds_what(t),
        writes <= t.dirty_count() ==> t.flushed_first(writes).dirty_count() == t.dirty_count()
            - writes,
        writes >= t.dirty_count() ==> t.flushed_first(writes).all_clean(),
        t.flushed_first(writes).depth() == t.depth(),
    decreases writes,
{
    law_top_next_write(t);
    if writes == 0 || !exists|a: TopAddress| t.next_write(a) {
    } else {
        let a = choose|a: TopAddress| t.next_write(a);
        law_top_commit_step(t, a);
        law_top_commit_cleans(t.flushed(a), (writes - 1) as nat);
        match a {
            TopAddress::Account(x) => law_commit_flushes_dirty(t.account, Map::empty(), 1),
            TopAddress::RegularAccount(x) => law_commit_flushes_dirty(
                t.regular_account,
                Map::empty(),
                1,
            ),
            TopAddress::Metadata(x) => law_commit_flushes_dirty(t.metadata, Map::empty(), 1),
            TopAddress::Shard(x) => law_commit_flushes_dirty(t.shard, Map::empty(), 1),
            TopAddress::ActionData(x) => law_commit_flushes_dirty(t.action_data, Map::empty(), 1),
        }
        match a {
            TopAddress::Account(x) => law_commit_step(t.account, Map::empty(), x),
            TopAddress::RegularAccount(x) => law_commit_step(t.regular_account, Map::empty(), x),
            TopAddress::Metadata(x) => law_commit_step(t.metadata, Map::empty(), x),
            TopAddress::Shard(x) => law_commit_step(t.shard, Map::empty(), x),
            TopAddress::ActionData(x) => law_commit_step(t.action_data, Map::empty(), x),
        }
    }
}

/// A clean cache has no next write, and a commit leaves it as it is.
proof fn lemma_clean_stays<K: CacheKey, V>(c: CacheModel<K, V>, writes: nat)
    requires
        c.all_clean(),
    ensures
        !exists|a: K| c.next_write(a),
        c.flushed_first(writes) == c,
{
    assert forall|a: K| !c.next_write(a) by {
        if c.entries.contains_key(a) {
            assert(!c.entries[a].dirty);
        }
    }
}

/// The smaller of two numbers.
pub open spec fn least(a: nat, b: nat) -> nat {
    if a <= b {
        a
    } else {
        b
    }
}

/// How a commit of the state shares its writes among the kinds: the
/// accounts take as many as they have dirty entries, then the regular
/// accounts, the metadata, the shards and the action data, each from what the
/// kinds before it have left.
pub open spec fn share_of_writes(t: TopModel, writes: nat) -> (nat, nat, nat, nat, nat) {
    let account = least(writes, t.account.dirty_addresses().len());
    let after_account = (writes - account) as nat;
    let regular_account = least(after_account, t.regular_account.dirty_addresses().len());
    let after_regular_account = (after_account - regular_account) as nat;
    let metadata = least(after_regular_account, t.metadata.dirty_addresses().len());
    let after_metadata = (after_regular_account - metadata) as nat;
    let shard = least(after_metadata, t.shard.dirty_addresses().len());
    let after_shard = (after_metadata - shard) as nat;
    let action_data = least(after_shard, t.action_data.dirty_addresses().len());
    (account, regular_account, metadata, shard, action_data)
}

/// A commit of the state is the commit of each kind, one after the other:
/// after any number of writes every kind is where its own commit is after
/// its share of them. So what is proved of the commit of one cache holds of
/// each kind of the state.
pub proof fn law_top_commit_in_order(t: TopModel, writes: nat)
    requires
        t.wf(),
    ensures
        ({
            let share = share_of_writes(t, writes);
            t.flushed_first(writes) == (TopModel {
                account: t.account.flushed_first(share.0),
                regular_account: t.regular_account.flushed_first(share.1),
                metadata: t.metadata.flushed_first(share.2),
                shard: t.shard.flushed_first(share.3),
                action_data: t.action_data.flushed_first(share.4),
            })
        }),
    decreases writes,
{
    law_top_next_write(t);
    lemma_clean_has_no_dirty(t.account);
    lemma_clean_has_no_dirty(t.regular_account);
    lemma_clean_has_no_dirty(t.metadata);
    lemma_clean_has_no_dirty(t.shard);
    lemma_clean_has_no_dirty(t.action_data);
    let share = share_of_writes(t, writes);
    if writes == 0 {
    } else if !exists|a: TopAddress| t.next_write(a) {
        lemma_clean_stays(t.account, share.0);
        lemma_clean_stays(t.regular_account, share.1);
        lemma_clean_stays(t.metadata, share.2);
        lemma_clean_stays(t.shard, share.3);
        lemma_clean_stays(t.action_data, share.4);
    } else {
        let a = choose|a: TopAddress| t.next_write(a);
        let next = t.flushed(a);
        law_top_commit_step(t, a);
        law_top_commit_in_order(next, (writes - 1) as nat);
        let rest = share_of_writes(next, (writes - 1) as nat);
        match a {
            TopAddress::Account(x) => {
                law_commit_step(t.account, Map::empty(), x);
                law_next_write(t.account);
                assert(t.account.flushed_first(share.0) == t.account.flushed(x).flushed_first(
                    rest.0,
                ));
            },
            TopAddress::RegularAccount(x) => {
                lemma_clean_stays(t.account, share.0);
                law_commit_step(t.regular_account, Map::empty(), x);
                law_next_write(t.regular_account);
                assert(t.regular_account.flushed_first(share.1) == t.regular_account.flushed(
                    x,
                ).flushed_first(rest.1));
            },
            TopAddress::Metadata(x) => {
                lemma_clean_stays(t.account, share.0);
                lemma_clean_stays(t.regular_account, share.1);
                law_commit_step(t.metadata, Map::empty(), x);
                law_next_write(t.metadata);
                assert(t.metadata.flushed_first(share.2) == t.metadata.flushed(x).flushed_first(
                    rest.2,
                ));
            },
            TopAddress::Shard(x) => {
                lemma_clean_stays(t.account, share.0);
                lemma_clean_stays(t.regular_account, share.1);
                lemma_clean_stays(t.metadata, share.2);
                law_commit_step(t.shard, Map::empty(), x);
                law_next_write(t.shard);
                assert(t.shard.flushed_first(share.3) == t.shard.flushed(x).flushed_first(rest.3));
            },
            TopAddress::ActionData(x) => {
                lemma_clean_stays(t.account, share.0);
                lemma_clean_stays(t.regular_account, share.1);
                lemma_clean_stays(t.metadata, share.2);
                lemma_clean_stays(t.shard, share.3);
                law_commit_step(t.action_data, Map::empty(), x);
                law_next_write(t.action_data);
                assert(t.action_data.flushed_first(share.4) == t.action_data.flushed(
                    x,
                ).flushed_first(rest.4));
            },
        }
    }
}

} // verus!
