//! A write-back cache over one namespace of addresses, with checkpoints.

use crate::address::CacheKey;
use crate::item::CacheableItem;
use crate::laws::{law_commit_flushes_dirty, law_commit_resumes, law_commit_step};
use crate::model::{lists, restored, seeded_entries, CacheModel, EntryModel, FrameModel, Lookup};
use crate::sorted_map::SortedMap;
use vstd::prelude::*;

verus! {

/// One slot of the cache: a record or a tombstone, and whether it is dirty.
struct Entry<T> {
    value: Option<T>,
    dirty: bool,
}

/// The view of a record that may be absent.
pub open spec fn option_view<T: View>(value: Option<T>) -> Option<T::V> {
    match value {
        Some(v) => Some(v@),
        None => None,
    }
}

/// The view of a record that may be absent, seen through a reference.
pub open spec fn option_ref_view<T: View>(value: Option<&T>) -> Option<T::V> {
    match value {
        Some(v) => Some(v@),
        None => None,
    }
}

impl<T: View> View for Entry<T> {
    type V = EntryModel<T::V>;

    closed spec fn view(&self) -> EntryModel<T::V> {
        EntryModel { value: option_view(self.value), dirty: self.dirty }
    }
}

impl<T: CacheableItem> Entry<T> {
    /// A copy of this entry, for a checkpoint to keep.
    fn duplicate(&self) -> (r: Self)
        ensures
            r@ == self@,
    {
        let value = match &self.value {
            Some(v) => Some(v.duplicate()),
            None => None,
        };
        Entry { value, dirty: self.dirty }
    }
}

/// What a frame has saved, as the model sees it.
spec fn saved_model<T: View>(saved: Option<Entry<T>>) -> Option<EntryModel<T::V>> {
    match saved {
        Some(e) => Some(e@),
        None => None,
    }
}

/// The entries of a cache, as the model sees them.
spec fn entries_model<K, T: View>(entries: Map<K, Entry<T>>) -> Map<K, EntryModel<T::V>> {
    Map::new(|k: K| entries.contains_key(k), |k: K| entries[k]@)
}

/// A frame, as the model sees it.
spec fn frame_model<K, T: View>(frame: Map<K, Option<Entry<T>>>) -> FrameModel<K, T::V> {
    Map::new(|k: K| frame.contains_key(k), |k: K| saved_model(frame[k]))
}

/// The model of the entries follows an insertion.
proof fn lemma_entries_model_insert<K, T: View>(entries: Map<K, Entry<T>>, a: K, e: Entry<T>)
    ensures
        entries_model(entries.insert(a, e)) == entries_model(entries).insert(a, e@),
{
    assert(entries_model(entries.insert(a, e)) =~= entries_model(entries).insert(a, e@));
}

/// The model of a frame follows an insertion.
proof fn lemma_frame_model_insert<K, T: View>(
    frame: Map<K, Option<Entry<T>>>,
    a: K,
    saved: Option<Entry<T>>,
)
    ensures
        frame_model(frame.insert(a, saved)) == frame_model(frame).insert(a, saved_model(saved)),
{
    assert(frame_model(frame.insert(a, saved)) =~= frame_model(frame).insert(
        a,
        saved_model(saved),
    ));
}

/// The model of a frame follows a merge with the frame below.
proof fn lemma_frame_model_union<K, T: View>(
    top: Map<K, Option<Entry<T>>>,
    below: Map<K, Option<Entry<T>>>,
)
    ensures
        frame_model(top.union_prefer_right(below)) == frame_model(top).union_prefer_right(
            frame_model(below),
        ),
{
    assert(frame_model(top.union_prefer_right(below)) =~= frame_model(top).union_prefer_right(
        frame_model(below),
    ));
}

/// The entries while a frame is being put back: the addresses of `frame`
/// outside `remaining` have their saved entries, the others are as in `entries`.
spec fn restored_partly<K, T>(
    entries: Map<K, Entry<T>>,
    frame: Map<K, Option<Entry<T>>>,
    remaining: Set<K>,
) -> Map<K, Entry<T>> {
    Map::new(
        |k: K|
            if frame.contains_key(k) && !remaining.contains(k) {
                frame[k].is_some()
            } else {
                entries.contains_key(k)
            },
        |k: K|
            if frame.contains_key(k) && !remaining.contains(k) {
                frame[k].unwrap()
            } else {
                entries[k]
            },
    )
}

/// Once every address of a frame is put back, the model sees the entries restored.
proof fn lemma_restored_model<K, T: View>(
    entries: Map<K, Entry<T>>,
    frame: Map<K, Option<Entry<T>>>,
)
    ensures
        entries_model(restored_partly(entries, frame, Set::empty())) == restored(
            entries_model(entries),
            frame_model(frame),
        ),
{
    assert(entries_model(restored_partly(entries, frame, Set::empty())) =~= restored(
        entries_model(entries),
        frame_model(frame),
    ));
}

/// A frame while another is being merged into it: the addresses of `top`
/// outside `remaining` have been added where `below` had none.
spec fn merged_partly<K, T>(
    top: Map<K, Option<Entry<T>>>,
    below: Map<K, Option<Entry<T>>>,
    remaining: Set<K>,
) -> Map<K, Option<Entry<T>>> {
    Map::new(
        |k: K| below.contains_key(k) || (top.contains_key(k) && !remaining.contains(k)),
        |k: K|
            if below.contains_key(k) {
                below[k]
            } else {
                top[k]
            },
    )
}

/// The pairs of a seed, as the model sees them.
pub open spec fn seed_view<K, T: View>(seed: Seq<(K, T)>) -> Seq<(K, T::V)> {
    Seq::new(seed.len(), |i: int| (seed[i].0, seed[i].1@))
}

/// The pairs of a listing, as the model sees them.
pub open spec fn items_view<K, T: View>(items: Seq<(K, Option<T>)>) -> Seq<(K, Option<T::V>)> {
    Seq::new(items.len(), |i: int| (items[i].0, option_view(items[i].1)))
}

/// Whether the store behind `trie` can have taken the next write of `state`:
/// the first dirty address with what it holds.
pub open spec fn takes_next_write<K: CacheKey, T: View, E, F: FnMut(&K, Option<&T>) -> Result<(), E>>(
    trie: F,
    state: CacheModel<K, T::V>,
) -> bool {
    exists|a: K, v: Option<&T>, answer: Result<(), E>|
        state.next_write(a) && option_ref_view(v) == state.entries[a].value && answer is Ok
            && #[trigger] call_ensures(trie, (&a, v), answer)
}

/// A checkpointable cache of the records of one namespace.
///
/// Reads go through the cache to the store behind it, writes stay in the cache
/// until a commit hands them to the store. The cache does not own the store: a
/// read is handed a way to ask it and a commit a way to write it, each for the
/// length of the call. The steps that need no store at all (`lookup`, `load`,
/// `lookup_mut`, `next_write`, `flushed`) are there for a caller that drives
/// the store by itself.
pub struct WriteBack<K, T> {
    cache: SortedMap<K, Entry<T>>,
    checkpoints: Vec<SortedMap<K, Option<Entry<T>>>>,
}

impl<K: CacheKey, T: CacheableItem> View for WriteBack<K, T> {
    type V = CacheModel<K, T::V>;

    closed spec fn view(&self) -> CacheModel<K, T::V> {
        CacheModel {
            entries: entries_model(self.cache@),
            checkpoints: Seq::new(
                self.checkpoints@.len(),
                |i: int| frame_model(self.checkpoints@[i]@),
            ),
        }
    }
}

impl<K: CacheKey, T: CacheableItem> WriteBack<K, T> {
    /// The invariant of the representation.
    pub closed spec fn wf(&self) -> bool {
        &&& self.cache.wf()
        &&& forall|i: int|
            0 <= i < self.checkpoints@.len() ==> (#[trigger] self.checkpoints@[i]).wf()
    }

    /// A well-formed cache holds finitely many entries and snapshots.
    pub proof fn lemma_view_wf(&self)
        requires
            self.wf(),
        ensures
            self@.wf(),
    {
        self.cache.lemma_ordered();
        assert(self@.entries.dom() =~= self.cache@.dom());
        assert forall|i: int| 0 <= i < self@.checkpoints.len() implies (
        #[trigger] self@.checkpoints[i]).dom().finite() by {
            self.checkpoints@[i].lemma_ordered();
            assert(self@.checkpoints[i].dom() =~= self.checkpoints@[i]@.dom());
        }
    }

    /// An empty cache with no checkpoint open.
    pub fn new() -> (r: Self)
        ensures
            r.wf(),
            r@ == CacheModel::<K, T::V>::seeded(Seq::empty()),
    {
        let r = WriteBack { cache: SortedMap::new(), checkpoints: Vec::new() };
        assert(r@.entries =~= Map::empty());
        assert(r@.checkpoints =~= Seq::empty());
        r
    }

    /// Whether `a` is resident.
    pub fn contains(&self, a: &K) -> (r: bool)
        requires
            self.wf(),
        ensures
            r == self@.resident(*a),
    {
        self.cache.contains_key(a)
    }

    /// The number of open checkpoints.
    pub fn depth(&self) -> (n: usize)
        requires
            self.wf(),
        ensures
            n == self@.depth(),
    {
        self.checkpoints.len()
    }

    /// What the cache alone holds at `a`: the record or the tombstone of a
    /// resident address, or `Missing` where the store has to be read first.
    pub fn lookup(&self, a: &K) -> (r: Lookup<Option<&T>>)
        requires
            self.wf(),
        ensures
            match r {
                Lookup::Resident(v) => self@.lookup(*a) == Lookup::Resident(option_ref_view(v)),
                Lookup::Missing => self@.lookup(*a) == Lookup::<Option<T::V>>::Missing,
            },
    {
        match self.cache.get(a) {
            Some(entry) => Lookup::Resident(entry.value.as_ref()),
            None => Lookup::Missing,
        }
    }

    /// Takes the answer of the store for `a`: the record found there, or `None`.
    /// Where `a` is not resident it becomes so, clean; where it is, nothing changes.
    pub fn load(&mut self, a: K, fetched: Option<T>)
        requires
            old(self).wf(),
        ensures
            final(self).wf(),
            final(self)@ == old(self)@.loaded(a, option_view(fetched)),
    {
        if !self.cache.contains_key(&a) {
            let entry = Entry { value: fetched, dirty: false };
            proof {
                lemma_entries_model_insert(self.cache@, a, entry);
            }
            self.cache.insert(a, entry);
            assert(self@.checkpoints =~= old(self)@.checkpoints);
        }
    }

    /// The record at `a`, read through the cache: `None` where there is none.
    ///
    /// A resident address is answered by the cache, tombstone included. For
    /// any other address the store is asked through `db`; what it answers
    /// becomes resident, clean, and is returned. An error of the store is
    /// handed on and leaves the cache as it was.
    pub fn get<E, F: FnOnce(&K) -> Result<Option<T>, E>>(&mut self, a: &K, db: F) -> (r: Result<
        Option<&T>,
        E,
    >)
        requires
            old(self).wf(),
            call_requires(db, (a,)),
        ensures
            final(self).wf(),
            old(self)@.resident(*a) ==> final(self)@ == old(self)@ && (r matches Ok(v)
                && option_ref_view(v) == old(self)@.entries[*a].value),
            !old(self)@.resident(*a) ==> exists|answer: Result<Option<T>, E>|
                call_ensures(db, (a,), answer) && match answer {
                    Ok(fetched) => final(self)@ == old(self)@.loaded(*a, option_view(fetched)) && (
                    r matches Ok(v) && option_ref_view(v) == option_view(fetched)),
                    Err(e) => final(self)@ == old(self)@ && (r matches Err(handed) && handed == e),
                },
    {
        if !self.cache.contains_key(a) {
            match db(a) {
                Ok(fetched) => {
                    self.load(*a, fetched);
                },
                Err(e) => {
                    return Err(e);
                },
            }
        }
        assert(self@.entries.contains_key(*a) == self.cache@.contains_key(*a));
        match self.cache.get(a) {
            Some(entry) => {
                assert(self@.entries[*a] == entry@);
                Ok(entry.value.as_ref())
            },
            None => Ok(None),
        }
    }

    /// Opens a checkpoint.
    pub fn checkpoint(&mut self)
        requires
            old(self).wf(),
        ensures
            final(self).wf(),
            final(self)@ == old(self)@.checkpointed(),
    {
        let frame: SortedMap<K, Option<Entry<T>>> = SortedMap::new();
        assert(frame_model(frame@) =~= Map::empty());
        self.checkpoints.push(frame);
        assert(self@.checkpoints =~= old(self)@.checkpoints.push(Map::empty()));
    }

    /// Saves `saved` for `a` in the most recent frame, unless the frame has
    /// saved something for `a` already.
    fn note(checkpoints: &mut Vec<SortedMap<K, Option<Entry<T>>>>, a: K, saved: Option<Entry<T>>)
        requires
            forall|i: int| 0 <= i < old(checkpoints)@.len() ==> (#[trigger] old(checkpoints)@[i]).wf(),
        ensures
            forall|i: int|
                0 <= i < final(checkpoints)@.len() ==> (#[trigger] final(checkpoints)@[i]).wf(),
            final(checkpoints)@.len() == old(checkpoints)@.len(),
            forall|i: int|
                0 <= i < old(checkpoints)@.len() - 1 ==> final(checkpoints)@[i] == old(
                    checkpoints,
                )@[i],
            old(checkpoints)@.len() > 0 ==> frame_model(final(checkpoints)@.last()@) == (if old(
                checkpoints,
            )@.last()@.contains_key(a) {
                frame_model(old(checkpoints)@.last()@)
            } else {
                frame_model(old(checkpoints)@.last()@).insert(a, saved_model(saved))
            }),
    {
        let n = checkpoints.len();
        if n > 0 {
            let frame = &mut checkpoints[n - 1];
            if !frame.contains_key(&a) {
                proof {
                    lemma_frame_model_insert(frame@, a, saved);
                }
                frame.insert(a, saved);
            }
        }
    }

    /// Removes the record at `a`: the address holds a tombstone and is dirty,
    /// whether or not it was resident, so that a commit removes it from the store.
    pub fn remove(&mut self, a: &K)
        requires
            old(self).wf(),
        ensures
            final(self).wf(),
            final(self)@ == old(self)@.removed(*a),
    {
        let tombstone = Entry { value: None, dirty: true };
        proof {
            lemma_entries_model_insert(self.cache@, *a, tombstone);
        }
        let previous = self.cache.insert(*a, tombstone);
        Self::note(&mut self.checkpoints, *a, previous);
        proof {
            assert(self@.checkpoints =~= old(self)@.removed(*a).checkpoints);
        }
    }

    /// A mutable reference to the record at the resident address `a`.
    fn resident_mut(&mut self, a: &K) -> (v: &mut T)
        requires
            old(self).wf(),
            old(self)@.resident(*a),
        ensures
            final(self).wf(),
            v@ == old(self)@.working_value(*a, T::fresh_view()),
            final(self)@ == old(self)@.modified(*a, final(v)@),
    {
        let saved = match self.cache.get(a) {
            Some(entry) => Some(entry.duplicate()),
            None => None,
        };
        Self::note(&mut self.checkpoints, *a, saved);
        proof {
            assert(self@.checkpoints =~= old(self)@.noted(*a).checkpoints);
            assert forall|e: Entry<T>| #[trigger]
                entries_model(self.cache@.insert(*a, e)) == entries_model(self.cache@).insert(
                    *a,
                    e@,
                ) by {
                lemma_entries_model_insert(self.cache@, *a, e);
            }
        }
        let entry = self.cache.get_mut(a).unwrap();
        if entry.value.is_none() {
            entry.value = Some(T::fresh());
        }
        entry.dirty = true;
        entry.value.as_mut().unwrap()
    }

    /// A mutable reference to the record at the resident address `a`, or
    /// `Missing` where the store has to be read first.
    ///
    /// The address is noted in the open checkpoint and becomes dirty. In place
    /// of a tombstone the writer finds a fresh record. What the writer leaves
    /// behind the reference is what the cache holds afterwards.
    pub fn lookup_mut(&mut self, a: &K) -> (r: Lookup<&mut T>)
        requires
            old(self).wf(),
        ensures
            final(self).wf(),
            match r {
                Lookup::Resident(v) => old(self)@.resident(*a) && v@ == old(self)@.working_value(
                    *a,
                    T::fresh_view(),
                ) && final(self)@ == old(self)@.modified(*a, final(v)@),
                Lookup::Missing => !old(self)@.resident(*a) && final(self)@ == old(self)@,
            },
    {
        if self.cache.contains_key(a) {
            Lookup::Resident(self.resident_mut(a))
        } else {
            Lookup::Missing
        }
    }

    /// A mutable reference to the record at `a`, for writing.
    ///
    /// An address that is not resident is first read from the store through
    /// `db`, as `get` reads it; an error of the store is handed on and leaves
    /// the cache as it was. The address is then noted in the open checkpoint
    /// and becomes dirty. Where the address holds no record the writer finds a
    /// fresh one. What the writer leaves behind the reference is what the
    /// cache holds afterwards.
    pub fn get_mut<E, F: FnOnce(&K) -> Result<Option<T>, E>>(&mut self, a: &K, db: F) -> (r: Result<
        &mut T,
        E,
    >)
        requires
            old(self).wf(),
            call_requires(db, (a,)),
        ensures
            final(self).wf(),
            old(self)@.resident(*a) ==> (r matches Ok(v) && v@ == old(self)@.working_value(
                *a,
                T::fresh_view(),
            ) && final(self)@ == old(self)@.modified(*a, final(v)@)),
            !old(self)@.resident(*a) ==> exists|answer: Result<Option<T>, E>|
                call_ensures(db, (a,), answer) && match answer {
                    Ok(fetched) => (r matches Ok(v) && v@ == old(self)@.loaded(
                        *a,
                        option_view(fetched),
                    ).working_value(*a, T::fresh_view()) && final(self)@ == old(self)@.loaded(
                        *a,
                        option_view(fetched),
                    ).modified(*a, final(v)@)),
                    Err(e) => final(self)@ == old(self)@ && (r matches Err(handed) && handed == e),
                },
    {
        if !self.cache.contains_key(a) {
            match db(a) {
                Ok(fetched) => {
                    self.load(*a, fetched);
                },
                Err(e) => {
                    return Err(e);
                },
            }
        }
        Ok(self.resident_mut(a))
    }

    /// The write that a commit makes next: the first dirty address in address
    /// order, with its record to insert or `None` to remove it. `None` when no
    /// entry is dirty and the commit is done.
    pub fn next_write(&self) -> (r: Option<(K, Option<&T>)>)
        requires
            self.wf(),
        ensures
            match r {
                Some((a, value)) => self@.next_write(a) && option_ref_view(value)
                    == self@.entries[a].value,
                None => self@.all_clean(),
            },
    {
        proof {
            self.cache.lemma_ordered();
        }
        let n = self.cache.len();
        let mut i: usize = 0;
        while i < n
            invariant
                self.wf(),
                n == self.cache.keys().len(),
                i <= n,
                forall|j: int| 0 <= j < i ==> !(#[trigger] self.cache.values()[j]).dirty,
            decreases n - i,
        {
            let entry = self.cache.value_at(i);
            if entry.dirty {
                let a = self.cache.key_at(i);
                proof {
                    self.cache.lemma_ordered();
                    assert(self.cache@.contains_key(self.cache.keys()[i as int]));
                    assert forall|b: K|
                        self@.entries.contains_key(b) && (
                        #[trigger] self@.entries[b]).dirty implies a.rank() <= b.rank() by {
                        let j = choose|j: int|
                            0 <= j < self.cache.keys().len() && self.cache.keys()[j] == b;
                        assert(self.cache@[self.cache.keys()[j]] == self.cache.values()[j]);
                        if j < i {
                            assert(!self.cache.values()[j].dirty);
                        }
                    }
                }
                return Some((a, entry.value.as_ref()));
            }
            i = i + 1;
        }
        proof {
            self.cache.lemma_ordered();
            assert forall|a: K| self@.entries.contains_key(a) implies !(
            #[trigger] self@.entries[a]).dirty by {
                let j = choose|j: int|
                    0 <= j < self.cache.keys().len() && self.cache.keys()[j] == a;
                assert(self.cache@[self.cache.keys()[j]] == self.cache.values()[j]);
                assert(!self.cache.values()[j].dirty);
            }
        }
        None
    }

    /// Records that the store has taken the write for `a`: the entry is clean.
    pub fn flushed(&mut self, a: &K)
        requires
            old(self).wf(),
        ensures
            final(self).wf(),
            final(self)@ == old(self)@.flushed(*a),
    {
        proof {
            assert forall|e: Entry<T>| #[trigger]
                entries_model(self.cache@.insert(*a, e)) == entries_model(self.cache@).insert(
                    *a,
                    e@,
                ) by {
                lemma_entries_model_insert(self.cache@, *a, e);
            }
        }
        match self.cache.get_mut(a) {
            Some(entry) => {
                entry.dirty = false;
            },
            None => {},
        }
        proof {
            assert(self@.checkpoints =~= old(self)@.checkpoints);
        }
    }

    /// Writes the dirty entries to the store through `trie`, in address order:
    /// a record to insert, or `None` to remove the address. An entry is clean
    /// as soon as its write has succeeded.
    ///
    /// The commit stops at the first write that the store refuses and hands
    /// its error on. What was written before stays written and clean, the
    /// rest stays dirty, so that a later commit takes up where this one
    /// stopped.
    pub fn commit<E, F: FnMut(&K, Option<&T>) -> Result<(), E>>(&mut self, trie: F) -> (r:
        Result<(), E>)
        requires
            old(self).wf(),
            forall|k: &K, v: Option<&T>| call_requires(trie, (k, v)),
        ensures
            final(self).wf(),
            final(self)@.holds_what(old(self)@),
            match r {
                Ok(()) => final(self)@ == old(self)@.flushed_first(
                    old(self)@.dirty_addresses().len(),
                ) && final(self)@.all_clean() && forall|n: nat|
                    n < old(self)@.dirty_addresses().len() ==> takes_next_write::<K, T, E, F>(
                        trie,
                        #[trigger] old(self)@.flushed_first(n),
                    ),
                Err(e) => exists|n: nat, a: K, v: Option<&T>|
                    n < old(self)@.dirty_addresses().len() && final(self)@ == old(
                        self,
                    )@.flushed_first(n) && final(self)@.next_write(a) && option_ref_view(v)
                        == final(self)@.entries[a].value && #[trigger] call_ensures(
                        trie,
                        (&a, v),
                        Err::<(), E>(e),
                    ) && #[trigger] old(self)@.flushed_first(n).next_write(a),
            },
    {
        let ghost origin = self@;
        let ghost total = origin.dirty_addresses().len();
        let ghost mut done: nat = 0;
        let mut write = trie;
        proof {
            self.lemma_view_wf();
        }
        loop
            invariant
                self.wf(),
                write == trie,
                forall|n: nat|
                    n < done ==> takes_next_write::<K, T, E, F>(
                        trie,
                        #[trigger] origin.flushed_first(n),
                    ),
                self@.wf(),
                origin == old(self)@,
                origin.wf(),
                self@ == origin.flushed_first(done),
                total == origin.dirty_addresses().len(),
                done <= total,
                self@.dirty_addresses().len() == total - done,
                forall|k: &K, v: Option<&T>| call_requires(trie, (k, v)),
            decreases self@.dirty_addresses().len(),
        {
            let a = match self.next_write() {
                Some((a, value)) => {
                    proof {
                        law_commit_step(self@, Map::empty(), a);
                        law_commit_resumes(origin, Map::empty(), done, 1);
                    }
                    let answer = write(&a, value);
                    let ghost answered = answer;
                    match answer {
                        Ok(()) => {
                            assert(call_ensures(trie, (&a, value), answered));
                            assert(takes_next_write::<K, T, E, F>(trie, origin.flushed_first(done)));
                            a
                        },
                        Err(e) => {
                            proof {
                                law_commit_flushes_dirty(origin, Map::empty(), done);
                            }
                            assert(origin.flushed_first(done).next_write(a));
                            return Err(e);
                        },
                    }
                },
                None => {
                    proof {
                        assert(self@.dirty_addresses() =~= Set::empty());
                        law_commit_flushes_dirty(origin, Map::empty(), done);
                    }
                    return Ok(());
                },
            };
            self.flushed(&a);
            proof {
                done = done + 1;
            }
        }
    }

    /// Reverts to the most recent checkpoint: its frame is dropped, and every
    /// address changed since the checkpoint has the entry it had then, or is no
    /// longer resident where it was not.
    pub fn revert_to_checkpoint(&mut self)
        requires
            old(self).wf(),
            old(self)@.depth() > 0,
        ensures
            final(self).wf(),
            final(self)@ == old(self)@.reverted(),
    {
        assert(old(self)@.checkpoints.len() == old(self).checkpoints@.len());
        let mut frame = match self.checkpoints.pop() {
            Some(frame) => frame,
            None => {
                return ;
            },
        };
        let ghost frame0 = frame@;
        let ghost cache0 = self.cache@;
        let ghost rest = self.checkpoints;
        proof {
            assert(self.cache@ =~= restored_partly(cache0, frame0, frame@.dom()));
        }
        while frame.len() > 0
            invariant
                frame.wf(),
                self.cache.wf(),
                self.checkpoints == rest,
                forall|k: K| #[trigger]
                    frame@.contains_key(k) ==> frame0.contains_key(k) && frame@[k] == frame0[k],
                self.cache@ == restored_partly(cache0, frame0, frame@.dom()),
            decreases frame.keys().len(),
        {
            let ghost remaining = frame@.dom();
            let ghost before = self.cache@;
            match frame.pop_last() {
                Some((k, saved)) => {
                    match saved {
                        Some(entry) => {
                            self.cache.insert(k, entry);
                        },
                        None => {
                            self.cache.remove(&k);
                        },
                    }
                    proof {
                        assert(frame@.dom() =~= remaining.remove(k));
                        assert(self.cache@ =~= restored_partly(cache0, frame0, frame@.dom()));
                    }
                },
                None => {},
            }
        }
        proof {
            frame.lemma_ordered();
            assert(frame@.dom() =~= Set::empty());
            lemma_restored_model(cache0, frame0);
            assert(self@.checkpoints =~= old(self)@.checkpoints.drop_last());
        }
    }

    /// Discards the most recent checkpoint and keeps what was changed since.
    /// Its frame is merged into the one below, where the older snapshot of an
    /// address wins, so that the enclosing checkpoint still reverts to the
    /// state it was opened in. Without an open checkpoint nothing changes.
    pub fn discard_checkpoint(&mut self)
        requires
            old(self).wf(),
        ensures
            final(self).wf(),
            final(self)@ == old(self)@.discarded(),
    {
        let mut top = match self.checkpoints.pop() {
            Some(top) => top,
            None => {
                assert(self@.checkpoints =~= old(self)@.checkpoints);
                return ;
            },
        };
        let n = self.checkpoints.len();
        if n == 0 {
            assert(self@.checkpoints =~= Seq::empty());
            return ;
        }
        let ghost top0 = top@;
        let ghost below0 = self.checkpoints@[n - 1]@;
        let ghost rest = self.checkpoints@;
        assert(rest =~= old(self).checkpoints@.drop_last());
        assert(top == old(self).checkpoints@.last());
        let ghost cache0 = self.cache;
        proof {
            assert(below0 =~= merged_partly(top0, below0, top@.dom()));
        }
        while top.len() > 0
            invariant
                top.wf(),
                n > 0,
                self.cache == cache0,
                rest.len() == n,
                self.checkpoints@.len() == n,
                forall|i: int| 0 <= i < n ==> (#[trigger] self.checkpoints@[i]).wf(),
                forall|i: int| 0 <= i < n - 1 ==> self.checkpoints@[i] == rest[i],
                forall|k: K| #[trigger]
                    top@.contains_key(k) ==> top0.contains_key(k) && top@[k] == top0[k],
                self.checkpoints@[n - 1]@ == merged_partly(top0, below0, top@.dom()),
            decreases top.keys().len(),
        {
            let ghost remaining = top@.dom();
            match top.pop_last() {
                Some((k, saved)) => {
                    let below = &mut self.checkpoints[n - 1];
                    if !below.contains_key(&k) {
                        below.insert(k, saved);
                    }
                    proof {
                        assert(top@.dom() =~= remaining.remove(k));
                        assert(self.checkpoints@[n - 1]@ =~= merged_partly(
                            top0,
                            below0,
                            top@.dom(),
                        ));
                    }
                },
                None => {},
            }
        }
        proof {
            top.lemma_ordered();
            assert(top@.dom() =~= Set::empty());
            assert(merged_partly(top0, below0, Set::empty()) =~= top0.union_prefer_right(below0));
            lemma_frame_model_union(top0, below0);
            let before = old(self)@.checkpoints;
            assert(before.len() == n + 1);
            assert(before.last() == frame_model(top0));
            assert(before.drop_last().last() == frame_model(below0));
            assert forall|i: int| 0 <= i < n - 1 implies self@.checkpoints[i] == before[i] by {
                assert(self.checkpoints@[i] == rest[i]);
            }
            assert(self@.checkpoints =~= before.drop_last().update(
                n - 1,
                before.last().union_prefer_right(before.drop_last().last()),
            ));
        }
    }

    /// A cache seeded with `seed`: every pair is resident and clean, and no
    /// checkpoint is open. Of two pairs with one address the later one stays.
    pub fn new_with_iter(seed: Vec<(K, T)>) -> (r: Self)
        ensures
            r.wf(),
            r@ == CacheModel::<K, T::V>::seeded(seed_view(seed@)),
    {
        let ghost all = seed_view(seed@);
        let mut seed = seed;
        let mut cache: SortedMap<K, Entry<T>> = SortedMap::new();
        proof {
            assert(seeded_entries(all) =~= seeded_entries(seed_view(seed@)).union_prefer_right(
                entries_model(cache@),
            ));
        }
        while seed.len() > 0
            invariant
                cache.wf(),
                seeded_entries(all) == seeded_entries(seed_view(seed@)).union_prefer_right(
                    entries_model(cache@),
                ),
            decreases seed@.len(),
        {
            let ghost before = seed@;
            let ghost held = cache@;
            match seed.pop() {
                Some((a, value)) => {
                    let entry = Entry { value: Some(value), dirty: false };
                    proof {
                        assert(seed_view(seed@) =~= seed_view(before).drop_last());
                        assert(seed_view(before).last() == (a, value@));
                        lemma_entries_model_insert(held, a, entry);
                    }
                    if !cache.contains_key(&a) {
                        cache.insert(a, entry);
                    }
                    proof {
                        assert(seeded_entries(seed_view(before)).union_prefer_right(
                            entries_model(held),
                        ) =~= seeded_entries(seed_view(seed@)).union_prefer_right(
                            entries_model(cache@),
                        ));
                    }
                },
                None => {},
            }
        }
        let r = WriteBack { cache, checkpoints: Vec::new() };
        proof {
            assert(seed_view(seed@) =~= Seq::empty());
            assert(r@.entries =~= seeded_entries(all));
            assert(r@.checkpoints =~= Seq::empty());
        }
        r
    }

    /// Every resident address with a copy of its record, or `None` for a
    /// tombstone, in address order.
    pub fn items(&self) -> (r: Vec<(K, Option<T>)>)
        requires
            self.wf(),
        ensures
            lists(items_view(r@), self@.entries),
    {
        proof {
            self.cache.lemma_ordered();
        }
        let n = self.cache.len();
        let mut r: Vec<(K, Option<T>)> = Vec::new();
        let mut i: usize = 0;
        while i < n
            invariant
                self.wf(),
                n == self.cache.keys().len(),
                i <= n,
                r@.len() == i,
                forall|j: int|
                    0 <= j < i ==> (#[trigger] r@[j]).0 == self.cache.keys()[j] && option_view(
                        r@[j].1,
                    ) == self.cache.values()[j]@.value,
            decreases n - i,
        {
            let a = self.cache.key_at(i);
            let value = match &self.cache.value_at(i).value {
                Some(v) => Some(v.duplicate()),
                None => None,
            };
            r.push((a, value));
            i = i + 1;
        }
        proof {
            self.cache.lemma_ordered();
            let items = items_view(r@);
            assert forall|j: int| 0 <= j < items.len() implies self@.entries.contains_key(
                (#[trigger] items[j]).0,
            ) && self@.entries[items[j].0].value == items[j].1 by {
                assert(r@[j].0 == self.cache.keys()[j]);
                assert(self.cache@.contains_key(self.cache.keys()[j]));
            }
            assert forall|j: int, k: int| 0 <= j < k < items.len() implies (
            #[trigger] items[j]).0.rank() < (#[trigger] items[k]).0.rank() by {
                assert(r@[j].0 == self.cache.keys()[j]);
                assert(r@[k].0 == self.cache.keys()[k]);
            }
            assert forall|a: K| self@.entries.contains_key(a) implies exists|j: int|
                0 <= j < items.len() && (#[trigger] items[j]).0 == a by {
                let j = choose|j: int|
                    0 <= j < self.cache.keys().len() && self.cache.keys()[j] == a;
                assert(r@[j].0 == self.cache.keys()[j]);
                assert(items[j].0 == a);
            }
        }
        r
    }
}

impl<K: CacheKey, T: CacheableItem> Clone for WriteBack<K, T> {
    /// A deep copy: the same entries and the same checkpoint frames, sharing
    /// nothing with this cache.
    fn clone(&self) -> (r: Self)
        ensures
            self.wf() ==> r.wf() && r@ == self@,
    {
        let copy_entry = |entry: &Entry<T>| -> (r: Entry<T>)
            ensures
                r@ == entry@,
            { entry.duplicate() };
        let copy_saved = |saved: &Option<Entry<T>>| -> (r: Option<Entry<T>>)
            ensures
                saved_model(r) == saved_model(*saved),
            {
                match saved {
                    Some(entry) => Some(entry.duplicate()),
                    None => None,
                }
            };
        let cache = self.cache.copy_with(&copy_entry);
        let mut checkpoints: Vec<SortedMap<K, Option<Entry<T>>>> = Vec::new();
        let mut i: usize = 0;
        while i < self.checkpoints.len()
            invariant
                i <= self.checkpoints@.len(),
                checkpoints@.len() == i,
                forall|saved: &Option<Entry<T>>| call_requires(copy_saved, (saved,)),
                forall|saved: &Option<Entry<T>>, r: Option<Entry<T>>|
                    call_ensures(copy_saved, (saved,), r) ==> saved_model(r) == saved_model(
                        *saved,
                    ),
                forall|j: int|
                    0 <= j < i ==> {
                        let frame = #[trigger] checkpoints@[j];
                        let origin = self.checkpoints@[j];
                        &&& frame.keys() == origin.keys()
                        &&& frame.values().len() == origin.values().len()
                        &&& (origin.wf() ==> frame.wf())
                        &&& forall|p: int|
                            0 <= p < origin.values().len() ==> saved_model(
                                #[trigger] frame.values()[p],
                            ) == saved_model(origin.values()[p])
                    },
            decreases self.checkpoints@.len() - i,
        {
            let frame = self.checkpoints[i].copy_with(&copy_saved);
            checkpoints.push(frame);
            i = i + 1;
        }
        let r = WriteBack { cache, checkpoints };
        proof {
            if self.wf() {
                self.cache.lemma_ordered();
                r.cache.lemma_ordered();
                assert(r@.entries =~= self@.entries) by {
                    assert forall|k: K| self.cache@.contains_key(k) implies r.cache@[k]@
                        == self.cache@[k]@ by {
                        let p = choose|p: int|
                            0 <= p < self.cache.keys().len() && self.cache.keys()[p] == k;
                        assert(self.cache@[self.cache.keys()[p]] == self.cache.values()[p]);
                        assert(r.cache@[r.cache.keys()[p]] == r.cache.values()[p]);
                    }
                }
                assert forall|j: int| 0 <= j < self.checkpoints@.len() implies (
                #[trigger] r.checkpoints@[j]).wf() && frame_model(r.checkpoints@[j]@)
                    == frame_model(self.checkpoints@[j]@) by {
                    let frame = r.checkpoints@[j];
                    let origin = self.checkpoints@[j];
                    assert(origin.wf());
                    frame.lemma_ordered();
                    origin.lemma_ordered();
                    assert forall|k: K| origin@.contains_key(k) implies saved_model(frame@[k])
                        == saved_model(origin@[k]) by {
                        let p = choose|p: int| 0 <= p < origin.keys().len() && origin.keys()[p] == k;
                        assert(origin@[origin.keys()[p]] == origin.values()[p]);
                        assert(frame@[frame.keys()[p]] == frame.values()[p]);
                    }
                    assert(frame_model(frame@) =~= frame_model(origin@));
                }
                assert(r@.checkpoints =~= self@.checkpoints);
            }
        }
        r
    }
}

} // verus!
