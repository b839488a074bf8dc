//! The state cache: five write-back caches, one for each kind of record,
//! checkpointed, reverted and committed as one.

use crate::address::{Address, H256, MetadataAddress, RegularAccountAddress, ShardAddress};
use crate::item::{Account, ActionData, CacheableItem, Metadata, RegularAccount, Shard};
use crate::laws::{law_top_commit_cleans, law_top_commit_resumes, law_top_commit_step};
use crate::model::{lists, CacheModel};
use crate::write_back::{items_view, option_ref_view, option_view, seed_view, WriteBack};
use vstd::prelude::*;

verus! {

/// The address of a record of any kind.
#[derive(Clone, Copy, Debug, PartialEq, Eq)]
pub enum TopAddress {
    Account(Address),
    RegularAccount(RegularAccountAddress),
    Metadata(MetadataAddress),
    Shard(ShardAddress),
    ActionData(H256),
}

/// The state of the five caches.
pub struct TopModel {
    pub account: CacheModel<Address, Account>,
    pub regular_account: CacheModel<RegularAccountAddress, RegularAccount>,
    pub metadata: CacheModel<MetadataAddress, Metadata>,
    pub shard: CacheModel<ShardAddress, Shard>,
    pub action_data: CacheModel<H256, Seq<u8>>,
}

impl TopModel {
    /// Whether every cache holds finitely many entries and snapshots, and
    /// the five have the same number of open checkpoints.
    pub open spec fn wf(self) -> bool {
        &&& self.account.wf()
        &&& self.regular_account.wf()
        &&& self.metadata.wf()
        &&& self.shard.wf()
        &&& self.action_data.wf()
        &&& self.in_step()
    }

    /// Whether the five caches have the same number of open checkpoints.
    pub open spec fn in_step(self) -> bool {
        &&& self.regular_account.depth() == self.account.depth()
        &&& self.metadata.depth() == self.account.depth()
        &&& self.shard.depth() == self.account.depth()
        &&& self.action_data.depth() == self.account.depth()
    }

    /// The number of open checkpoints.
    pub open spec fn depth(self) -> nat {
        self.account.depth()
    }

    /// The state after a checkpoint: every cache has one more frame.
    pub open spec fn checkpointed(self) -> Self {
        TopModel {
            account: self.account.checkpointed(),
            regular_account: self.regular_account.checkpointed(),
            metadata: self.metadata.checkpointed(),
            shard: self.shard.checkpointed(),
            action_data: self.action_data.checkpointed(),
        }
    }

    /// The state after the most recent checkpoint is discarded in every cache.
    pub open spec fn discarded(self) -> Self {
        TopModel {
            account: self.account.discarded(),
            regular_account: self.regular_account.discarded(),
            metadata: self.metadata.discarded(),
            shard: self.shard.discarded(),
            action_data: self.action_data.discarded(),
        }
    }

    /// The state after every cache has reverted to the most recent checkpoint.
    pub open spec fn reverted(self) -> Self {
        TopModel {
            account: self.account.reverted(),
            regular_account: self.regular_account.reverted(),
            metadata: self.metadata.reverted(),
            shard: self.shard.reverted(),
            action_data: self.action_data.reverted(),
        }
    }

    /// Whether this state holds what `other` holds: every kind has the same
    /// addresses with the same records and the same checkpoints. The two
    /// differ in their dirty flags at most.
    pub open spec fn holds_what(self, other: Self) -> bool {
        &&& self.account.holds_what(other.account)
        &&& self.regular_account.holds_what(other.regular_account)
        &&& self.metadata.holds_what(other.metadata)
        &&& self.shard.holds_what(other.shard)
        &&& self.action_data.holds_what(other.action_data)
    }

    /// Whether no entry of any cache is dirty.
    pub open spec fn all_clean(self) -> bool {
        &&& self.account.all_clean()
        &&& self.regular_account.all_clean()
        &&& self.metadata.all_clean()
        &&& self.shard.all_clean()
        &&& self.action_data.all_clean()
    }

    /// The number of dirty entries, all kinds together.
    pub open spec fn dirty_count(self) -> nat {
        self.account.dirty_addresses().len() + self.regular_account.dirty_addresses().len()
            + self.metadata.dirty_addresses().len() + self.shard.dirty_addresses().len()
            + self.action_data.dirty_addresses().len()
    }

    /// Whether `a` is the write that a commit makes next. The kinds are
    /// committed one after the other: accounts, regular accounts, metadata,
    /// shards, action data. Within a kind the first dirty address in address
    /// order is next.
    pub open spec fn next_write(self, a: TopAddress) -> bool {
        match a {
            TopAddress::Account(a) => self.account.next_write(a),
            TopAddress::RegularAccount(a) => self.account.all_clean()
                && self.regular_account.next_write(a),
            TopAddress::Metadata(a) => self.account.all_clean() && self.regular_account.all_clean()
                && self.metadata.next_write(a),
            TopAddress::Shard(a) => self.account.all_clean() && self.regular_account.all_clean()
                && self.metadata.all_clean() && self.shard.next_write(a),
            TopAddress::ActionData(a) => self.account.all_clean()
                && self.regular_account.all_clean() && self.metadata.all_clean()
                && self.shard.all_clean() && self.action_data.next_write(a),
        }
    }

    /// The state after the store has taken the write for `a`.
    pub open spec fn flushed(self, a: TopAddress) -> Self {
        match a {
            TopAddress::Account(a) => TopModel { account: self.account.flushed(a), ..self },
            TopAddress::RegularAccount(a) => TopModel {
                regular_account: self.regular_account.flushed(a),
                ..self
            },
            TopAddress::Metadata(a) => TopModel { metadata: self.metadata.flushed(a), ..self },
            TopAddress::Shard(a) => TopModel { shard: self.shard.flushed(a), ..self },
            TopAddress::ActionData(a) => TopModel {
                action_data: self.action_data.flushed(a),
                ..self
            },
        }
    }

    /// The state after a commit has made its first `writes` writes, or all of
    /// them where there are fewer.
    pub open spec fn flushed_first(self, writes: nat) -> Self
        decreases writes,
    {
        if writes == 0 || !exists|a: TopAddress| self.next_write(a) {
            self
        } else {
            let a = choose|a: TopAddress| self.next_write(a);
            self.flushed(a).flushed_first((writes - 1) as nat)
        }
    }
}

/// One write of a commit: the address, and the record to insert at it or
/// `None` to remove it from the store.
#[derive(Debug)]
pub enum Write<'a> {
    Account(Address, Option<&'a Account>),
    RegularAccount(RegularAccountAddress, Option<&'a RegularAccount>),
    Metadata(MetadataAddress, Option<&'a Metadata>),
    Shard(ShardAddress, Option<&'a Shard>),
    ActionData(H256, Option<&'a ActionData>),
}

impl<'a> Write<'a> {
    /// The address that the write goes to.
    pub open spec fn address_spec(self) -> TopAddress {
        match self {
            Write::Account(a, _) => TopAddress::Account(a),
            Write::RegularAccount(a, _) => TopAddress::RegularAccount(a),
            Write::Metadata(a, _) => TopAddress::Metadata(a),
            Write::Shard(a, _) => TopAddress::Shard(a),
            Write::ActionData(a, _) => TopAddress::ActionData(a),
        }
    }

    /// Whether the write carries what `state` holds at its address: the
    /// record to insert, or `None` for a tombstone.
    pub open spec fn carries(self, state: TopModel) -> bool {
        match self {
            Write::Account(a, value) => option_ref_view(value) == state.account.entries[a].value,
            Write::RegularAccount(a, value) => option_ref_view(value)
                == state.regular_account.entries[a].value,
            Write::Metadata(a, value) => option_ref_view(value) == state.metadata.entries[a].value,
            Write::Shard(a, value) => option_ref_view(value) == state.shard.entries[a].value,
            Write::ActionData(a, value) => option_ref_view(value)
                == state.action_data.entries[a].value,
        }
    }

    /// The address that the write goes to.
    pub fn address(&self) -> (r: TopAddress)
        ensures
            r == self.address_spec(),
    {
        match self {
            Write::Account(a, _) => TopAddress::Account(*a),
            Write::RegularAccount(a, _) => TopAddress::RegularAccount(*a),
            Write::Metadata(a, _) => TopAddress::Metadata(*a),
            Write::Shard(a, _) => TopAddress::Shard(*a),
            Write::ActionData(a, _) => TopAddress::ActionData(*a),
        }
    }
}

/// Whether the store behind `trie` can have taken the next write of `state`.
pub open spec fn takes_next_write<E, F: FnMut(Write<'_>) -> Result<(), E>>(
    trie: F,
    state: TopModel,
) -> bool {
    exists|write: Write<'_>, answer: Result<(), E>|
        state.next_write(write.address_spec()) && write.carries(state) && answer is Ok
            && #[trigger] call_ensures(trie, (write,), answer)
}

/// The cache of the whole state: accounts, regular accounts, metadata, shards
/// and action data, each in a cache of its own. The five are checkpointed,
/// reverted and discarded together, so that they always have the same number of
/// open checkpoints, and are committed in that order.
pub struct TopCache {
    account: WriteBack<Address, Account>,
    regular_account: WriteBack<RegularAccountAddress, RegularAccount>,
    metadata: WriteBack<MetadataAddress, Metadata>,
    shard: WriteBack<ShardAddress, Shard>,
    action_data: WriteBack<H256, ActionData>,
}

impl View for TopCache {
    type V = TopModel;

    closed spec fn view(&self) -> TopModel {
        TopModel {
            account: self.account@,
            regular_account: self.regular_account@,
            metadata: self.metadata@,
            shard: self.shard@,
            action_data: self.action_data@,
        }
    }
}

impl TopCache {
    /// The invariant of the representation: five well-formed caches with the
    /// same number of open checkpoints.
    pub closed spec fn wf(&self) -> bool {
        &&& self.account.wf()
        &&& self.regular_account.wf()
        &&& self.metadata.wf()
        &&& self.shard.wf()
        &&& self.action_data.wf()
        &&& self@.in_step()
    }

    /// The five caches of a well-formed state cache are in step and finite.
    pub proof fn lemma_view_wf(&self)
        requires
            self.wf(),
        ensures
            self@.wf(),
    {
        self.account.lemma_view_wf();
        self.regular_account.lemma_view_wf();
        self.metadata.lemma_view_wf();
        self.shard.lemma_view_wf();
        self.action_data.lemma_view_wf();
    }

    /// A state cache seeded with the given records of each kind, all clean,
    /// with no checkpoint open.
    pub fn new(
        accounts: Vec<(Address, Account)>,
        regular_accounts: Vec<(RegularAccountAddress, RegularAccount)>,
        metadata: Vec<(MetadataAddress, Metadata)>,
        shards: Vec<(ShardAddress, Shard)>,
        action_data: Vec<(H256, ActionData)>,
    ) -> (r: Self)
        ensures
            r.wf(),
            r@.account == CacheModel::<Address, Account>::seeded(seed_view(accounts@)),
            r@.regular_account == CacheModel::<RegularAccountAddress, RegularAccount>::seeded(
                seed_view(regular_accounts@),
            ),
            r@.metadata == CacheModel::<MetadataAddress, Metadata>::seeded(seed_view(metadata@)),
            r@.shard == CacheModel::<ShardAddress, Shard>::seeded(seed_view(shards@)),
            r@.action_data == CacheModel::<H256, Seq<u8>>::seeded(seed_view(action_data@)),
    {
        TopCache {
            account: WriteBack::new_with_iter(accounts),
            regular_account: WriteBack::new_with_iter(regular_accounts),
            metadata: WriteBack::new_with_iter(metadata),
            shard: WriteBack::new_with_iter(shards),
            action_data: WriteBack::new_with_iter(action_data),
        }
    }

    /// The number of open checkpoints.
    pub fn depth(&self) -> (n: usize)
        requires
            self.wf(),
        ensures
            n == self@.depth(),
    {
        self.account.depth()
    }

    /// Opens a checkpoint in every cache.
    pub fn checkpoint(&mut self)
        requires
            old(self).wf(),
        ensures
            final(self).wf(),
            final(self)@ == old(self)@.checkpointed(),
    {
        self.account.checkpoint();
        self.regular_account.checkpoint();
        self.metadata.checkpoint();
        self.shard.checkpoint();
        self.action_data.checkpoint();
    }

    /// Discards the most recent checkpoint of every cache and keeps what was
    /// changed since. Without an open checkpoint nothing changes.
    pub fn discard_checkpoint(&mut self)
        requires
            old(self).wf(),
        ensures
            final(self).wf(),
            final(self)@ == old(self)@.discarded(),
    {
        self.account.discard_checkpoint();
        self.regular_account.discard_checkpoint();
        self.metadata.discard_checkpoint();
        self.shard.discard_checkpoint();
        self.action_data.discard_checkpoint();
    }

    /// Reverts every cache to the most recent checkpoint.
    pub fn revert_to_checkpoint(&mut self)
        requires
            old(self).wf(),
            old(self)@.depth() > 0,
        ensures
            final(self).wf(),
            final(self)@ == old(self)@.reverted(),
    {
        self.account.revert_to_checkpoint();
        self.regular_account.revert_to_checkpoint();
        self.metadata.revert_to_checkpoint();
        self.shard.revert_to_checkpoint();
        self.action_data.revert_to_checkpoint();
    }

    /// The write that a commit makes next, or `None` when no entry is dirty.
    pub fn next_write(&self) -> (r: Option<Write<'_>>)
        requires
            self.wf(),
        ensures
            match r {
                Some(write) => self@.next_write(write.address_spec()) && write.carries(self@),
                None => self@.all_clean(),
            },
    {
        if let Some((a, value)) = self.account.next_write() {
            return Some(Write::Account(a, value));
        }
        if let Some((a, value)) = self.regular_account.next_write() {
            return Some(Write::RegularAccount(a, value));
        }
        if let Some((a, value)) = self.metadata.next_write() {
            return Some(Write::Metadata(a, value));
        }
        if let Some((a, value)) = self.shard.next_write() {
            return Some(Write::Shard(a, value));
        }
        if let Some((a, value)) = self.action_data.next_write() {
            return Some(Write::ActionData(a, value));
        }
        None
    }

    /// Records that the store has taken the write for `a`: the entry is clean.
    pub fn flushed(&mut self, a: &TopAddress)
        requires
            old(self).wf(),
        ensures
            final(self).wf(),
            final(self)@ == old(self)@.flushed(*a),
    {
        match a {
            TopAddress::Account(a) => self.account.flushed(a),
            TopAddress::RegularAccount(a) => self.regular_account.flushed(a),
            TopAddress::Metadata(a) => self.metadata.flushed(a),
            TopAddress::Shard(a) => self.shard.flushed(a),
            TopAddress::ActionData(a) => self.action_data.flushed(a),
        }
    }

    /// Writes the dirty entries to the store through `trie`: accounts first,
    /// then regular accounts, metadata, shards and action data, each kind in
    /// address order. An entry is clean as soon as its write has succeeded.
    ///
    /// The commit stops at the first write that the store refuses and hands
    /// its error on. What was written before stays written and clean, the
    /// rest stays dirty, so that a later commit takes up where this one
    /// stopped.
    pub fn commit<E, F: FnMut(Write<'_>) -> Result<(), E>>(&mut self, trie: F) -> (r: Result<
        (),
        E,
    >)
        requires
            old(self).wf(),
            forall|write: Write<'_>| call_requires(trie, (write,)),
        ensures
            final(self).wf(),
            final(self)@.holds_what(old(self)@),
            match r {
                Ok(()) => final(self)@ == old(self)@.flushed_first(old(self)@.dirty_count())
                    && final(self)@.all_clean() && forall|n: nat|
                    n < old(self)@.dirty_count() ==> takes_next_write::<E, F>(
                        trie,
                        #[trigger] old(self)@.flushed_first(n),
                    ),
                Err(e) => exists|n: nat, write: Write<'_>|
                    n < old(self)@.dirty_count() && final(self)@ == old(self)@.flushed_first(n)
                        && final(self)@.next_write(write.address_spec()) && write.carries(
                        final(self)@,
                    ) && #[trigger] call_ensures(trie, (write,), Err::<(), E>(e))
                        && #[trigger] old(self)@.flushed_first(n).next_write(write.address_spec()),
            },
    {
        let ghost origin = self@;
        let ghost total = origin.dirty_count();
        let ghost mut done: nat = 0;
        let mut put = trie;
        proof {
            self.lemma_view_wf();
        }
        loop
            invariant
                self.wf(),
                put == trie,
                forall|n: nat|
                    n < done ==> takes_next_write::<E, F>(trie, #[trigger] origin.flushed_first(n)),
                self@.wf(),
                origin == old(self)@,
                origin.wf(),
                self@ == origin.flushed_first(done),
                total == origin.dirty_count(),
                done <= total,
                self@.dirty_count() == total - done,
                forall|write: Write<'_>| call_requires(trie, (write,)),
            decreases self@.dirty_count(),
        {
            let address = match self.next_write() {
                Some(write) => {
                    let address = write.address();
                    proof {
                        law_top_commit_step(self@, address);
                        law_top_commit_resumes(origin, done, 1);
                    }
                    let answer = put(write);
                    let ghost answered = answer;
                    match answer {
                        Ok(()) => {
                            assert(call_ensures(trie, (write,), answered));
                            assert(takes_next_write::<E, F>(trie, origin.flushed_first(done)));
                            address
                        },
                        Err(e) => {
                            proof {
                                law_top_commit_cleans(origin, done);
                            }
                            assert(origin.flushed_first(done).next_write(write.address_spec()));
                            return Err(e);
                        },
                    }
                },
                None => {
                    proof {
                        assert(self@.account.dirty_addresses() =~= Set::empty());
                        assert(self@.regular_account.dirty_addresses() =~= Set::empty());
                        assert(self@.metadata.dirty_addresses() =~= Set::empty());
                        assert(self@.shard.dirty_addresses() =~= Set::empty());
                        assert(self@.action_data.dirty_addresses() =~= Set::empty());
                        law_top_commit_cleans(origin, done);
                    }
                    return Ok(());
                },
            };
            self.flushed(&address);
            proof {
                done = done + 1;
            }
        }
    }

    /// The account at `a`, read through the cache: `None` where there is none.
    ///
    /// A resident address is answered by the cache, tombstone included. For
    /// any other address the store is asked through `db`; what it answers
    /// becomes resident, clean, and is returned. An error of the store is
    /// handed on and leaves the cache as it was.
    pub fn account<E, F: FnOnce(&Address) -> Result<Option<Account>, E>>(&mut self, a: &Address, db: F) -> (r:
        Result<Option<&Account>, E>)
        requires
            old(self).wf(),
            call_requires(db, (a,)),
        ensures
            final(self).wf(),
            final(self)@ == (TopModel { account: final(self)@.account, ..old(self)@ }),
            old(self)@.account.resident(*a) ==> final(self)@ == old(self)@ && (r matches Ok(v)
                && option_ref_view(v) == old(self)@.account.entries[*a].value),
            !old(self)@.account.resident(*a) ==> exists|answer: Result<Option<Account>, E>|
                call_ensures(db, (a,), answer) && match answer {
                    Ok(fetched) => final(self)@.account == old(self)@.account.loaded(
                        *a,
                        option_view(fetched),
                    ) && (r matches Ok(v) && option_ref_view(v) == option_view(fetched)),
                    Err(e) => final(self)@ == old(self)@ && (r matches Err(handed) && handed == e),
                },
    {
        self.account.get(a, db)
    }

    /// A mutable reference to the account at `a`, for writing.
    ///
    /// An address that is not resident is first read from the store through
    /// `db`; an error of the store is handed on and leaves the cache as it
    /// was. The address is then noted in the open checkpoint and becomes
    /// dirty. Where the address holds no record the writer finds a fresh one.
    pub fn account_mut<E, F: FnOnce(&Address) -> Result<Option<Account>, E>>(&mut self, a: &Address, db: F) -> (r:
        Result<&mut Account, E>)
        requires
            old(self).wf(),
            call_requires(db, (a,)),
        ensures
            final(self).wf(),
            final(self)@ == (TopModel { account: final(self)@.account, ..old(self)@ }),
            old(self)@.account.resident(*a) ==> (r matches Ok(v) && v@ == old(
                self,
            )@.account.working_value(*a, Account::fresh_view()) && final(self)@.account == old(
                self,
            )@.account.modified(*a, final(v)@)),
            !old(self)@.account.resident(*a) ==> exists|answer: Result<Option<Account>, E>|
                call_ensures(db, (a,), answer) && match answer {
                    Ok(fetched) => (r matches Ok(v) && v@ == old(self)@.account.loaded(
                        *a,
                        option_view(fetched),
                    ).working_value(*a, Account::fresh_view()) && final(self)@.account == old(
                        self,
                    )@.account.loaded(*a, option_view(fetched)).modified(*a, final(v)@)),
                    Err(e) => final(self)@ == old(self)@ && (r matches Err(handed) && handed == e),
                },
    {
        self.account.get_mut(a, db)
    }

    /// Removes the account at `address`: the address holds a tombstone and is
    /// dirty, whether or not it was resident.
    pub fn remove_account(&mut self, address: &Address)
        requires
            old(self).wf(),
        ensures
            final(self).wf(),
            final(self)@ == (TopModel {
                account: old(self)@.account.removed(*address),
                ..old(self)@
            }),
    {
        self.account.remove(address);
    }

    /// The regular account at `a`, read through the cache: `None` where there is none.
    ///
    /// A resident address is answered by the cache, tombstone included. For
    /// any other address the store is asked through `db`; what it answers
    /// becomes resident, clean, and is returned. An error of the store is
    /// handed on and leaves the cache as it was.
    pub fn regular_account<E, F: FnOnce(&RegularAccountAddress) -> Result<Option<RegularAccount>, E>>(&mut self, a: &RegularAccountAddress, db: F) -> (r:
        Result<Option<&RegularAccount>, E>)
        requires
            old(self).wf(),
            call_requires(db, (a,)),
        ensures
            final(self).wf(),
            final(self)@ == (TopModel { regular_account: final(self)@.regular_account, ..old(self)@ }),
            old(self)@.regular_account.resident(*a) ==> final(self)@ == old(self)@ && (r matches Ok(v)
                && option_ref_view(v) == old(self)@.regular_account.entries[*a].value),
            !old(self)@.regular_account.resident(*a) ==> exists|answer: Result<Option<RegularAccount>, E>|
                call_ensures(db, (a,), answer) && match answer {
                    Ok(fetched) => final(self)@.regular_account == old(self)@.regular_account.loaded(
                        *a,
                        option_view(fetched),
                    ) && (r matches Ok(v) && option_ref_view(v) == option_view(fetched)),
                    Err(e) => final(self)@ == old(self)@ && (r matches Err(handed) && handed == e),
                },
    {
        self.regular_account.get(a, db)
    }

    /// A mutable reference to the regular account at `a`, for writing.
    ///
    /// An address that is not resident is first read from the store through
    /// `db`; an error of the store is handed on and leaves the cache as it
    /// was. The address is then noted in the open checkpoint and becomes
    /// dirty. Where the address holds no record the writer finds a fresh one.
    pub fn regular_account_mut<E, F: FnOnce(&RegularAccountAddress) -> Result<Option<RegularAccount>, E>>(&mut self, a: &RegularAccountAddress, db: F) -> (r:
        Result<&mut RegularAccount, E>)
        requires
            old(self).wf(),
            call_requires(db, (a,)),
        ensures
            final(self).wf(),
            final(self)@ == (TopModel { regular_account: final(self)@.regular_account, ..old(self)@ }),
            old(self)@.regular_account.resident(*a) ==> (r matches Ok(v) && v@ == old(
                self,
            )@.regular_account.working_value(*a, RegularAccount::fresh_view()) && final(self)@.regular_account == old(
                self,
            )@.regular_account.modified(*a, final(v)@)),
            !old(self)@.regular_account.resident(*a) ==> exists|answer: Result<Option<RegularAccount>, E>|
                call_ensures(db, (a,), answer) && match answer {
                    Ok(fetched) => (r matches Ok(v) && v@ == old(self)@.regular_account.loaded(
                        *a,
                        option_view(fetched),
                    ).working_value(*a, RegularAccount::fresh_view()) && final(self)@.regular_account == old(
                        self,
                    )@.regular_account.loaded(*a, option_view(fetched)).modified(*a, final(v)@)),
                    Err(e) => final(self)@ == old(self)@ && (r matches Err(handed) && handed == e),
                },
    {
        self.regular_account.get_mut(a, db)
    }

    /// Removes the regular account at `address`: the address holds a tombstone and is
    /// dirty, whether or not it was resident.
    pub fn remove_regular_account(&mut self, address: &RegularAccountAddress)
        requires
            old(self).wf(),
        ensures
            final(self).wf(),
            final(self)@ == (TopModel {
                regular_account: old(self)@.regular_account.removed(*address),
                ..old(self)@
            }),
    {
        self.regular_account.remove(address);
    }

    /// The metadata at `a`, read through the cache: `None` where there is none.
    ///
    /// A resident address is answered by the cache, tombstone included. For
    /// any other address the store is asked through `db`; what it answers
    /// becomes resident, clean, and is returned. An error of the store is
    /// handed on and leaves the cache as it was.
    pub fn metadata<E, F: FnOnce(&MetadataAddress) -> Result<Option<Metadata>, E>>(&mut self, a: &MetadataAddress, db: F) -> (r:
        Result<Option<&Metadata>, E>)
        requires
            old(self).wf(),
            call_requires(db, (a,)),
        ensures
            final(self).wf(),
            final(self)@ == (TopModel { metadata: final(self)@.metadata, ..old(self)@ }),
            old(self)@.metadata.resident(*a) ==> final(self)@ == old(self)@ && (r matches Ok(v)
                && option_ref_view(v) == old(self)@.metadata.entries[*a].value),
            !old(self)@.metadata.resident(*a) ==> exists|answer: Result<Option<Metadata>, E>|
                call_ensures(db, (a,), answer) && match answer {
                    Ok(fetched) => final(self)@.metadata == old(self)@.metadata.loaded(
                        *a,
                        option_view(fetched),
                    ) && (r matches Ok(v) && option_ref_view(v) == option_view(fetched)),
                    Err(e) => final(self)@ == old(self)@ && (r matches Err(handed) && handed == e),
                },
    {
        self.metadata.get(a, db)
    }

    /// A mutable reference to the metadata at `a`, for writing.
    ///
    /// An address that is not resident is first read from the store through
    /// `db`; an error of the store is handed on and leaves the cache as it
    /// was. The address is then noted in the open checkpoint and becomes
    /// dirty. Where the address holds no record the writer finds a fresh one.
    pub fn metadata_mut<E, F: FnOnce(&MetadataAddress) -> Result<Option<Metadata>, E>>(&mut self, a: &MetadataAddress, db: F) -> (r:
        Result<&mut Metadata, E>)
        requires
            old(self).wf(),
            call_requires(db, (a,)),
        ensures
            final(self).wf(),
            final(self)@ == (TopModel { metadata: final(self)@.metadata, ..old(self)@ }),
            old(self)@.metadata.resident(*a) ==> (r matches Ok(v) && v@ == old(
                self,
            )@.metadata.working_value(*a, Metadata::fresh_view()) && final(self)@.metadata == old(
                self,
            )@.metadata.modified(*a, final(v)@)),
            !old(self)@.metadata.resident(*a) ==> exists|answer: Result<Option<Metadata>, E>|
                call_ensures(db, (a,), answer) && match answer {
                    Ok(fetched) => (r matches Ok(v) && v@ == old(self)@.metadata.loaded(
                        *a,
                        option_view(fetched),
                    ).working_value(*a, Metadata::fresh_view()) && final(self)@.metadata == old(
                        self,
                    )@.metadata.loaded(*a, option_view(fetched)).modified(*a, final(v)@)),
                    Err(e) => final(self)@ == old(self)@ && (r matches Err(handed) && handed == e),
                },
    {
        self.metadata.get_mut(a, db)
    }

    /// The shard at `a`, read through the cache: `None` where there is none.
    ///
    /// A resident address is answered by the cache, tombstone included. For
    /// any other address the store is asked through `db`; what it answers
    /// becomes resident, clean, and is returned. An error of the store is
    /// handed on and leaves the cache as it was.
    pub fn shard<E, F: FnOnce(&ShardAddress) -> Result<Option<Shard>, E>>(&mut self, a: &ShardAddress, db: F) -> (r:
        Result<Option<&Shard>, E>)
        requires
            old(self).wf(),
            call_requires(db, (a,)),
        ensures
            final(self).wf(),
            final(self)@ == (TopModel { shard: final(self)@.shard, ..old(self)@ }),
            old(self)@.shard.resident(*a) ==> final(self)@ == old(self)@ && (r matches Ok(v)
                && option_ref_view(v) == old(self)@.shard.entries[*a].value),
            !old(self)@.shard.resident(*a) ==> exists|answer: Result<Option<Shard>, E>|
                call_ensures(db, (a,), answer) && match answer {
                    Ok(fetched) => final(self)@.shard == old(self)@.shard.loaded(
                        *a,
                        option_view(fetched),
                    ) && (r matches Ok(v) && option_ref_view(v) == option_view(fetched)),
                    Err(e) => final(self)@ == old(self)@ && (r matches Err(handed) && handed == e),
                },
    {
        self.shard.get(a, db)
    }

    /// A mutable reference to the shard at `a`, for writing.
    ///
    /// An address that is not resident is first read from the store through
    /// `db`; an error of the store is handed on and leaves the cache as it
    /// was. The address is then noted in the open checkpoint and becomes
    /// dirty. Where the address holds no record the writer finds a fresh one.
    pub fn shard_mut<E, F: FnOnce(&ShardAddress) -> Result<Option<Shard>, E>>(&mut self, a: &ShardAddress, db: F) -> (r:
        Result<&mut Shard, E>)
        requires
            old(self).wf(),
            call_requires(db, (a,)),
        ensures
            final(self).wf(),
            final(self)@ == (TopModel { shard: final(self)@.shard, ..old(self)@ }),
            old(self)@.shard.resident(*a) ==> (r matches Ok(v) && v@ == old(
                self,
            )@.shard.working_value(*a, Shard::fresh_view()) && final(self)@.shard == old(
                self,
            )@.shard.modified(*a, final(v)@)),
            !old(self)@.shard.resident(*a) ==> exists|answer: Result<Option<Shard>, E>|
                call_ensures(db, (a,), answer) && match answer {
                    Ok(fetched) => (r matches Ok(v) && v@ == old(self)@.shard.loaded(
                        *a,
                        option_view(fetched),
                    ).working_value(*a, Shard::fresh_view()) && final(self)@.shard == old(
                        self,
                    )@.shard.loaded(*a, option_view(fetched)).modified(*a, final(v)@)),
                    Err(e) => final(self)@ == old(self)@ && (r matches Err(handed) && handed == e),
                },
    {
        self.shard.get_mut(a, db)
    }

    /// Removes the shard at `address`: the address holds a tombstone and is
    /// dirty, whether or not it was resident.
    pub fn remove_shard(&mut self, address: &ShardAddress)
        requires
            old(self).wf(),
        ensures
            final(self).wf(),
            final(self)@ == (TopModel {
                shard: old(self)@.shard.removed(*address),
                ..old(self)@
            }),
    {
        self.shard.remove(address);
    }

    /// The action data at `a`, read through the cache: `None` where there is none.
    ///
    /// A resident address is answered by the cache, tombstone included. For
    /// any other address the store is asked through `db`; what it answers
    /// becomes resident, clean, and is returned. An error of the store is
    /// handed on and leaves the cache as it was.
    pub fn action_data<E, F: FnOnce(&H256) -> Result<Option<ActionData>, E>>(&mut self, a: &H256, db: F) -> (r:
        Result<Option<&ActionData>, E>)
        requires
            old(self).wf(),
            call_requires(db, (a,)),
        ensures
            final(self).wf(),
            final(self)@ == (TopModel { action_data: final(self)@.action_data, ..old(self)@ }),
            old(self)@.action_data.resident(*a) ==> final(self)@ == old(self)@ && (r matches Ok(v)
                && option_ref_view(v) == old(self)@.action_data.entries[*a].value),
            !old(self)@.action_data.resident(*a) ==> exists|answer: Result<Option<ActionData>, E>|
                call_ensures(db, (a,), answer) && match answer {
                    Ok(fetched) => final(self)@.action_data == old(self)@.action_data.loaded(
                        *a,
                        option_view(fetched),
                    ) && (r matches Ok(v) && option_ref_view(v) == option_view(fetched)),
                    Err(e) => final(self)@ == old(self)@ && (r matches Err(handed) && handed == e),
                },
    {
        self.action_data.get(a, db)
    }

    /// A mutable reference to the action data at `a`, for writing.
    ///
    /// An address that is not resident is first read from the store through
    /// `db`; an error of the store is handed on and leaves the cache as it
    /// was. The address is then noted in the open checkpoint and becomes
    /// dirty. Where the address holds no record the writer finds a fresh one.
    pub fn action_data_mut<E, F: FnOnce(&H256) -> Result<Option<ActionData>, E>>(&mut self, a: &H256, db: F) -> (r:
        Result<&mut ActionData, E>)
        requires
            old(self).wf(),
            call_requires(db, (a,)),
        ensures
            final(self).wf(),
            final(self)@ == (TopModel { action_data: final(self)@.action_data, ..old(self)@ }),
            old(self)@.action_data.resident(*a) ==> (r matches Ok(v) && v@ == old(
                self,
            )@.action_data.working_value(*a, ActionData::fresh_view()) && final(self)@.action_data == old(
                self,
            )@.action_data.modified(*a, final(v)@)),
            !old(self)@.action_data.resident(*a) ==> exists|answer: Result<Option<ActionData>, E>|
                call_ensures(db, (a,), answer) && match answer {
                    Ok(fetched) => (r matches Ok(v) && v@ == old(self)@.action_data.loaded(
                        *a,
                        option_view(fetched),
                    ).working_value(*a, ActionData::fresh_view()) && final(self)@.action_data == old(
                        self,
                    )@.action_data.loaded(*a, option_view(fetched)).modified(*a, final(v)@)),
                    Err(e) => final(self)@ == old(self)@ && (r matches Err(handed) && handed == e),
                },
    {
        self.action_data.get_mut(a, db)
    }

    /// Removes the action data at `address`: the address holds a tombstone and is
    /// dirty, whether or not it was resident.
    pub fn remove_action_data(&mut self, address: &H256)
        requires
            old(self).wf(),
        ensures
            final(self).wf(),
            final(self)@ == (TopModel {
                action_data: old(self)@.action_data.removed(*address),
                ..old(self)@
            }),
    {
        self.action_data.remove(address);
    }

    /// Every resident account address with a copy of its record, or `None` for a
    /// tombstone, sorted by address.
    pub fn cached_accounts(&self) -> (r: Vec<(Address, Option<Account>)>)
        requires
            self.wf(),
        ensures
            lists(items_view(r@), self@.account.entries),
    {
        self.account.items()
    }

    /// Every resident regular account address with a copy of its record, or `None` for a
    /// tombstone, sorted by address.
    pub fn cached_regular_accounts(&self) -> (r: Vec<(RegularAccountAddress, Option<RegularAccount>)>)
        requires
            self.wf(),
        ensures
            lists(items_view(r@), self@.regular_account.entries),
    {
        self.regular_account.items()
    }

    /// Every resident metadata address with a copy of its record, or `None` for a
    /// tombstone, sorted by address.
    pub fn cached_metadata(&self) -> (r: Vec<(MetadataAddress, Option<Metadata>)>)
        requires
            self.wf(),
        ensures
            lists(items_view(r@), self@.metadata.entries),
    {
        self.metadata.items()
    }

    /// Every resident shard address with a copy of its record, or `None` for a
    /// tombstone, sorted by address.
    pub fn cached_shards(&self) -> (r: Vec<(ShardAddress, Option<Shard>)>)
        requires
            self.wf(),
        ensures
            lists(items_view(r@), self@.shard.entries),
    {
        self.shard.items()
    }

    /// Every resident action data address with a copy of its record, or `None` for a
    /// tombstone, sorted by address.
    pub fn cached_action_data(&self) -> (r: Vec<(H256, Option<ActionData>)>)
        requires
            self.wf(),
        ensures
            lists(items_view(r@), self@.action_data.entries),
    {
        self.action_data.items()
    }
}

impl Clone for TopCache {
    /// A deep copy of the five caches, sharing nothing with this one.
    fn clone(&self) -> (r: Self)
        ensures
            self.wf() ==> r.wf() && r@ == self@,
    {
        TopCache {
            account: self.account.clone(),
            regular_account: self.regular_account.clone(),
            metadata: self.metadata.clone(),
            shard: self.shard.clone(),
            action_data: self.action_data.clone(),
        }
    }
}

} // verus!
