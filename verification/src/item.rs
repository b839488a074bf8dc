//! The records that the state cache holds.

use crate::address::H256;
use vstd::prelude::*;

verus! {

/// A record that a write-back cache can hold.
///
/// The cache speaks of a record by its view. It needs two things of a record
/// type: the value that a record has when a write creates it, and a way to
/// copy a record for a checkpoint.
pub trait CacheableItem: View + Sized {
    /// The view of the record that a write to an absent address starts from.
    spec fn fresh_view() -> Self::V;

    /// The record that a write to an absent address starts from.
    fn fresh() -> (r: Self)
        ensures
            r@ == Self::fresh_view(),
    ;

    /// A copy of this record.
    fn duplicate(&self) -> (r: Self)
        ensures
            r@ == self@,
    ;
}

/// An account: a balance and a sequence number.
#[derive(Clone, Copy, Debug, PartialEq, Eq, Structural)]
pub struct Account {
    pub balance: u64,
    pub seq: u64,
}

impl View for Account {
    type V = Account;

    open spec fn view(&self) -> Account {
        *self
    }
}

impl Account {
    /// An account with the given balance and sequence number.
    pub fn new(balance: u64, seq: u64) -> (r: Self)
        ensures
            r == (Account { balance, seq }),
    {
        Account { balance, seq }
    }

    /// The balance of the account.
    pub fn balance(&self) -> (r: u64)
        ensures
            r == self.balance,
    {
        self.balance
    }

    /// The sequence number of the account.
    pub fn seq(&self) -> (r: u64)
        ensures
            r == self.seq,
    {
        self.seq
    }

    /// Whether the account holds nothing: no balance and no sequence number.
    pub fn is_null(&self) -> (r: bool)
        ensures
            r == (self.balance == 0 && self.seq == 0),
    {
        self.balance == 0 && self.seq == 0
    }

    /// Adds `amount` to the balance.
    pub fn add_balance(&mut self, amount: u64)
        requires
            old(self).balance + amount <= u64::MAX,
        ensures
            final(self).balance == old(self).balance + amount,
            final(self).seq == old(self).seq,
    {
        self.balance = self.balance + amount;
    }

    /// Takes `amount` from the balance.
    pub fn sub_balance(&mut self, amount: u64)
        requires
            amount <= old(self).balance,
        ensures
            final(self).balance == old(self).balance - amount,
            final(self).seq == old(self).seq,
    {
        self.balance = self.balance - amount;
    }

    /// Sets the balance.
    pub fn set_balance(&mut self, balance: u64)
        ensures
            final(self).balance == balance,
            final(self).seq == old(self).seq,
    {
        self.balance = balance;
    }

    /// Advances the sequence number by one.
    pub fn inc_seq(&mut self)
        requires
            old(self).seq < u64::MAX,
        ensures
            final(self).seq == old(self).seq + 1,
            final(self).balance == old(self).balance,
    {
        self.seq = self.seq + 1;
    }
}

impl CacheableItem for Account {
    open spec fn fresh_view() -> Account {
        Account { balance: 0, seq: 0 }
    }

    fn fresh() -> (r: Self) {
        Account { balance: 0, seq: 0 }
    }

    fn duplicate(&self) -> (r: Self) {
        Account { balance: self.balance, seq: self.seq }
    }
}

/// A regular account: the public key of the account that owns it.
#[derive(Clone, Copy, Debug, PartialEq, Eq, Structural)]
pub struct RegularAccount {
    pub owner_public: H256,
}

impl View for RegularAccount {
    type V = RegularAccount;

    open spec fn view(&self) -> RegularAccount {
        *self
    }
}

impl RegularAccount {
    /// A regular account owned by the given public key.
    pub fn new(owner_public: H256) -> (r: Self)
        ensures
            r == (RegularAccount { owner_public }),
    {
        RegularAccount { owner_public }
    }

    /// The public key of the owner.
    pub fn owner_public(&self) -> (r: H256)
        ensures
            r == self.owner_public,
    {
        self.owner_public
    }
}

impl CacheableItem for RegularAccount {
    open spec fn fresh_view() -> RegularAccount {
        RegularAccount { owner_public: H256 { hi: 0, lo: 0 } }
    }

    fn fresh() -> (r: Self) {
        RegularAccount { owner_public: H256 { hi: 0, lo: 0 } }
    }

    fn duplicate(&self) -> (r: Self) {
        RegularAccount { owner_public: self.owner_public }
    }
}

/// The chain metadata: how many shards exist, and a sequence number.
#[derive(Clone, Copy, Debug, PartialEq, Eq, Structural)]
pub struct Metadata {
    pub number_of_shards: u16,
    pub number_of_initial_shards: u16,
    pub seq: u64,
}

impl View for Metadata {
    type V = Metadata;

    open spec fn view(&self) -> Metadata {
        *self
    }
}

impl Metadata {
    /// The metadata of a chain that starts with `number_of_shards` shards.
    pub fn new(number_of_shards: u16) -> (r: Self)
        ensures
            r == (Metadata {
                number_of_shards,
                number_of_initial_shards: number_of_shards,
                seq: 0,
            }),
    {
        Metadata { number_of_shards, number_of_initial_shards: number_of_shards, seq: 0 }
    }

    /// The number of shards.
    pub fn number_of_shards(&self) -> (r: u16)
        ensures
            r == self.number_of_shards,
    {
        self.number_of_shards
    }

    /// The number of shards that the chain started with.
    pub fn number_of_initial_shards(&self) -> (r: u16)
        ensures
            r == self.number_of_initial_shards,
    {
        self.number_of_initial_shards
    }

    /// The sequence number.
    pub fn seq(&self) -> (r: u64)
        ensures
            r == self.seq,
    {
        self.seq
    }

    /// Counts one more shard and returns the number it was given.
    pub fn add_shard(&mut self) -> (id: u16)
        requires
            old(self).number_of_shards < u16::MAX,
        ensures
            id == old(self).number_of_shards,
            final(self).number_of_shards == old(self).number_of_shards + 1,
            final(self).number_of_initial_shards == old(self).number_of_initial_shards,
            final(self).seq == old(self).seq,
    {
        let id = self.number_of_shards;
        self.number_of_shards = id + 1;
        id
    }

    /// Advances the sequence number by one.
    pub fn increase_seq(&mut self)
        requires
            old(self).seq < u64::MAX,
        ensures
            final(self).seq == old(self).seq + 1,
            final(self).number_of_shards == old(self).number_of_shards,
            final(self).number_of_initial_shards == old(self).number_of_initial_shards,
    {
        self.seq = self.seq + 1;
    }
}

impl CacheableItem for Metadata {
    open spec fn fresh_view() -> Metadata {
        Metadata { number_of_shards: 0, number_of_initial_shards: 0, seq: 0 }
    }

    fn fresh() -> (r: Self) {
        Metadata { number_of_shards: 0, number_of_initial_shards: 0, seq: 0 }
    }

    fn duplicate(&self) -> (r: Self) {
        Metadata {
            number_of_shards: self.number_of_shards,
            number_of_initial_shards: self.number_of_initial_shards,
            seq: self.seq,
        }
    }
}

/// A shard: the root of its own state.
#[derive(Clone, Copy, Debug, PartialEq, Eq, Structural)]
pub struct Shard {
    pub root: H256,
}

impl View for Shard {
    type V = Shard;

    open spec fn view(&self) -> Shard {
        *self
    }
}

impl Shard {
    /// A shard whose state has the given root.
    pub fn new(root: H256) -> (r: Self)
        ensures
            r == (Shard { root }),
    {
        Shard { root }
    }

    /// The root of the shard's state.
    pub fn root(&self) -> (r: H256)
        ensures
            r == self.root,
    {
        self.root
    }

    /// Sets the root of the shard's state.
    pub fn set_root(&mut self, root: H256)
        ensures
            final(self).root == root,
    {
        self.root = root;
    }
}

impl CacheableItem for Shard {
    open spec fn fresh_view() -> Shard {
        Shard { root: H256 { hi: 0, lo: 0 } }
    }

    fn fresh() -> (r: Self) {
        Shard { root: H256 { hi: 0, lo: 0 } }
    }

    fn duplicate(&self) -> (r: Self) {
        Shard { root: self.root }
    }
}

/// The data that an action handler keeps under one key: a string of bytes.
#[derive(Debug, PartialEq, Eq)]
pub struct ActionData(pub Vec<u8>);

impl View for ActionData {
    type V = Seq<u8>;

    open spec fn view(&self) -> Seq<u8> {
        self.0@
    }
}

impl ActionData {
    /// The action data made of `bytes`.
    pub fn new(bytes: Vec<u8>) -> (r: Self)
        ensures
            r@ == bytes@,
    {
        ActionData(bytes)
    }

    /// The bytes of the data.
    pub fn bytes(&self) -> (r: &Vec<u8>)
        ensures
            r@ == self@,
    {
        &self.0
    }

    /// Whether the data is empty.
    pub fn is_null(&self) -> (r: bool)
        ensures
            r == (self@.len() == 0),
    {
        self.0.len() == 0
    }
}

impl CacheableItem for ActionData {
    open spec fn fresh_view() -> Seq<u8> {
        Seq::empty()
    }

    fn fresh() -> (r: Self) {
        ActionData(Vec::new())
    }

    fn duplicate(&self) -> (r: Self) {
        let bytes = self.0.clone();
        assert(bytes@ =~= self.0@);
        ActionData(bytes)
    }
}

} // verus!
