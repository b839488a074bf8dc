//! Address types of the five state namespaces, and the order the cache keeps them in.

use vstd::prelude::*;

verus! {

/// A key of a write-back cache.
///
/// Every key has a rank, its position in address order. Distinct keys have
/// distinct ranks, so the order is total and an address is found again by its
/// rank alone.
pub trait CacheKey: Copy + Sized {
    /// The position of this key in address order.
    spec fn rank(&self) -> int;

    /// Keys of equal rank are the same key.
    proof fn rank_injective(a: Self, b: Self)
        requires
            a.rank() == b.rank(),
        ensures
            a == b,
    ;

    /// Whether `self` comes strictly before `other` in address order.
    fn precedes(&self, other: &Self) -> (r: bool)
        ensures
            r == (self.rank() < other.rank()),
    ;
}

/// A 256-bit hash, held as its upper and lower 128 bits.
#[derive(Clone, Copy, Debug, PartialEq, Eq, Structural, Hash, PartialOrd, Ord)]
pub struct H256 {
    pub hi: u128,
    pub lo: u128,
}

/// The number that a 256-bit value stands for.
pub open spec fn number_256(hi: u128, lo: u128) -> int {
    hi as int * 0x1_0000_0000_0000_0000_0000_0000_0000_0000int + lo as int
}

/// The number that a 160-bit value stands for.
pub open spec fn number_160(hi: u32, lo: u128) -> int {
    hi as int * 0x1_0000_0000_0000_0000_0000_0000_0000_0000int + lo as int
}

impl H256 {
    /// The hash whose bits are all zero.
    pub fn zero() -> (r: Self)
        ensures
            r == (H256 { hi: 0, lo: 0 }),
    {
        H256 { hi: 0, lo: 0 }
    }

    /// The hash with the given upper and lower halves.
    pub fn new(hi: u128, lo: u128) -> (r: Self)
        ensures
            r == (H256 { hi, lo }),
    {
        H256 { hi, lo }
    }
}

impl CacheKey for H256 {
    open spec fn rank(&self) -> int {
        number_256(self.hi, self.lo)
    }

    proof fn rank_injective(a: Self, b: Self) {
    }

    fn precedes(&self, other: &Self) -> (r: bool) {
        self.hi < other.hi || (self.hi == other.hi && self.lo < other.lo)
    }
}

/// The address of an account: a 160-bit value, held as its upper 32 and lower 128 bits.
#[derive(Clone, Copy, Debug, PartialEq, Eq, Structural, Hash, PartialOrd, Ord)]
pub struct Address {
    pub hi: u32,
    pub lo: u128,
}

impl Address {
    /// The address with the given upper and lower parts.
    pub fn new(hi: u32, lo: u128) -> (r: Self)
        ensures
            r == (Address { hi, lo }),
    {
        Address { hi, lo }
    }
}

impl CacheKey for Address {
    open spec fn rank(&self) -> int {
        number_160(self.hi, self.lo)
    }

    proof fn rank_injective(a: Self, b: Self) {
    }

    fn precedes(&self, other: &Self) -> (r: bool) {
        self.hi < other.hi || (self.hi == other.hi && self.lo < other.lo)
    }
}

/// The address of a regular account.
#[derive(Clone, Copy, Debug, PartialEq, Eq, Structural, Hash, PartialOrd, Ord)]
pub struct RegularAccountAddress(pub H256);

impl CacheKey for RegularAccountAddress {
    open spec fn rank(&self) -> int {
        self.0.rank()
    }

    proof fn rank_injective(a: Self, b: Self) {
    }

    fn precedes(&self, other: &Self) -> (r: bool) {
        self.0.precedes(&other.0)
    }
}

/// The address of the chain metadata.
#[derive(Clone, Copy, Debug, PartialEq, Eq, Structural, Hash, PartialOrd, Ord)]
pub struct MetadataAddress(pub H256);

impl CacheKey for MetadataAddress {
    open spec fn rank(&self) -> int {
        self.0.rank()
    }

    proof fn rank_injective(a: Self, b: Self) {
    }

    fn precedes(&self, other: &Self) -> (r: bool) {
        self.0.precedes(&other.0)
    }
}

/// The address of a shard.
#[derive(Clone, Copy, Debug, PartialEq, Eq, Structural, Hash, PartialOrd, Ord)]
pub struct ShardAddress(pub H256);

impl CacheKey for ShardAddress {
    open spec fn rank(&self) -> int {
        self.0.rank()
    }

    proof fn rank_injective(a: Self, b: Self) {
    }

    fn precedes(&self, other: &Self) -> (r: bool) {
        self.0.precedes(&other.0)
    }
}

} // verus!
