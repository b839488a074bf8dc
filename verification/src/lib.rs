//! The state of a chain behind a checkpointable write-back cache.
//!
//! The state is kept in a persistent key/value store. Transactions read and
//! write it through a cache: reads load from the store on a miss, writes stay
//! in the cache until a commit hands them to the store. A checkpoint marks a
//! point to return to; a revert undoes every write made since, a discard keeps
//! them. The cache never owns the store: it is handed a way to read or to
//! write it for the length of one call.
//!
//! - [`write_back`] holds the cache of one kind of record, [`top_cache`] the
//!   five caches of the whole state, driven as one.
//! - [`model`] is the mathematical model that the contracts of both speak of,
//!   and [`laws`] what is proved of it.
//! - [`address`] and [`item`] hold the addresses and the records.
//! - [`sorted_map`] is the map in address order that the caches are built on.
//! - [`chain_type`], [`null_engine`], [`uint`] and [`rpc_types`] hold the plain
//!   values of the chain configuration and of the RPC interface.

pub mod address;
pub mod chain_type;
pub mod item;
pub mod laws;
pub mod model;
pub mod null_engine;
pub mod rpc_types;
pub mod sorted_map;
pub mod top_cache;
pub mod uint;
pub mod write_back;
