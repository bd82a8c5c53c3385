//! A sharded in-memory key-value store.
//!
//! The store partitions its keyspace over a fixed number of shards. Each
//! shard is an independent mapping from byte-string keys to byte-string
//! values; a deterministic hash routes every key to exactly one shard, so
//! operations on keys in different shards never touch the same state.
//!
//! [`store::ShardedStore`] is the sequential model of the whole store:
//! routing plus per-shard reads and writes, specified against a single
//! abstract map. [`shard::Shard`] and [`hashing::shard_index`] are the
//! building blocks a server places behind one lock per shard, so that
//! operations on different shards proceed in parallel while same-shard
//! operations serialize. [`handler::dispatch`] is the per-command decision
//! of a connection handler; the surrounding I/O loop lives outside the
//! library. The laws the store obeys — read-your-write, idempotent and
//! commuting writes, routing stability — are proved in [`laws`] over the
//! same abstract maps the contracts here use.

pub mod handler;
pub mod hashing;
pub mod laws;
pub mod shard;
pub mod store;
