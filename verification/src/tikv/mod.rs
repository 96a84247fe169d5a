//! The distributed transactional backend: its key space, the frame around stored
//! shards, and the bookkeeping and decisions of its write transactions.

pub mod keys;
pub mod kv;
pub mod retry;
pub mod staging;
pub mod scan;
pub mod write_loop;
pub mod config;
pub mod batch;
pub mod catalog;
pub mod resolve;
pub mod shard_cache;
pub mod merge;
