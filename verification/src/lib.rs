//! An in-memory ledger graph ("Tangle") with a write-through cache over a
//! pluggable store, a tip pool, and graph traversal, with machine-checked
//! contracts.

pub mod cache;
pub mod cleaner;
pub mod conflict;
pub mod id_map;
pub mod logger;
pub mod message;
pub mod memory_storage;
pub mod metadata;
pub mod native_token;
pub mod plugin;
pub mod storage;
pub mod tangle;
pub mod tip_pool;
pub mod traversal;
