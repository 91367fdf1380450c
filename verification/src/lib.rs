//! Tiered fetch engine for a content-addressed tree object store.
//!
//! A batch of keys (path + content hash) and a mask of requested attributes
//! (content bytes, parent linkage) are satisfied by consulting storage tiers
//! in priority order: local cache log, local log, history logs, a remote
//! client, and a legacy fallback store. Partial answers from different tiers
//! are merged per key until every requested attribute is satisfied or proven
//! absent; faster tiers are opportunistically back-filled with remotely
//! fetched data.

pub mod attrs;
pub mod error;
pub mod fetch;
pub mod gitimport;
pub mod laws;
pub mod list;
pub mod metrics;
pub mod tiers;
pub mod tree;
pub mod types;
pub mod value;
