//! Feed-ingestion core: stable identity derivation for feeds and entries,
//! a pure scheduling decision engine, repository contracts with a
//! filesystem-oriented path layout and a SQLite-backed store, and the
//! persisted JSON record format shared by every backend.

pub mod strutil;
pub mod ids;
pub mod id_policy;
pub mod error;
pub mod model;
pub mod domain;
pub mod repo;
pub mod sched;
pub mod scheduler;
pub mod fs_util;
pub mod fs_paths;
pub mod fs_store;
pub mod codec;
pub mod repo_spec;
pub mod repo_selector;
pub mod store_cfg;
pub mod seeds;
pub mod order;
pub mod sqlite_repo;
