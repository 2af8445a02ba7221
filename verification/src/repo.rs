//! Repository boundary contracts for feeds, entries and schedule state.
//! Backends implement these traits; every operation takes an optional
//! backend-defined transaction handle and reports absence as `NotFound`.

use vstd::prelude::*;
use crate::error::RepoError;
use crate::ids::{EntryId, FeedId};
use crate::model::{Entry, Feed};

verus! {

/// Opaque transaction/context handle exposed by backends. Backends decide
/// whether this is real transactional state or a no-op marker.
pub trait Tx {
    /// Whether this handle represents an active transactional scope.
    fn is_active(&self) -> bool;
}

/// CRUD surface for feeds.
pub trait FeedRepo {
    type Tx: Tx;

    fn get(&self, tx: Option<&Self::Tx>, id: &FeedId) -> Result<Feed, RepoError>;

    fn put(&self, tx: Option<&Self::Tx>, feed: &Feed) -> Result<(), RepoError>;

    fn list(&self, tx: Option<&Self::Tx>) -> Result<Vec<Feed>, RepoError>;
}

/// CRUD surface for entries.
pub trait EntryRepo {
    type Tx: Tx;

    fn get(&self, tx: Option<&Self::Tx>, id: &EntryId) -> Result<Entry, RepoError>;

    fn upsert(&self, tx: Option<&Self::Tx>, entry: &Entry) -> Result<(), RepoError>;

    fn list_by_feed(&self, tx: Option<&Self::Tx>, feed: &FeedId) -> Result<
        Vec<Entry>,
        RepoError,
    >;
}

/// Minimal scheduling persistence.
pub trait ScheduleRepo {
    type Tx: Tx;

    /// Last successful fetch time (unix seconds) for a feed.
    fn last_ok_fetch_ts(&self, tx: Option<&Self::Tx>, feed: &FeedId) -> Result<
        Option<i64>,
        RepoError,
    >;

    /// Record an outcome time to inform future scheduling.
    fn record_fetch_ts(&self, tx: Option<&Self::Tx>, feed: &FeedId, ts: i64) -> Result<
        (),
        RepoError,
    >;
}

/// Read-only repository statistics: how many feeds and entries a store
/// holds.
#[derive(Debug, Clone, PartialEq, Eq, Structural)]
pub struct StatsSummary {
    pub feeds: usize,
    pub entries: usize,
}

} // verus!
