//! Scheduler decision contracts and enums for orchestration. Pure contracts
//! only; implementations live in adapters and backends.

use vstd::prelude::*;
use crate::ids::FeedId;

verus! {

/// Coarse state known to the scheduler about a feed's recency.
#[derive(Debug, Clone, Copy, PartialEq, Eq, Structural)]
pub enum SchedState {
    Unknown,
    Quiet,
    Normal,
    Hot,
}

/// Reasons for the chosen decision (for observability).
#[derive(Debug, Clone, PartialEq, Eq)]
pub enum SchedReason {
    NoHistory,
    RecentSuccess { seconds_ago: i64 },
    BackoffAfterError { seconds_ago: i64 },
    HotFeedHeuristic,
    QuietFeedHeuristic,
}

/// What to do next for a feed: fetch now, or wait the given seconds.
#[derive(Debug, Clone, PartialEq, Eq)]
pub enum SchedDecision {
    FetchNow,
    WaitFor(i64),
}

/// Portable telemetry supplied by adapters to drive scheduling.
#[derive(Debug, Clone, PartialEq, Eq)]
pub struct SchedInput {
    pub feed: FeedId,
    pub now_unix: i64,
    pub last_ok_fetch_ts: Option<i64>,
    pub last_error_ts: Option<i64>,
    pub observed_interval_sec: Option<i64>,
    pub state: SchedState,
}

/// Contract for a scheduler that maps telemetry to a decision.
/// Implementations must be pure and deterministic.
pub trait Scheduler {
    fn decide(input: &SchedInput) -> (SchedDecision, SchedReason);
}

} // verus!
