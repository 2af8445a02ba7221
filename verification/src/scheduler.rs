//! Pure scheduling decision engine: maps a feed's fetch history and the
//! current time to a fetch/wait decision. No I/O; the caller injects time.

use vstd::prelude::*;

verus! {

/// What to do next for a feed, with a machine-readable reason tag.
#[derive(Debug, Clone, PartialEq, Eq)]
pub enum Decision {
    FetchNow { reason: &'static str },
    WaitFor { secs: u32, reason: &'static str },
}

/// Immutable snapshot of a feed's fetch history; timestamps are unix
/// seconds.
#[derive(Debug, Clone)]
pub struct Stats {
    pub last_ok_ts: Option<i64>,
    pub last_err_ts: Option<i64>,
    pub observed_interval_sec: Option<u32>,
    pub min_interval_sec: u32,
    pub max_interval_sec: u32,
    pub backoff_floor_sec: u32,
}

impl Default for Stats {
    /// Defaults: no history, a 5 minute floor, a 12 hour ceiling and a
    /// 15 minute error backoff.
    fn default() -> (r: Self)
        ensures
            r.last_ok_ts is None,
            r.last_err_ts is None,
            r.observed_interval_sec is None,
            r.min_interval_sec == 300,
            r.max_interval_sec == 43200,
            r.backoff_floor_sec == 900,
    {
        Stats {
            last_ok_ts: None,
            last_err_ts: None,
            observed_interval_sec: None,
            min_interval_sec: 300,
            max_interval_sec: 43200,
            backoff_floor_sec: 900,
        }
    }
}

/// The fixed error-backoff window: `max(backoff_floor, min_interval)`,
/// capped at `max_interval`. It does not consult the observed interval.
pub open spec fn backoff_spec(s: Stats) -> u32 {
    let b = if s.backoff_floor_sec >= s.min_interval_sec {
        s.backoff_floor_sec
    } else {
        s.min_interval_sec
    };
    if b > s.max_interval_sec {
        s.max_interval_sec
    } else {
        b
    }
}

/// The desired pacing interval when healthy: the observed interval (or the
/// floor when none was observed), raised to `min_interval` and capped at
/// `max_interval`.
pub open spec fn desired_spec(s: Stats) -> u32 {
    let o = match s.observed_interval_sec {
        Some(v) => v,
        None => s.min_interval_sec,
    };
    let lo = if o < s.min_interval_sec {
        s.min_interval_sec
    } else {
        o
    };
    if lo > s.max_interval_sec {
        s.max_interval_sec
    } else {
        lo
    }
}

/// Seconds since the last successful fetch, never negative.
pub open spec fn elapsed_spec(now: int, last_ok: int) -> int {
    if now - last_ok < 0 {
        0
    } else {
        now - last_ok
    }
}

/// Whether the most recent recorded outcome was a failure.
pub open spec fn error_recent(s: Stats) -> bool {
    s.last_ok_ts is Some && s.last_err_ts is Some && s.last_err_ts->0 >= s.last_ok_ts->0
}

/// Pure decision function. Rules, in order: with no successful fetch on
/// record, fetch now; with a failure at or after the last success, wait the
/// fixed backoff window; otherwise fetch when the elapsed time has reached
/// the desired interval, and wait the remainder when it has not.
pub fn decide(now_sec: i64, s: &Stats) -> (r: Decision)
    ensures
        s.last_ok_ts is None ==> (r matches Decision::FetchNow { reason } && reason@
            == "never_fetched"@),
        error_recent(*s) ==> (r matches Decision::WaitFor { secs, reason } && secs == backoff_spec(
            *s,
        ) && reason@ == "error_backoff"@),
        s.last_ok_ts is Some && !error_recent(*s) && elapsed_spec(
            now_sec as int,
            s.last_ok_ts->0 as int,
        ) >= desired_spec(*s) ==> (r matches Decision::FetchNow { reason } && reason@ == "due"@),
        s.last_ok_ts is Some && !error_recent(*s) && elapsed_spec(
            now_sec as int,
            s.last_ok_ts->0 as int,
        ) < desired_spec(*s) ==> (r matches Decision::WaitFor { secs, reason } && secs
            == desired_spec(*s) - elapsed_spec(now_sec as int, s.last_ok_ts->0 as int) && reason@
            == "not_due"@),
{
    let last_ok = match s.last_ok_ts {
        None => {
            return Decision::FetchNow { reason: "never_fetched" };
        },
        Some(v) => v,
    };
    let backoff_applies = match s.last_err_ts {
        Some(err_ts) => err_ts >= last_ok,
        None => false,
    };
    if backoff_applies {
        let b = if s.backoff_floor_sec >= s.min_interval_sec {
            s.backoff_floor_sec
        } else {
            s.min_interval_sec
        };
        let backoff = if b > s.max_interval_sec {
            s.max_interval_sec
        } else {
            b
        };
        return Decision::WaitFor { secs: backoff, reason: "error_backoff" };
    }
    let o = match s.observed_interval_sec {
        Some(v) => v,
        None => s.min_interval_sec,
    };
    let lo = if o < s.min_interval_sec {
        s.min_interval_sec
    } else {
        o
    };
    let desired = if lo > s.max_interval_sec {
        s.max_interval_sec
    } else {
        lo
    };
    let diff: i128 = now_sec as i128 - last_ok as i128;
    let elapsed: i128 = if diff < 0 {
        0i128
    } else {
        diff
    };
    if elapsed >= desired as i128 {
        Decision::FetchNow { reason: "due" }
    } else {
        assert(0 <= desired as i128 - elapsed <= u32::MAX as i128);
        Decision::WaitFor { secs: (desired as i128 - elapsed) as u32, reason: "not_due" }
    }
}

} // verus!
