//! The counters of the whole tracker.

use vstd::prelude::*;

use crate::tracker::clock::{monotonic_nanos, seconds_between, whole_seconds};

verus! {

/// The counters of the whole tracker. `announces` and `scrapes` count the
/// requests since `clear_time`; `torrents` and `peers` are running totals.
/// The two times are readings of the monotonic clock in nanoseconds.
#[derive(Clone, Copy, Debug, PartialEq, Eq, Structural)]
pub struct Stats {
    pub announces: u64,
    pub scrapes: u64,
    pub torrents: u64,
    pub peers: u64,
    pub start_time: u64,
    pub clear_time: u64,
}

/// A request counter after one more request; it stays at the largest
/// value once there.
pub open spec fn counted(n: u64) -> u64 {
    if n < u64::MAX {
        (n + 1) as u64
    } else {
        n
    }
}

/// Counts one more request.
pub fn count(n: u64) -> (m: u64)
    ensures
        m == counted(n),
{
    if n < u64::MAX {
        n + 1
    } else {
        n
    }
}

impl Stats {
    /// The counters of a tracker that starts at time `now`.
    pub open spec fn started(now: u64) -> Stats {
        Stats { announces: 0, scrapes: 0, torrents: 0, peers: 0, start_time: now, clear_time: now }
    }

    /// These counters with the request counts cleared at time `now`.
    pub open spec fn cleared(self, now: u64) -> Stats {
        Stats { announces: 0, scrapes: 0, clear_time: now, ..self }
    }

    /// The counters of a tracker that starts now.
    pub fn new() -> (stats: Stats)
        ensures
            stats == Stats::started(stats.start_time),
    {
        Stats::new_at(monotonic_nanos())
    }

    /// The counters of a tracker that starts at time `now`.
    pub fn new_at(now: u64) -> (stats: Stats)
        ensures
            stats == Stats::started(now),
    {
        Stats { announces: 0, scrapes: 0, torrents: 0, peers: 0, start_time: now, clear_time: now }
    }

    /// Clears the request counts, as of now.
    pub fn update(&mut self)
        ensures
            *final(self) == old(self).cleared(final(self).clear_time),
    {
        self.update_at(monotonic_nanos())
    }

    /// Clears the request counts, as of time `now`.
    pub fn update_at(&mut self, now: u64)
        ensures
            *final(self) == old(self).cleared(now),
    {
        self.clear_time = now;
        self.announces = 0;
        self.scrapes = 0;
    }
}

/// What the tracker reports of itself: requests per second since the
/// counts were last cleared, the running totals, and the seconds since
/// the start.
#[derive(Clone, Copy, Debug, PartialEq, Eq, Structural)]
pub struct StatsResponse {
    pub announce_rate: u64,
    pub scrape_rate: u64,
    pub torrents: u64,
    pub peers: u64,
    pub uptime: u64,
}

/// `count` events per second over the time from `since` to `now`, which
/// is taken to be a second at least.
pub open spec fn rate(count: u64, since: u64, now: u64) -> u64 {
    if seconds_between(since, now) >= 1 {
        count / seconds_between(since, now)
    } else {
        count
    }
}

impl StatsResponse {
    /// What `stats` amounts to at time `now`.
    pub open spec fn snapshot(stats: Stats, now: u64) -> StatsResponse {
        StatsResponse {
            announce_rate: rate(stats.announces, stats.clear_time, now),
            scrape_rate: rate(stats.scrapes, stats.clear_time, now),
            torrents: stats.torrents,
            peers: stats.peers,
            uptime: seconds_between(stats.start_time, now),
        }
    }

    /// What `stats` amounts to now.
    pub fn new(stats: &Stats) -> (resp: StatsResponse)
        ensures
            exists|now: u64| resp == #[trigger] StatsResponse::snapshot(*stats, now),
    {
        let now = monotonic_nanos();
        let resp = StatsResponse::new_at(stats, now);
        assert(resp == StatsResponse::snapshot(*stats, now));
        resp
    }

    /// What `stats` amounts to at time `now`.
    pub fn new_at(stats: &Stats, now: u64) -> (resp: StatsResponse)
        ensures
            resp == StatsResponse::snapshot(*stats, now),
    {
        let elapsed = whole_seconds(stats.clear_time, now);
        let secs = if elapsed >= 1 {
            elapsed
        } else {
            1
        };
        StatsResponse {
            announce_rate: stats.announces / secs,
            scrape_rate: stats.scrapes / secs,
            torrents: stats.torrents,
            peers: stats.peers,
            uptime: whole_seconds(stats.start_time, now),
        }
    }
}

} // verus!
