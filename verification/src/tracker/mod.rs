//! Swarms, peers and the registry that holds them.

pub mod announce;
pub mod clock;
pub mod peer;
pub mod scrape;
pub mod stats;
pub mod torrent;

use vstd::prelude::*;

use crate::config::{PrivateConfig, TrackerConfig};
use crate::private::{PrivateTracker, PrivateView};
use crate::response::error::ErrorResponse;
use crate::response::success::{SuccessResponse, SuccessView};
use crate::seqs::{lemma_filter_empty, lemma_filter_indices, lemma_filter_take};
use crate::tracker::announce::{Announce, AnnounceResponse, AnnounceResponseView, AnnounceView};
use crate::tracker::clock::{idle, is_idle, monotonic_nanos};
use crate::tracker::peer::PeerView;
use crate::tracker::scrape::{files, listed, Scrape, ScrapeResponse};
use crate::tracker::stats::{count, counted, Stats, StatsResponse};
use crate::tracker::torrent::{holds, Torrent, TorrentView, MAX_COUNT};

verus! {

/// The contents of a list of swarms.
pub open spec fn swarms(torrents: Seq<Torrent>) -> Seq<TorrentView> {
    torrents.map_values(|t: Torrent| t@)
}

/// Whether the swarm of torrent `hash` is among `torrents`.
pub open spec fn tracks(torrents: Seq<TorrentView>, hash: Seq<char>) -> bool {
    exists|i: int| 0 <= i < torrents.len() && (#[trigger] torrents[i]).hash == hash
}

/// Where the swarm of torrent `hash` stands in `torrents`, if it is there.
pub open spec fn slot(torrents: Seq<TorrentView>, hash: Seq<char>) -> int {
    choose|i: int| 0 <= i < torrents.len() && (#[trigger] torrents[i]).hash == hash
}

/// No info-hash occurs twice in `torrents`.
pub open spec fn distinct_hashes(torrents: Seq<TorrentView>) -> bool {
    forall|i: int, j: int|
        0 <= i < j < torrents.len() ==> (#[trigger] torrents[i]).hash != (
        #[trigger] torrents[j]).hash
}

/// The number of peers in all of `torrents`.
pub open spec fn total_peers(torrents: Seq<TorrentView>) -> nat
    decreases torrents.len(),
{
    if torrents.len() == 0 {
        0
    } else {
        total_peers(torrents.drop_last()) + torrents.last().peer_count()
    }
}

/// The swarms of `torrents` that are not idle at `now` under `limit`.
pub open spec fn live(torrents: Seq<TorrentView>, limit: i64, now: u64) -> Seq<TorrentView> {
    torrents.filter(|t: TorrentView| !idle(now, t.last_action, limit))
}

/// Each swarm of `torrents` without the peers that are idle at `now`
/// under `limit`.
pub open spec fn thinned(torrents: Seq<TorrentView>, limit: i64, now: u64) -> Seq<TorrentView> {
    torrents.map_values(|t: TorrentView| t.reaped(limit, now))
}

/// The mathematical content of a [`Tracker`]: its swarms in the order in
/// which they were created, its counters, the state of its hooks and its
/// settings.
pub struct TrackerView {
    pub torrents: Seq<TorrentView>,
    pub stats: Stats,
    pub private: PrivateView,
    pub config: TrackerConfig,
}

impl TrackerView {
    /// What holds of every tracker: each swarm is well formed, no
    /// info-hash has two swarms, and the counters say how many swarms and
    /// peers there are.
    pub open spec fn wf(self) -> bool {
        &&& forall|i: int| 0 <= i < self.torrents.len() ==> (#[trigger] self.torrents[i]).wf()
        &&& distinct_hashes(self.torrents)
        &&& self.stats.torrents == self.torrents.len()
        &&& self.stats.peers == total_peers(self.torrents)
        &&& self.stats.peers <= MAX_COUNT
    }

    /// The swarm that an announce for torrent `hash` meets at time `now`:
    /// the one the tracker has, or an empty one made for it.
    pub open spec fn swarm(self, hash: Seq<char>, now: u64) -> TorrentView {
        if tracks(self.torrents, hash) {
            self.torrents[slot(self.torrents, hash)]
        } else {
            TorrentView::empty(hash, now)
        }
    }

    /// The swarms after announce `a` at time `now`: the swarm of its
    /// torrent takes the announce where it stands, and a new swarm goes to
    /// the end.
    pub open spec fn torrents_after(self, a: AnnounceView, now: u64) -> Seq<TorrentView> {
        let after = self.swarm(a.info_hash, now).announced(a, now);
        if tracks(self.torrents, a.info_hash) {
            self.torrents.update(slot(self.torrents, a.info_hash), after)
        } else {
            self.torrents.push(after)
        }
    }

    /// The tracker after announce `a` at time `now`: one more announce is
    /// counted, the swarm of its torrent has taken it, the totals follow,
    /// and in private mode the hooks have been handed its delta.
    pub open spec fn announced(self, a: AnnounceView, now: u64) -> TrackerView {
        let torrents = self.torrents_after(a, now);
        TrackerView {
            torrents,
            stats: Stats {
                announces: counted(self.stats.announces),
                torrents: torrents.len() as u64,
                peers: total_peers(torrents) as u64,
                ..self.stats
            },
            private: if self.private.enabled {
                PrivateView {
                    deltas: self.private.deltas.push(
                        self.swarm(a.info_hash, now).delta_for(a),
                    ),
                    ..self.private
                }
            } else {
                self.private
            },
            config: self.config,
        }
    }

    /// The answer to announce `a` at time `now`: the counts of its swarm
    /// and a sample of it, both taken after the announce, with the
    /// encoding asked for and the intervals of the settings.
    pub open spec fn announce_reply(self, a: AnnounceView, now: u64) -> AnnounceResponseView {
        let after = self.swarm(a.info_hash, now).announced(a, now);
        AnnounceResponseView {
            peers: after.sample(a.numwant, a.action),
            stats: after.stats(),
            compact: a.compact,
            interval: self.config.announce_interval,
            min_interval: self.config.min_announce_interval,
        }
    }

    /// The answer to a scrape of `hashes`: for each info-hash that the
    /// tracker has a swarm of, the counts of that swarm, once, in the order
    /// in which the hashes first occur.
    pub open spec fn scraped(self, hashes: Seq<Seq<char>>) -> Seq<(Seq<char>, torrent::Stats)>
        decreases hashes.len(),
    {
        if hashes.len() == 0 {
            Seq::empty()
        } else {
            let before = self.scraped(hashes.drop_last());
            let hash = hashes.last();
            if tracks(self.torrents, hash) && !listed(before, hash) {
                before.push((hash, self.torrents[slot(self.torrents, hash)].stats()))
            } else {
                before
            }
        }
    }

    /// The tracker after a scrape: one more scrape is counted.
    pub open spec fn scrape_counted(self) -> TrackerView {
        TrackerView { stats: Stats { scrapes: counted(self.stats.scrapes), ..self.stats }, ..self }
    }

    /// The swarms after a reap at time `now`: those idle under the torrent
    /// limit are gone, and the others have lost the peers idle under the
    /// peer limit.
    pub open spec fn torrents_reaped(self, now: u64) -> Seq<TorrentView> {
        thinned(
            live(self.torrents, self.config.min_torrent_update_interval, now),
            self.config.min_peer_update_interval,
            now,
        )
    }

    /// The tracker after a reap at time `now`: the swarms are reaped, the
    /// totals are counted anew, and the request counts are cleared.
    pub open spec fn reaped(self, now: u64) -> TrackerView {
        let torrents = self.torrents_reaped(now);
        TrackerView {
            torrents,
            stats: Stats {
                torrents: torrents.len() as u64,
                peers: total_peers(torrents) as u64,
                ..self.stats.cleared(now)
            },
            ..self
        }
    }
}

/// The swarm registry: every swarm, the counters of the whole tracker,
/// the hooks of private mode and the settings.
pub struct Tracker {
    torrents: Vec<Torrent>,
    stats: Stats,
    pub private: PrivateTracker,
    pub config: TrackerConfig,
}

impl View for Tracker {
    type V = TrackerView;

    closed spec fn view(&self) -> TrackerView {
        TrackerView {
            torrents: swarms(self.torrents@),
            stats: self.stats,
            private: self.private@,
            config: self.config,
        }
    }
}

/// A swarm with info-hash `hash` at index `at` of a list without repeated
/// hashes is the one that `slot` finds.
pub proof fn lemma_slot(torrents: Seq<TorrentView>, hash: Seq<char>, at: int)
    requires
        distinct_hashes(torrents),
        0 <= at < torrents.len(),
        torrents[at].hash == hash,
    ensures
        tracks(torrents, hash),
        slot(torrents, hash) == at,
{
    let found = slot(torrents, hash);
    assert(0 <= found < torrents.len() && torrents[found].hash == hash);
    if found < at {
        assert(torrents[found].hash != torrents[at].hash);
    } else if at < found {
        assert(torrents[at].hash != torrents[found].hash);
    }
}

/// The peers of two lists of swarms, one after the other.
pub proof fn lemma_total_add(a: Seq<TorrentView>, b: Seq<TorrentView>)
    ensures
        total_peers(a + b) == total_peers(a) + total_peers(b),
    decreases b.len(),
{
    if b.len() == 0 {
        assert(a + b =~= a);
    } else {
        assert((a + b).drop_last() =~= a + b.drop_last());
        lemma_total_add(a, b.drop_last());
    }
}

/// The peers of a single swarm.
pub proof fn lemma_total_one(t: TorrentView)
    ensures
        total_peers(seq![t]) == t.peer_count(),
{
    assert(seq![t].drop_last() =~= Seq::empty());
    assert(total_peers(seq![t].drop_last()) == 0);
}

/// The total when the swarm at index `at` is replaced.
pub proof fn lemma_total_update(torrents: Seq<TorrentView>, at: int, t: TorrentView)
    requires
        0 <= at < torrents.len(),
    ensures
        total_peers(torrents.update(at, t)) == total_peers(torrents) - torrents[at].peer_count()
            + t.peer_count(),
        torrents[at].peer_count() <= total_peers(torrents),
{
    let head = torrents.take(at);
    let tail = torrents.skip(at + 1);
    assert(torrents =~= head + seq![torrents[at]] + tail);
    assert(torrents.update(at, t) =~= head + seq![t] + tail);
    lemma_total_add(head + seq![torrents[at]], tail);
    lemma_total_add(head, seq![torrents[at]]);
    lemma_total_add(head + seq![t], tail);
    lemma_total_add(head, seq![t]);
    lemma_total_one(torrents[at]);
    lemma_total_one(t);
}

/// The total when a swarm is added at the end.
pub proof fn lemma_total_push(torrents: Seq<TorrentView>, t: TorrentView)
    ensures
        total_peers(torrents.push(t)) == total_peers(torrents) + t.peer_count(),
{
    assert(torrents.push(t).drop_last() =~= torrents);
}

/// The index of the swarm of torrent `hash` in `torrents`, if it is there.
fn find_torrent(torrents: &Vec<Torrent>, hash: &String) -> (found: Option<usize>)
    ensures
        match found {
            Some(at) => at < torrents.len() && swarms(torrents@)[at as int].hash == hash@,
            None => !tracks(swarms(torrents@), hash@),
        },
{
    let mut i: usize = 0;
    while i < torrents.len()
        invariant
            i <= torrents.len(),
            forall|j: int| 0 <= j < i ==> (#[trigger] swarms(torrents@)[j]).hash != hash@,
        decreases torrents.len() - i,
    {
        if *torrents[i].hash() == *hash {
            return Some(i);
        }
        i += 1;
    }
    None
}

/// Dropping swarms does not add peers.
pub proof fn lemma_total_live(torrents: Seq<TorrentView>, limit: i64, now: u64)
    ensures
        total_peers(live(torrents, limit, now)) <= total_peers(torrents),
    decreases torrents.len(),
{
    if torrents.len() == 0 {
        lemma_filter_empty(|t: TorrentView| !idle(now, t.last_action, limit));
        assert(torrents =~= Seq::empty());
    } else {
        let rest = torrents.drop_last();
        lemma_total_live(rest, limit, now);
        assert(torrents =~= rest.push(torrents.last()));
        crate::seqs::lemma_filter_push(
            rest,
            torrents.last(),
            |t: TorrentView| !idle(now, t.last_action, limit),
        );
        lemma_total_push(live(rest, limit, now), torrents.last());
    }
}

/// The swarms that stay are well formed, and no two have one info-hash.
pub proof fn lemma_live_wf(torrents: Seq<TorrentView>, limit: i64, now: u64)
    requires
        forall|i: int| 0 <= i < torrents.len() ==> (#[trigger] torrents[i]).wf(),
        distinct_hashes(torrents),
    ensures
        forall|i: int|
            0 <= i < live(torrents, limit, now).len() ==> (#[trigger] live(
                torrents,
                limit,
                now,
            )[i]).wf(),
        distinct_hashes(live(torrents, limit, now)),
{
    let kept = live(torrents, limit, now);
    let at = lemma_filter_indices(torrents, |t: TorrentView| !idle(now, t.last_action, limit));
    assert forall|i: int| 0 <= i < kept.len() implies (#[trigger] kept[i]).wf() by {
        assert(torrents[at[i]].wf());
    }
    assert forall|i: int, j: int| 0 <= i < j < kept.len() implies (#[trigger] kept[i]).hash != (
    #[trigger] kept[j]).hash by {
        assert(at[i] < at[j]);
        assert(torrents[at[i]].hash != torrents[at[j]].hash);
    }
}

/// The live swarms of a list, one swarm further.
proof fn lemma_live_take(torrents: Seq<TorrentView>, k: int, limit: i64, now: u64)
    requires
        0 <= k < torrents.len(),
    ensures
        live(torrents.take(k + 1), limit, now) == if idle(now, torrents[k].last_action, limit) {
            live(torrents.take(k), limit, now)
        } else {
            live(torrents.take(k), limit, now).push(torrents[k])
        },
{
    lemma_filter_take(torrents, k, |t: TorrentView| !idle(now, t.last_action, limit));
}

/// Takes the swarms that are idle at `now` under `limit` out of `torrents`.
fn drop_idle_torrents(torrents: &mut Vec<Torrent>, limit: i64, now: u64)
    ensures
        swarms(final(torrents)@) == live(swarms(old(torrents)@), limit, now),
{
    let ghost before = swarms(torrents@);
    let ghost mut done: int = 0;
    let mut i: usize = 0;
    proof {
        assert(before.take(0) =~= Seq::empty());
        lemma_filter_empty(|t: TorrentView| !idle(now, t.last_action, limit));
        assert(swarms(torrents@) =~= live(before.take(0), limit, now) + before.skip(0));
    }
    while i < torrents.len()
        invariant
            0 <= done <= before.len(),
            i <= torrents.len(),
            i == live(before.take(done), limit, now).len(),
            torrents.len() - i == before.len() - done,
            swarms(torrents@) == live(before.take(done), limit, now) + before.skip(done),
        decreases torrents.len() - i,
    {
        let ghost current = swarms(torrents@);
        proof {
            lemma_live_take(before, done, limit, now);
            assert(current[i as int] == before.skip(done)[0]);
        }
        if is_idle(now, torrents[i].last_action(), limit) {
            torrents.remove(i);
            assert(swarms(torrents@) =~= current.remove(i as int));
            assert(swarms(torrents@) =~= live(before.take(done + 1), limit, now) + before.skip(
                done + 1,
            ));
        } else {
            i += 1;
            assert(swarms(torrents@) =~= live(before.take(done + 1), limit, now) + before.skip(
                done + 1,
            ));
        }
        proof {
            done = done + 1;
        }
    }
    assert(before.take(done) =~= before);
}

/// Whether `entries` has an entry under `hash`.
fn is_listed(entries: &Vec<(String, torrent::Stats)>, hash: &String) -> (found: bool)
    ensures
        found == listed(files(entries@), hash@),
{
    let mut i: usize = 0;
    while i < entries.len()
        invariant
            i <= entries.len(),
            forall|j: int| 0 <= j < i ==> (#[trigger] files(entries@)[j]).0 != hash@,
        decreases entries.len() - i,
    {
        if entries[i].0 == *hash {
            assert(files(entries@)[i as int].0 == hash@);
            return true;
        }
        i += 1;
    }
    false
}

impl Default for Tracker {
    fn default() -> (tracker: Tracker)
        ensures
            tracker.wf(),
            tracker@ == (TrackerView {
                torrents: Seq::empty(),
                stats: Stats::started(tracker@.stats.start_time),
                private: PrivateView {
                    enabled: false,
                    deltas: Seq::empty(),
                    config: PrivateConfig::standard(),
                },
                config: TrackerConfig::standard(),
            }),
    {
        Tracker::new(
            TrackerConfig::from_values(None, None, None, None, None),
            PrivateConfig::from_values(None, None),
        )
    }
}

impl Tracker {
    /// What holds of every tracker: see [`TrackerView::wf`].
    pub open spec fn wf(&self) -> bool {
        self@.wf()
    }

    /// A public tracker with no swarms, started now.
    pub fn new(config: TrackerConfig, pconfig: PrivateConfig) -> (tracker: Tracker)
        ensures
            tracker.wf(),
            tracker@ == (TrackerView {
                torrents: Seq::empty(),
                stats: Stats::started(tracker@.stats.start_time),
                private: PrivateView { enabled: false, deltas: Seq::empty(), config: pconfig },
                config,
            }),
    {
        Tracker::new_at(config, PrivateTracker::new(pconfig), monotonic_nanos())
    }

    /// A private tracker with no swarms, started now.
    pub fn new_private(config: TrackerConfig, pconfig: PrivateConfig) -> (tracker: Tracker)
        ensures
            tracker.wf(),
            tracker@ == (TrackerView {
                torrents: Seq::empty(),
                stats: Stats::started(tracker@.stats.start_time),
                private: PrivateView { enabled: true, deltas: Seq::empty(), config: pconfig },
                config,
            }),
    {
        Tracker::new_at(config, PrivateTracker::new_enabled(pconfig), monotonic_nanos())
    }

    /// A tracker with no swarms and the hooks `private`, started at time
    /// `now`.
    pub fn new_at(config: TrackerConfig, private: PrivateTracker, now: u64) -> (tracker: Tracker)
        ensures
            tracker.wf(),
            tracker@ == (TrackerView {
                torrents: Seq::empty(),
                stats: Stats::started(now),
                private: private@,
                config,
            }),
    {
        let tracker = Tracker {
            torrents: Vec::new(),
            stats: Stats::new_at(now),
            private: private,
            config: config,
        };
        assert(swarms(tracker.torrents@) =~= Seq::empty());
        tracker
    }

    /// The hooks of private mode.
    pub fn hooks(&self) -> (hooks: &PrivateTracker)
        ensures
            hooks@ == self@.private,
    {
        &self.private
    }

    /// The settings of the tracker.
    pub fn settings(&self) -> (config: &TrackerConfig)
        ensures
            *config == self@.config,
    {
        &self.config
    }

    /// Whether the tracker has room for one more peer, which an announce
    /// may bring.
    pub fn has_room(&self) -> (room: bool)
        ensures
            room == (self@.stats.peers < MAX_COUNT),
    {
        self.stats.peers < MAX_COUNT
    }

    /// The counters of the tracker.
    pub fn stats(&self) -> (stats: &Stats)
        ensures
            *stats == self@.stats,
    {
        &self.stats
    }

    /// How many swarms the tracker has.
    pub fn torrent_count(&self) -> (n: usize)
        ensures
            n == self@.torrents.len(),
    {
        self.torrents.len()
    }

    /// The swarm of torrent `hash`, if the tracker has one.
    pub fn torrent(&self, hash: &String) -> (found: Option<&Torrent>)
        requires
            self.wf(),
        ensures
            match found {
                Some(t) => tracks(self@.torrents, hash@) && t@ == self@.torrents[slot(
                    self@.torrents,
                    hash@,
                )],
                None => !tracks(self@.torrents, hash@),
            },
    {
        match find_torrent(&self.torrents, hash) {
            Some(at) => {
                proof {
                    lemma_slot(self@.torrents, hash@, at as int);
                }
                Some(&self.torrents[at])
            },
            None => None,
        }
    }

    /// Serves an announce that arrives now.
    pub fn handle_announce(&mut self, announce: Announce) -> (result: Result<
        SuccessResponse,
        ErrorResponse,
    >)
        requires
            old(self).wf(),
            old(self)@.stats.peers < MAX_COUNT,
        ensures
            final(self).wf(),
            exists|now: u64|
                {
                    &&& final(self)@ == old(self)@.announced(announce@, now)
                    &&& result matches Ok(resp)
                    &&& resp@ == SuccessView::Announce(old(self)@.announce_reply(announce@, now))
                },
    {
        let now = monotonic_nanos();
        let result = self.handle_announce_at(announce, now);
        assert(self@ == old(self)@.announced(announce@, now));
        result
    }

    /// Serves an announce that arrives at time `now`: the swarm of its
    /// torrent, made on the spot if there is none, takes the announce, and
    /// the client is told the counts of the swarm and given a sample of it.
    pub fn handle_announce_at(&mut self, announce: Announce, now: u64) -> (result: Result<
        SuccessResponse,
        ErrorResponse,
    >)
        requires
            old(self).wf(),
            old(self)@.stats.peers < MAX_COUNT,
        ensures
            final(self).wf(),
            final(self)@ == old(self)@.announced(announce@, now),
            result matches Ok(resp) && resp@ == SuccessView::Announce(
                old(self)@.announce_reply(announce@, now),
            ),
            old(self)@.announce_reply(announce@, now).peers.wf(),
    {
        let ghost before = self@;
        let ghost a = announce@;
        self.stats.announces = count(self.stats.announces);
        let at = match find_torrent(&self.torrents, &announce.info_hash) {
            Some(at) => {
                proof {
                    lemma_slot(before.torrents, a.info_hash, at as int);
                    lemma_total_update(
                        before.torrents,
                        at as int,
                        before.torrents[at as int].announced(a, now),
                    );
                }
                self.stats.peers = self.stats.peers - self.torrents[at].get_peer_count();
                let delta = self.torrents[at].update_at(&announce, now);
                if self.private.is_enabled() {
                    self.private.add_announce(delta);
                }
                self.stats.peers = self.stats.peers + self.torrents[at].get_peer_count();
                assert(swarms(self.torrents@) =~= before.torrents_after(a, now));
                at
            },
            None => {
                let mut t = Torrent::new_at(announce.info_hash.clone(), now);
                let delta = t.update_at(&announce, now);
                if self.private.is_enabled() {
                    self.private.add_announce(delta);
                }
                proof {
                    lemma_total_push(before.torrents, t@);
                }
                self.stats.peers = self.stats.peers + t.get_peer_count();
                self.torrents.push(t);
                self.stats.torrents = self.torrents.len() as u64;
                assert(swarms(self.torrents@) =~= before.torrents_after(a, now));
                self.torrents.len() - 1
            },
        };
        proof {
            let after = swarms(self.torrents@);
            assert forall|i: int, j: int| 0 <= i < j < after.len() implies (#[trigger] after[i]).hash
                != (#[trigger] after[j]).hash by {
                if j < before.torrents.len() {
                    assert(before.torrents[i].hash != before.torrents[j].hash);
                } else {
                    assert(before.torrents[i].hash != a.info_hash);
                }
            }
            assert forall|i: int| 0 <= i < after.len() implies (#[trigger] after[i]).wf() by {
                if i != at {
                    assert(before.torrents[i].wf());
                }
            }
        }
        let torrent = &self.torrents[at];
        let peers = torrent.get_peers(announce.numwant, announce.action);
        let stats = torrent.get_stats();
        Ok(
            SuccessResponse::Announce(
                AnnounceResponse::new(
                    peers,
                    stats,
                    announce.compact,
                    self.config.announce_interval,
                    self.config.min_announce_interval,
                ),
            ),
        )
    }
    /// Serves a scrape: the counts of each swarm asked about that the
    /// tracker has, each once, and one more scrape on the counter.
    pub fn handle_scrape(&mut self, scrape: Scrape) -> (result: Result<
        SuccessResponse,
        ErrorResponse,
    >)
        requires
            old(self).wf(),
        ensures
            final(self).wf(),
            final(self)@ == old(self)@.scrape_counted(),
            result matches Ok(resp) && resp@ == SuccessView::Scrape(old(self)@.scraped(scrape@)),
    {
        let ghost hashes = scrape@;
        let mut found: Vec<(String, torrent::Stats)> = Vec::new();
        let mut i: usize = 0;
        assert(hashes.take(0) =~= Seq::empty());
        assert(files(found@) =~= self@.scraped(hashes.take(0)));
        while i < scrape.torrents.len()
            invariant
                self.wf(),
                self@ == old(self)@,
                hashes == scrape@,
                i <= scrape.torrents.len(),
                files(found@) == self@.scraped(hashes.take(i as int)),
            decreases scrape.torrents.len() - i,
        {
            let hash = &scrape.torrents[i];
            proof {
                assert(hashes.take(i + 1).drop_last() =~= hashes.take(i as int));
                assert(hashes.take(i + 1).last() == hash@);
            }
            match find_torrent(&self.torrents, hash) {
                Some(at) => {
                    proof {
                        lemma_slot(self@.torrents, hash@, at as int);
                    }
                    if !is_listed(&found, hash) {
                        let ghost before = found@;
                        let stats = self.torrents[at].get_stats();
                        found.push((hash.clone(), stats));
                        assert(files(found@) =~= files(before).push((hash@, stats)));
                    }
                },
                None => {},
            }
            i += 1;
        }
        assert(hashes.take(i as int) =~= hashes);
        self.stats.scrapes = count(self.stats.scrapes);
        Ok(SuccessResponse::Scrape(ScrapeResponse { torrents: found }))
    }

    /// What the tracker reports of itself now.
    pub fn get_stats(&self) -> (result: Result<SuccessResponse, ErrorResponse>)
        ensures
            result matches Ok(resp) && exists|now: u64|
                resp@ == SuccessView::Stats(#[trigger] StatsResponse::snapshot(self@.stats, now)),
    {
        let now = monotonic_nanos();
        let result = self.get_stats_at(now);
        assert(result matches Ok(resp) && resp@ == SuccessView::Stats(
            StatsResponse::snapshot(self@.stats, now),
        ));
        result
    }

    /// What the tracker reports of itself at time `now`.
    pub fn get_stats_at(&self, now: u64) -> (result: Result<SuccessResponse, ErrorResponse>)
        ensures
            result matches Ok(resp) && resp@ == SuccessView::Stats(
                StatsResponse::snapshot(self@.stats, now),
            ),
    {
        Ok(SuccessResponse::Stats(StatsResponse::new_at(&self.stats, now)))
    }

    /// Reaps by the current reading of the clock.
    pub fn reap(&mut self)
        requires
            old(self).wf(),
        ensures
            final(self).wf(),
            exists|now: u64| final(self)@ == old(self)@.reaped(now),
    {
        let now = monotonic_nanos();
        self.reap_at(now);
        assert(self@ == old(self)@.reaped(now));
    }

    /// Reaps at time `now`: drops the swarms that have been idle for more
    /// than the torrent limit, drops from the others the peers that have
    /// been idle for more than the peer limit, counts swarms and peers
    /// anew, and clears the request counts.
    pub fn reap_at(&mut self, now: u64)
        requires
            old(self).wf(),
        ensures
            final(self).wf(),
            final(self)@ == old(self)@.reaped(now),
    {
        let ghost before = self@;
        let torrent_limit = self.config.min_torrent_update_interval;
        let peer_limit = self.config.min_peer_update_interval;
        self.stats.update_at(now);
        drop_idle_torrents(&mut self.torrents, torrent_limit, now);
        self.stats.torrents = self.torrents.len() as u64;
        let ghost kept = swarms(self.torrents@);
        proof {
            lemma_total_live(before.torrents, torrent_limit, now);
            lemma_live_wf(before.torrents, torrent_limit, now);
            assert(kept.take(0) =~= Seq::empty());
            assert(thinned(kept.take(0), peer_limit, now) =~= Seq::empty());
            assert(kept.skip(0) =~= kept);
            assert(swarms(self.torrents@) =~= thinned(kept.take(0), peer_limit, now) + kept.skip(
                0,
            ));
        }
        let mut peers: u64 = 0;
        let mut i: usize = 0;
        while i < self.torrents.len()
            invariant
                i <= self.torrents.len(),
                self.torrents.len() == kept.len(),
                self.stats == (Stats { torrents: kept.len() as u64, ..before.stats.cleared(now) }),
                self.private@ == before.private,
                self.config == before.config,
                total_peers(kept) <= MAX_COUNT,
                forall|j: int| 0 <= j < kept.len() ==> (#[trigger] kept[j]).wf(),
                swarms(self.torrents@) == thinned(kept.take(i as int), peer_limit, now) + kept.skip(
                    i as int,
                ),
                peers == total_peers(thinned(kept.take(i as int), peer_limit, now)),
                peers + total_peers(kept.skip(i as int)) <= total_peers(kept),
            decreases self.torrents.len() - i,
        {
            let ghost current = swarms(self.torrents@);
            let ghost reaped = kept[i as int].reaped(peer_limit, now);
            proof {
                assert(current[i as int] == kept.skip(i as int)[0]);
                assert(kept.skip(i as int) =~= seq![kept[i as int]] + kept.skip(i + 1));
                lemma_total_add(seq![kept[i as int]], kept.skip(i + 1));
                lemma_total_one(kept[i as int]);
                assert(kept.take(i + 1) =~= kept.take(i as int).push(kept[i as int]));
                assert(thinned(kept.take(i + 1), peer_limit, now) =~= thinned(
                    kept.take(i as int),
                    peer_limit,
                    now,
                ).push(reaped));
                lemma_total_push(thinned(kept.take(i as int), peer_limit, now), reaped);
                lemma_reaped_count(kept[i as int], peer_limit, now);
            }
            self.torrents[i].reap_at(peer_limit, now);
            peers = peers + self.torrents[i].get_peer_count();
            proof {
                let target = thinned(kept.take(i + 1), peer_limit, now) + kept.skip(i + 1);
                assert forall|j: int| 0 <= j < target.len() implies swarms(self.torrents@)[j]
                    == target[j] by {
                    if j != i {
                        assert(swarms(self.torrents@)[j] == current[j]);
                    }
                }
                assert(swarms(self.torrents@) =~= target);
            }
            i += 1;
        }
        self.stats.peers = peers;
        proof {
            assert(kept.take(i as int) =~= kept);
            assert(kept.skip(i as int) =~= Seq::empty());
            let after = swarms(self.torrents@);
            assert(after =~= before.torrents_reaped(now));
            assert forall|j: int| 0 <= j < after.len() implies (#[trigger] after[j]).wf() by {
                torrent::lemma_reaped_wf(kept[j], peer_limit, now);
            }
            assert forall|j: int, k: int| 0 <= j < k < after.len() implies (#[trigger] after[j]).hash
                != (#[trigger] after[k]).hash by {
                assert(kept[j].hash != kept[k].hash);
            }
        }
    }
}

/// Dropping peers does not add any.
proof fn lemma_reaped_count(t: TorrentView, limit: i64, now: u64)
    ensures
        t.reaped(limit, now).peer_count() <= t.peer_count(),
{
    t.seeders.lemma_filter_len(|p: PeerView| !idle(now, p.last_action, limit));
    t.leechers.lemma_filter_len(|p: PeerView| !idle(now, p.last_action, limit));
}

/// The info-hashes of a list of swarms.
pub open spec fn hashes(torrents: Seq<TorrentView>) -> Seq<Seq<char>> {
    torrents.map_values(|t: TorrentView| t.hash)
}

/// In a well-formed tracker the counter of torrents is the number of
/// distinct info-hashes that it has swarms of.
pub proof fn lemma_torrents_counted(t: TrackerView)
    requires
        t.wf(),
    ensures
        t.stats.torrents == hashes(t.torrents).to_set().len(),
        t.stats.torrents == t.torrents.len(),
{
    let all = hashes(t.torrents);
    assert forall|i: int, j: int| 0 <= i < all.len() && 0 <= j < all.len() && i != j implies all[i]
        != all[j] by {
        if i < j {
            assert(t.torrents[i].hash != t.torrents[j].hash);
        } else {
            assert(t.torrents[j].hash != t.torrents[i].hash);
        }
    }
    all.unique_seq_to_set();
}

/// Dropping peers from each swarm does not add any.
pub proof fn lemma_total_thinned(torrents: Seq<TorrentView>, limit: i64, now: u64)
    ensures
        total_peers(thinned(torrents, limit, now)) <= total_peers(torrents),
    decreases torrents.len(),
{
    if torrents.len() > 0 {
        let rest = torrents.drop_last();
        lemma_total_thinned(rest, limit, now);
        lemma_reaped_count(torrents.last(), limit, now);
        assert(thinned(torrents, limit, now).drop_last() =~= thinned(rest, limit, now));
    }
}

/// A reap leaves a well-formed tracker well formed: afterwards the
/// counter of peers is the number of peers in all swarms, and the counter
/// of torrents the number of swarms. The request counts are cleared.
pub proof fn lemma_reaped(t: TrackerView, now: u64)
    requires
        t.wf(),
    ensures
        t.reaped(now).wf(),
        t.reaped(now).stats.peers == total_peers(t.reaped(now).torrents),
        t.reaped(now).stats.torrents == t.reaped(now).torrents.len(),
        t.reaped(now).stats.peers <= t.stats.peers,
        t.reaped(now).stats.announces == 0 && t.reaped(now).stats.scrapes == 0,
{
    let torrent_limit = t.config.min_torrent_update_interval;
    let peer_limit = t.config.min_peer_update_interval;
    let kept = live(t.torrents, torrent_limit, now);
    let after = t.torrents_reaped(now);
    lemma_total_live(t.torrents, torrent_limit, now);
    lemma_live_wf(t.torrents, torrent_limit, now);
    lemma_total_thinned(kept, peer_limit, now);
    t.torrents.lemma_filter_len(|x: TorrentView| !idle(now, x.last_action, torrent_limit));
    assert forall|j: int| 0 <= j < after.len() implies (#[trigger] after[j]).wf() by {
        torrent::lemma_reaped_wf(kept[j], peer_limit, now);
    }
    assert forall|j: int, k: int| 0 <= j < k < after.len() implies (#[trigger] after[j]).hash != (
    #[trigger] after[k]).hash by {
        assert(kept[j].hash != kept[k].hash);
    }
}

/// An announce leaves a well-formed tracker with room for one more peer
/// and one more swarm well formed, with one more of each at most. The
/// counters of torrents and of peers say what the registry holds
/// afterwards.
pub proof fn lemma_announced(t: TrackerView, a: AnnounceView, now: u64)
    requires
        t.wf(),
        t.stats.peers < MAX_COUNT,
        t.stats.torrents < u64::MAX,
    ensures
        t.announced(a, now).stats.torrents <= t.stats.torrents + 1,
        t.announced(a, now).wf(),
        t.announced(a, now).stats.peers == total_peers(t.announced(a, now).torrents),
        t.announced(a, now).stats.torrents == t.announced(a, now).torrents.len(),
        t.announced(a, now).stats.peers <= t.stats.peers + 1,
        tracks(t.announced(a, now).torrents, a.info_hash),
{
    let before = t.swarm(a.info_hash, now);
    let swarm = before.announced(a, now);
    let after = t.torrents_after(a, now);
    if tracks(t.torrents, a.info_hash) {
        let at = slot(t.torrents, a.info_hash);
        lemma_total_update(t.torrents, at, swarm);
        torrent::lemma_announced(before, a, now);
        assert forall|i: int| 0 <= i < after.len() implies (#[trigger] after[i]).wf() by {
            if i != at {
                assert(t.torrents[i].wf());
            }
        }
        assert forall|i: int, j: int| 0 <= i < j < after.len() implies (#[trigger] after[i]).hash
            != (#[trigger] after[j]).hash by {
            assert(t.torrents[i].hash != t.torrents[j].hash);
        }
        assert(after[at].hash == a.info_hash);
    } else {
        lemma_total_push(t.torrents, swarm);
        torrent::lemma_announced(before, a, now);
        assert forall|i: int| 0 <= i < after.len() implies (#[trigger] after[i]).wf() by {
            if i < t.torrents.len() {
                assert(t.torrents[i].wf());
            }
        }
        assert forall|i: int, j: int| 0 <= i < j < after.len() implies (#[trigger] after[i]).hash
            != (#[trigger] after[j]).hash by {
            if j < t.torrents.len() {
                assert(t.torrents[i].hash != t.torrents[j].hash);
            } else {
                assert(t.torrents[i].hash != a.info_hash);
            }
        }
        assert(after[t.torrents.len() as int].hash == a.info_hash);
    }
}

impl TrackerView {
    /// The tracker after a sequence of announces, each with the time at
    /// which it arrives.
    pub open spec fn announced_all(self, steps: Seq<(AnnounceView, u64)>) -> TrackerView
        decreases steps.len(),
    {
        if steps.len() == 0 {
            self
        } else {
            self.announced_all(steps.drop_last()).announced(steps.last().0, steps.last().1)
        }
    }
}

/// After any sequence of announces that the tracker has room for, it is
/// well formed and has no more peers, and no more swarms, than it had
/// before plus one for each announce.
pub proof fn lemma_announced_all(t: TrackerView, steps: Seq<(AnnounceView, u64)>)
    requires
        t.wf(),
        t.stats.peers + steps.len() <= MAX_COUNT,
        t.stats.torrents + steps.len() <= u64::MAX,
    ensures
        t.announced_all(steps).wf(),
        t.announced_all(steps).stats.peers <= t.stats.peers + steps.len(),
        t.announced_all(steps).stats.torrents <= t.stats.torrents + steps.len(),
    decreases steps.len(),
{
    if steps.len() > 0 {
        lemma_announced_all(t, steps.drop_last());
        lemma_announced(t.announced_all(steps.drop_last()), steps.last().0, steps.last().1);
    }
}

/// After any sequence of announces that the tracker has room for, a reap
/// leaves the counter of peers at the number of peers in all swarms, and
/// the counter of torrents at the number of swarms.
pub proof fn lemma_counts_after_reap(t: TrackerView, steps: Seq<(AnnounceView, u64)>, now: u64)
    requires
        t.wf(),
        t.stats.peers + steps.len() <= MAX_COUNT,
        t.stats.torrents + steps.len() <= u64::MAX,
    ensures
        t.announced_all(steps).reaped(now).stats.peers == total_peers(
            t.announced_all(steps).reaped(now).torrents,
        ),
        t.announced_all(steps).reaped(now).stats.torrents == t.announced_all(steps).reaped(
            now,
        ).torrents.len(),
{
    lemma_announced_all(t, steps);
    lemma_reaped(t.announced_all(steps), now);
}

/// The delta that the hooks of a private tracker are handed for the
/// first announce of a peer in a swarm is zero, and they are handed one
/// delta for each announce.
pub proof fn lemma_first_delta(t: TrackerView, a: AnnounceView, now: u64)
    requires
        t.private.enabled,
    ensures
        t.announced(a, now).private.deltas.len() == t.private.deltas.len() + 1,
        !t.swarm(a.info_hash, now).knows(a.peer_id) ==> t.announced(
            a,
            now,
        ).private.deltas.last().is_zero(),
        !tracks(t.torrents, a.info_hash) ==> t.announced(a, now).private.deltas.last().is_zero(),
{
    torrent::lemma_first_delta(t.swarm(a.info_hash, now), a);
    if !tracks(t.torrents, a.info_hash) {
        let fresh = TorrentView::empty(a.info_hash, now);
        assert(!holds(fresh.seeders, a.peer_id));
        assert(!holds(fresh.leechers, a.peer_id));
    }
}

/// The answer to a scrape has an entry under an info-hash exactly if the
/// request names it and the tracker has a swarm of it; it has no two
/// entries under one info-hash, and each entry holds the counts of the
/// swarm it stands for.
pub proof fn lemma_scraped(t: TrackerView, hashes: Seq<Seq<char>>)
    ensures
        forall|hash: Seq<char>|
            #![trigger listed(t.scraped(hashes), hash)]
            #![trigger hashes.contains(hash)]
            listed(t.scraped(hashes), hash) <==> (hashes.contains(hash) && tracks(
                t.torrents,
                hash,
            )),
        forall|i: int, j: int|
            0 <= i < j < t.scraped(hashes).len() ==> (#[trigger] t.scraped(hashes)[i]).0 != (
            #[trigger] t.scraped(hashes)[j]).0,
        forall|i: int|
            0 <= i < t.scraped(hashes).len() ==> (#[trigger] t.scraped(hashes)[i]).1
                == t.torrents[slot(t.torrents, t.scraped(hashes)[i].0)].stats(),
    decreases hashes.len(),
{
    let answer = t.scraped(hashes);
    if hashes.len() == 0 {
        assert forall|hash: Seq<char>|
            #![trigger listed(answer, hash)]
            #![trigger hashes.contains(hash)]
            listed(answer, hash) <==> (hashes.contains(hash) && tracks(t.torrents, hash)) by {}
    } else {
        let rest = hashes.drop_last();
        let last = hashes.last();
        let before = t.scraped(rest);
        lemma_scraped(t, rest);
        assert forall|hash: Seq<char>|
            #![trigger listed(answer, hash)]
            #![trigger hashes.contains(hash)]
            listed(answer, hash) <==> (hashes.contains(hash) && tracks(t.torrents, hash)) by {
            if listed(answer, hash) {
                let i = choose|i: int| 0 <= i < answer.len() && (#[trigger] answer[i]).0 == hash;
                if i < before.len() {
                    assert(before[i].0 == hash);
                    assert(listed(before, hash));
                    let k = choose|k: int| 0 <= k < rest.len() && rest[k] == hash;
                    assert(hashes[k] == hash);
                } else {
                    assert(hashes[hashes.len() - 1] == hash);
                }
            }
            if hashes.contains(hash) && tracks(t.torrents, hash) {
                let k = choose|k: int| 0 <= k < hashes.len() && hashes[k] == hash;
                if k < rest.len() {
                    assert(rest[k] == hash);
                    assert(rest.contains(hash));
                    let i = choose|i: int|
                        0 <= i < before.len() && (#[trigger] before[i]).0 == hash;
                    assert(answer[i].0 == hash);
                } else if listed(before, hash) {
                    let i = choose|i: int|
                        0 <= i < before.len() && (#[trigger] before[i]).0 == hash;
                    assert(answer[i].0 == hash);
                } else {
                    assert(answer[before.len() as int].0 == hash);
                }
            }
        }
        assert forall|i: int, j: int| 0 <= i < j < answer.len() implies (#[trigger] answer[i]).0 != (
        #[trigger] answer[j]).0 by {
            if j < before.len() {
                assert(before[i].0 != before[j].0);
            } else {
                assert(before[i].0 != last);
            }
        }
        assert forall|i: int| 0 <= i < answer.len() implies (#[trigger] answer[i]).1
            == t.torrents[slot(t.torrents, answer[i].0)].stats() by {
            if i < before.len() {
                assert(before[i].1 == t.torrents[slot(t.torrents, before[i].0)].stats());
            }
        }
    }
}

} // verus!
