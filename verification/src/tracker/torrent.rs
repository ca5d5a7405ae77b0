//! One swarm: the seeders and leechers of one torrent.

use vstd::prelude::*;

use crate::tracker::announce::{
    clone_text, Action, Announce, AnnouncePeer, AnnouncePeerView, AnnounceView,
};
use crate::tracker::clock::{idle, is_idle, monotonic_nanos};
use crate::seqs::{lemma_filter_empty, lemma_filter_indices, lemma_filter_push, lemma_filter_take};
use crate::tracker::peer::{Delta, DeltaView, Peer, PeerView};

verus! {

/// The largest count the tracker keeps: the largest number that a reply
/// can carry.
pub const MAX_COUNT: u64 = 9_223_372_036_854_775_807;

/// The counts of one swarm as a scrape or an announce reports them.
#[derive(Clone, Copy, Debug, PartialEq, Eq, Structural)]
pub struct Stats {
    pub complete: i64,
    pub incomplete: i64,
    pub downloaded: i64,
}

/// The peers handed out in answer to an announce: those that can be
/// reached over IPv4 and those that can be reached over IPv6.
pub struct Peers {
    pub peers4: Vec<AnnouncePeer>,
    pub peers6: Vec<AnnouncePeer>,
}

/// The mathematical content of [`Peers`].
pub struct PeersView {
    pub peers4: Seq<AnnouncePeerView>,
    pub peers6: Seq<AnnouncePeerView>,
}

/// The contents of a list of handed-out peers.
pub open spec fn entries(peers: Seq<AnnouncePeer>) -> Seq<AnnouncePeerView> {
    peers.map_values(|p: AnnouncePeer| p@)
}

impl View for Peers {
    type V = PeersView;

    open spec fn view(&self) -> PeersView {
        PeersView { peers4: entries(self.peers4@), peers6: entries(self.peers6@) }
    }
}

impl PeersView {
    /// Every peer listed under a protocol has an endpoint of that protocol.
    pub open spec fn wf(self) -> bool {
        &&& forall|i: int| 0 <= i < self.peers4.len() ==> (#[trigger] self.peers4[i]).ipv4 is Some
        &&& forall|i: int| 0 <= i < self.peers6.len() ==> (#[trigger] self.peers6[i]).ipv6 is Some
    }
}

impl Peers {
    /// Whether every peer listed under a protocol has an endpoint of that
    /// protocol.
    pub fn is_wf(&self) -> (ok: bool)
        ensures
            ok == self@.wf(),
    {
        let mut i: usize = 0;
        while i < self.peers4.len()
            invariant
                i <= self.peers4.len(),
                forall|k: int| 0 <= k < i ==> (#[trigger] self@.peers4[k]).ipv4 is Some,
            decreases self.peers4.len() - i,
        {
            if self.peers4[i].ipv4.is_none() {
                assert(self@.peers4[i as int].ipv4 is None);
                return false;
            }
            i += 1;
        }
        let mut j: usize = 0;
        while j < self.peers6.len()
            invariant
                j <= self.peers6.len(),
                forall|k: int| 0 <= k < self@.peers4.len() ==> (#[trigger] self@.peers4[k]).ipv4
                    is Some,
                forall|k: int| 0 <= k < j ==> (#[trigger] self@.peers6[k]).ipv6 is Some,
            decreases self.peers6.len() - j,
        {
            if self.peers6[j].ipv6.is_none() {
                assert(self@.peers6[j as int].ipv6 is None);
                return false;
            }
            j += 1;
        }
        true
    }
}

/// The contents of a list of peer records.
pub open spec fn records(peers: Seq<Peer>) -> Seq<PeerView> {
    peers.map_values(|p: Peer| p@)
}

/// Whether a record with id `id` is among `peers`.
pub open spec fn holds(peers: Seq<PeerView>, id: Seq<char>) -> bool {
    exists|i: int| 0 <= i < peers.len() && (#[trigger] peers[i]).id == id
}

/// Where the record with id `id` stands in `peers`, if there is one.
pub open spec fn position(peers: Seq<PeerView>, id: Seq<char>) -> int {
    choose|i: int| 0 <= i < peers.len() && (#[trigger] peers[i]).id == id
}

/// `peers` without the record with id `id`.
pub open spec fn without(peers: Seq<PeerView>, id: Seq<char>) -> Seq<PeerView> {
    if holds(peers, id) {
        peers.remove(position(peers, id))
    } else {
        peers
    }
}

/// No id occurs twice in `peers`.
pub open spec fn distinct_ids(peers: Seq<PeerView>) -> bool {
    forall|i: int, j: int|
        0 <= i < j < peers.len() ==> (#[trigger] peers[i]).id != (#[trigger] peers[j]).id
}

/// No id occurs both in `a` and in `b`.
pub open spec fn disjoint_ids(a: Seq<PeerView>, b: Seq<PeerView>) -> bool {
    forall|i: int, j: int|
        0 <= i < a.len() && 0 <= j < b.len() ==> (#[trigger] a[i]).id != (#[trigger] b[j]).id
}

/// The list that announce `a` puts its peer into, afterwards: a record
/// already there is updated where it stands; one that comes over from
/// `other`, or a new one, goes to the end.
pub open spec fn joined(home: Seq<PeerView>, other: Seq<PeerView>, a: AnnounceView, now: u64) -> Seq<
    PeerView,
> {
    if holds(home, a.peer_id) {
        let at = position(home, a.peer_id);
        home.update(at, home[at].updated(a, now))
    } else if holds(other, a.peer_id) {
        home.push(other[position(other, a.peer_id)].updated(a, now))
    } else {
        home.push(PeerView::created(a, now))
    }
}

/// A counter after one more event; it stays at [`MAX_COUNT`] once there.
pub open spec fn bumped(n: u64) -> u64 {
    if n < MAX_COUNT {
        (n + 1) as u64
    } else {
        n
    }
}

/// The peers of `peers` that have an endpoint, in their order.
pub open spec fn reachable(peers: Seq<PeerView>) -> Seq<PeerView> {
    peers.filter(|p: PeerView| p.has_address())
}

/// The first `n` of `peers`, or all of them if there are fewer.
pub open spec fn first(peers: Seq<PeerView>, n: int) -> Seq<PeerView> {
    if 0 <= n <= peers.len() {
        peers.take(n)
    } else if n < 0 {
        Seq::empty()
    } else {
        peers
    }
}

/// The IPv4 entries of a selection of peers.
pub open spec fn v4_entries(picked: Seq<PeerView>) -> Seq<AnnouncePeerView> {
    picked.filter(|p: PeerView| p.ipv4 is Some).map_values(|p: PeerView| p.announce_peer())
}

/// The IPv6 entries of a selection of peers.
pub open spec fn v6_entries(picked: Seq<PeerView>) -> Seq<AnnouncePeerView> {
    picked.filter(|p: PeerView| p.ipv6 is Some).map_values(|p: PeerView| p.announce_peer())
}

/// The records of `peers` that are not idle at `now` under `limit`, in
/// their order.
pub open spec fn active(peers: Seq<PeerView>, limit: i64, now: u64) -> Seq<PeerView> {
    peers.filter(|p: PeerView| !idle(now, p.last_action, limit))
}

/// The mathematical content of a [`Torrent`]: its two lists of peers in
/// the order in which they are walked, and its counters.
pub struct TorrentView {
    pub hash: Seq<char>,
    pub snatches: u64,
    pub seeders: Seq<PeerView>,
    pub leechers: Seq<PeerView>,
    pub last_action: u64,
}

impl TorrentView {
    /// A swarm that nobody has joined yet.
    pub open spec fn empty(hash: Seq<char>, now: u64) -> TorrentView {
        TorrentView {
            hash,
            snatches: 0,
            seeders: Seq::empty(),
            leechers: Seq::empty(),
            last_action: now,
        }
    }

    /// What holds of every swarm: a peer id stands in at most one place,
    /// and the counts stay within [`MAX_COUNT`].
    pub open spec fn wf(self) -> bool {
        &&& distinct_ids(self.seeders)
        &&& distinct_ids(self.leechers)
        &&& disjoint_ids(self.seeders, self.leechers)
        &&& self.seeders.len() + self.leechers.len() <= MAX_COUNT
        &&& self.snatches <= MAX_COUNT
    }

    pub open spec fn peer_count(self) -> nat {
        self.seeders.len() + self.leechers.len()
    }

    /// Whether the swarm has a record of peer `id`.
    pub open spec fn knows(self, id: Seq<char>) -> bool {
        holds(self.seeders, id) || holds(self.leechers, id)
    }

    /// The record of peer `id`, which the swarm knows.
    pub open spec fn record(self, id: Seq<char>) -> PeerView
        recommends
            self.knows(id),
    {
        if holds(self.seeders, id) {
            self.seeders[position(self.seeders, id)]
        } else {
            self.leechers[position(self.leechers, id)]
        }
    }

    /// What announce `a` adds to the totals of its peer: measured against
    /// the record the swarm has of it, and nothing where it has none.
    pub open spec fn delta_for(self, a: AnnounceView) -> DeltaView {
        if self.knows(a.peer_id) {
            self.record(a.peer_id).delta(a)
        } else {
            DeltaView::zero(a.peer_id, a.passkey)
        }
    }

    /// The swarm after announce `a` at time `now`. A seeding or completed
    /// peer ends up among the seeders and a leeching one among the
    /// leechers, a stopped one in neither; a completed announce counts as
    /// a snatch.
    pub open spec fn announced(self, a: AnnounceView, now: u64) -> TorrentView {
        let id = a.peer_id;
        match a.action {
            Action::Seeding => TorrentView {
                seeders: joined(self.seeders, self.leechers, a, now),
                leechers: without(self.leechers, id),
                last_action: now,
                ..self
            },
            Action::Leeching => TorrentView {
                seeders: without(self.seeders, id),
                leechers: joined(self.leechers, self.seeders, a, now),
                last_action: now,
                ..self
            },
            Action::Completed => TorrentView {
                seeders: joined(self.seeders, self.leechers, a, now),
                leechers: without(self.leechers, id),
                snatches: bumped(self.snatches),
                last_action: now,
                ..self
            },
            Action::Stopped => TorrentView {
                seeders: without(self.seeders, id),
                leechers: without(self.leechers, id),
                last_action: now,
                ..self
            },
        }
    }

    /// The counts that a scrape or an announce reports of this swarm.
    pub open spec fn stats(self) -> Stats {
        Stats {
            complete: self.seeders.len() as i64,
            incomplete: self.leechers.len() as i64,
            downloaded: self.snatches as i64,
        }
    }

    /// The peers picked for a client that wants `amount` of them: none for
    /// one that stops; for a leecher seeders first and then leechers; for
    /// any other leechers only. Peers without an endpoint are passed over.
    pub open spec fn chosen(self, amount: u8, action: Action) -> Seq<PeerView> {
        match action {
            Action::Stopped => Seq::empty(),
            Action::Leeching => {
                let from_seeders = first(reachable(self.seeders), amount as int);
                from_seeders + first(reachable(self.leechers), amount - from_seeders.len())
            },
            _ => first(reachable(self.leechers), amount as int),
        }
    }

    /// What is handed out of the peers picked: each under every protocol
    /// it has an endpoint of.
    pub open spec fn sample(self, amount: u8, action: Action) -> PeersView {
        let picked = self.chosen(amount, action);
        PeersView { peers4: v4_entries(picked), peers6: v6_entries(picked) }
    }

    /// The swarm once the peers that are idle at `now` under `limit` have
    /// been dropped.
    pub open spec fn reaped(self, limit: i64, now: u64) -> TorrentView {
        TorrentView {
            seeders: active(self.seeders, limit, now),
            leechers: active(self.leechers, limit, now),
            ..self
        }
    }
}

/// One swarm. The peers are kept in two lists, seeders and leechers, each
/// in the order in which the peers joined it.
pub struct Torrent {
    hash: String,
    snatches: u64,
    seeders: Vec<Peer>,
    leechers: Vec<Peer>,
    last_action: u64,
}

impl View for Torrent {
    type V = TorrentView;

    closed spec fn view(&self) -> TorrentView {
        TorrentView {
            hash: self.hash@,
            snatches: self.snatches,
            seeders: records(self.seeders@),
            leechers: records(self.leechers@),
            last_action: self.last_action,
        }
    }
}

/// A record with id `id` at index `at` of a list without repeated ids is
/// the one that `position` finds.
pub proof fn lemma_position(peers: Seq<PeerView>, id: Seq<char>, at: int)
    requires
        distinct_ids(peers),
        0 <= at < peers.len(),
        peers[at].id == id,
    ensures
        holds(peers, id),
        position(peers, id) == at,
{
    let found = position(peers, id);
    assert(0 <= found < peers.len() && peers[found].id == id);
    if found < at {
        assert(peers[found].id != peers[at].id);
    } else if at < found {
        assert(peers[at].id != peers[found].id);
    }
}

/// Dropping records keeps ids distinct.
proof fn lemma_filter_distinct(peers: Seq<PeerView>, keep: spec_fn(PeerView) -> bool)
    requires
        distinct_ids(peers),
    ensures
        distinct_ids(peers.filter(keep)),
        peers.filter(keep).len() <= peers.len(),
{
    let at = lemma_filter_indices(peers, keep);
    let kept = peers.filter(keep);
    assert forall|i: int, j: int| 0 <= i < j < kept.len() implies (#[trigger] kept[i]).id != (
    #[trigger] kept[j]).id by {
        assert(at[i] < at[j]);
        assert(peers[at[i]].id != peers[at[j]].id);
    }
    peers.lemma_filter_len(keep);
}

/// Dropping records from two lists keeps them free of common ids.
proof fn lemma_filter_disjoint(
    a: Seq<PeerView>,
    b: Seq<PeerView>,
    keep: spec_fn(PeerView) -> bool,
)
    requires
        disjoint_ids(a, b),
    ensures
        disjoint_ids(a.filter(keep), b.filter(keep)),
{
    let at_a = lemma_filter_indices(a, keep);
    let at_b = lemma_filter_indices(b, keep);
    let kept_a = a.filter(keep);
    let kept_b = b.filter(keep);
    assert forall|i: int, j: int| 0 <= i < kept_a.len() && 0 <= j < kept_b.len() implies (
    #[trigger] kept_a[i]).id != (#[trigger] kept_b[j]).id by {
        assert(a[at_a[i]].id != b[at_b[j]].id);
    }
}

/// The index of the record with id `id` in `peers`, if there is one.
fn find(peers: &Vec<Peer>, id: &String) -> (found: Option<usize>)
    ensures
        match found {
            Some(at) => at < peers.len() && records(peers@)[at as int].id == id@,
            None => !holds(records(peers@), id@),
        },
{
    let mut i: usize = 0;
    while i < peers.len()
        invariant
            i <= peers.len(),
            forall|j: int| 0 <= j < i ==> (#[trigger] records(peers@)[j]).id != id@,
        decreases peers.len() - i,
    {
        if peers[i].id == *id {
            return Some(i);
        }
        i += 1;
    }
    None
}

/// Takes the record with id `id` out of `peers`, if there is one, and
/// returns it with the index it stood at.
fn take_out(peers: &mut Vec<Peer>, id: &String) -> (taken: Option<(usize, Peer)>)
    requires
        distinct_ids(records(old(peers)@)),
    ensures
        records(final(peers)@) == without(records(old(peers)@), id@),
        match taken {
            Some((at, peer)) => {
                &&& holds(records(old(peers)@), id@)
                &&& at == position(records(old(peers)@), id@)
                &&& peer@ == records(old(peers)@)[at as int]
            },
            None => !holds(records(old(peers)@), id@),
        },
{
    match find(peers, id) {
        Some(at) => {
            proof {
                lemma_position(records(peers@), id@, at as int);
            }
            let peer = peers.remove(at);
            assert(records(peers@) =~= records(old(peers)@).remove(at as int));
            Some((at, peer))
        },
        None => None,
    }
}

/// Puts the peer of announce `a` into `home`: updated in place if it is
/// there, moved over if it is in `other`, new if it is in neither.
fn join(home: &mut Vec<Peer>, other: &mut Vec<Peer>, a: &Announce, now: u64) -> (delta: Delta)
    requires
        distinct_ids(records(old(home)@)),
        distinct_ids(records(old(other)@)),
        disjoint_ids(records(old(home)@), records(old(other)@)),
    ensures
        records(final(home)@) == joined(records(old(home)@), records(old(other)@), a@, now),
        records(final(other)@) == without(records(old(other)@), a@.peer_id),
        delta@ == if holds(records(old(home)@), a@.peer_id) {
            records(old(home)@)[position(records(old(home)@), a@.peer_id)].delta(a@)
        } else if holds(records(old(other)@), a@.peer_id) {
            records(old(other)@)[position(records(old(other)@), a@.peer_id)].delta(a@)
        } else {
            DeltaView::zero(a@.peer_id, a@.passkey)
        },
{
    match find(home, &a.peer_id) {
        Some(at) => {
            proof {
                lemma_position(records(home@), a@.peer_id, at as int);
            }
            let delta = home[at].update_at(a, now);
            proof {
                let before = records(old(home)@);
                assert(records(home@) =~= before.update(
                    at as int,
                    before[at as int].updated(a@, now),
                ));
                assert(!holds(records(other@), a@.peer_id)) by {
                    if holds(records(other@), a@.peer_id) {
                        let j = position(records(other@), a@.peer_id);
                        assert(before[at as int].id != records(other@)[j].id);
                    }
                }
            }
            delta
        },
        None => match take_out(other, &a.peer_id) {
            Some((_, mut peer)) => {
                let delta = peer.update_at(a, now);
                home.push(peer);
                proof {
                    let before = records(old(other)@);
                    let at = position(before, a@.peer_id);
                    assert(records(home@) =~= records(old(home)@).push(
                        before[at].updated(a@, now),
                    ));
                }
                delta
            },
            None => {
                home.push(Peer::new_at(a, now));
                assert(records(home@) =~= records(old(home)@).push(PeerView::created(a@, now)));
                Delta::new(a.peer_id.clone(), clone_text(&a.passkey))
            },
        },
    }
}

/// After `join`, ids are still distinct within and across the two lists.
proof fn lemma_joined_wf(home: Seq<PeerView>, other: Seq<PeerView>, a: AnnounceView, now: u64)
    requires
        distinct_ids(home),
        distinct_ids(other),
        disjoint_ids(home, other),
    ensures
        distinct_ids(joined(home, other, a, now)),
        distinct_ids(without(other, a.peer_id)),
        disjoint_ids(joined(home, other, a, now), without(other, a.peer_id)),
        joined(home, other, a, now).len() + without(other, a.peer_id).len() <= home.len()
            + other.len() + 1,
        holds(joined(home, other, a, now), a.peer_id),
{
    let id = a.peer_id;
    let after = joined(home, other, a, now);
    let rest = without(other, id);
    lemma_without(other, id);
    if holds(home, id) {
        let at = position(home, id);
        assert forall|i: int, j: int| 0 <= i < j < after.len() implies (#[trigger] after[i]).id != (
        #[trigger] after[j]).id by {
            assert(home[i].id != home[j].id);
        }
        assert forall|i: int, j: int| 0 <= i < after.len() && 0 <= j < rest.len() implies (
        #[trigger] after[i]).id != (#[trigger] rest[j]).id by {
            assert(home[i].id == after[i].id);
            assert(other.contains(rest[j]));
            let k = choose|k: int| 0 <= k < other.len() && other[k] == rest[j];
            assert(home[i].id != other[k].id);
        }
        assert(after[at].id == id);
    } else {
        assert forall|i: int, j: int| 0 <= i < j < after.len() implies (#[trigger] after[i]).id != (
        #[trigger] after[j]).id by {
            if j < home.len() {
                assert(home[i].id != home[j].id);
            } else {
                assert(after[j].id == id);
                assert(home[i].id != id);
            }
        }
        assert forall|i: int, j: int| 0 <= i < after.len() && 0 <= j < rest.len() implies (
        #[trigger] after[i]).id != (#[trigger] rest[j]).id by {
            assert(other.contains(rest[j]));
            let k = choose|k: int| 0 <= k < other.len() && other[k] == rest[j];
            if i < home.len() {
                assert(home[i].id != other[k].id);
            } else {
                assert(after[i].id == id);
                assert(rest[j].id != id);
            }
        }
        assert(after[home.len() as int].id == id);
    }
}

/// What is left when the record with id `id` is taken out of a list
/// without repeated ids: records of the list, still distinct, none of
/// them with that id.
proof fn lemma_without(peers: Seq<PeerView>, id: Seq<char>)
    requires
        distinct_ids(peers),
    ensures
        distinct_ids(without(peers, id)),
        !holds(without(peers, id), id),
        without(peers, id).len() == if holds(peers, id) {
            peers.len() - 1
        } else {
            peers.len() as int
        },
        forall|j: int|
            0 <= j < without(peers, id).len() ==> peers.contains(#[trigger] without(peers, id)[j]),
        forall|j: int|
            0 <= j < without(peers, id).len() ==> (#[trigger] without(peers, id)[j]).id != id,
{
    let rest = without(peers, id);
    if holds(peers, id) {
        let at = position(peers, id);
        assert forall|j: int| 0 <= j < rest.len() implies peers.contains(#[trigger] rest[j]) by {
            let k = if j < at {
                j
            } else {
                j + 1
            };
            assert(peers[k] == rest[j]);
        }
        assert forall|j: int| 0 <= j < rest.len() implies (#[trigger] rest[j]).id != id by {
            let k = if j < at {
                j
            } else {
                j + 1
            };
            assert(peers[k] == rest[j]);
            if k < at {
                assert(peers[k].id != peers[at].id);
            } else {
                assert(peers[at].id != peers[k].id);
            }
        }
        assert forall|i: int, j: int| 0 <= i < j < rest.len() implies (#[trigger] rest[i]).id != (
        #[trigger] rest[j]).id by {
            let ki = if i < at {
                i
            } else {
                i + 1
            };
            let kj = if j < at {
                j
            } else {
                j + 1
            };
            assert(peers[ki].id != peers[kj].id);
        }
    } else {
        assert forall|j: int| 0 <= j < rest.len() implies peers.contains(#[trigger] rest[j]) by {
            assert(peers[j] == rest[j]);
        }
    }
}

/// The reachable peers of a list that ends in `x`.
proof fn lemma_reachable_take(peers: Seq<PeerView>, k: int)
    requires
        0 <= k < peers.len(),
    ensures
        reachable(peers.take(k + 1)) == if peers[k].has_address() {
            reachable(peers.take(k)).push(peers[k])
        } else {
            reachable(peers.take(k))
        },
{
    lemma_filter_take(peers, k, |p: PeerView| p.has_address());
}

/// The entries of a selection that ends in `x`.
proof fn lemma_entries_push(picked: Seq<PeerView>, x: PeerView)
    ensures
        v4_entries(picked.push(x)) == if x.ipv4 is Some {
            v4_entries(picked).push(x.announce_peer())
        } else {
            v4_entries(picked)
        },
        v6_entries(picked.push(x)) == if x.ipv6 is Some {
            v6_entries(picked).push(x.announce_peer())
        } else {
            v6_entries(picked)
        },
{
    lemma_filter_push(picked, x, |p: PeerView| p.ipv4 is Some);
    lemma_filter_push(picked, x, |p: PeerView| p.ipv6 is Some);
    assert(v4_entries(picked.push(x)) =~= if x.ipv4 is Some {
        v4_entries(picked).push(x.announce_peer())
    } else {
        v4_entries(picked)
    });
    assert(v6_entries(picked.push(x)) =~= if x.ipv6 is Some {
        v6_entries(picked).push(x.announce_peer())
    } else {
        v6_entries(picked)
    });
}

/// The entries of two selections, one after the other.
proof fn lemma_entries_add(a: Seq<PeerView>, b: Seq<PeerView>)
    ensures
        v4_entries(a + b) == v4_entries(a) + v4_entries(b),
        v6_entries(a + b) == v6_entries(a) + v6_entries(b),
{
    Seq::filter_distributes_over_add(a, b, |p: PeerView| p.ipv4 is Some);
    Seq::filter_distributes_over_add(a, b, |p: PeerView| p.ipv6 is Some);
    assert(v4_entries(a + b) =~= v4_entries(a) + v4_entries(b));
    assert(v6_entries(a + b) =~= v6_entries(a) + v6_entries(b));
}

/// Every entry of a selection has the endpoint it is listed under.
pub proof fn lemma_entries_wf(picked: Seq<PeerView>)
    ensures
        (PeersView { peers4: v4_entries(picked), peers6: v6_entries(picked) }).wf(),
{
    let with4 = picked.filter(|p: PeerView| p.ipv4 is Some);
    let with6 = picked.filter(|p: PeerView| p.ipv6 is Some);
    assert forall|i: int| 0 <= i < v4_entries(picked).len() implies (#[trigger] v4_entries(
        picked,
    )[i]).ipv4 is Some by {
        picked.lemma_filter_pred(|p: PeerView| p.ipv4 is Some, i);
        assert(with4[i].ipv4 is Some);
    }
    assert forall|i: int| 0 <= i < v6_entries(picked).len() implies (#[trigger] v6_entries(
        picked,
    )[i]).ipv6 is Some by {
        picked.lemma_filter_pred(|p: PeerView| p.ipv6 is Some, i);
        assert(with6[i].ipv6 is Some);
    }
}

/// The active records of a list that ends in `x`.
proof fn lemma_active_take(peers: Seq<PeerView>, k: int, limit: i64, now: u64)
    requires
        0 <= k < peers.len(),
    ensures
        active(peers.take(k + 1), limit, now) == if idle(now, peers[k].last_action, limit) {
            active(peers.take(k), limit, now)
        } else {
            active(peers.take(k), limit, now).push(peers[k])
        },
{
    lemma_filter_take(peers, k, |p: PeerView| !idle(now, p.last_action, limit));
}

/// Walks `peer_dict` in order and hands out its reachable peers, each
/// under every protocol it has an endpoint of, until `wanted` of them
/// have been picked. Returns how many were.
fn get_peers(
    peers: &mut Vec<AnnouncePeer>,
    peers6: &mut Vec<AnnouncePeer>,
    peer_dict: &Vec<Peer>,
    wanted: u8,
) -> (count: u8)
    ensures
        count == first(reachable(records(peer_dict@)), wanted as int).len(),
        count <= wanted,
        entries(final(peers)@) == entries(old(peers)@) + v4_entries(
            first(reachable(records(peer_dict@)), wanted as int),
        ),
        entries(final(peers6)@) == entries(old(peers6)@) + v6_entries(
            first(reachable(records(peer_dict@)), wanted as int),
        ),
{
    let ghost all = records(peer_dict@);
    let mut count: u8 = 0;
    let mut i: usize = 0;
    assert(all.take(0) =~= Seq::empty());
    assert(reachable(all.take(0)) =~= Seq::empty()) by {
        reveal(Seq::filter);
    }
    assert(v4_entries(Seq::empty()) =~= Seq::empty() && v6_entries(Seq::empty()) =~= Seq::empty())
        by {
        reveal(Seq::filter);
    }
    assert(entries(peers@) =~= entries(old(peers)@) + v4_entries(reachable(all.take(0))));
    assert(entries(peers6@) =~= entries(old(peers6)@) + v6_entries(reachable(all.take(0))));
    while i < peer_dict.len() && count < wanted
        invariant
            all == records(peer_dict@),
            i <= peer_dict.len(),
            count <= wanted,
            count == reachable(all.take(i as int)).len(),
            entries(peers@) == entries(old(peers)@) + v4_entries(reachable(all.take(i as int))),
            entries(peers6@) == entries(old(peers6)@) + v6_entries(reachable(all.take(i as int))),
        decreases peer_dict.len() - i,
    {
        let peer = &peer_dict[i];
        let ghost picked = reachable(all.take(i as int));
        proof {
            lemma_reachable_take(all, i as int);
            lemma_entries_push(picked, all[i as int]);
        }
        assert(all[i as int] == peer@);
        if peer.ipv4.is_some() {
            let ghost listed = peers@;
            peers.push(peer.get_announce_peer());
            assert(entries(peers@) =~= entries(listed).push(peer@.announce_peer()));
        }
        if peer.ipv6.is_some() {
            let ghost listed = peers6@;
            peers6.push(peer.get_announce_peer());
            assert(entries(peers6@) =~= entries(listed).push(peer@.announce_peer()));
        }
        if peer.ipv4.is_some() || peer.ipv6.is_some() {
            count += 1;
        }
        i += 1;
    }
    proof {
        let seen = all.take(i as int);
        if i == peer_dict.len() {
            assert(seen =~= all);
            assert(reachable(all).take(reachable(all).len() as int) =~= reachable(all));
        } else {
            assert(all =~= seen + all.skip(i as int));
            Seq::filter_distributes_over_add(
                seen,
                all.skip(i as int),
                |p: PeerView| p.has_address(),
            );
            assert(reachable(all).take(wanted as int) =~= reachable(seen));
        }
        assert(first(reachable(all), wanted as int) == reachable(seen));
    }
    count
}

/// Takes the records that are idle at `now` under `limit` out of `peers`.
fn drop_idle(peers: &mut Vec<Peer>, limit: i64, now: u64)
    ensures
        records(final(peers)@) == active(records(old(peers)@), limit, now),
{
    let ghost before = records(peers@);
    let ghost mut done: int = 0;
    let mut i: usize = 0;
    assert(before.take(0) =~= Seq::empty());
    assert(active(before.take(0), limit, now) =~= Seq::empty()) by {
        reveal(Seq::filter);
    }
    assert(records(peers@) =~= active(before.take(0), limit, now) + before.skip(0));
    while i < peers.len()
        invariant
            0 <= done <= before.len(),
            i <= peers.len(),
            i == active(before.take(done), limit, now).len(),
            peers.len() - i == before.len() - done,
            records(peers@) == active(before.take(done), limit, now) + before.skip(done),
        decreases peers.len() - i,
    {
        let ghost current = records(peers@);
        proof {
            lemma_active_take(before, done, limit, now);
            assert(current[i as int] == before.skip(done)[0]);
        }
        if is_idle(now, peers[i].last_action, limit) {
            peers.remove(i);
            assert(records(peers@) =~= current.remove(i as int));
            assert(records(peers@) =~= active(before.take(done + 1), limit, now) + before.skip(
                done + 1,
            ));
        } else {
            i += 1;
            assert(records(peers@) =~= active(before.take(done + 1), limit, now) + before.skip(
                done + 1,
            ));
        }
        proof {
            done = done + 1;
        }
    }
    assert(before.take(done) =~= before);
}

impl Torrent {
    /// What holds of every swarm: see [`TorrentView::wf`].
    pub open spec fn wf(&self) -> bool {
        self@.wf()
    }

    /// An empty swarm for the torrent `hash`, stamped with the current
    /// reading of the clock.
    pub fn new(hash: String) -> (torrent: Torrent)
        ensures
            torrent.wf(),
            torrent@ == TorrentView::empty(hash@, torrent@.last_action),
    {
        Torrent::new_at(hash, monotonic_nanos())
    }

    /// An empty swarm for the torrent `hash`, created at time `now`.
    pub fn new_at(hash: String, now: u64) -> (torrent: Torrent)
        ensures
            torrent.wf(),
            torrent@ == TorrentView::empty(hash@, now),
    {
        let torrent = Torrent {
            hash: hash,
            snatches: 0,
            seeders: Vec::new(),
            leechers: Vec::new(),
            last_action: now,
        };
        assert(records(torrent.seeders@) =~= Seq::empty());
        assert(records(torrent.leechers@) =~= Seq::empty());
        torrent
    }

    /// When the swarm last took an announce: a reading of the clock.
    pub fn last_action(&self) -> (last: u64)
        ensures
            last == self@.last_action,
    {
        self.last_action
    }

    /// The info-hash of the torrent.
    pub fn hash(&self) -> (hash: &String)
        ensures
            hash@ == self@.hash,
    {
        &self.hash
    }

    /// Applies announce `a`, stamped with the current reading of the
    /// clock, and returns what it added to the totals of its peer.
    pub fn update(&mut self, a: &Announce) -> (delta: Delta)
        requires
            old(self).wf(),
            old(self)@.peer_count() < MAX_COUNT,
        ensures
            final(self).wf(),
            final(self)@ == old(self)@.announced(a@, final(self)@.last_action),
            delta@ == old(self)@.delta_for(a@),
    {
        self.update_at(a, monotonic_nanos())
    }

    /// Applies announce `a` at time `now` and returns what it added to the
    /// totals of its peer.
    pub fn update_at(&mut self, a: &Announce, now: u64) -> (delta: Delta)
        requires
            old(self).wf(),
            old(self)@.peer_count() < MAX_COUNT,
        ensures
            final(self).wf(),
            final(self)@ == old(self)@.announced(a@, now),
            delta@ == old(self)@.delta_for(a@),
    {
        self.last_action = now;
        proof {
            lemma_joined_wf(old(self)@.seeders, old(self)@.leechers, a@, now);
            lemma_joined_wf(old(self)@.leechers, old(self)@.seeders, a@, now);
            lemma_without(old(self)@.seeders, a@.peer_id);
            lemma_without(old(self)@.leechers, a@.peer_id);
        }
        match a.action {
            Action::Seeding => join(&mut self.seeders, &mut self.leechers, a, now),
            Action::Leeching => {
                let delta = join(&mut self.leechers, &mut self.seeders, a, now);
                proof {
                    lemma_disjoint_swap(self@.leechers, self@.seeders);
                    lemma_one_place(old(self)@, a@.peer_id);
                }
                delta
            },
            Action::Completed => {
                let delta = join(&mut self.seeders, &mut self.leechers, a, now);
                if self.snatches < MAX_COUNT {
                    self.snatches += 1;
                }
                delta
            },
            Action::Stopped => {
                let seeder = take_out(&mut self.seeders, &a.peer_id);
                let leecher = take_out(&mut self.leechers, &a.peer_id);
                proof {
                    lemma_without_disjoint(old(self)@.seeders, old(self)@.leechers, a@.peer_id);
                    lemma_one_place(old(self)@, a@.peer_id);
                }
                match (leecher, seeder) {
                    (Some((_, mut peer)), _) => peer.update_at(a, now),
                    (_, Some((_, mut peer))) => peer.update_at(a, now),
                    (None, None) => Delta::new(a.peer_id.clone(), clone_text(&a.passkey)),
                }
            },
        }
    }

    pub fn get_stats(&self) -> (stats: Stats)
        requires
            self.wf(),
        ensures
            stats == self@.stats(),
            stats.complete == self@.seeders.len(),
            stats.incomplete == self@.leechers.len(),
            stats.downloaded == self@.snatches,
    {
        Stats {
            complete: self.seeders.len() as i64,
            incomplete: self.leechers.len() as i64,
            downloaded: self.snatches as i64,
        }
    }

    /// The peers to hand out to a client that wants `amount` of them and
    /// announced `action`.
    pub fn get_peers(&self, amount: u8, action: Action) -> (peers: Peers)
        ensures
            peers@ == self@.sample(amount, action),
            peers@.wf(),
    {
        let mut peers: Vec<AnnouncePeer> = Vec::with_capacity(amount as usize);
        let mut peers6: Vec<AnnouncePeer> = Vec::with_capacity(amount as usize);
        proof {
            lemma_entries_wf(self@.chosen(amount, action));
            assert(v4_entries(Seq::empty()) =~= Seq::empty() && v6_entries(Seq::empty())
                =~= Seq::empty()) by {
                reveal(Seq::filter);
            }
            assert(entries(peers@) =~= Seq::empty() && entries(peers6@) =~= Seq::empty());
        }
        match action {
            Action::Leeching => {
                let count = get_peers(&mut peers, &mut peers6, &self.seeders, amount);
                if count != amount {
                    get_peers(&mut peers, &mut peers6, &self.leechers, amount - count);
                }
                proof {
                    let from_seeders = first(reachable(self@.seeders), amount as int);
                    let from_leechers = first(
                        reachable(self@.leechers),
                        amount - from_seeders.len(),
                    );
                    lemma_entries_add(from_seeders, from_leechers);
                    if count == amount {
                        assert(from_leechers =~= Seq::empty());
                    }
                    assert(entries(peers@) =~= v4_entries(from_seeders + from_leechers));
                    assert(entries(peers6@) =~= v6_entries(from_seeders + from_leechers));
                }
            },
            Action::Stopped => {},
            _ => {
                let _count = get_peers(&mut peers, &mut peers6, &self.leechers, amount);
                assert(entries(peers@) =~= v4_entries(self@.chosen(amount, action)));
                assert(entries(peers6@) =~= v6_entries(self@.chosen(amount, action)));
            },
        }
        Peers { peers4: peers, peers6: peers6 }
    }

    /// Drops the peers that, by the current reading of the clock, have
    /// been idle for more than `limit` seconds.
    pub fn reap(&mut self, limit: i64)
        requires
            old(self).wf(),
        ensures
            final(self).wf(),
            exists|now: u64| final(self)@ == old(self)@.reaped(limit, now),
    {
        let now = monotonic_nanos();
        self.reap_at(limit, now);
        assert(self@ == old(self)@.reaped(limit, now));
    }

    /// Drops the peers that, at time `now`, have been idle for more than
    /// `limit` seconds.
    pub fn reap_at(&mut self, limit: i64, now: u64)
        requires
            old(self).wf(),
        ensures
            final(self).wf(),
            final(self)@ == old(self)@.reaped(limit, now),
    {
        proof {
            lemma_reaped_wf(self@, limit, now);
        }
        drop_idle(&mut self.leechers, limit, now);
        drop_idle(&mut self.seeders, limit, now);
    }

    pub fn get_peer_count(&self) -> (count: u64)
        requires
            self.wf(),
        ensures
            count == self@.peer_count(),
    {
        self.seeders.len() as u64 + self.leechers.len() as u64
    }
}

/// A swarm is still well formed when idle peers have been dropped.
pub proof fn lemma_reaped_wf(t: TorrentView, limit: i64, now: u64)
    requires
        t.wf(),
    ensures
        t.reaped(limit, now).wf(),
{
    let keep = |p: PeerView| !idle(now, p.last_action, limit);
    lemma_filter_distinct(t.seeders, keep);
    lemma_filter_distinct(t.leechers, keep);
    lemma_filter_disjoint(t.seeders, t.leechers, keep);
}

/// Being free of common ids does not depend on the order of the lists.
proof fn lemma_disjoint_swap(a: Seq<PeerView>, b: Seq<PeerView>)
    requires
        disjoint_ids(a, b),
    ensures
        disjoint_ids(b, a),
{
    assert forall|i: int, j: int| 0 <= i < b.len() && 0 <= j < a.len() implies (#[trigger] b[i]).id
        != (#[trigger] a[j]).id by {
        assert(a[j].id != b[i].id);
    }
}

/// Taking one id out of both lists leaves them distinct and free of
/// common ids.
proof fn lemma_without_disjoint(a: Seq<PeerView>, b: Seq<PeerView>, id: Seq<char>)
    requires
        distinct_ids(a),
        distinct_ids(b),
        disjoint_ids(a, b),
    ensures
        disjoint_ids(without(a, id), without(b, id)),
{
    lemma_without(a, id);
    lemma_without(b, id);
    let rest_a = without(a, id);
    let rest_b = without(b, id);
    assert forall|i: int, j: int| 0 <= i < rest_a.len() && 0 <= j < rest_b.len() implies (
    #[trigger] rest_a[i]).id != (#[trigger] rest_b[j]).id by {
        assert(a.contains(rest_a[i]));
        assert(b.contains(rest_b[j]));
        let ka = choose|k: int| 0 <= k < a.len() && a[k] == rest_a[i];
        let kb = choose|k: int| 0 <= k < b.len() && b[k] == rest_b[j];
        assert(a[ka].id != b[kb].id);
    }
}

/// In a well-formed swarm no peer is at once a seeder and a leecher, and
/// none stands twice in either list.
pub proof fn lemma_one_place(t: TorrentView, id: Seq<char>)
    requires
        t.wf(),
    ensures
        !(holds(t.seeders, id) && holds(t.leechers, id)),
        forall|i: int, j: int|
            0 <= i < t.seeders.len() && 0 <= j < t.seeders.len() && t.seeders[i].id == id
                && t.seeders[j].id == id ==> i == j,
        forall|i: int, j: int|
            0 <= i < t.leechers.len() && 0 <= j < t.leechers.len() && t.leechers[i].id == id
                && t.leechers[j].id == id ==> i == j,
{
    if holds(t.seeders, id) && holds(t.leechers, id) {
        let i = position(t.seeders, id);
        let j = position(t.leechers, id);
        assert(t.seeders[i].id != t.leechers[j].id);
    }
    assert forall|i: int, j: int|
        0 <= i < t.seeders.len() && 0 <= j < t.seeders.len() && t.seeders[i].id == id
            && t.seeders[j].id == id implies i == j by {
        if i < j {
            assert(t.seeders[i].id != t.seeders[j].id);
        } else if j < i {
            assert(t.seeders[j].id != t.seeders[i].id);
        }
    }
    assert forall|i: int, j: int|
        0 <= i < t.leechers.len() && 0 <= j < t.leechers.len() && t.leechers[i].id == id
            && t.leechers[j].id == id implies i == j by {
        if i < j {
            assert(t.leechers[i].id != t.leechers[j].id);
        } else if j < i {
            assert(t.leechers[j].id != t.leechers[i].id);
        }
    }
}

/// An announce leaves a well-formed swarm with room for one more peer
/// well formed. Afterwards the announcing peer is a seeder if it seeds or
/// has completed, a leecher if it leeches, and gone if it has stopped;
/// and the swarm has at most one peer more than before.
pub proof fn lemma_announced(t: TorrentView, a: AnnounceView, now: u64)
    requires
        t.wf(),
        t.peer_count() < MAX_COUNT,
    ensures
        t.announced(a, now).wf(),
        holds(t.announced(a, now).seeders, a.peer_id) <==> (a.action == Action::Seeding
            || a.action == Action::Completed),
        holds(t.announced(a, now).leechers, a.peer_id) <==> a.action == Action::Leeching,
        t.announced(a, now).peer_count() <= t.peer_count() + 1,
        t.announced(a, now).hash == t.hash,
{
    let id = a.peer_id;
    lemma_joined_wf(t.seeders, t.leechers, a, now);
    lemma_disjoint_swap(t.seeders, t.leechers);
    lemma_joined_wf(t.leechers, t.seeders, a, now);
    lemma_without(t.seeders, id);
    lemma_without(t.leechers, id);
    lemma_without_disjoint(t.seeders, t.leechers, id);
    match a.action {
        Action::Leeching => {
            lemma_disjoint_swap(
                joined(t.leechers, t.seeders, a, now),
                without(t.seeders, id),
            );
        },
        _ => {},
    }
}

/// The first announce of a peer in a swarm adds nothing to its totals:
/// there is nothing to measure it against. No delta is ever negative.
pub proof fn lemma_first_delta(t: TorrentView, a: AnnounceView)
    ensures
        !t.knows(a.peer_id) ==> t.delta_for(a).is_zero(),
        t.delta_for(a).upload >= 0 && t.delta_for(a).download >= 0 && t.delta_for(a).left >= 0,
        t.delta_for(a).upload <= a.ul,
        t.delta_for(a).download <= a.dl,
{
}

/// The peers that have both an IPv4 and an IPv6 endpoint.
pub open spec fn dual_stack(picked: Seq<PeerView>) -> Seq<PeerView> {
    picked.filter(|p: PeerView| p.ipv4 is Some && p.ipv6 is Some)
}

/// Of a selection of reachable peers, each is handed out under one
/// protocol or under both: the two lists together are as long as the
/// selection and its dual-stack peers.
pub proof fn lemma_entries_len(picked: Seq<PeerView>)
    requires
        forall|i: int| 0 <= i < picked.len() ==> (#[trigger] picked[i]).has_address(),
    ensures
        v4_entries(picked).len() + v6_entries(picked).len() == picked.len() + dual_stack(
            picked,
        ).len(),
        v4_entries(picked).len() <= picked.len(),
        v6_entries(picked).len() <= picked.len(),
    decreases picked.len(),
{
    if picked.len() == 0 {
        lemma_filter_empty(|p: PeerView| p.ipv4 is Some);
        lemma_filter_empty(|p: PeerView| p.ipv6 is Some);
        lemma_filter_empty(|p: PeerView| p.ipv4 is Some && p.ipv6 is Some);
        assert(picked =~= Seq::empty());
    } else {
        let rest = picked.drop_last();
        let x = picked.last();
        assert(picked =~= rest.push(x));
        assert forall|i: int| 0 <= i < rest.len() implies (#[trigger] rest[i]).has_address() by {
            assert(rest[i] == picked[i]);
        }
        lemma_entries_len(rest);
        lemma_entries_push(rest, x);
        lemma_filter_push(rest, x, |p: PeerView| p.ipv4 is Some && p.ipv6 is Some);
        assert(x.has_address());
    }
}

/// What a client is given. One that wants nothing is given nothing. No
/// more peers are picked than it wants, none of them twice, and all of
/// them reachable; each is listed once under every protocol it has an
/// endpoint of, so that the two lists together exceed what is wanted
/// only by the dual-stack peers among those picked.
pub proof fn lemma_sample(t: TorrentView, amount: u8, action: Action)
    requires
        t.wf(),
    ensures
        t.chosen(amount, action).len() <= amount,
        distinct_ids(t.chosen(amount, action)),
        t.sample(amount, action).wf(),
        t.sample(amount, action).peers4.len() + t.sample(amount, action).peers6.len()
            == t.chosen(amount, action).len() + dual_stack(t.chosen(amount, action)).len(),
        t.sample(amount, action).peers4.len() <= t.chosen(amount, action).len(),
        t.sample(amount, action).peers6.len() <= t.chosen(amount, action).len(),
        amount == 0 ==> t.sample(amount, action).peers4.len() == 0 && t.sample(
            amount,
            action,
        ).peers6.len() == 0,
        action == Action::Stopped ==> t.sample(amount, action).peers4.len() == 0 && t.sample(
            amount,
            action,
        ).peers6.len() == 0,
{
    let picked = t.chosen(amount, action);
    let reach = |p: PeerView| p.has_address();
    let seeders = reachable(t.seeders);
    let leechers = reachable(t.leechers);
    lemma_filter_distinct(t.seeders, reach);
    lemma_filter_distinct(t.leechers, reach);
    lemma_filter_disjoint(t.seeders, t.leechers, reach);
    assert forall|i: int| 0 <= i < seeders.len() implies (#[trigger] seeders[i]).has_address() by {
        t.seeders.lemma_filter_pred(reach, i);
    }
    assert forall|i: int| 0 <= i < leechers.len() implies (#[trigger] leechers[i]).has_address() by {
        t.leechers.lemma_filter_pred(reach, i);
    }
    assert(distinct_ids(picked)) by {
        assert forall|i: int, j: int| 0 <= i < j < picked.len() implies (#[trigger] picked[i]).id
            != (#[trigger] picked[j]).id by {
            match action {
                Action::Stopped => {},
                Action::Leeching => {
                    let from_seeders = first(seeders, amount as int);
                    if j < from_seeders.len() {
                        assert(seeders[i].id != seeders[j].id);
                    } else if i < from_seeders.len() {
                        assert(seeders[i].id != leechers[j - from_seeders.len()].id);
                    } else {
                        assert(leechers[i - from_seeders.len()].id != leechers[j
                            - from_seeders.len()].id);
                    }
                },
                _ => {
                    assert(leechers[i].id != leechers[j].id);
                },
            }
        }
    }
    assert forall|i: int| 0 <= i < picked.len() implies (#[trigger] picked[i]).has_address() by {
        match action {
            Action::Stopped => {},
            Action::Leeching => {
                let from_seeders = first(seeders, amount as int);
                if i < from_seeders.len() {
                    assert(picked[i] == seeders[i]);
                } else {
                    assert(picked[i] == leechers[i - from_seeders.len()]);
                }
            },
            _ => {
                assert(picked[i] == leechers[i]);
            },
        }
    }
    lemma_entries_len(picked);
    lemma_entries_wf(picked);
}

} // verus!
