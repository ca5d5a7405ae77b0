//! One client within one swarm.

use vstd::prelude::*;

use crate::tracker::announce::{
    clone_text, Announce, AnnouncePeer, AnnouncePeerView, AnnounceView, SocketV4, SocketV6,
};
use crate::tracker::clock::monotonic_nanos;

verus! {

/// The record the tracker keeps of one client in one swarm. `last_action`
/// is a reading of the monotonic clock, in nanoseconds.
pub struct Peer {
    pub id: String,
    pub uploaded: u64,
    pub downloaded: u64,
    pub left: u64,
    pub last_action: u64,
    pub ipv4: Option<SocketV4>,
    pub ipv6: Option<SocketV6>,
}

/// The mathematical content of a [`Peer`].
pub struct PeerView {
    pub id: Seq<char>,
    pub uploaded: u64,
    pub downloaded: u64,
    pub left: u64,
    pub last_action: u64,
    pub ipv4: Option<SocketV4>,
    pub ipv6: Option<SocketV6>,
}

/// What one announce added to a peer's transfer totals. It is meant for
/// the accounting of a private tracker and never sent to the client.
#[derive(Debug)]
pub struct Delta {
    pub peer_id: String,
    pub upload: u64,
    pub download: u64,
    pub left: u64,
    pub passkey: Option<String>,
}

/// The mathematical content of a [`Delta`].
pub struct DeltaView {
    pub peer_id: Seq<char>,
    pub upload: u64,
    pub download: u64,
    pub left: u64,
    pub passkey: Option<Seq<char>>,
}

impl View for Peer {
    type V = PeerView;

    open spec fn view(&self) -> PeerView {
        PeerView {
            id: self.id@,
            uploaded: self.uploaded,
            downloaded: self.downloaded,
            left: self.left,
            last_action: self.last_action,
            ipv4: self.ipv4,
            ipv6: self.ipv6,
        }
    }
}

impl View for Delta {
    type V = DeltaView;

    open spec fn view(&self) -> DeltaView {
        DeltaView {
            peer_id: self.peer_id@,
            upload: self.upload,
            download: self.download,
            left: self.left,
            passkey: crate::tracker::announce::text_of(self.passkey),
        }
    }
}

/// How far a counter went from `from` to `to`; nothing if it went back.
pub open spec fn gain(from: u64, to: u64) -> u64 {
    if to > from {
        (to - from) as u64
    } else {
        0
    }
}

impl DeltaView {
    /// The delta of an announce that has nothing to be compared with.
    pub open spec fn zero(peer_id: Seq<char>, passkey: Option<Seq<char>>) -> DeltaView {
        DeltaView { peer_id, upload: 0, download: 0, left: 0, passkey }
    }

    /// No transfer at all.
    pub open spec fn is_zero(self) -> bool {
        self.upload == 0 && self.download == 0 && self.left == 0
    }
}

impl PeerView {
    /// The record of a peer first seen in announce `a` at time `now`.
    pub open spec fn created(a: AnnounceView, now: u64) -> PeerView {
        PeerView {
            id: a.peer_id,
            uploaded: a.ul,
            downloaded: a.dl,
            left: a.left,
            last_action: now,
            ipv4: a.ipv4,
            ipv6: a.ipv6,
        }
    }

    /// This record after the peer has sent announce `a` at time `now`: the
    /// id stays, all else is overwritten.
    pub open spec fn updated(self, a: AnnounceView, now: u64) -> PeerView {
        PeerView {
            id: self.id,
            uploaded: a.ul,
            downloaded: a.dl,
            left: a.left,
            last_action: now,
            ipv4: a.ipv4,
            ipv6: a.ipv6,
        }
    }

    /// What announce `a` adds to this record: the growth of the upload and
    /// download totals and the shrinking of what is left, each zero where
    /// the client's numbers went the other way.
    pub open spec fn delta(self, a: AnnounceView) -> DeltaView {
        DeltaView {
            peer_id: self.id,
            upload: gain(self.uploaded, a.ul),
            download: gain(self.downloaded, a.dl),
            left: gain(a.left, self.left),
            passkey: a.passkey,
        }
    }

    /// Whether the peer can be handed out at all.
    pub open spec fn has_address(self) -> bool {
        self.ipv4 is Some || self.ipv6 is Some
    }

    /// The peer as it is handed out to others.
    pub open spec fn announce_peer(self) -> AnnouncePeerView {
        AnnouncePeerView { id: self.id, ipv4: self.ipv4, ipv6: self.ipv6 }
    }
}

/// `to - from`, or zero if that is negative.
pub fn counter_gain(from: u64, to: u64) -> (g: u64)
    ensures
        g == gain(from, to),
{
    if to > from {
        to - from
    } else {
        0
    }
}

impl Peer {
    /// The record of a peer first seen in `a`, stamped with the current
    /// reading of the clock.
    pub fn new(a: &Announce) -> (peer: Peer)
        ensures
            peer@ == PeerView::created(a@, peer.last_action),
    {
        Peer::new_at(a, monotonic_nanos())
    }

    /// The record of a peer first seen in `a` at time `now`.
    pub fn new_at(a: &Announce, now: u64) -> (peer: Peer)
        ensures
            peer@ == PeerView::created(a@, now),
    {
        Peer {
            id: a.peer_id.clone(),
            uploaded: a.ul,
            downloaded: a.dl,
            left: a.left,
            ipv4: a.ipv4,
            ipv6: a.ipv6,
            last_action: now,
        }
    }

    /// Takes over what `a` reports, stamps the record with the current
    /// reading of the clock, and returns what the announce added.
    pub fn update(&mut self, a: &Announce) -> (delta: Delta)
        ensures
            delta@ == old(self)@.delta(a@),
            final(self)@ == old(self)@.updated(a@, final(self).last_action),
    {
        self.update_at(a, monotonic_nanos())
    }

    /// Takes over what `a` reports at time `now` and returns what the
    /// announce added.
    pub fn update_at(&mut self, a: &Announce, now: u64) -> (delta: Delta)
        ensures
            delta@ == old(self)@.delta(a@),
            final(self)@ == old(self)@.updated(a@, now),
    {
        let d = Delta {
            peer_id: self.id.clone(),
            upload: counter_gain(self.uploaded, a.ul),
            download: counter_gain(self.downloaded, a.dl),
            left: counter_gain(a.left, self.left),
            passkey: clone_text(&a.passkey),
        };
        self.uploaded = a.ul;
        self.downloaded = a.dl;
        self.left = a.left;
        self.ipv4 = a.ipv4;
        self.ipv6 = a.ipv6;
        self.last_action = now;
        d
    }

    pub fn get_announce_peer(&self) -> (peer: AnnouncePeer)
        ensures
            peer@ == self@.announce_peer(),
    {
        AnnouncePeer { id: self.id.clone(), ipv4: self.ipv4, ipv6: self.ipv6 }
    }
}

impl Delta {
    /// The delta of an announce that has nothing to be compared with.
    pub fn new(peer_id: String, passkey: Option<String>) -> (delta: Delta)
        ensures
            delta@ == DeltaView::zero(peer_id@, crate::tracker::announce::text_of(passkey)),
    {
        Delta { peer_id: peer_id, upload: 0, download: 0, left: 0, passkey: passkey }
    }
}

} // verus!
