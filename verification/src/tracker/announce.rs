//! What a client reports when it announces itself, and what it gets back.

use vstd::prelude::*;

use crate::response::text::{colon_hex, colon_hex_string, dotted, dotted_string};
use crate::tracker::torrent::{Peers, PeersView, Stats};

verus! {

/// An IPv4 endpoint: the four octets of the address, most significant
/// first, and the port.
#[derive(Clone, Copy, Debug, PartialEq, Eq)]
pub struct SocketV4 {
    pub ip: [u8; 4],
    pub port: u16,
}

/// An IPv6 endpoint: the eight 16-bit segments of the address, most
/// significant first, and the port.
#[derive(Clone, Copy, Debug, PartialEq, Eq)]
pub struct SocketV6 {
    pub ip: [u16; 8],
    pub port: u16,
}

/// What an announce asks the tracker to do with the announcing peer.
#[derive(Clone, Copy, Debug, PartialEq, Eq, Structural)]
pub enum Action {
    Seeding,
    Leeching,
    Completed,
    Stopped,
}

/// One announce, as the request layer hands it to the tracker.
pub struct Announce {
    pub info_hash: String,
    pub peer_id: String,
    pub passkey: Option<String>,
    pub ipv4: Option<SocketV4>,
    pub ipv6: Option<SocketV6>,
    pub ul: u64,
    pub dl: u64,
    pub left: u64,
    pub action: Action,
    pub numwant: u8,
    pub compact: bool,
}

/// The mathematical content of an [`Announce`].
pub struct AnnounceView {
    pub info_hash: Seq<char>,
    pub peer_id: Seq<char>,
    pub passkey: Option<Seq<char>>,
    pub ipv4: Option<SocketV4>,
    pub ipv6: Option<SocketV6>,
    pub ul: u64,
    pub dl: u64,
    pub left: u64,
    pub action: Action,
    pub numwant: u8,
    pub compact: bool,
}

/// The characters of an optional string.
pub open spec fn text_of(s: Option<String>) -> Option<Seq<char>> {
    match s {
        Some(s) => Some(s@),
        None => None,
    }
}

impl View for Announce {
    type V = AnnounceView;

    open spec fn view(&self) -> AnnounceView {
        AnnounceView {
            info_hash: self.info_hash@,
            peer_id: self.peer_id@,
            passkey: text_of(self.passkey),
            ipv4: self.ipv4,
            ipv6: self.ipv6,
            ul: self.ul,
            dl: self.dl,
            left: self.left,
            action: self.action,
            numwant: self.numwant,
            compact: self.compact,
        }
    }
}

/// A copy of an optional string.
pub fn clone_text(s: &Option<String>) -> (copy: Option<String>)
    ensures
        text_of(copy) == text_of(*s),
{
    match s {
        Some(text) => Some(text.clone()),
        None => None,
    }
}

/// The two bytes of a 16-bit number, most significant first.
pub open spec fn be_bytes(i: u16) -> Seq<u8> {
    seq![(i / 256) as u8, (i % 256) as u8]
}

/// Splits a 16-bit number into its two bytes, most significant first.
pub fn u16_to_u8(i: u16) -> (bytes: Vec<u8>)
    ensures
        bytes@ == be_bytes(i),
{
    let high: u8 = (i >> 8) as u8;
    let low: u8 = (i & 0xff) as u8;
    assert(i >> 8 == i / 256) by (bit_vector);
    assert(i & 0xff == i % 256) by (bit_vector);
    let mut bytes: Vec<u8> = Vec::with_capacity(2);
    bytes.push(high);
    bytes.push(low);
    bytes
}

/// The compact form of an IPv4 endpoint: address, then port, six bytes in
/// network order.
pub open spec fn compact_v4(sock: SocketV4) -> Seq<u8> {
    sock.ip@ + be_bytes(sock.port)
}

/// The address part of a compact IPv6 endpoint: each segment as two bytes.
pub open spec fn segment_bytes(segments: Seq<u16>) -> Seq<u8> {
    Seq::new(2 * segments.len(), |i: int| be_bytes(segments[i / 2])[i % 2])
}

/// The compact form of an IPv6 endpoint: address, then port, eighteen
/// bytes in network order.
pub open spec fn compact_v6(sock: SocketV6) -> Seq<u8> {
    segment_bytes(sock.ip@) + be_bytes(sock.port)
}

/// A peer as it is handed out to other peers: its id and where to reach it.
pub struct AnnouncePeer {
    pub id: String,
    pub ipv4: Option<SocketV4>,
    pub ipv6: Option<SocketV6>,
}

/// The mathematical content of an [`AnnouncePeer`].
pub struct AnnouncePeerView {
    pub id: Seq<char>,
    pub ipv4: Option<SocketV4>,
    pub ipv6: Option<SocketV6>,
}

impl View for AnnouncePeer {
    type V = AnnouncePeerView;

    open spec fn view(&self) -> AnnouncePeerView {
        AnnouncePeerView { id: self.id@, ipv4: self.ipv4, ipv6: self.ipv6 }
    }
}

impl AnnouncePeerView {
    /// The compact IPv4 record of this peer, if it has an IPv4 endpoint.
    pub open spec fn ipv4_bytes(self) -> Option<Seq<u8>> {
        match self.ipv4 {
            Some(sock) => Some(compact_v4(sock)),
            None => None,
        }
    }

    /// The compact IPv6 record of this peer, if it has an IPv6 endpoint.
    pub open spec fn ipv6_bytes(self) -> Option<Seq<u8>> {
        match self.ipv6 {
            Some(sock) => Some(compact_v6(sock)),
            None => None,
        }
    }

    /// The IPv4 address of this peer as text, if it has one.
    pub open spec fn ipv4_str(self) -> Option<Seq<char>> {
        match self.ipv4 {
            Some(sock) => Some(dotted(sock.ip@)),
            None => None,
        }
    }

    /// The IPv6 address of this peer as text, if it has one.
    pub open spec fn ipv6_str(self) -> Option<Seq<char>> {
        match self.ipv6 {
            Some(sock) => Some(colon_hex(sock.ip@)),
            None => None,
        }
    }
}

/// The bytes of an optional vector.
pub open spec fn bytes_of(v: Option<Vec<u8>>) -> Option<Seq<u8>> {
    match v {
        Some(v) => Some(v@),
        None => None,
    }
}

impl AnnouncePeer {
    /// The compact IPv4 record of the peer: address and port in network
    /// order.
    pub fn get_ipv4_bytes(&self) -> (bytes: Option<Vec<u8>>)
        ensures
            bytes_of(bytes) == self@.ipv4_bytes(),
    {
        match self.ipv4 {
            None => None,
            Some(sock) => {
                let mut v: Vec<u8> = Vec::with_capacity(6);
                let mut i: usize = 0;
                while i < 4
                    invariant
                        i <= 4,
                        v@ == sock.ip@.take(i as int),
                    decreases 4 - i,
                {
                    v.push(sock.ip[i]);
                    i += 1;
                }
                let mut port = u16_to_u8(sock.port);
                v.append(&mut port);
                Some(v)
            },
        }
    }

    /// The IPv4 address of the peer in dotted decimal.
    pub fn get_ipv4_str(&self) -> (text: Option<String>)
        ensures
            text_of(text) == self@.ipv4_str(),
    {
        match self.ipv4 {
            None => None,
            Some(sock) => Some(dotted_string(&sock.ip)),
        }
    }

    /// The compact IPv6 record of the peer: address and port in network
    /// order.
    pub fn get_ipv6_bytes(&self) -> (bytes: Option<Vec<u8>>)
        ensures
            bytes_of(bytes) == self@.ipv6_bytes(),
    {
        match self.ipv6 {
            None => None,
            Some(sock) => {
                let mut v: Vec<u8> = Vec::with_capacity(18);
                let mut i: usize = 0;
                while i < 8
                    invariant
                        i <= 8,
                        v@ == segment_bytes(sock.ip@.take(i as int)),
                    decreases 8 - i,
                {
                    let mut segment = u16_to_u8(sock.ip[i]);
                    v.append(&mut segment);
                    i += 1;
                    assert(v@ =~= segment_bytes(sock.ip@.take(i as int)));
                }
                assert(sock.ip@.take(8) =~= sock.ip@);
                let mut port = u16_to_u8(sock.port);
                v.append(&mut port);
                Some(v)
            },
        }
    }

    /// The IPv6 address of the peer as text.
    pub fn get_ipv6_str(&self) -> (text: Option<String>)
        ensures
            text_of(text) == self@.ipv6_str(),
    {
        match self.ipv6 {
            None => None,
            Some(sock) => Some(colon_hex_string(&sock.ip)),
        }
    }
}

/// The answer to an announce: the swarm's counts, a sample of its peers,
/// the encoding the client asked for and the intervals it is to keep.
pub struct AnnounceResponse {
    peers: Peers,
    stats: Stats,
    compact: bool,
    interval: u64,
    min_interval: u64,
}

/// The mathematical content of an [`AnnounceResponse`].
pub struct AnnounceResponseView {
    pub peers: PeersView,
    pub stats: Stats,
    pub compact: bool,
    pub interval: u64,
    pub min_interval: u64,
}

impl View for AnnounceResponse {
    type V = AnnounceResponseView;

    closed spec fn view(&self) -> AnnounceResponseView {
        AnnounceResponseView {
            peers: self.peers@,
            stats: self.stats,
            compact: self.compact,
            interval: self.interval,
            min_interval: self.min_interval,
        }
    }
}

impl AnnounceResponse {
    pub fn new(peers: Peers, stats: Stats, compact: bool, interval: u64, min_interval: u64) -> (r:
        AnnounceResponse)
        ensures
            r@ == (AnnounceResponseView {
                peers: peers@,
                stats,
                compact,
                interval,
                min_interval,
            }),
    {
        AnnounceResponse { peers, stats, compact, interval, min_interval }
    }

    pub fn peers(&self) -> (peers: &Peers)
        ensures
            peers@ == self@.peers,
    {
        &self.peers
    }

    pub fn stats(&self) -> (stats: &Stats)
        ensures
            *stats == self@.stats,
    {
        &self.stats
    }

    pub fn compact(&self) -> (compact: bool)
        ensures
            compact == self@.compact,
    {
        self.compact
    }

    pub fn interval(&self) -> (interval: u64)
        ensures
            interval == self@.interval,
    {
        self.interval
    }

    pub fn min_interval(&self) -> (min_interval: u64)
        ensures
            min_interval == self@.min_interval,
    {
        self.min_interval
    }
}

} // verus!
