//! The answers to requests that were served, and their bytes on the wire.

use vstd::prelude::*;
use vstd::string::StrSliceExecFns;
use vstd::utf8::encode_utf8;

use crate::response::bencode::{bencoding, encode, fields, trees, BencodeTree, BencodeValue};
use crate::response::TrackerResponse;
use crate::response::text::{colon_hex, decimal, decimal_string, dotted, push_decimal};
use crate::tracker::announce::{
    compact_v4, compact_v6, AnnouncePeer, AnnouncePeerView, AnnounceResponse,
    AnnounceResponseView,
};
use crate::tracker::scrape::{files, ScrapeResponse};
use crate::tracker::stats::StatsResponse;
use crate::tracker::torrent::{entries, Stats};

verus! {

/// The answer to a request that was served.
pub enum SuccessResponse {
    Announce(AnnounceResponse),
    Scrape(ScrapeResponse),
    Stats(StatsResponse),
}

/// The mathematical content of a [`SuccessResponse`].
pub enum SuccessView {
    Announce(AnnounceResponseView),
    Scrape(Seq<(Seq<char>, Stats)>),
    Stats(StatsResponse),
}

impl View for SuccessResponse {
    type V = SuccessView;

    open spec fn view(&self) -> SuccessView {
        match self {
            SuccessResponse::Announce(a) => SuccessView::Announce(a@),
            SuccessResponse::Scrape(s) => SuccessView::Scrape(s@),
            SuccessResponse::Stats(s) => SuccessView::Stats(*s),
        }
    }
}

/// The largest number of seconds that a reply can carry.
pub const MAX_SECONDS: u64 = 9_223_372_036_854_775_807;

/// An interval as a reply carries it: itself, or the largest number that
/// a reply can carry if it is larger.
pub open spec fn capped(seconds: u64) -> i64 {
    if seconds <= MAX_SECONDS {
        seconds as i64
    } else {
        MAX_SECONDS as i64
    }
}

/// An interval as a reply carries it.
pub fn cap(seconds: u64) -> (n: i64)
    ensures
        n == capped(seconds),
{
    if seconds <= MAX_SECONDS {
        seconds as i64
    } else {
        MAX_SECONDS as i64
    }
}

/// The compact IPv4 records of `peers`, one after the other. A peer
/// without an IPv4 endpoint has none.
pub open spec fn packed4(peers: Seq<AnnouncePeerView>) -> Seq<u8>
    decreases peers.len(),
{
    if peers.len() == 0 {
        Seq::empty()
    } else {
        packed4(peers.drop_last()) + match peers.last().ipv4 {
            Some(sock) => compact_v4(sock),
            None => Seq::empty(),
        }
    }
}

/// The compact IPv6 records of `peers`, one after the other. A peer
/// without an IPv6 endpoint has none.
pub open spec fn packed6(peers: Seq<AnnouncePeerView>) -> Seq<u8>
    decreases peers.len(),
{
    if peers.len() == 0 {
        Seq::empty()
    } else {
        packed6(peers.drop_last()) + match peers.last().ipv6 {
            Some(sock) => compact_v6(sock),
            None => Seq::empty(),
        }
    }
}

/// A peer in the long form: its id, its address as text and its port in
/// decimal.
pub open spec fn peer_tree(id: Seq<char>, ip: Seq<char>, port: u16) -> BencodeTree {
    BencodeTree::Dict(
        seq![
            ("peer id"@, BencodeTree::Bytes(encode_utf8(id))),
            ("ip"@, BencodeTree::Bytes(encode_utf8(ip))),
            ("port"@, BencodeTree::Bytes(encode_utf8(decimal(port as nat)))),
        ],
    )
}

/// The long forms of the IPv4 endpoints of `peers`, each of which has one.
pub open spec fn listed4(peers: Seq<AnnouncePeerView>) -> Seq<BencodeTree> {
    Seq::new(
        peers.len(),
        |i: int|
            match peers[i].ipv4 {
                Some(sock) => peer_tree(peers[i].id, dotted(sock.ip@), sock.port),
                None => BencodeTree::Int(0),
            },
    )
}

/// The long forms of the IPv6 endpoints of `peers`, each of which has one.
pub open spec fn listed6(peers: Seq<AnnouncePeerView>) -> Seq<BencodeTree> {
    Seq::new(
        peers.len(),
        |i: int|
            match peers[i].ipv6 {
                Some(sock) => peer_tree(peers[i].id, colon_hex(sock.ip@), sock.port),
                None => BencodeTree::Int(0),
            },
    )
}

/// The counts of a swarm as entries of a dictionary.
pub open spec fn stats_tree(stats: Stats) -> BencodeTree {
    BencodeTree::Dict(
        seq![
            ("complete"@, BencodeTree::Int(stats.complete)),
            ("downloaded"@, BencodeTree::Int(stats.downloaded)),
            ("incomplete"@, BencodeTree::Int(stats.incomplete)),
        ],
    )
}

/// The answer to an announce as a dictionary: the peers under `peers` and
/// `peers6`, packed if the client asked for the compact form and listed
/// in the long form if not, the two intervals, and the counts of the
/// swarm.
pub open spec fn announce_tree(a: AnnounceResponseView) -> BencodeTree {
    BencodeTree::Dict(
        seq![
            (
                "peers"@,
                if a.compact {
                    BencodeTree::Bytes(packed4(a.peers.peers4))
                } else {
                    BencodeTree::List(listed4(a.peers.peers4))
                },
            ),
            (
                "peers6"@,
                if a.compact {
                    BencodeTree::Bytes(packed6(a.peers.peers6))
                } else {
                    BencodeTree::List(listed6(a.peers.peers6))
                },
            ),
            ("interval"@, BencodeTree::Int(capped(a.interval))),
            ("min interval"@, BencodeTree::Int(capped(a.min_interval))),
            ("complete"@, BencodeTree::Int(a.stats.complete)),
            ("downloaded"@, BencodeTree::Int(a.stats.downloaded)),
            ("incomplete"@, BencodeTree::Int(a.stats.incomplete)),
        ],
    )
}

/// The answer to a scrape as a dictionary: under `files`, the counts of
/// each swarm under its info-hash.
pub open spec fn scrape_tree(s: Seq<(Seq<char>, Stats)>) -> BencodeTree {
    BencodeTree::Dict(
        seq![
            (
                "files"@,
                BencodeTree::Dict(Seq::new(s.len(), |i: int| (s[i].0, stats_tree(s[i].1)))),
            ),
        ],
    )
}

/// What the tracker reports of itself, as text: one line for each number.
pub open spec fn stats_text(s: StatsResponse) -> Seq<char> {
    "Announces/s: "@ + decimal(s.announce_rate as nat) + "\nScrapes/s: "@ + decimal(
        s.scrape_rate as nat,
    ) + "\nTorrents: "@ + decimal(s.torrents as nat) + "\nPeers: "@ + decimal(s.peers as nat)
        + "\nUptime: "@ + decimal(s.uptime as nat)
}

impl SuccessView {
    /// Whether the answer can be written: in an answer to an announce,
    /// every peer has an endpoint of the protocol it is listed under.
    pub open spec fn wf(self) -> bool {
        self matches SuccessView::Announce(a) ==> a.peers.wf()
    }

    /// The bytes of the answer on the wire: bencoded, but for the
    /// tracker's report on itself, which is plain text.
    pub open spec fn wire(self) -> Seq<u8> {
        match self {
            SuccessView::Announce(a) => bencoding(announce_tree(a)),
            SuccessView::Scrape(s) => bencoding(scrape_tree(s)),
            SuccessView::Stats(s) => encode_utf8(stats_text(s)),
        }
    }
}

/// A peer in the long form.
fn long_form(id: &String, ip: &String, port: u16) -> (value: BencodeValue)
    ensures
        value@ == peer_tree(id@, ip@, port),
{
    let mut entries: Vec<(String, BencodeValue)> = Vec::with_capacity(3);
    entries.push(BencodeValue::entry("peer id", BencodeValue::text(id.as_str())));
    entries.push(BencodeValue::entry("ip", BencodeValue::text(ip.as_str())));
    let port_text = decimal_string(port as u64);
    entries.push(BencodeValue::entry("port", BencodeValue::text(port_text.as_str())));
    assert(fields(entries@) =~= peer_tree(id@, ip@, port)->Dict_0);
    BencodeValue::dict(entries)
}

/// The `peers` entry of an answer to an announce.
fn peers4_value(peers: &Vec<AnnouncePeer>, compact: bool) -> (value: BencodeValue)
    requires
        forall|i: int| 0 <= i < peers.len() ==> (#[trigger] peers[i]).ipv4 is Some,
    ensures
        value@ == if compact {
            BencodeTree::Bytes(packed4(entries(peers@)))
        } else {
            BencodeTree::List(listed4(entries(peers@)))
        },
{
    let ghost all = entries(peers@);
    if compact {
        let mut bytes: Vec<u8> = Vec::new();
        let mut i: usize = 0;
        assert(all.take(0) =~= Seq::empty());
        while i < peers.len()
            invariant
                all == entries(peers@),
                i <= peers.len(),
                bytes@ == packed4(all.take(i as int)),
            decreases peers.len() - i,
        {
            proof {
                assert(all.take(i + 1).drop_last() =~= all.take(i as int));
                assert(all.take(i + 1).last() == peers[i as int]@);
            }
            match peers[i].get_ipv4_bytes() {
                Some(mut record) => bytes.append(&mut record),
                None => {},
            }
            i += 1;
        }
        assert(all.take(i as int) =~= all);
        BencodeValue::bytes(bytes)
    } else {
        let mut items: Vec<BencodeValue> = Vec::new();
        let mut i: usize = 0;
        while i < peers.len()
            invariant
                all == entries(peers@),
                i <= peers.len(),
                items.len() == i,
                forall|k: int| 0 <= k < peers.len() ==> (#[trigger] peers[k]).ipv4 is Some,
                forall|k: int| 0 <= k < i ==> (#[trigger] items[k])@ == listed4(all)[k],
            decreases peers.len() - i,
        {
            let peer = &peers[i];
            assert(peer.ipv4 is Some);
            assert(all[i as int] == peer@);
            match (peer.ipv4, peer.get_ipv4_str()) {
                (Some(sock), Some(ip)) => items.push(long_form(&peer.id, &ip, sock.port)),
                _ => {},
            }
            i += 1;
        }
        assert(trees(items@) =~= listed4(all));
        BencodeValue::list(items)
    }
}

/// The `peers6` entry of an answer to an announce.
fn peers6_value(peers: &Vec<AnnouncePeer>, compact: bool) -> (value: BencodeValue)
    requires
        forall|i: int| 0 <= i < peers.len() ==> (#[trigger] peers[i]).ipv6 is Some,
    ensures
        value@ == if compact {
            BencodeTree::Bytes(packed6(entries(peers@)))
        } else {
            BencodeTree::List(listed6(entries(peers@)))
        },
{
    let ghost all = entries(peers@);
    if compact {
        let mut bytes: Vec<u8> = Vec::new();
        let mut i: usize = 0;
        assert(all.take(0) =~= Seq::empty());
        while i < peers.len()
            invariant
                all == entries(peers@),
                i <= peers.len(),
                bytes@ == packed6(all.take(i as int)),
            decreases peers.len() - i,
        {
            proof {
                assert(all.take(i + 1).drop_last() =~= all.take(i as int));
                assert(all.take(i + 1).last() == peers[i as int]@);
            }
            match peers[i].get_ipv6_bytes() {
                Some(mut record) => bytes.append(&mut record),
                None => {},
            }
            i += 1;
        }
        assert(all.take(i as int) =~= all);
        BencodeValue::bytes(bytes)
    } else {
        let mut items: Vec<BencodeValue> = Vec::new();
        let mut i: usize = 0;
        while i < peers.len()
            invariant
                all == entries(peers@),
                i <= peers.len(),
                items.len() == i,
                forall|k: int| 0 <= k < peers.len() ==> (#[trigger] peers[k]).ipv6 is Some,
                forall|k: int| 0 <= k < i ==> (#[trigger] items[k])@ == listed6(all)[k],
            decreases peers.len() - i,
        {
            let peer = &peers[i];
            assert(peer.ipv6 is Some);
            assert(all[i as int] == peer@);
            match (peer.ipv6, peer.get_ipv6_str()) {
                (Some(sock), Some(ip)) => items.push(long_form(&peer.id, &ip, sock.port)),
                _ => {},
            }
            i += 1;
        }
        assert(trees(items@) =~= listed6(all));
        BencodeValue::list(items)
    }
}

/// The bytes of the answer to an announce.
pub fn bencode_announce(a: &AnnounceResponse) -> (bytes: Vec<u8>)
    requires
        a@.peers.wf(),
    ensures
        bytes@ == bencoding(announce_tree(a@)),
{
    let peers = a.peers();
    let stats = a.stats();
    let compact = a.compact();
    proof {
        assert forall|i: int| 0 <= i < peers.peers4.len() implies (#[trigger] peers.peers4[i]).ipv4
            is Some by {
            assert(peers@.peers4[i] == peers.peers4[i]@);
        }
        assert forall|i: int| 0 <= i < peers.peers6.len() implies (#[trigger] peers.peers6[i]).ipv6
            is Some by {
            assert(peers@.peers6[i] == peers.peers6[i]@);
        }
    }
    let mut entries: Vec<(String, BencodeValue)> = Vec::with_capacity(7);
    entries.push(BencodeValue::entry("peers", peers4_value(&peers.peers4, compact)));
    entries.push(BencodeValue::entry("peers6", peers6_value(&peers.peers6, compact)));
    entries.push(BencodeValue::entry("interval", BencodeValue::number(cap(a.interval()))));
    entries.push(BencodeValue::entry("min interval", BencodeValue::number(cap(a.min_interval()))));
    entries.push(BencodeValue::entry("complete", BencodeValue::number(stats.complete)));
    entries.push(BencodeValue::entry("downloaded", BencodeValue::number(stats.downloaded)));
    entries.push(BencodeValue::entry("incomplete", BencodeValue::number(stats.incomplete)));
    assert(fields(entries@) =~= announce_tree(a@)->Dict_0);
    encode(&BencodeValue::dict(entries))
}

/// The counts of a swarm as a dictionary.
fn stats_value(stats: &Stats) -> (value: BencodeValue)
    ensures
        value@ == stats_tree(*stats),
{
    let mut entries: Vec<(String, BencodeValue)> = Vec::with_capacity(3);
    entries.push(BencodeValue::entry("complete", BencodeValue::number(stats.complete)));
    entries.push(BencodeValue::entry("downloaded", BencodeValue::number(stats.downloaded)));
    entries.push(BencodeValue::entry("incomplete", BencodeValue::number(stats.incomplete)));
    assert(fields(entries@) =~= stats_tree(*stats)->Dict_0);
    BencodeValue::dict(entries)
}

/// The bytes of the answer to a scrape.
pub fn bencode_scrape(s: &ScrapeResponse) -> (bytes: Vec<u8>)
    ensures
        bytes@ == bencoding(scrape_tree(s@)),
{
    let mut torrents: Vec<(String, BencodeValue)> = Vec::with_capacity(s.torrents.len());
    let mut i: usize = 0;
    while i < s.torrents.len()
        invariant
            i <= s.torrents.len(),
            torrents.len() == i,
            forall|k: int|
                0 <= k < i ==> (#[trigger] torrents[k]).0@ == s@[k].0 && torrents[k].1@
                    == stats_tree(s@[k].1),
        decreases s.torrents.len() - i,
    {
        let hash = &s.torrents[i].0;
        assert(s@[i as int] == (s.torrents[i as int].0@, s.torrents[i as int].1));
        torrents.push((hash.clone(), stats_value(&s.torrents[i].1)));
        i += 1;
    }
    assert(fields(torrents@) =~= Seq::new(s@.len(), |i: int| (s@[i].0, stats_tree(s@[i].1))));
    let mut entries: Vec<(String, BencodeValue)> = Vec::with_capacity(1);
    entries.push(BencodeValue::entry("files", BencodeValue::dict(torrents)));
    assert(fields(entries@) =~= scrape_tree(s@)->Dict_0);
    encode(&BencodeValue::dict(entries))
}

/// The bytes of the tracker's report on itself.
pub fn display_stats(s: &StatsResponse) -> (bytes: Vec<u8>)
    ensures
        bytes@ == encode_utf8(stats_text(*s)),
{
    let mut text = String::new();
    text.append("Announces/s: ");
    push_decimal(&mut text, s.announce_rate);
    text.append("\nScrapes/s: ");
    push_decimal(&mut text, s.scrape_rate);
    text.append("\nTorrents: ");
    push_decimal(&mut text, s.torrents);
    text.append("\nPeers: ");
    push_decimal(&mut text, s.peers);
    text.append("\nUptime: ");
    push_decimal(&mut text, s.uptime);
    assert(text@ =~= stats_text(*s));
    text.as_str().as_bytes_vec()
}

impl TrackerResponse for AnnounceResponse {
    open spec fn writable(&self) -> bool {
        self@.peers.wf()
    }

    open spec fn wire(&self) -> Seq<u8> {
        bencoding(announce_tree(self@))
    }

    fn to_bencode(&self) -> (bytes: Vec<u8>) {
        bencode_announce(self)
    }
}

impl TrackerResponse for ScrapeResponse {
    open spec fn writable(&self) -> bool {
        true
    }

    open spec fn wire(&self) -> Seq<u8> {
        bencoding(scrape_tree(self@))
    }

    fn to_bencode(&self) -> (bytes: Vec<u8>) {
        bencode_scrape(self)
    }
}

impl SuccessResponse {
    /// Whether the answer can be written.
    pub fn is_writable(&self) -> (ok: bool)
        ensures
            ok == self@.wf(),
    {
        match self {
            SuccessResponse::Announce(a) => a.peers().is_wf(),
            _ => true,
        }
    }

    /// The bytes of the answer on the wire.
    pub fn http_resp(&self) -> (bytes: Vec<u8>)
        requires
            self@.wf(),
        ensures
            bytes@ == self@.wire(),
    {
        match self {
            SuccessResponse::Announce(a) => bencode_announce(a),
            SuccessResponse::Scrape(s) => bencode_scrape(s),
            SuccessResponse::Stats(s) => display_stats(s),
        }
    }
}

/// The compact records of the peers in a well-formed answer take six
/// bytes for each peer listed under IPv4 and eighteen for each under
/// IPv6.
pub proof fn lemma_packed_len(peers4: Seq<AnnouncePeerView>, peers6: Seq<AnnouncePeerView>)
    requires
        forall|i: int| 0 <= i < peers4.len() ==> (#[trigger] peers4[i]).ipv4 is Some,
        forall|i: int| 0 <= i < peers6.len() ==> (#[trigger] peers6[i]).ipv6 is Some,
    ensures
        packed4(peers4).len() == 6 * peers4.len(),
        packed6(peers6).len() == 18 * peers6.len(),
    decreases peers4.len() + peers6.len(),
{
    if peers4.len() > 0 {
        let rest = peers4.drop_last();
        assert forall|i: int| 0 <= i < rest.len() implies (#[trigger] rest[i]).ipv4 is Some by {
            assert(rest[i] == peers4[i]);
        }
        lemma_packed_len(rest, peers6);
        assert(peers4.last().ipv4 is Some);
    } else if peers6.len() > 0 {
        let rest = peers6.drop_last();
        assert forall|i: int| 0 <= i < rest.len() implies (#[trigger] rest[i]).ipv6 is Some by {
            assert(rest[i] == peers6[i]);
        }
        lemma_packed_len(peers4, rest);
        assert(peers6.last().ipv6 is Some);
    }
}

/// In the compact answer to an announce, `peers` is a byte string of six
/// bytes for each peer listed under IPv4, and `peers6` one of eighteen
/// bytes for each peer listed under IPv6.
pub proof fn lemma_compact_announce(a: AnnounceResponseView)
    requires
        a.peers.wf(),
        a.compact,
    ensures
        announce_tree(a)->Dict_0[0] == ("peers"@, BencodeTree::Bytes(packed4(a.peers.peers4))),
        announce_tree(a)->Dict_0[1] == ("peers6"@, BencodeTree::Bytes(packed6(a.peers.peers6))),
        packed4(a.peers.peers4).len() == 6 * a.peers.peers4.len(),
        packed6(a.peers.peers6).len() == 18 * a.peers.peers6.len(),
{
    lemma_packed_len(a.peers.peers4, a.peers.peers6);
}

} // verus!
