//! From the parts of a request to the response that answers it.

pub mod params;
pub mod target;

use vstd::prelude::*;
use vstd::utf8::encode_utf8;

use crate::http::params::{get_from_params, get_number, lookup, number_param, pairs};
use crate::http::target::query_view;
use crate::private::PrivateTracker;
use crate::response::error::ErrorResponse;
use crate::response::success::{SuccessResponse, SuccessView};
use crate::response::TrackerResponse;
use crate::tracker::announce::{text_of, Action, Announce, AnnounceView, SocketV4, SocketV6};
use crate::tracker::clock::monotonic_nanos;
use crate::tracker::scrape::Scrape;
use crate::tracker::stats::StatsResponse;
use crate::tracker::torrent::MAX_COUNT;
use crate::tracker::{Tracker, TrackerView};

verus! {

/// An IP address: the octets of an IPv4 address or the segments of an
/// IPv6 address, most significant first.
#[derive(Clone, Copy, Debug, PartialEq, Eq)]
pub enum IpAddr {
    V4([u8; 4]),
    V6([u16; 8]),
}

/// An endpoint of either protocol.
#[derive(Clone, Copy, Debug, PartialEq, Eq)]
pub enum SocketAddr {
    V4(SocketV4),
    V6(SocketV6),
}

impl SocketAddr {
    /// The endpoint at `ip` and `port`.
    pub open spec fn at(ip: IpAddr, port: u16) -> SocketAddr {
        match ip {
            IpAddr::V4(ip) => SocketAddr::V4(SocketV4 { ip, port }),
            IpAddr::V6(ip) => SocketAddr::V6(SocketV6 { ip, port }),
        }
    }

    /// The endpoint at `ip` and `port`.
    pub fn new(ip: IpAddr, port: u16) -> (sock: SocketAddr)
        ensures
            sock == SocketAddr::at(ip, port),
    {
        match ip {
            IpAddr::V4(ip) => SocketAddr::V4(SocketV4 { ip, port }),
            IpAddr::V6(ip) => SocketAddr::V6(SocketV6 { ip, port }),
        }
    }
}

/// The addresses that come with a request, read from their text. Each is
/// there if the request had the text and it could be read as what the
/// field says.
#[derive(Clone, Copy, Debug)]
pub struct RequestAddrs {
    /// Where the connection comes from.
    pub remote: SocketAddr,
    /// The `X-Forwarded-For` header as an address.
    pub forwarded: Option<IpAddr>,
    /// The parameter `ip` as an address.
    pub ip: Option<IpAddr>,
    /// The parameter `ipv4` as an address.
    pub ipv4_ip: Option<IpAddr>,
    /// The parameter `ipv4` as an endpoint.
    pub ipv4_socket: Option<SocketAddr>,
    /// The parameter `ipv6` as an address.
    pub ipv6_ip: Option<IpAddr>,
    /// The parameter `ipv6` as an endpoint.
    pub ipv6_socket: Option<SocketAddr>,
}

/// The endpoint that a parameter names: the address it reads as, at the
/// announced port, or the endpoint it reads as; none if it reads as
/// neither, or as both.
pub open spec fn named_socket(ip: Option<IpAddr>, socket: Option<SocketAddr>, port: u16) -> Option<
    SocketAddr,
> {
    match (ip, socket) {
        (Some(ip), None) => Some(SocketAddr::at(ip, port)),
        (None, Some(sock)) => Some(sock),
        _ => None,
    }
}

pub fn get_socket(ip: Option<IpAddr>, socket: Option<SocketAddr>, port: u16) -> (named: Option<
    SocketAddr,
>)
    ensures
        named == named_socket(ip, socket, port),
{
    match (ip, socket) {
        (None, None) => None,
        (Some(ip), None) => Some(SocketAddr::new(ip, port)),
        (None, Some(sock)) => Some(sock),
        _ => None,
    }
}

impl RequestAddrs {
    /// The endpoint the peer is taken to announce from: the parameter
    /// `ip` at the announced port if there is one, else the forwarding
    /// header at the announced port if there is one, else where the
    /// connection comes from.
    pub open spec fn primary(self, port: u16) -> SocketAddr {
        match self.ip {
            Some(ip) => SocketAddr::at(ip, port),
            None => match self.forwarded {
                Some(ip) => SocketAddr::at(ip, port),
                None => self.remote,
            },
        }
    }

    /// The IPv4 endpoint of the peer: the primary endpoint if that is
    /// one, else what the parameter `ipv4` names if that is one.
    pub open spec fn ipv4(self, port: u16) -> Option<SocketV4> {
        match self.primary(port) {
            SocketAddr::V4(v4) => Some(v4),
            SocketAddr::V6(_) => match named_socket(self.ipv4_ip, self.ipv4_socket, port) {
                Some(SocketAddr::V4(v4)) => Some(v4),
                _ => None,
            },
        }
    }

    /// The IPv6 endpoint of the peer: the primary endpoint if that is
    /// one, else what the parameter `ipv6` names if that is one.
    pub open spec fn ipv6(self, port: u16) -> Option<SocketV6> {
        match self.primary(port) {
            SocketAddr::V6(v6) => Some(v6),
            SocketAddr::V4(_) => match named_socket(self.ipv6_ip, self.ipv6_socket, port) {
                Some(SocketAddr::V6(v6)) => Some(v6),
                _ => None,
            },
        }
    }
}

/// The endpoints of the announcing peer, of which it has one at least.
pub fn get_ips(addrs: &RequestAddrs, port: u16) -> (ips: (Option<SocketV4>, Option<SocketV6>))
    ensures
        ips.0 == addrs.ipv4(port),
        ips.1 == addrs.ipv6(port),
        ips.0 is Some || ips.1 is Some,
{
    let default_ip = match addrs.forwarded {
        Some(ip) => SocketAddr::new(ip, port),
        None => addrs.remote,
    };
    let ip = match addrs.ip {
        Some(ip) => SocketAddr::new(ip, port),
        None => default_ip,
    };
    match ip {
        SocketAddr::V4(v4) => {
            let v6 = match get_socket(addrs.ipv6_ip, addrs.ipv6_socket, port) {
                Some(sock) => match sock {
                    SocketAddr::V6(v6) => Some(v6),
                    _ => None,
                },
                None => None,
            };
            (Some(v4), v6)
        },
        SocketAddr::V6(v6) => {
            let v4 = match get_socket(addrs.ipv4_ip, addrs.ipv4_socket, port) {
                Some(sock) => match sock {
                    SocketAddr::V4(v4) => Some(v4),
                    _ => None,
                },
                None => None,
            };
            (v4, Some(v6))
        },
    }
}

/// The action of an announce that names no event of its own: a peer with
/// nothing left to download seeds, any other leeches.
pub open spec fn inferred_action(left: u64) -> Action {
    if left == 0 {
        Action::Seeding
    } else {
        Action::Leeching
    }
}

pub fn get_action(left: u64) -> (action: Action)
    ensures
        action == inferred_action(left),
{
    if left == 0 {
        Action::Seeding
    } else {
        Action::Leeching
    }
}

/// The most peers a client is given.
pub const MAX_NUMWANT: u8 = 25;

/// The most parameters an announce may have.
pub const MAX_PARAMS: usize = 10;

/// The longest info-hash an announce may have, in bytes.
pub const MAX_HASH_LEN: usize = 40;

/// The longest peer id an announce may have, in bytes.
pub const MAX_PEER_ID_LEN: usize = 30;

/// The action that the parameter `event` asks for: to stop, to complete,
/// or, if it is missing or says anything else, what `left` implies.
pub open spec fn action_of(event: Option<Seq<char>>, left: u64) -> Action {
    match event {
        Some(ev) => if ev == "stopped"@ {
            Action::Stopped
        } else if ev == "completed"@ {
            Action::Completed
        } else {
            inferred_action(left)
        },
        None => inferred_action(left),
    }
}

/// How many peers the client is given: as many as it wants, 25 at most,
/// and 25 if it does not say.
pub open spec fn numwant_of(wanted: Option<nat>) -> u8 {
    match wanted {
        Some(n) => if n < MAX_NUMWANT {
            n as u8
        } else {
            MAX_NUMWANT
        },
        None => MAX_NUMWANT,
    }
}

/// Whether the client is answered in the compact form: unless it asks
/// for `0`.
pub open spec fn compact_of(asked: Option<nat>) -> bool {
    match asked {
        Some(n) => n != 0,
        None => true,
    }
}

/// The announce that a request amounts to, or why it is none. It is
/// turned down with `BadRequest` if it has more than ten parameters, if
/// one of `info_hash`, `peer_id`, `uploaded`, `downloaded`, `left` and
/// `port` is missing, if one of the last four is no number of its size,
/// or if the info-hash or the peer id is too long.
pub open spec fn announce_of(
    params: Seq<(Seq<char>, Seq<char>)>,
    passkey: Option<Seq<char>>,
    addrs: RequestAddrs,
) -> Result<AnnounceView, ErrorResponse> {
    if params.len() > MAX_PARAMS {
        Err(ErrorResponse::BadRequest)
    } else {
        match (
            lookup(params, "info_hash"@),
            lookup(params, "peer_id"@),
            number_param(params, "uploaded"@, u64::MAX as nat),
            number_param(params, "downloaded"@, u64::MAX as nat),
            number_param(params, "left"@, u64::MAX as nat),
            number_param(params, "port"@, u16::MAX as nat),
        ) {
            (Some(info_hash), Some(peer_id), Some(ul), Some(dl), Some(left), Some(port)) => {
                if encode_utf8(info_hash).len() > MAX_HASH_LEN || encode_utf8(peer_id).len()
                    > MAX_PEER_ID_LEN {
                    Err(ErrorResponse::BadRequest)
                } else {
                    Ok(
                        AnnounceView {
                            info_hash,
                            peer_id,
                            passkey,
                            ipv4: addrs.ipv4(port as u16),
                            ipv6: addrs.ipv6(port as u16),
                            ul: ul as u64,
                            dl: dl as u64,
                            left: left as u64,
                            action: action_of(lookup(params, "event"@), left as u64),
                            numwant: numwant_of(number_param(params, "numwant"@, u8::MAX as nat)),
                            compact: compact_of(number_param(params, "compact"@, u8::MAX as nat)),
                        },
                    )
                }
            },
            _ => Err(ErrorResponse::BadRequest),
        }
    }
}

/// The announce that a request amounts to, or why it is none: a request
/// without parameters is turned down with `BadRequest`.
pub open spec fn announce_request(
    params: Option<Seq<(Seq<char>, Seq<char>)>>,
    passkey: Option<Seq<char>>,
    addrs: RequestAddrs,
) -> Result<AnnounceView, ErrorResponse> {
    match params {
        Some(params) => announce_of(params, passkey, addrs),
        None => Err(ErrorResponse::BadRequest),
    }
}

/// The scrape that a request amounts to, or why it is none: the value of
/// each parameter is an info-hash, whatever the parameter is called, and
/// a request without parameters is turned down with `BadRequest`.
pub open spec fn scrape_request(params: Option<Seq<(Seq<char>, Seq<char>)>>) -> Result<
    Seq<Seq<char>>,
    ErrorResponse,
> {
    match params {
        Some(params) => Ok(params.map_values(|p: (Seq<char>, Seq<char>)| p.1)),
        None => Err(ErrorResponse::BadRequest),
    }
}

/// The view of a result that holds an announce.
pub open spec fn announce_view(result: Result<Announce, ErrorResponse>) -> Result<
    AnnounceView,
    ErrorResponse,
> {
    match result {
        Ok(a) => Ok(a@),
        Err(e) => Err(e),
    }
}

/// Reads an announce from the parameters of a request, the passkey of
/// its path and the addresses it comes with.
pub fn request_to_announce(
    private: &PrivateTracker,
    params: Option<Vec<(String, String)>>,
    passkey: Option<String>,
    addrs: &RequestAddrs,
) -> (result: Result<Announce, ErrorResponse>)
    ensures
        announce_view(result) == announce_request(query_view(params), text_of(passkey), *addrs),
{
    let params = match params {
        Some(params) => params,
        None => {
            return Err(ErrorResponse::BadRequest);
        },
    };
    if params.len() > MAX_PARAMS {
        return Err(ErrorResponse::BadRequest);
    }
    let info_hash = match get_from_params(&params, "info_hash") {
        Ok(v) => v,
        Err(e) => {
            return Err(e);
        },
    };
    if private.is_enabled() {
        if !private.validate_torrent(&info_hash) {
            return Err(ErrorResponse::BadAuth);
        }
    }
    let pid = match get_from_params(&params, "peer_id") {
        Ok(v) => v,
        Err(e) => {
            return Err(e);
        },
    };
    if private.is_enabled() {
        if !private.validate_peer(&pid) {
            return Err(ErrorResponse::BadPeer);
        }
    }
    if info_hash.as_str().as_bytes().len() > MAX_HASH_LEN || pid.as_str().as_bytes().len()
        > MAX_PEER_ID_LEN {
        return Err(ErrorResponse::BadRequest);
    }
    let ul = match get_number(&params, "uploaded", u64::MAX) {
        Ok(v) => v,
        Err(e) => {
            return Err(e);
        },
    };
    let dl = match get_number(&params, "downloaded", u64::MAX) {
        Ok(v) => v,
        Err(e) => {
            return Err(e);
        },
    };
    let left = match get_number(&params, "left", u64::MAX) {
        Ok(v) => v,
        Err(e) => {
            return Err(e);
        },
    };
    let port = match get_number(&params, "port", 65535) {
        Ok(v) => v as u16,
        Err(e) => {
            return Err(e);
        },
    };
    let (ipv4, ipv6) = get_ips(addrs, port);
    let action = match get_from_params(&params, "event") {
        Ok(ev) => {
            if ev == "stopped".to_owned() {
                Action::Stopped
            } else if ev == "completed".to_owned() {
                Action::Completed
            } else {
                get_action(left)
            }
        },
        Err(_) => get_action(left),
    };
    let numwant = match get_number(&params, "numwant", 255) {
        Ok(amount) => if amount < MAX_NUMWANT as u64 {
            amount as u8
        } else {
            MAX_NUMWANT
        },
        Err(_) => MAX_NUMWANT,
    };
    let compact = match get_number(&params, "compact", 255) {
        Ok(asked) => asked != 0,
        Err(_) => true,
    };
    let announce = Announce {
        info_hash: info_hash,
        peer_id: pid,
        passkey: passkey,
        ipv4: ipv4,
        ipv6: ipv6,
        ul: ul,
        dl: dl,
        left: left,
        action: action,
        numwant: numwant,
        compact: compact,
    };
    if private.is_enabled() {
        match private.validate_announce(&announce) {
            Some(_) => {
                return Err(ErrorResponse::BadPeer);
            },
            None => (),
        }
    }
    Ok(announce)
}

/// The view of a result that holds a scrape.
pub open spec fn scrape_view(result: Result<Scrape, ErrorResponse>) -> Result<
    Seq<Seq<char>>,
    ErrorResponse,
> {
    match result {
        Ok(s) => Ok(s@),
        Err(e) => Err(e),
    }
}

/// Reads a scrape from the parameters of a request.
pub fn request_to_scrape(params: Option<Vec<(String, String)>>) -> (result: Result<
    Scrape,
    ErrorResponse,
>)
    ensures
        scrape_view(result) == scrape_request(query_view(params)),
{
    let param_vec = match params {
        Some(params) => params,
        None => {
            return Err(ErrorResponse::BadRequest);
        },
    };
    let mut hashes: Vec<String> = Vec::with_capacity(param_vec.len());
    let mut i: usize = 0;
    while i < param_vec.len()
        invariant
            i <= param_vec.len(),
            hashes.len() == i,
            forall|k: int| 0 <= k < i ==> (#[trigger] hashes[k])@ == param_vec[k].1@,
        decreases param_vec.len() - i,
    {
        hashes.push(param_vec[i].1.clone());
        i += 1;
    }
    let scrape = Scrape::new(hashes);
    assert(scrape@ =~= pairs(param_vec@).map_values(|p: (Seq<char>, Seq<char>)| p.1));
    Ok(scrape)
}

/// The view of a result that holds a served response.
pub open spec fn response_view(result: Result<SuccessResponse, ErrorResponse>) -> Result<
    SuccessView,
    ErrorResponse,
> {
    match result {
        Ok(resp) => Ok(resp@),
        Err(e) => Err(e),
    }
}

/// The bytes that answer a request.
pub open spec fn response_wire(result: Result<SuccessView, ErrorResponse>) -> Seq<u8> {
    match result {
        Ok(resp) => resp.wire(),
        Err(err) => err.wire(),
    }
}

/// The bytes that answer a request: those of the response if it was
/// served, those of the failure if it was not.
pub fn serialize_resp(result: Result<SuccessResponse, ErrorResponse>) -> (bytes: Vec<u8>)
    requires
        result matches Ok(resp) ==> resp@.wf(),
    ensures
        bytes@ == response_wire(response_view(result)),
{
    match result {
        Ok(resp) => resp.http_resp(),
        Err(err) => err.to_bencode(),
    }
}

/// What becomes of the tracker and what the client is answered when a
/// request for `path` arrives at time `now`: its own report for `stats`,
/// an announce served for `announce`, a scrape served for `scrape`, each
/// if the request can be read as one, and `BadAction` for any other path.
pub open spec fn served(
    t: TrackerView,
    path: Seq<char>,
    params: Option<Seq<(Seq<char>, Seq<char>)>>,
    passkey: Option<Seq<char>>,
    addrs: RequestAddrs,
    now: u64,
) -> (TrackerView, Result<SuccessView, ErrorResponse>) {
    if path == "stats"@ {
        (t, Ok(SuccessView::Stats(StatsResponse::snapshot(t.stats, now))))
    } else if path == "announce"@ {
        match announce_request(params, passkey, addrs) {
            Ok(a) => (t.announced(a, now), Ok(SuccessView::Announce(t.announce_reply(a, now)))),
            Err(e) => (t, Err(e)),
        }
    } else if path == "scrape"@ {
        match scrape_request(params) {
            Ok(hashes) => (t.scrape_counted(), Ok(SuccessView::Scrape(t.scraped(hashes)))),
            Err(e) => (t, Err(e)),
        }
    } else {
        (t, Err(ErrorResponse::BadAction))
    }
}

/// Serves the request for `path` that arrives at time `now`.
pub fn handle_req_at(
    tracker: &mut Tracker,
    path: &String,
    params: Option<Vec<(String, String)>>,
    passkey: Option<String>,
    addrs: &RequestAddrs,
    now: u64,
) -> (result: Result<SuccessResponse, ErrorResponse>)
    requires
        old(tracker).wf(),
        old(tracker)@.stats.peers < MAX_COUNT,
    ensures
        final(tracker).wf(),
        (final(tracker)@, response_view(result)) == served(
            old(tracker)@,
            path@,
            query_view(params),
            text_of(passkey),
            *addrs,
            now,
        ),
        result matches Ok(resp) ==> resp@.wf(),
{
    if *path == "stats".to_owned() {
        tracker.get_stats_at(now)
    } else if *path == "announce".to_owned() {
        match request_to_announce(tracker.hooks(), params, passkey, addrs) {
            Ok(announce) => tracker.handle_announce_at(announce, now),
            Err(e) => Err(e),
        }
    } else if *path == "scrape".to_owned() {
        match request_to_scrape(params) {
            Ok(scrape) => tracker.handle_scrape(scrape),
            Err(e) => Err(e),
        }
    } else {
        Err(ErrorResponse::BadAction)
    }
}

/// Serves the request for `path` that arrives now.
pub fn handle_req(
    tracker: &mut Tracker,
    path: &String,
    params: Option<Vec<(String, String)>>,
    passkey: Option<String>,
    addrs: &RequestAddrs,
) -> (result: Result<SuccessResponse, ErrorResponse>)
    requires
        old(tracker).wf(),
        old(tracker)@.stats.peers < MAX_COUNT,
    ensures
        final(tracker).wf(),
        exists|now: u64|
            (final(tracker)@, response_view(result)) == #[trigger] served(
                old(tracker)@,
                path@,
                query_view(params),
                text_of(passkey),
                *addrs,
                now,
            ),
        result matches Ok(resp) ==> resp@.wf(),
{
    let now = monotonic_nanos();
    let result = handle_req_at(tracker, path, params, passkey, addrs, now);
    assert((tracker@, response_view(result)) == served(
        old(tracker)@,
        path@,
        query_view(params),
        text_of(passkey),
        *addrs,
        now,
    ));
    result
}

/// The segments of a path, if it has any.
pub open spec fn path_view(path: Option<&Vec<String>>) -> Option<Seq<Seq<char>>> {
    match path {
        Some(path) => Some(path@.map_values(|s: String| s@)),
        None => None,
    }
}

/// What becomes of the tracker and what the client is answered when a
/// request arrives at time `now`. A private tracker takes a path of two
/// segments, a passkey and what is asked for; a public tracker takes a
/// path of one. A path of another length is turned down with
/// `BadRequest`, a request without a path with `BadAction`.
pub open spec fn routed(
    t: TrackerView,
    path: Option<Seq<Seq<char>>>,
    params: Option<Seq<(Seq<char>, Seq<char>)>>,
    addrs: RequestAddrs,
    now: u64,
) -> (TrackerView, Result<SuccessView, ErrorResponse>) {
    match path {
        None => (t, Err(ErrorResponse::BadAction)),
        Some(path) => if t.private.enabled {
            if path.len() != 2 {
                (t, Err(ErrorResponse::BadRequest))
            } else {
                served(t, path[1], params, Some(path[0]), addrs, now)
            }
        } else {
            if path.len() != 1 {
                (t, Err(ErrorResponse::BadRequest))
            } else {
                served(t, path[0], params, None, addrs, now)
            }
        },
    }
}

/// Serves the request that arrives at time `now` with path segments
/// `path` and query parameters `params`.
pub fn handle_url_at(
    tracker: &mut Tracker,
    path: Option<&Vec<String>>,
    params: Option<Vec<(String, String)>>,
    addrs: &RequestAddrs,
    now: u64,
) -> (result: Result<SuccessResponse, ErrorResponse>)
    requires
        old(tracker).wf(),
        old(tracker)@.stats.peers < MAX_COUNT,
    ensures
        final(tracker).wf(),
        (final(tracker)@, response_view(result)) == routed(
            old(tracker)@,
            path_view(path),
            query_view(params),
            *addrs,
            now,
        ),
        result matches Ok(resp) ==> resp@.wf(),
{
    let path = match path {
        Some(path) => path,
        None => {
            return Err(ErrorResponse::BadAction);
        },
    };
    if tracker.hooks().is_enabled() {
        if path.len() != 2 {
            Err(ErrorResponse::BadRequest)
        } else if !tracker.hooks().validate_passkey(&path[0]) {
            Err(ErrorResponse::BadAuth)
        } else {
            handle_req_at(tracker, &path[1], params, Some(path[0].clone()), addrs, now)
        }
    } else {
        if path.len() != 1 {
            Err(ErrorResponse::BadRequest)
        } else {
            handle_req_at(tracker, &path[0], params, None, addrs, now)
        }
    }
}

/// Serves the request that arrives now.
pub fn handle_url(
    tracker: &mut Tracker,
    path: Option<&Vec<String>>,
    params: Option<Vec<(String, String)>>,
    addrs: &RequestAddrs,
) -> (result: Result<SuccessResponse, ErrorResponse>)
    requires
        old(tracker).wf(),
        old(tracker)@.stats.peers < MAX_COUNT,
    ensures
        final(tracker).wf(),
        exists|now: u64|
            (final(tracker)@, response_view(result)) == #[trigger] routed(
                old(tracker)@,
                path_view(path),
                query_view(params),
                *addrs,
                now,
            ),
        result matches Ok(resp) ==> resp@.wf(),
{
    let now = monotonic_nanos();
    let result = handle_url_at(tracker, path, params, addrs, now);
    assert((tracker@, response_view(result)) == routed(
        old(tracker)@,
        path_view(path),
        query_view(params),
        *addrs,
        now,
    ));
    result
}

} // verus!
