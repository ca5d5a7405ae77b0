use torrent_tracker::http::serialize_resp;
use torrent_tracker::response::bencode::BencodeValue;
use torrent_tracker::response::error::ErrorResponse;
use torrent_tracker::response::success::{
    bencode_announce, bencode_scrape, cap, display_stats, SuccessResponse,
};
use torrent_tracker::response::{bencode_resp, bencode_result, TrackerResponse};
use torrent_tracker::tracker::announce::{
    AnnouncePeer, AnnounceResponse, SocketV4, SocketV6,
};
use torrent_tracker::tracker::scrape::ScrapeResponse;
use torrent_tracker::tracker::stats::StatsResponse;
use torrent_tracker::tracker::torrent::{Peers, Stats};

fn failure(message: &str) -> Vec<u8> {
    format!("d14:failure reason{}:{}e", message.len(), message).into_bytes()
}

#[test]
fn errors_on_the_wire() {
    assert_eq!(
        ErrorResponse::BadAuth.to_bencode(),
        failure("Improper authentication provided.")
    );
    assert_eq!(ErrorResponse::BadRequest.to_bencode(), failure("Improper request sent."));
    assert_eq!(ErrorResponse::BadAction.to_bencode(), failure("Improper action sent."));
    assert_eq!(ErrorResponse::BadPeer.to_bencode(), failure("Your client is not allowed."));
}

#[test]
fn error_reasons() {
    assert_eq!(ErrorResponse::BadAuth.reason(), "Improper authentication provided.");
    assert_eq!(ErrorResponse::BadRequest.reason(), "Improper request sent.");
    assert_eq!(ErrorResponse::BadAction.reason(), "Improper action sent.");
    assert_eq!(ErrorResponse::BadPeer.reason(), "Your client is not allowed.");
}

fn v4(id: &str, last: u8) -> AnnouncePeer {
    AnnouncePeer {
        id: String::from(id),
        ipv4: Some(SocketV4 { ip: [10, 0, 0, last], port: 6881 }),
        ipv6: None,
    }
}

fn v6(id: &str, last: u16) -> AnnouncePeer {
    AnnouncePeer {
        id: String::from(id),
        ipv4: None,
        ipv6: Some(SocketV6 { ip: [0x2001, 0xdb8, 0, 0, 0, 0, 0, last], port: 51413 }),
    }
}

fn stats() -> Stats {
    Stats { complete: 1, incomplete: 2, downloaded: 3 }
}

#[test]
fn compact_announce_on_the_wire() {
    let peers = Peers { peers4: vec![v4("anna", 1), v4("bert", 2)], peers6: vec![v6("cleo", 3)] };
    let resp = AnnounceResponse::new(peers, stats(), true, 1800, 900);
    let mut expected = Vec::new();
    expected.extend_from_slice(
        b"d8:completei1e10:downloadedi3e10:incompletei2e8:intervali1800e12:min intervali900e5:peers12:",
    );
    expected.extend_from_slice(&[10, 0, 0, 1, 0x1a, 0xe1, 10, 0, 0, 2, 0x1a, 0xe1]);
    expected.extend_from_slice(b"6:peers618:");
    expected.extend_from_slice(&[
        0x20, 0x01, 0x0d, 0xb8, 0, 0, 0, 0, 0, 0, 0, 0, 0, 0, 0, 3, 0xc8, 0xd5,
    ]);
    expected.extend_from_slice(b"e");
    assert_eq!(bencode_announce(&resp), expected);
    assert_eq!(resp.to_bencode(), expected);
}

#[test]
fn compact_records_have_fixed_lengths() {
    for n in 0..6u8 {
        let peers4: Vec<AnnouncePeer> = (0..n).map(|i| v4("dora", i)).collect();
        let peers6: Vec<AnnouncePeer> = (0..2 * n).map(|i| v6("emil", i as u16)).collect();
        let mut bytes4 = 0;
        for p in peers4.iter() {
            bytes4 += p.get_ipv4_bytes().unwrap().len();
        }
        let mut bytes6 = 0;
        for p in peers6.iter() {
            bytes6 += p.get_ipv6_bytes().unwrap().len();
        }
        assert_eq!(bytes4, 6 * peers4.len());
        assert_eq!(bytes6, 18 * peers6.len());
        let resp = AnnounceResponse::new(
            Peers { peers4: peers4, peers6: peers6 },
            stats(),
            true,
            1800,
            900,
        );
        let wire = bencode_announce(&resp);
        let head = format!("5:peers{}:", 6 * n as usize).into_bytes();
        let tail = format!("6:peers6{}:", 36 * n as usize).into_bytes();
        assert!(wire.windows(head.len()).any(|w| w == &head[..]));
        assert!(wire.windows(tail.len()).any(|w| w == &tail[..]));
    }
}

#[test]
fn long_announce_on_the_wire() {
    let peers = Peers { peers4: vec![v4("bert", 2)], peers6: vec![v6("cleo", 3)] };
    let resp = AnnounceResponse::new(peers, stats(), false, 60, 30);
    let expected = b"d8:completei1e10:downloadedi3e10:incompletei2e8:intervali60e\
12:min intervali30e\
5:peersld2:ip8:10.0.0.27:peer id4:bert4:port4:6881ee\
6:peers6ld2:ip11:2001:db8::37:peer id4:cleo4:port5:51413eee"
        .to_vec();
    assert_eq!(bencode_announce(&resp), expected);
}

#[test]
fn empty_announce_on_the_wire() {
    let peers = Peers { peers4: vec![], peers6: vec![] };
    let compact = AnnounceResponse::new(peers, stats(), true, 1800, 900);
    assert_eq!(
        bencode_announce(&compact),
        b"d8:completei1e10:downloadedi3e10:incompletei2e8:intervali1800e12:min intervali900e5:peers0:6:peers60:e"
            .to_vec()
    );
    let peers = Peers { peers4: vec![], peers6: vec![] };
    let long = AnnounceResponse::new(peers, stats(), false, 1800, 900);
    assert_eq!(
        bencode_announce(&long),
        b"d8:completei1e10:downloadedi3e10:incompletei2e8:intervali1800e12:min intervali900e5:peersle6:peers6lee"
            .to_vec()
    );
}

#[test]
fn intervals_are_capped() {
    assert_eq!(cap(0), 0);
    assert_eq!(cap(1800), 1800);
    assert_eq!(cap(i64::MAX as u64), i64::MAX);
    assert_eq!(cap(i64::MAX as u64 + 1), i64::MAX);
    assert_eq!(cap(u64::MAX), i64::MAX);
}

#[test]
fn scrape_on_the_wire() {
    let empty = ScrapeResponse { torrents: vec![] };
    assert_eq!(bencode_scrape(&empty), b"d5:filesdee".to_vec());
    let two = ScrapeResponse {
        torrents: vec![
            (String::from("bb"), Stats { complete: 5, incomplete: 6, downloaded: 7 }),
            (String::from("aa"), Stats { complete: 0, incomplete: 1, downloaded: 2 }),
        ],
    };
    assert_eq!(
        bencode_scrape(&two),
        b"d5:filesd2:aad8:completei0e10:downloadedi2e10:incompletei1ee2:bbd8:completei5e10:downloadedi7e10:incompletei6eeee"
            .to_vec()
    );
    assert_eq!(two.to_bencode(), bencode_scrape(&two));
}

#[test]
fn stats_as_text() {
    let s = StatsResponse { announce_rate: 12, scrape_rate: 0, torrents: 3, peers: 45, uptime: 600 };
    assert_eq!(
        display_stats(&s),
        b"Announces/s: 12\nScrapes/s: 0\nTorrents: 3\nPeers: 45\nUptime: 600".to_vec()
    );
    assert_eq!(SuccessResponse::Stats(s).http_resp(), display_stats(&s));
}

#[test]
fn result_on_the_wire() {
    let served: Result<SuccessResponse, ErrorResponse> =
        Ok(SuccessResponse::Scrape(ScrapeResponse { torrents: vec![] }));
    assert_eq!(serialize_resp(served), b"d5:filesdee".to_vec());
    let failed: Result<SuccessResponse, ErrorResponse> = Err(ErrorResponse::BadAction);
    assert_eq!(serialize_resp(failed), failure("Improper action sent."));
    let ok: Result<ScrapeResponse, ErrorResponse> = Ok(ScrapeResponse { torrents: vec![] });
    assert_eq!(bencode_result(ok), b"d5:filesdee".to_vec());
    let err: Result<ScrapeResponse, ErrorResponse> = Err(ErrorResponse::BadPeer);
    assert_eq!(bencode_result(err), failure("Your client is not allowed."));
    assert_eq!(bencode_resp(ErrorResponse::BadRequest), failure("Improper request sent."));
}

#[test]
fn bencode_values_are_built_by_calls() {
    match BencodeValue::number(-7) {
        BencodeValue::Int(n) => assert_eq!(n, -7),
        _ => panic!("a number is a number"),
    }
    match BencodeValue::text("ab") {
        BencodeValue::Bytes(b) => assert_eq!(b, vec![b'a', b'b']),
        _ => panic!("a text is a byte string"),
    }
    let (key, _) = BencodeValue::entry("k", BencodeValue::bytes(vec![1, 2]));
    assert_eq!(key, "k");
    match BencodeValue::list(vec![BencodeValue::number(1)]) {
        BencodeValue::List(items) => assert_eq!(items.len(), 1),
        _ => panic!("a list is a list"),
    }
    match BencodeValue::dict(vec![]) {
        BencodeValue::Dict(entries) => assert!(entries.is_empty()),
        _ => panic!("a dictionary is a dictionary"),
    }
}
