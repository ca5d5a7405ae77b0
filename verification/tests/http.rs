use torrent_tracker::config::{PrivateConfig, TrackerConfig};
use torrent_tracker::http::params::{get_from_params, get_number, parse_number};
use torrent_tracker::http::target::{address_texts, split_target};
use torrent_tracker::http::{
    get_action, get_ips, get_socket, handle_req, handle_req_at, handle_url, handle_url_at,
    request_to_announce, request_to_scrape, IpAddr, RequestAddrs, SocketAddr,
};
use torrent_tracker::private::PrivateTracker;
use torrent_tracker::response::error::ErrorResponse;
use torrent_tracker::response::success::SuccessResponse;
use torrent_tracker::tracker::announce::{Action, Announce, SocketV4, SocketV6};
use torrent_tracker::tracker::Tracker;

fn pairs(list: &[(&str, &str)]) -> Vec<(String, String)> {
    list.iter().map(|(k, v)| (String::from(*k), String::from(*v))).collect()
}

fn remote() -> SocketAddr {
    SocketAddr::V4(SocketV4 { ip: [192, 0, 2, 7], port: 40000 })
}

fn addrs() -> RequestAddrs {
    RequestAddrs {
        remote: remote(),
        forwarded: None,
        ip: None,
        ipv4_ip: None,
        ipv4_socket: None,
        ipv6_ip: None,
        ipv6_socket: None,
    }
}

fn hooks() -> PrivateTracker {
    PrivateTracker::new(PrivateConfig::default())
}

fn basic() -> Vec<(String, String)> {
    pairs(&[
        ("info_hash", "AAAAAAAAAAAAAAAAAAAA"),
        ("peer_id", "anna"),
        ("port", "6881"),
        ("uploaded", "1"),
        ("downloaded", "2"),
        ("left", "3"),
    ])
}

fn without(key: &str) -> Vec<(String, String)> {
    basic().into_iter().filter(|(k, _)| k != key).collect()
}

fn with(extra: &[(&str, &str)]) -> Vec<(String, String)> {
    let mut all = basic();
    all.extend(pairs(extra));
    all
}

fn read(params: Vec<(String, String)>) -> Result<Announce, ErrorResponse> {
    request_to_announce(&hooks(), Some(params), None, &addrs())
}

fn refused(params: Vec<(String, String)>) -> ErrorResponse {
    match read(params) {
        Ok(_) => panic!("the request should have been turned down"),
        Err(e) => e,
    }
}

#[test]
fn numbers_are_read_as_the_std_reads_them() {
    assert_eq!(parse_number("0", u64::MAX), Some(0));
    assert_eq!(parse_number("42", u64::MAX), Some(42));
    assert_eq!(parse_number("+42", u64::MAX), Some(42));
    assert_eq!(parse_number("007", u64::MAX), Some(7));
    assert_eq!(parse_number("18446744073709551615", u64::MAX), Some(u64::MAX));
    assert_eq!(parse_number("18446744073709551616", u64::MAX), None);
    assert_eq!(parse_number("99999999999999999999999", u64::MAX), None);
    assert_eq!(parse_number("", u64::MAX), None);
    assert_eq!(parse_number("+", u64::MAX), None);
    assert_eq!(parse_number("-1", u64::MAX), None);
    assert_eq!(parse_number("-0", u64::MAX), None);
    assert_eq!(parse_number("1a", u64::MAX), None);
    assert_eq!(parse_number(" 1", u64::MAX), None);
    assert_eq!(parse_number("1 ", u64::MAX), None);
    assert_eq!(parse_number("++1", u64::MAX), None);
    assert_eq!(parse_number("\u{663}", u64::MAX), None);
    assert_eq!(parse_number("255", 255), Some(255));
    assert_eq!(parse_number("256", 255), None);
    assert_eq!(parse_number("65535", 65535), Some(65535));
    assert_eq!(parse_number("65536", 65535), None);
    assert_eq!(parse_number("5", 3), None);
    assert_eq!(parse_number("3", 3), Some(3));
    for text in ["0", "+9", "12", "255", "256", "", "+", "-3", "0x10", "1_0", "٣"] {
        assert_eq!(parse_number(text, 255), text.parse::<u8>().ok().map(|n| n as u64));
        assert_eq!(parse_number(text, u64::MAX), text.parse::<u64>().ok());
    }
}

#[test]
fn last_parameter_of_a_name_counts() {
    let params = pairs(&[("a", "1"), ("b", "2"), ("a", "3")]);
    assert_eq!(get_from_params(&params, "a"), Ok(String::from("3")));
    assert_eq!(get_from_params(&params, "b"), Ok(String::from("2")));
    assert_eq!(get_from_params(&params, "c"), Err(ErrorResponse::BadRequest));
    assert_eq!(get_number(&params, "a", 255), Ok(3));
    assert_eq!(get_number(&params, "c", 255), Err(ErrorResponse::BadRequest));
    let bad = pairs(&[("a", "x")]);
    assert_eq!(get_number(&bad, "a", 255), Err(ErrorResponse::BadRequest));
}

#[test]
fn action_without_event() {
    assert_eq!(get_action(0), Action::Seeding);
    assert_eq!(get_action(1), Action::Leeching);
    assert_eq!(get_action(u64::MAX), Action::Leeching);
}

#[test]
fn announce_is_read_from_parameters() {
    let a = read(basic()).unwrap();
    assert_eq!(a.info_hash, "AAAAAAAAAAAAAAAAAAAA");
    assert_eq!(a.peer_id, "anna");
    assert_eq!(a.passkey, None);
    assert_eq!(a.ul, 1);
    assert_eq!(a.dl, 2);
    assert_eq!(a.left, 3);
    assert_eq!(a.action, Action::Leeching);
    assert_eq!(a.numwant, 25);
    assert!(a.compact);
    // The connection's own port goes with the connection's address.
    assert_eq!(a.ipv4, Some(SocketV4 { ip: [192, 0, 2, 7], port: 40000 }));
    assert_eq!(a.ipv6, None);
}

#[test]
fn passkey_goes_into_the_announce() {
    let a = request_to_announce(&hooks(), Some(basic()), Some(String::from("key")), &addrs())
        .unwrap();
    assert_eq!(a.passkey, Some(String::from("key")));
}

#[test]
fn event_decides_the_action() {
    assert_eq!(read(with(&[("event", "stopped")])).unwrap().action, Action::Stopped);
    assert_eq!(read(with(&[("event", "completed")])).unwrap().action, Action::Completed);
    assert_eq!(read(with(&[("event", "started")])).unwrap().action, Action::Leeching);
    assert_eq!(read(with(&[("event", "paused")])).unwrap().action, Action::Leeching);
    assert_eq!(read(with(&[("event", "")])).unwrap().action, Action::Leeching);
    let mut seeding = without("left");
    seeding.extend(pairs(&[("left", "0"), ("event", "started")]));
    assert_eq!(read(seeding).unwrap().action, Action::Seeding);
    let mut no_event = without("left");
    no_event.extend(pairs(&[("left", "0")]));
    assert_eq!(read(no_event).unwrap().action, Action::Seeding);
}

#[test]
fn numwant_is_clamped() {
    assert_eq!(read(with(&[("numwant", "0")])).unwrap().numwant, 0);
    assert_eq!(read(with(&[("numwant", "5")])).unwrap().numwant, 5);
    assert_eq!(read(with(&[("numwant", "25")])).unwrap().numwant, 25);
    assert_eq!(read(with(&[("numwant", "26")])).unwrap().numwant, 25);
    assert_eq!(read(with(&[("numwant", "255")])).unwrap().numwant, 25);
    assert_eq!(read(with(&[("numwant", "256")])).unwrap().numwant, 25);
    assert_eq!(read(with(&[("numwant", "many")])).unwrap().numwant, 25);
}

#[test]
fn compact_unless_asked_otherwise() {
    assert!(read(with(&[("compact", "1")])).unwrap().compact);
    assert!(read(with(&[("compact", "2")])).unwrap().compact);
    assert!(!read(with(&[("compact", "0")])).unwrap().compact);
    assert!(read(with(&[("compact", "no")])).unwrap().compact);
}

#[test]
fn announce_without_parameters_is_a_bad_request() {
    match request_to_announce(&hooks(), None, None, &addrs()) {
        Err(e) => assert_eq!(e, ErrorResponse::BadRequest),
        Ok(_) => panic!("the request should have been turned down"),
    }
}

#[test]
fn missing_parameter_is_a_bad_request() {
    for key in ["info_hash", "peer_id", "port", "uploaded", "downloaded", "left"] {
        assert_eq!(refused(without(key)), ErrorResponse::BadRequest);
    }
}

#[test]
fn number_that_is_none_is_a_bad_request() {
    for key in ["port", "uploaded", "downloaded", "left"] {
        let mut params = without(key);
        params.push((String::from(key), String::from("x")));
        assert_eq!(refused(params), ErrorResponse::BadRequest);
    }
    let mut params = without("port");
    params.push((String::from("port"), String::from("65536")));
    assert_eq!(refused(params), ErrorResponse::BadRequest);
}

#[test]
fn more_than_ten_parameters_are_a_bad_request() {
    let ten = with(&[("event", "started"), ("numwant", "1"), ("compact", "1"), ("x", "y")]);
    assert_eq!(ten.len(), 10);
    assert!(read(ten).is_ok());
    let eleven = with(&[
        ("event", "started"),
        ("numwant", "1"),
        ("compact", "1"),
        ("x", "y"),
        ("z", "w"),
    ]);
    assert_eq!(eleven.len(), 11);
    assert_eq!(refused(eleven), ErrorResponse::BadRequest);
}

#[test]
fn oversize_identifiers_are_a_bad_request() {
    let forty = "h".repeat(40);
    let mut params = without("info_hash");
    params.push((String::from("info_hash"), forty));
    assert!(read(params).is_ok());
    let mut params = without("info_hash");
    params.push((String::from("info_hash"), "h".repeat(41)));
    assert_eq!(refused(params), ErrorResponse::BadRequest);
    let mut params = without("peer_id");
    params.push((String::from("peer_id"), "p".repeat(30)));
    assert!(read(params).is_ok());
    let mut params = without("peer_id");
    params.push((String::from("peer_id"), "p".repeat(31)));
    assert_eq!(refused(params), ErrorResponse::BadRequest);
    // Lengths are counted in bytes.
    let mut params = without("peer_id");
    params.push((String::from("peer_id"), "é".repeat(16)));
    assert_eq!(refused(params), ErrorResponse::BadRequest);
}

#[test]
fn named_socket() {
    let ip4 = IpAddr::V4([10, 0, 0, 1]);
    let sock6 = SocketAddr::V6(SocketV6 { ip: [1, 2, 3, 4, 5, 6, 7, 8], port: 9 });
    assert_eq!(get_socket(None, None, 6881), None);
    assert_eq!(
        get_socket(Some(ip4), None, 6881),
        Some(SocketAddr::V4(SocketV4 { ip: [10, 0, 0, 1], port: 6881 }))
    );
    assert_eq!(get_socket(None, Some(sock6), 6881), Some(sock6));
    assert_eq!(get_socket(Some(ip4), Some(sock6), 6881), None);
    assert_eq!(
        SocketAddr::new(IpAddr::V6([0, 0, 0, 0, 0, 0, 0, 1]), 80),
        SocketAddr::V6(SocketV6 { ip: [0, 0, 0, 0, 0, 0, 0, 1], port: 80 })
    );
}

#[test]
fn ip_parameter_comes_before_header_and_connection() {
    let mut a = addrs();
    a.forwarded = Some(IpAddr::V4([198, 51, 100, 1]));
    assert_eq!(get_ips(&a, 6881), (Some(SocketV4 { ip: [198, 51, 100, 1], port: 6881 }), None));
    a.ip = Some(IpAddr::V4([203, 0, 113, 9]));
    assert_eq!(get_ips(&a, 6881), (Some(SocketV4 { ip: [203, 0, 113, 9], port: 6881 }), None));
    assert_eq!(
        get_ips(&addrs(), 6881),
        (Some(SocketV4 { ip: [192, 0, 2, 7], port: 40000 }), None)
    );
}

#[test]
fn second_endpoint_is_of_the_other_protocol() {
    let six = [0x2001, 0xdb8, 0, 0, 0, 0, 0, 1];
    let mut a = addrs();
    a.ipv6_ip = Some(IpAddr::V6(six));
    a.ipv4_ip = Some(IpAddr::V4([1, 1, 1, 1]));
    assert_eq!(
        get_ips(&a, 6881),
        (
            Some(SocketV4 { ip: [192, 0, 2, 7], port: 40000 }),
            Some(SocketV6 { ip: six, port: 6881 })
        )
    );
    // An IPv4 address under `ipv6` is no IPv6 endpoint.
    let mut b = addrs();
    b.ipv6_ip = Some(IpAddr::V4([1, 1, 1, 1]));
    assert_eq!(get_ips(&b, 6881).1, None);
    // With an IPv6 primary the parameter `ipv4` is looked at.
    let mut c = addrs();
    c.remote = SocketAddr::V6(SocketV6 { ip: six, port: 50000 });
    c.ipv4_socket = Some(SocketAddr::V4(SocketV4 { ip: [1, 1, 1, 1], port: 1234 }));
    c.ipv6_ip = Some(IpAddr::V6([9, 9, 9, 9, 9, 9, 9, 9]));
    assert_eq!(
        get_ips(&c, 6881),
        (
            Some(SocketV4 { ip: [1, 1, 1, 1], port: 1234 }),
            Some(SocketV6 { ip: six, port: 50000 })
        )
    );
}

#[test]
fn scrape_is_read_from_parameters() {
    let s = request_to_scrape(Some(pairs(&[("info_hash", "a"), ("x", "b"), ("info_hash", "a")])))
        .unwrap();
    assert_eq!(s.torrents, vec!["a", "b", "a"]);
    assert!(request_to_scrape(Some(vec![])).unwrap().torrents.is_empty());
    match request_to_scrape(None) {
        Err(e) => assert_eq!(e, ErrorResponse::BadRequest),
        Ok(_) => panic!("the request should have been turned down"),
    }
}

fn tracker(private: bool) -> Tracker {
    let hooks = if private {
        PrivateTracker::new_enabled(PrivateConfig::default())
    } else {
        PrivateTracker::new(PrivateConfig::default())
    };
    Tracker::new_at(TrackerConfig::default(), hooks, 0)
}

fn error_of(result: Result<SuccessResponse, ErrorResponse>) -> ErrorResponse {
    match result {
        Ok(_) => panic!("the request should have been turned down"),
        Err(e) => e,
    }
}

#[test]
fn requests_are_routed_by_path() {
    let mut t = tracker(false);
    let path = String::from("announce");
    match handle_req_at(&mut t, &path, Some(basic()), None, &addrs(), 5) {
        Ok(SuccessResponse::Announce(resp)) => assert_eq!(resp.stats().incomplete, 1),
        _ => panic!("an announce is answered as an announce"),
    }
    let path = String::from("scrape");
    match handle_req_at(
        &mut t,
        &path,
        Some(pairs(&[("info_hash", "AAAAAAAAAAAAAAAAAAAA")])),
        None,
        &addrs(),
        6,
    ) {
        Ok(SuccessResponse::Scrape(resp)) => {
            assert_eq!(resp.torrents.len(), 1);
            assert_eq!(resp.torrents[0].1.incomplete, 1);
        },
        _ => panic!("a scrape is answered as a scrape"),
    }
    let path = String::from("stats");
    match handle_req_at(&mut t, &path, None, None, &addrs(), 3_000_000_000) {
        Ok(SuccessResponse::Stats(s)) => {
            assert_eq!(s.torrents, 1);
            assert_eq!(s.peers, 1);
            assert_eq!(s.uptime, 3);
            assert_eq!(s.announce_rate, 0);
        },
        _ => panic!("stats are answered as stats"),
    }
    let path = String::from("elsewhere");
    assert_eq!(
        error_of(handle_req_at(&mut t, &path, None, None, &addrs(), 7)),
        ErrorResponse::BadAction
    );
    let path = String::from("announce");
    assert_eq!(
        error_of(handle_req_at(&mut t, &path, None, None, &addrs(), 7)),
        ErrorResponse::BadRequest
    );
    let path = String::from("scrape");
    assert_eq!(
        error_of(handle_req_at(&mut t, &path, None, None, &addrs(), 7)),
        ErrorResponse::BadRequest
    );
    assert_eq!(t.stats().announces, 1);
    assert_eq!(t.stats().scrapes, 1);
}

#[test]
fn public_tracker_takes_a_path_of_one_segment() {
    let mut t = tracker(false);
    let one = vec![String::from("stats")];
    assert!(handle_url_at(&mut t, Some(&one), None, &addrs(), 1).is_ok());
    let two = vec![String::from("key"), String::from("stats")];
    assert_eq!(
        error_of(handle_url_at(&mut t, Some(&two), None, &addrs(), 1)),
        ErrorResponse::BadRequest
    );
    let none: Vec<String> = vec![];
    assert_eq!(
        error_of(handle_url_at(&mut t, Some(&none), None, &addrs(), 1)),
        ErrorResponse::BadRequest
    );
    assert_eq!(error_of(handle_url_at(&mut t, None, None, &addrs(), 1)), ErrorResponse::BadAction);
}

#[test]
fn private_tracker_takes_a_passkey_first() {
    let mut t = tracker(true);
    let one = vec![String::from("announce")];
    assert_eq!(
        error_of(handle_url_at(&mut t, Some(&one), Some(basic()), &addrs(), 1)),
        ErrorResponse::BadRequest
    );
    let two = vec![String::from("key"), String::from("announce")];
    assert!(handle_url_at(&mut t, Some(&two), Some(basic()), &addrs(), 1).is_ok());
    let deltas = t.private.flush();
    assert_eq!(deltas.len(), 1);
    assert_eq!(deltas[0].passkey, Some(String::from("key")));
}

#[test]
fn request_is_served_by_the_clock() {
    let mut t = tracker(false);
    let one = vec![String::from("announce")];
    match handle_url(&mut t, Some(&one), Some(basic()), &addrs()) {
        Ok(SuccessResponse::Announce(resp)) => assert_eq!(resp.stats().incomplete, 1),
        _ => panic!("an announce is answered as an announce"),
    }
    assert_eq!(t.stats().peers, 1);
    let path = String::from("scrape");
    let asked = Some(pairs(&[("info_hash", "AAAAAAAAAAAAAAAAAAAA")]));
    match handle_req(&mut t, &path, asked, None, &addrs()) {
        Ok(SuccessResponse::Scrape(resp)) => assert_eq!(resp.torrents.len(), 1),
        _ => panic!("a scrape is answered as a scrape"),
    }
}

#[test]
fn target_is_taken_apart() {
    let t = split_target("/announce?info_hash=%41%42&peer_id=a+b&port=1");
    assert_eq!(t.path, Some(vec![String::from("announce")]));
    assert_eq!(
        t.params,
        Some(pairs(&[("info_hash", "AB"), ("peer_id", "a b"), ("port", "1")]))
    );
    let t = split_target("/key/scrape?info_hash=x&info_hash=y");
    assert_eq!(t.path, Some(vec![String::from("key"), String::from("scrape")]));
    assert_eq!(t.params, Some(pairs(&[("info_hash", "x"), ("info_hash", "y")])));
    let t = split_target("/stats");
    assert_eq!(t.path, Some(vec![String::from("stats")]));
    assert_eq!(t.params, None);
    let t = split_target("/stats?");
    assert_eq!(t.params, Some(vec![]));
}

#[test]
fn address_parameters_are_picked_out() {
    let params = Some(pairs(&[("ip", "10.0.0.1"), ("ipv6", "::1"), ("ip", "10.0.0.2")]));
    let texts = address_texts(&params);
    assert_eq!(texts.ip, Some(String::from("10.0.0.2")));
    assert_eq!(texts.ipv4, None);
    assert_eq!(texts.ipv6, Some(String::from("::1")));
    let texts = address_texts(&None);
    assert_eq!(texts.ip, None);
    assert_eq!(texts.ipv4, None);
    assert_eq!(texts.ipv6, None);
}
