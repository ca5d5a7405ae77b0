use torrent_tracker::tracker::announce::{Action, Announce, AnnouncePeer, SocketV4, SocketV6};
use torrent_tracker::tracker::clock::{is_idle, whole_seconds};
use torrent_tracker::tracker::peer::Delta;
use torrent_tracker::tracker::torrent::{Peers, Stats, Torrent};

fn announce(peer: &str, action: Action, ul: u64, dl: u64, left: u64) -> Announce {
    Announce {
        info_hash: String::from("hash"),
        peer_id: String::from(peer),
        passkey: None,
        ipv4: Some(SocketV4 { ip: [10, 0, 0, 1], port: 6881 }),
        ipv6: None,
        ul: ul,
        dl: dl,
        left: left,
        action: action,
        numwant: 25,
        compact: true,
    }
}

fn counts(t: &Torrent) -> (i64, i64, i64) {
    let Stats { complete, incomplete, downloaded } = t.get_stats();
    assert_eq!(t.get_peer_count(), (complete + incomplete) as u64);
    (complete, incomplete, downloaded)
}

fn amounts(d: &Delta) -> (u64, u64, u64) {
    (d.upload, d.download, d.left)
}

fn with_seeder() -> Torrent {
    let mut t = Torrent::new_at(String::from("hash"), 1);
    t.update_at(&announce("peer", Action::Seeding, 100, 50, 0), 2);
    t
}

fn with_leecher() -> Torrent {
    let mut t = Torrent::new_at(String::from("hash"), 1);
    t.update_at(&announce("peer", Action::Leeching, 100, 50, 80), 2);
    t
}

#[test]
fn new_swarm_is_empty() {
    let t = Torrent::new_at(String::from("hash"), 9);
    assert_eq!(counts(&t), (0, 0, 0));
    assert_eq!(t.hash(), "hash");
    assert_eq!(t.last_action(), 9);
    let by_clock = Torrent::new(String::from("other"));
    assert_eq!(counts(&by_clock), (0, 0, 0));
    assert_eq!(by_clock.hash(), "other");
}

#[test]
fn seeder_that_seeds_is_updated_in_place() {
    let mut t = with_seeder();
    let d = t.update_at(&announce("peer", Action::Seeding, 130, 50, 0), 3);
    assert_eq!(amounts(&d), (30, 0, 0));
    assert_eq!(counts(&t), (1, 0, 0));
    assert_eq!(t.last_action(), 3);
}

#[test]
fn seeder_that_leeches_moves_to_the_leechers() {
    let mut t = with_seeder();
    let d = t.update_at(&announce("peer", Action::Leeching, 100, 70, 10), 3);
    assert_eq!(amounts(&d), (0, 20, 0));
    assert_eq!(counts(&t), (0, 1, 0));
}

#[test]
fn seeder_that_completes_is_counted_as_a_snatch() {
    let mut t = with_seeder();
    let d = t.update_at(&announce("peer", Action::Completed, 101, 51, 0), 3);
    assert_eq!(amounts(&d), (1, 1, 0));
    assert_eq!(counts(&t), (1, 0, 1));
}

#[test]
fn seeder_that_stops_is_removed() {
    let mut t = with_seeder();
    let d = t.update_at(&announce("peer", Action::Stopped, 110, 50, 0), 3);
    assert_eq!(amounts(&d), (10, 0, 0));
    assert_eq!(counts(&t), (0, 0, 0));
}

#[test]
fn leecher_that_seeds_moves_to_the_seeders() {
    let mut t = with_leecher();
    let d = t.update_at(&announce("peer", Action::Seeding, 100, 130, 0), 3);
    assert_eq!(amounts(&d), (0, 80, 80));
    assert_eq!(counts(&t), (1, 0, 0));
}

#[test]
fn leecher_that_leeches_is_updated_in_place() {
    let mut t = with_leecher();
    let d = t.update_at(&announce("peer", Action::Leeching, 90, 60, 70), 3);
    assert_eq!(amounts(&d), (0, 10, 10));
    assert_eq!(counts(&t), (0, 1, 0));
}

#[test]
fn leecher_that_completes_moves_and_is_counted() {
    let mut t = with_leecher();
    let d = t.update_at(&announce("peer", Action::Completed, 100, 130, 0), 3);
    assert_eq!(amounts(&d), (0, 80, 80));
    assert_eq!(counts(&t), (1, 0, 1));
}

#[test]
fn leecher_that_stops_is_removed() {
    let mut t = with_leecher();
    let d = t.update_at(&announce("peer", Action::Stopped, 100, 50, 90), 3);
    assert_eq!(amounts(&d), (0, 0, 0));
    assert_eq!(counts(&t), (0, 0, 0));
}

#[test]
fn first_announce_adds_nothing_whatever_it_reports() {
    for action in [Action::Seeding, Action::Leeching, Action::Completed, Action::Stopped] {
        let mut a = announce("peer", action, 1000, 2000, 3000);
        a.passkey = Some(String::from("key"));
        let mut t = Torrent::new_at(String::from("hash"), 1);
        let d = t.update_at(&a, 2);
        assert_eq!(amounts(&d), (0, 0, 0));
        assert_eq!(d.peer_id, "peer");
        assert_eq!(d.passkey, Some(String::from("key")));
    }
}

#[test]
fn stranger_is_placed_by_its_action() {
    let mut t = Torrent::new_at(String::from("hash"), 1);
    t.update_at(&announce("a", Action::Seeding, 0, 0, 0), 2);
    assert_eq!(counts(&t), (1, 0, 0));
    t.update_at(&announce("b", Action::Leeching, 0, 0, 5), 2);
    assert_eq!(counts(&t), (1, 1, 0));
    t.update_at(&announce("c", Action::Completed, 0, 0, 0), 2);
    assert_eq!(counts(&t), (2, 1, 1));
    t.update_at(&announce("d", Action::Stopped, 0, 0, 0), 2);
    assert_eq!(counts(&t), (2, 1, 1));
}

#[test]
fn peer_is_in_one_list_whatever_it_announces() {
    let mut t = Torrent::new_at(String::from("hash"), 1);
    let steps = [
        Action::Leeching,
        Action::Seeding,
        Action::Seeding,
        Action::Leeching,
        Action::Completed,
        Action::Completed,
        Action::Leeching,
        Action::Stopped,
        Action::Stopped,
        Action::Completed,
    ];
    for (i, action) in steps.iter().enumerate() {
        t.update_at(&announce("peer", *action, 0, 0, 1), i as u64);
        let (complete, incomplete, _) = counts(&t);
        let expected = match action {
            Action::Seeding | Action::Completed => (1, 0),
            Action::Leeching => (0, 1),
            Action::Stopped => (0, 0),
        };
        assert_eq!((complete, incomplete), expected);
        assert!(t.get_peer_count() <= 1);
    }
    assert_eq!(counts(&t).2, 3);
}

#[test]
fn update_by_the_clock() {
    let mut t = Torrent::new(String::from("hash"));
    let d = t.update(&announce("peer", Action::Leeching, 5, 5, 5));
    assert_eq!(amounts(&d), (0, 0, 0));
    assert_eq!(counts(&t), (0, 1, 0));
    t.reap(1_000_000);
    assert_eq!(counts(&t), (0, 1, 0));
    t.reap(-1);
    assert_eq!(counts(&t), (0, 0, 0));
}

#[test]
fn sample_has_no_more_peers_than_wanted_and_none_twice() {
    let mut t = Torrent::new_at(String::from("hash"), 1);
    for i in 0..6u8 {
        let mut a = announce(&format!("seeder{}", i), Action::Seeding, 0, 0, 0);
        a.ipv4 = Some(SocketV4 { ip: [10, 0, 0, i], port: 1 });
        if i % 2 == 0 {
            a.ipv6 = Some(SocketV6 { ip: [1, 0, 0, 0, 0, 0, 0, i as u16], port: 1 });
        }
        t.update_at(&a, 2);
        let mut b = announce(&format!("leecher{}", i), Action::Leeching, 0, 0, 9);
        b.ipv4 = None;
        b.ipv6 = Some(SocketV6 { ip: [2, 0, 0, 0, 0, 0, 0, i as u16], port: 1 });
        t.update_at(&b, 2);
    }
    for action in [Action::Seeding, Action::Leeching, Action::Completed, Action::Stopped] {
        for wanted in 0..16u8 {
            let Peers { peers4, peers6 } = t.get_peers(wanted, action);
            let mut ids: Vec<String> = peers4.iter().chain(peers6.iter()).map(|p| p.id.clone()).collect();
            ids.sort();
            ids.dedup();
            assert!(ids.len() <= wanted as usize);
            let dual = peers4.iter().filter(|p| p.ipv6.is_some()).count();
            assert_eq!(peers4.len() + peers6.len(), ids.len() + dual);
            assert!(peers4.iter().all(|p| p.ipv4.is_some()));
            assert!(peers6.iter().all(|p| p.ipv6.is_some()));
            let expected = match action {
                Action::Stopped => 0,
                Action::Leeching => std::cmp::min(wanted as usize, 12),
                _ => std::cmp::min(wanted as usize, 6),
            };
            assert_eq!(ids.len(), expected);
            if action == Action::Leeching && wanted <= 6 {
                assert!(ids.iter().all(|id| id.starts_with("seeder")));
            }
            if action == Action::Seeding || action == Action::Completed {
                assert!(ids.iter().all(|id| id.starts_with("leecher")));
            }
        }
    }
}

#[test]
fn reap_drops_the_idle_and_keeps_the_order() {
    let mut t = Torrent::new_at(String::from("hash"), 0);
    let second = 1_000_000_000u64;
    for (i, at) in [1u64, 5, 2, 6, 3].iter().enumerate() {
        let mut a = announce(&format!("s{}", i), Action::Seeding, 0, 0, 0);
        a.ipv4 = Some(SocketV4 { ip: [10, 0, 0, i as u8], port: 1 });
        t.update_at(&a, at * second);
    }
    t.update_at(&announce("l0", Action::Leeching, 0, 0, 1), 1 * second);
    t.update_at(&announce("l1", Action::Leeching, 0, 0, 1), 6 * second);
    // At seven seconds with a limit of three, what was last seen before
    // four is gone.
    t.reap_at(3, 7 * second);
    assert_eq!(counts(&t), (2, 1, 0));
    let left = t.get_peers(10, Action::Leeching);
    let ids: Vec<&str> = left.peers4.iter().map(|p| p.id.as_str()).collect();
    assert_eq!(ids, vec!["s1", "s3", "l1"]);
}

#[test]
fn idle_is_more_than_the_limit() {
    let second = 1_000_000_000u64;
    assert!(!is_idle(2 * second, second, 1));
    assert!(is_idle(2 * second + 1, second, 1));
    assert!(!is_idle(second, 2 * second, 0));
    assert!(is_idle(second, second, -1));
    assert!(!is_idle(5, 5, 0));
    assert!(is_idle(6, 5, 0));
    assert!(!is_idle(u64::MAX, 0, i64::MAX));
    assert!(is_idle(0, u64::MAX, i64::MIN));
}

#[test]
fn whole_seconds_between_readings() {
    let second = 1_000_000_000u64;
    assert_eq!(whole_seconds(0, 0), 0);
    assert_eq!(whole_seconds(0, second - 1), 0);
    assert_eq!(whole_seconds(0, second), 1);
    assert_eq!(whole_seconds(second, 3 * second + 5), 2);
    assert_eq!(whole_seconds(3 * second, second), 0);
}

#[test]
fn listing_is_well_formed_when_every_peer_has_its_endpoint() {
    let a = announce("peer", Action::Seeding, 0, 0, 0);
    let mut t = Torrent::new_at(String::from("hash"), 0);
    t.update_at(&a, 1);
    let mut peers = t.get_peers(5, Action::Leeching);
    assert!(peers.is_wf());
    let copy = AnnouncePeer { id: peers.peers4[0].id.clone(), ipv4: peers.peers4[0].ipv4, ipv6: None };
    peers.peers6.push(copy);
    assert!(!peers.is_wf());
}
