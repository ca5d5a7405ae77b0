use torrent_tracker::tracker::announce::{Action, Announce};
use torrent_tracker::tracker::peer::Peer;

#[test]
fn create_from_announce() {
    let pid = String::from("pid");
    let ipv4 = None;
    let ipv6 = None;
    let ul = 1;
    let dl = 1;
    let left = 1;
    let announce = Announce {
        info_hash: String::from("hash"),
        peer_id: pid.clone(),
        passkey: None,
        ipv4: ipv4.clone(),
        ipv6: ipv6.clone(),
        ul: ul,
        dl: dl,
        left: left,
        action: Action::Seeding,
        numwant: 1,
        compact: true,
    };
    let peer = Peer::new(&announce);
    assert!(peer.uploaded == ul);
    assert!(peer.downloaded == dl);
    assert!(peer.left == left);
    assert!(peer.id == pid);
    assert!(peer.ipv4 == ipv4);
    assert!(peer.ipv6 == ipv6);
}

#[test]
fn peer_update() {
    let pid = String::from("pid");
    let ul = 1;
    let dl = 1;
    let left = 1;

    let announce = Announce {
        info_hash: String::from("hash"),
        peer_id: pid.clone(),
        passkey: None,
        ipv4: None,
        ipv6: None,
        ul: ul,
        dl: dl,
        left: left,
        action: Action::Seeding,
        numwant: 1,
        compact: true,
    };

    let ul_2 = 2;
    let dl_2 = 2;
    let left_2 = 0;

    let announce2 = Announce {
        info_hash: String::from("hash"),
        peer_id: pid.clone(),
        passkey: None,
        ipv4: None,
        ipv6: None,
        ul: ul_2,
        dl: dl_2,
        left: left_2,
        action: Action::Seeding,
        numwant: 1,
        compact: true,
    };
    let mut peer = Peer::new(&announce);
    let delta = peer.update(&announce2);

    assert!(delta.upload == ul_2 - ul);
    assert!(delta.download == dl_2 - dl);
    assert!(delta.left == left - left_2);
}

#[test]
fn delta_computation() {
    let mut first = Announce {
        info_hash: String::from("hash"),
        peer_id: String::from("P2"),
        passkey: None,
        ipv4: None,
        ipv6: None,
        ul: 100,
        dl: 50,
        left: 0,
        action: Action::Seeding,
        numwant: 25,
        compact: true,
    };
    let mut peer = Peer::new_at(&first, 7);
    first.ul = 150;
    first.dl = 40;
    let delta = peer.update_at(&first, 9);
    assert_eq!(delta.upload, 50);
    assert_eq!(delta.download, 0);
    assert_eq!(delta.left, 0);
    assert_eq!(delta.peer_id, "P2");
    assert_eq!(peer.uploaded, 150);
    assert_eq!(peer.downloaded, 40);
    assert_eq!(peer.last_action, 9);
}

#[test]
fn left_that_grows_is_no_decrease() {
    let mut a = Announce {
        info_hash: String::from("hash"),
        peer_id: String::from("P"),
        passkey: None,
        ipv4: None,
        ipv6: None,
        ul: 0,
        dl: 0,
        left: 10,
        action: Action::Leeching,
        numwant: 25,
        compact: true,
    };
    let mut peer = Peer::new_at(&a, 1);
    a.left = 30;
    assert_eq!(peer.update_at(&a, 2).left, 0);
    a.left = 5;
    assert_eq!(peer.update_at(&a, 3).left, 25);
}
