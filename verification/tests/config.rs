use torrent_tracker::config::{
    as_seconds, HttpConfig, MainConfig, PrivateConfig, TrackerConfig,
};

fn parse(text: &str) -> toml::Table {
    toml::Parser::new(text).parse().expect("the settings are well formed")
}

#[test]
fn standard_settings() {
    let t = TrackerConfig::default();
    assert_eq!(t.reap_interval, 120);
    assert_eq!(t.announce_interval, 1800);
    assert_eq!(t.min_announce_interval, 900);
    assert_eq!(t.min_torrent_update_interval, 2000);
    assert_eq!(t.min_peer_update_interval, 2000);
    let p = PrivateConfig::default();
    assert_eq!(p.flush_interval, 5);
    assert_eq!(p.update_interval, 900);
    assert_eq!(HttpConfig::default().listen_addr, "127.0.0.1:8000");
    let m = MainConfig::default();
    assert_eq!(m.tracker, t);
    assert_eq!(m.private, p);
    assert_eq!(m.http.listen_addr, "127.0.0.1:8000");
}

#[test]
fn settings_from_values() {
    let t = TrackerConfig::from_values(Some(1), None, Some(3), Some(-4), None);
    assert_eq!(t.reap_interval, 1);
    assert_eq!(t.announce_interval, 1800);
    assert_eq!(t.min_announce_interval, 3);
    assert_eq!(t.min_torrent_update_interval, -4);
    assert_eq!(t.min_peer_update_interval, 2000);
    assert_eq!(TrackerConfig::from_values(None, None, None, None, None), TrackerConfig::default());
    let p = PrivateConfig::from_values(None, Some(7));
    assert_eq!(p.flush_interval, 5);
    assert_eq!(p.update_interval, 7);
    assert_eq!(HttpConfig::from_values(Some(String::from("[::]:80"))).listen_addr, "[::]:80");
    assert_eq!(HttpConfig::from_values(None).listen_addr, "127.0.0.1:8000");
}

#[test]
fn seconds_below_zero_keep_their_bits() {
    assert_eq!(as_seconds(0), 0);
    assert_eq!(as_seconds(120), 120);
    assert_eq!(as_seconds(i64::MAX), i64::MAX as u64);
    assert_eq!(as_seconds(-1), u64::MAX);
    assert_eq!(as_seconds(-2), u64::MAX - 1);
    assert_eq!(as_seconds(i64::MIN), 1u64 << 63);
}

#[test]
fn settings_from_a_file() {
    let table = parse(
        "[tracker]\nreap_interval = 60\nannounce_interval = 600\nmin_announce_interval = 300\n\
         min_torrent_update_interval = 7200\nmin_peer_update_interval = 3600\n\
         [private]\nflush_interval = 1\nupdate_interval = 2\n\
         [http]\nlisten_addr = \"0.0.0.0:6969\"\n",
    );
    let m = MainConfig::from_toml(table);
    assert_eq!(m.tracker.reap_interval, 60);
    assert_eq!(m.tracker.announce_interval, 600);
    assert_eq!(m.tracker.min_announce_interval, 300);
    assert_eq!(m.tracker.min_torrent_update_interval, 7200);
    assert_eq!(m.tracker.min_peer_update_interval, 3600);
    assert_eq!(m.private.flush_interval, 1);
    assert_eq!(m.private.update_interval, 2);
    assert_eq!(m.http.listen_addr, "0.0.0.0:6969");
}

#[test]
fn settings_that_are_missing_are_standard() {
    let m = MainConfig::from_toml(parse(""));
    assert_eq!(m.tracker, TrackerConfig::default());
    assert_eq!(m.private, PrivateConfig::default());
    assert_eq!(m.http.listen_addr, "127.0.0.1:8000");
    let partly = parse("[tracker]\nreap_interval = 9\n[http]\n");
    let t = TrackerConfig::from_toml(&partly);
    assert_eq!(t.reap_interval, 9);
    assert_eq!(t.announce_interval, 1800);
    assert_eq!(t.min_torrent_update_interval, 2000);
    assert_eq!(t.min_peer_update_interval, 2000);
    assert_eq!(HttpConfig::from_toml(&partly).listen_addr, "127.0.0.1:8000");
    assert_eq!(PrivateConfig::from_toml(&partly), PrivateConfig::default());
}

#[test]
fn settings_of_another_kind_are_passed_over() {
    let table = parse(
        "tracker = 5\n[private]\nflush_interval = \"soon\"\nupdate_interval = 2.5\n\
         [http]\nlisten_addr = 8000\n",
    );
    let m = MainConfig::from_toml(table);
    assert_eq!(m.tracker, TrackerConfig::default());
    assert_eq!(m.private, PrivateConfig::default());
    assert_eq!(m.http.listen_addr, "127.0.0.1:8000");
}

#[test]
fn seconds_below_zero_in_a_file() {
    let table = parse("[tracker]\nreap_interval = -1\nmin_peer_update_interval = -1\n");
    let t = TrackerConfig::from_toml(&table);
    assert_eq!(t.reap_interval, u64::MAX);
    assert_eq!(t.min_peer_update_interval, -1);
}
