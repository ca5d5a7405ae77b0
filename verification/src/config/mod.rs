//! The settings of the tracker.

use vstd::prelude::*;

verus! {

/// The settings of the swarm registry. The first three are in seconds;
/// the last two are the idle limits of torrents and of peers, in seconds.
#[derive(Clone, Copy, Debug, PartialEq, Eq, Structural)]
pub struct TrackerConfig {
    pub reap_interval: u64,
    pub announce_interval: u64,
    pub min_announce_interval: u64,
    pub min_torrent_update_interval: i64,
    pub min_peer_update_interval: i64,
}

impl TrackerConfig {
    /// The settings of a tracker that was given none.
    pub open spec fn standard() -> TrackerConfig {
        TrackerConfig {
            reap_interval: 120,
            announce_interval: 1800,
            min_announce_interval: 900,
            min_torrent_update_interval: 2000,
            min_peer_update_interval: 2000,
        }
    }
}

/// A number of seconds read from a settings file as a length of time:
/// the number itself, and for one below zero the number that has the
/// same 64 bits.
pub open spec fn wrapped(seconds: i64) -> u64 {
    if seconds >= 0 {
        seconds as u64
    } else {
        (seconds + 0x1_0000_0000_0000_0000) as u64
    }
}

/// A number of seconds read from a settings file as a length of time.
pub fn as_seconds(seconds: i64) -> (length: u64)
    ensures
        length == wrapped(seconds),
{
    if seconds >= 0 {
        seconds as u64
    } else {
        u64::MAX - ((-(seconds + 1)) as u64)
    }
}

/// The length of time that a settings file gives, or the standard one.
pub open spec fn seconds_or(found: Option<i64>, standard: u64) -> u64 {
    match found {
        Some(seconds) => wrapped(seconds),
        None => standard,
    }
}

/// The idle limit that a settings file gives, or the standard one.
pub open spec fn limit_or(found: Option<i64>, standard: i64) -> i64 {
    match found {
        Some(seconds) => seconds,
        None => standard,
    }
}

/// The length of time that a settings file gives, or the standard one.
fn length_or(found: Option<i64>, standard: u64) -> (length: u64)
    ensures
        length == seconds_or(found, standard),
{
    match found {
        Some(seconds) => as_seconds(seconds),
        None => standard,
    }
}

impl TrackerConfig {
    /// The settings read from a file in which each of the five keys was
    /// found with an integer, or was not: what is missing is standard.
    pub open spec fn read(
        reap_interval: Option<i64>,
        announce_interval: Option<i64>,
        min_announce_interval: Option<i64>,
        min_torrent_update_interval: Option<i64>,
        min_peer_update_interval: Option<i64>,
    ) -> TrackerConfig {
        TrackerConfig {
            reap_interval: seconds_or(reap_interval, 120),
            announce_interval: seconds_or(announce_interval, 1800),
            min_announce_interval: seconds_or(min_announce_interval, 900),
            min_torrent_update_interval: limit_or(min_torrent_update_interval, 2000),
            min_peer_update_interval: limit_or(min_peer_update_interval, 2000),
        }
    }

    /// The settings read from a file in which each of the five keys was
    /// found with an integer, or was not.
    pub fn from_values(
        reap_interval: Option<i64>,
        announce_interval: Option<i64>,
        min_announce_interval: Option<i64>,
        min_torrent_update_interval: Option<i64>,
        min_peer_update_interval: Option<i64>,
    ) -> (config: TrackerConfig)
        ensures
            config == TrackerConfig::read(
                reap_interval,
                announce_interval,
                min_announce_interval,
                min_torrent_update_interval,
                min_peer_update_interval,
            ),
    {
        TrackerConfig {
            reap_interval: length_or(reap_interval, 120),
            announce_interval: length_or(announce_interval, 1800),
            min_announce_interval: length_or(min_announce_interval, 900),
            min_torrent_update_interval: match min_torrent_update_interval {
                Some(seconds) => seconds,
                None => 2000,
            },
            min_peer_update_interval: match min_peer_update_interval {
                Some(seconds) => seconds,
                None => 2000,
            },
        }
    }

    /// The settings that the table `tracker` of a settings file holds.
    pub fn from_toml(toml: &toml::Table) -> (config: TrackerConfig)
        ensures
            config == TrackerConfig::read(
                table_integer(*toml, "tracker"@, "reap_interval"@),
                table_integer(*toml, "tracker"@, "announce_interval"@),
                table_integer(*toml, "tracker"@, "min_announce_interval"@),
                table_integer(*toml, "tracker"@, "min_torrent_update_interval"@),
                table_integer(*toml, "tracker"@, "min_peer_update_interval"@),
            ),
    {
        TrackerConfig::from_values(
            lookup_integer(toml, "tracker", "reap_interval"),
            lookup_integer(toml, "tracker", "announce_interval"),
            lookup_integer(toml, "tracker", "min_announce_interval"),
            lookup_integer(toml, "tracker", "min_torrent_update_interval"),
            lookup_integer(toml, "tracker", "min_peer_update_interval"),
        )
    }
}

impl Default for TrackerConfig {
    fn default() -> (config: TrackerConfig)
        ensures
            config == TrackerConfig::standard(),
    {
        TrackerConfig {
            reap_interval: 120,
            announce_interval: 1800,
            min_announce_interval: 900,
            min_torrent_update_interval: 2000,
            min_peer_update_interval: 2000,
        }
    }
}

/// The settings of the private-tracker hooks, in seconds.
#[derive(Clone, Copy, Debug, PartialEq, Eq, Structural)]
pub struct PrivateConfig {
    pub flush_interval: u64,
    pub update_interval: u64,
}

impl PrivateConfig {
    /// The settings of hooks that were given none.
    pub open spec fn standard() -> PrivateConfig {
        PrivateConfig { flush_interval: 5, update_interval: 900 }
    }
}

impl PrivateConfig {
    /// The settings read from a file in which each of the two keys was
    /// found with an integer, or was not: what is missing is standard.
    pub open spec fn read(
        flush_interval: Option<i64>,
        update_interval: Option<i64>,
    ) -> PrivateConfig {
        PrivateConfig {
            flush_interval: seconds_or(flush_interval, 5),
            update_interval: seconds_or(update_interval, 900),
        }
    }

    /// The settings read from a file in which each of the two keys was
    /// found with an integer, or was not.
    pub fn from_values(flush_interval: Option<i64>, update_interval: Option<i64>) -> (config:
        PrivateConfig)
        ensures
            config == PrivateConfig::read(flush_interval, update_interval),
    {
        PrivateConfig {
            flush_interval: length_or(flush_interval, 5),
            update_interval: length_or(update_interval, 900),
        }
    }

    /// The settings that the table `private` of a settings file holds.
    pub fn from_toml(toml: &toml::Table) -> (config: PrivateConfig)
        ensures
            config == PrivateConfig::read(
                table_integer(*toml, "private"@, "flush_interval"@),
                table_integer(*toml, "private"@, "update_interval"@),
            ),
    {
        PrivateConfig::from_values(
            lookup_integer(toml, "private", "flush_interval"),
            lookup_integer(toml, "private", "update_interval"),
        )
    }
}

impl Default for PrivateConfig {
    fn default() -> (config: PrivateConfig)
        ensures
            config == PrivateConfig::standard(),
    {
        PrivateConfig { flush_interval: 5, update_interval: 900 }
    }
}

/// The settings of the HTTP front.
#[derive(Clone, Debug)]
pub struct HttpConfig {
    pub listen_addr: String,
}

impl HttpConfig {
    /// The address that a front listens on that was given none.
    pub open spec fn standard_addr() -> Seq<char> {
        "127.0.0.1:8000"@
    }

    /// The settings read from a file in which `listen_addr` was found, or
    /// was not: what is missing is standard.
    pub fn from_values(listen_addr: Option<String>) -> (config: HttpConfig)
        ensures
            config.listen_addr@ == match listen_addr {
                Some(addr) => addr@,
                None => HttpConfig::standard_addr(),
            },
    {
        match listen_addr {
            Some(addr) => HttpConfig { listen_addr: addr },
            None => HttpConfig { listen_addr: "127.0.0.1:8000".to_owned() },
        }
    }

    /// The settings that the table `http` of a settings file holds.
    pub fn from_toml(toml: &toml::Table) -> (config: HttpConfig)
        ensures
            config.listen_addr@ == match table_string(*toml, "http"@, "listen_addr"@) {
                Some(addr) => addr,
                None => HttpConfig::standard_addr(),
            },
    {
        HttpConfig::from_values(lookup_string(toml, "http", "listen_addr"))
    }
}

impl Default for HttpConfig {
    fn default() -> (config: HttpConfig)
        ensures
            config.listen_addr@ == HttpConfig::standard_addr(),
    {
        HttpConfig::from_values(None)
    }
}

/// All the settings.
#[derive(Clone, Debug)]
pub struct MainConfig {
    pub tracker: TrackerConfig,
    pub private: PrivateConfig,
    pub http: HttpConfig,
}

impl MainConfig {
    /// The settings that a parsed settings file holds: those of its
    /// tables `tracker`, `private` and `http`, and the standard ones for
    /// what it does not give.
    pub fn from_toml(toml: toml::Table) -> (config: MainConfig)
        ensures
            config.tracker == TrackerConfig::read(
                table_integer(toml, "tracker"@, "reap_interval"@),
                table_integer(toml, "tracker"@, "announce_interval"@),
                table_integer(toml, "tracker"@, "min_announce_interval"@),
                table_integer(toml, "tracker"@, "min_torrent_update_interval"@),
                table_integer(toml, "tracker"@, "min_peer_update_interval"@),
            ),
            config.private == PrivateConfig::read(
                table_integer(toml, "private"@, "flush_interval"@),
                table_integer(toml, "private"@, "update_interval"@),
            ),
            config.http.listen_addr@ == match table_string(toml, "http"@, "listen_addr"@) {
                Some(addr) => addr,
                None => HttpConfig::standard_addr(),
            },
    {
        let tracker = TrackerConfig::from_toml(&toml);
        let private = PrivateConfig::from_toml(&toml);
        let http = HttpConfig::from_toml(&toml);
        MainConfig { tracker: tracker, private: private, http: http }
    }
}

impl Default for MainConfig {
    fn default() -> (config: MainConfig)
        ensures
            config.tracker == TrackerConfig::standard(),
            config.private == PrivateConfig::standard(),
            config.http.listen_addr@ == HttpConfig::standard_addr(),
    {
        MainConfig {
            tracker: TrackerConfig::from_values(None, None, None, None, None),
            private: PrivateConfig::from_values(None, None),
            http: HttpConfig::from_values(None),
        }
    }
}

/// A value of a parsed settings file, as the crate `toml` holds it. It is
/// carried through and looked into by the lookups below only.
#[verifier::external_type_specification]
#[verifier::external_body]
pub struct ExValue(toml::Value);

/// The integer that a settings file gives `key` in its table `section`:
/// none if it has no such table, or the table no such key, or the key
/// another kind of value.
pub uninterp spec fn table_integer(
    table: std::collections::BTreeMap<String, toml::Value>,
    section: Seq<char>,
    key: Seq<char>,
) -> Option<i64>;

/// The string that a settings file gives `key` in its table `section`:
/// none if it has no such table, or the table no such key, or the key
/// another kind of value.
pub uninterp spec fn table_string(
    table: std::collections::BTreeMap<String, toml::Value>,
    section: Seq<char>,
    key: Seq<char>,
) -> Option<Seq<char>>;

/// Looks `key` up in the table `section` of a parsed settings file and
/// returns its value if it is an integer.
///
/// Reads the `toml::Table` with `get` and the values with
/// `toml::Value::as_integer`. The contract gives the result a name and
/// claims no more of it.
#[verifier::external_body]
fn lookup_integer(table: &toml::Table, section: &str, key: &str) -> (found: Option<i64>)
    ensures
        found == table_integer(*table, section@, key@),
{
    match table.get(section) {
        Some(toml::Value::Table(inner)) => inner.get(key).and_then(|v| v.as_integer()),
        _ => None,
    }
}

/// Looks `key` up in the table `section` of a parsed settings file and
/// returns its value if it is a string.
///
/// Reads the `toml::Table` with `get` and the values with
/// `toml::Value::as_str`. The contract gives the result a name and claims
/// no more of it.
#[verifier::external_body]
fn lookup_string(table: &toml::Table, section: &str, key: &str) -> (found: Option<String>)
    ensures
        crate::tracker::announce::text_of(found) == table_string(*table, section@, key@),
{
    match table.get(section) {
        Some(toml::Value::Table(inner)) => {
            inner.get(key).and_then(|v| v.as_str()).map(String::from)
        },
        _ => None,
    }
}

} // verus!
