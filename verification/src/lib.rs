//! The swarm state engine of a BitTorrent tracker.
//!
//! Clients announce themselves for a torrent and are given other peers of
//! its swarm; they scrape torrents for the counts of their swarms. The
//! registry in [`tracker`] keeps the swarms and the counters of the whole
//! tracker, [`http`] reads requests and routes them, [`response`] writes
//! the answers, [`private`] holds the hooks of a private tracker and
//! [`config`] the settings.
//!
//! Every function comes with a contract over the mathematical content of
//! the values it works on, and every contract is proved. What is taken
//! on trust is named as such where it stands: the monotonic clock, the
//! bencoding of a value, the reading of a parsed settings file and the
//! taking apart of a request target.

pub mod config;
pub mod http;
pub mod private;
pub mod response;
pub mod seqs;
pub mod tracker;
