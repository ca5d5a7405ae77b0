//! A request for the counts of some swarms, and its answer.

use vstd::prelude::*;

use crate::tracker::torrent::Stats;

verus! {

/// The info-hashes a client asks about, in the order of the request.
pub struct Scrape {
    pub torrents: Vec<String>,
}

/// The characters of each of a list of strings.
pub open spec fn texts(strings: Seq<String>) -> Seq<Seq<char>> {
    strings.map_values(|s: String| s@)
}

impl View for Scrape {
    type V = Seq<Seq<char>>;

    open spec fn view(&self) -> Seq<Seq<char>> {
        texts(self.torrents@)
    }
}

impl Scrape {
    pub fn new(torrents: Vec<String>) -> (scrape: Scrape)
        ensures
            scrape.torrents == torrents,
    {
        Scrape { torrents: torrents }
    }
}

/// The answer to a scrape: the counts of each swarm asked about that the
/// tracker knows, under its info-hash.
#[derive(Debug)]
pub struct ScrapeResponse {
    pub torrents: Vec<(String, Stats)>,
}

/// The contents of a list of scrape entries.
pub open spec fn files(torrents: Seq<(String, Stats)>) -> Seq<(Seq<char>, Stats)> {
    torrents.map_values(|e: (String, Stats)| (e.0@, e.1))
}

impl View for ScrapeResponse {
    type V = Seq<(Seq<char>, Stats)>;

    open spec fn view(&self) -> Seq<(Seq<char>, Stats)> {
        files(self.torrents@)
    }
}

/// Whether `entries` has an entry under `hash`.
pub open spec fn listed(entries: Seq<(Seq<char>, Stats)>, hash: Seq<char>) -> bool {
    exists|i: int| 0 <= i < entries.len() && (#[trigger] entries[i]).0 == hash
}

} // verus!
