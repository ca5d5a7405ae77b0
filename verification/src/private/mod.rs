//! The hooks of a private tracker: who may announce, and where the
//! transfer deltas go.

use vstd::prelude::*;

use crate::config::PrivateConfig;
use crate::response::error::ErrorResponse;
use crate::tracker::announce::Announce;
use crate::tracker::peer::{Delta, DeltaView};

verus! {

/// The hooks of a private tracker. As they stand they let everybody in and
/// keep the deltas they are handed until the next flush.
pub struct PrivateTracker {
    deltas: Vec<Delta>,
    enabled: bool,
    pub config: PrivateConfig,
}

/// The mathematical content of a [`PrivateTracker`].
pub struct PrivateView {
    pub enabled: bool,
    pub deltas: Seq<DeltaView>,
    pub config: PrivateConfig,
}

/// The contents of a buffer of deltas.
pub open spec fn delta_views(deltas: Seq<Delta>) -> Seq<DeltaView> {
    deltas.map_values(|d: Delta| d@)
}

impl View for PrivateTracker {
    type V = PrivateView;

    closed spec fn view(&self) -> PrivateView {
        PrivateView {
            enabled: self.enabled,
            deltas: delta_views(self.deltas@),
            config: self.config,
        }
    }
}

impl Default for PrivateTracker {
    fn default() -> (hooks: PrivateTracker)
        ensures
            hooks@ == (PrivateView {
                enabled: false,
                deltas: Seq::empty(),
                config: PrivateConfig::standard(),
            }),
    {
        PrivateTracker::new(PrivateConfig { flush_interval: 5, update_interval: 900 })
    }
}

impl PrivateTracker {
    /// The hooks of a public tracker: they are there, and never called on.
    pub fn new(config: PrivateConfig) -> (hooks: PrivateTracker)
        ensures
            hooks@ == (PrivateView { enabled: false, deltas: Seq::empty(), config }),
    {
        let hooks = PrivateTracker { deltas: Vec::new(), enabled: false, config: config };
        assert(delta_views(hooks.deltas@) =~= Seq::empty());
        hooks
    }

    /// The hooks of a private tracker.
    pub fn new_enabled(config: PrivateConfig) -> (hooks: PrivateTracker)
        ensures
            hooks@ == (PrivateView { enabled: true, deltas: Seq::empty(), config }),
    {
        let hooks = PrivateTracker { deltas: Vec::new(), enabled: true, config: config };
        assert(delta_views(hooks.deltas@) =~= Seq::empty());
        hooks
    }

    /// Whether the tracker runs in private mode.
    pub fn is_enabled(&self) -> (enabled: bool)
        ensures
            enabled == self@.enabled,
    {
        self.enabled
    }

    /// Takes in the delta of one announce.
    pub fn add_announce(&mut self, delta: Delta)
        ensures
            final(self)@ == (PrivateView { deltas: old(self)@.deltas.push(delta@), ..old(self)@ }),
    {
        self.deltas.push(delta);
        assert(delta_views(self.deltas@) =~= delta_views(old(self).deltas@).push(delta@));
    }

    /// Hands over the deltas taken in since the last flush, oldest first,
    /// and starts afresh.
    pub fn flush(&mut self) -> (flushed: Vec<Delta>)
        ensures
            delta_views(flushed@) == old(self)@.deltas,
            final(self)@ == (PrivateView { deltas: Seq::empty(), ..old(self)@ }),
    {
        let mut deltas: Vec<Delta> = Vec::new();
        std::mem::swap(&mut deltas, &mut self.deltas);
        assert(delta_views(self.deltas@) =~= Seq::empty());
        deltas
    }

    /// Whether `passkey` is let in: every passkey is.
    pub fn validate_passkey(&self, passkey: &String) -> (ok: bool)
        ensures
            ok,
    {
        true
    }

    /// Whether the peer `id` is let in: every peer is.
    pub fn validate_peer(&self, id: &String) -> (ok: bool)
        ensures
            ok,
    {
        true
    }

    /// Whether the torrent `hash` is let in: every torrent is.
    pub fn validate_torrent(&self, hash: &String) -> (ok: bool)
        ensures
            ok,
    {
        true
    }

    /// What is wrong with `announce`: nothing ever is.
    pub fn validate_announce(&self, announce: &Announce) -> (refusal: Option<ErrorResponse>)
        ensures
            refusal is None,
    {
        None
    }

    /// The periodic refresh of what the hooks know; they know nothing, so
    /// nothing changes.
    pub fn update(&mut self)
        ensures
            final(self)@ == old(self)@,
    {
    }
}

} // verus!
