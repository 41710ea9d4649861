//! The debounced persistence decision.
//!
//! When a backing store is configured, one persister accompanies each room.
//! On a fixed tick it samples the room's content and change counter and
//! decides whether a write is due; the caller performs the write. Sampling
//! on a tick, rather than on every change, bounds the write rate: updates
//! between two ticks are coalesced and only the latest value reaches
//! storage.
//!
//! The bookkeeping advances when a tick decides to write, not when the
//! caller's write is acknowledged; a failed write is retried only once the
//! content changes again.

use vstd::prelude::*;

verus! {

/// The persistence state for one room: the content version the last
/// decided write covered.
pub struct Persister {
    /// The change counter as of the last write decision.
    pub last_version: u64,
}

/// What one tick decides: against a sampled content and version, either
/// nothing (the version has not advanced) or a write of exactly the sampled
/// content, with the bookkeeping moved to the sampled version.
pub open spec fn spec_sample(p: Persister, content: Seq<char>, version: u64) -> (
    Persister,
    Option<Seq<char>>,
) {
    if version > p.last_version {
        (Persister { last_version: version }, Some(content))
    } else {
        (p, None)
    }
}

impl Persister {
    /// A persister that regards `version` as already persisted — the
    /// version the room was created or restored with.
    pub fn new(version: u64) -> (p: Persister)
        ensures
            p.last_version == version,
    {
        Persister { last_version: version }
    }

    /// One debounce tick: decide what, if anything, to write for a room
    /// whose content and change counter were just sampled.
    pub fn sample(&mut self, content: &String, version: u64) -> (write: Option<String>)
        ensures
            final(self).last_version == spec_sample(*old(self), content@, version).0.last_version,
            (match write {
                Some(w) => spec_sample(*old(self), content@, version).1 == Some(w@),
                None => spec_sample(*old(self), content@, version).1 is None,
            }),
    {
        if version > self.last_version {
            self.last_version = version;
            Some(content.clone())
        } else {
            None
        }
    }
}

/// Law: ticks coalesce. When the content changed any number of times since
/// the last tick, ending at version `v` with text `latest`, the next tick
/// writes exactly `latest` — the intermediate values were never sampled and
/// are never written — and a further tick without a newer change writes
/// nothing.
pub proof fn lemma_tick_coalesces(p: Persister, latest: Seq<char>, v: u64)
    requires
        p.last_version < v,
    ensures
        spec_sample(p, latest, v).1 == Some(latest),
        spec_sample(spec_sample(p, latest, v).0, latest, v).1 is None,
{
}

} // verus!
