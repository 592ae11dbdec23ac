//! Single-slot latest-value cache between the sampler and the aggregator.
//!
//! The slot holds at most one pending snapshot: a write overwrites, a read
//! drains. When the producer outruns the consumer, intermediate samples
//! are dropped on purpose — the consumer only ever needs the latest one.
//! Callers that share the cache across tasks guard it with a lock held
//! only for the single read or write, never across a platform query.

use crate::snapshot::Snapshot;
use vstd::prelude::*;

verus! {

/// The single overwrite-on-write slot.
pub struct Cache {
    slot: Option<Snapshot>,
}

impl Cache {
    /// The pending snapshot, if one was set since the last drain.
    pub closed spec fn stored(self) -> Option<Snapshot> {
        self.slot
    }

    /// An empty cache.
    pub fn new() -> (c: Cache)
        ensures
            c.stored() is None,
    {
        Cache { slot: None }
    }

    /// Store a snapshot, overwriting any pending one.
    pub fn set(&mut self, snap: Snapshot)
        ensures
            final (self).stored() == Some(snap),
    {
        self.slot = Some(snap);
    }

    /// Drain the pending snapshot: hand back the most recently set value
    /// and leave the slot empty.
    pub fn get_and_clear(&mut self) -> (r: Option<Snapshot>)
        ensures
            r == old(self).stored(),
            final (self).stored() is None,
    {
        let mut taken: Option<Snapshot> = None;
        core::mem::swap(&mut self.slot, &mut taken);
        taken
    }
}

} // verus!
