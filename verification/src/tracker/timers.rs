//! Timers of a tracker.

use crate::addr::SocketAddr;
use crate::ordmap::OrdMap;
use crate::util::time::Instant;
use vstd::prelude::*;

verus! {

/// What a timer does when it fires.
pub enum Timer {
    RemovePeer(SocketAddr),
}

/// Timers by the instant at which they fire.
pub struct Timers {
    timers: OrdMap<Instant, Timer>,
}

impl Timers {
    /// The timers.
    pub closed spec fn pending(&self) -> Map<Instant, Timer> {
        self.timers@
    }

    /// No timers.
    pub fn new() -> (r: Timers)
        ensures
            r.pending() == Map::<Instant, Timer>::empty(),
    {
        Timers { timers: OrdMap::new() }
    }

    /// Takes note of an instant; no timer is set for it.
    pub fn add(&mut self, _when: Instant)
        ensures
            *final(self) == *old(self),
    {
    }
}

} // verus!
