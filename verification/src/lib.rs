pub mod aggregation;
pub mod bookinfo;
pub mod channel;
pub mod element;
pub mod error;
pub mod example_filter;
pub mod fifo;
pub mod filter;
pub mod generator;
pub mod headers;
pub mod node;
pub mod numstr;
pub mod rng;
pub mod rpc;
pub mod simulator;
pub mod storage;
pub mod strutil;

use vstd::prelude::*;

verus! {

/// Hands out the globally unique, monotonically increasing identifiers
/// carried by every message in a simulation run.
pub struct UidAllocator {
    pub next: u64,
}

impl UidAllocator {
    pub fn new() -> (r: UidAllocator)
        ensures
            r.next == 0,
    {
        UidAllocator { next: 0 }
    }

    /// Returns a fresh identifier; every later call returns a strictly
    /// larger one, so no two messages of a run share an identifier.
    pub fn fresh(&mut self) -> (r: u64)
        requires
            old(self).next < u64::MAX,
        ensures
            r == old(self).next,
            final(self).next == old(self).next + 1,
    {
        let r = self.next;
        self.next = self.next + 1;
        r
    }
}

} // verus!
