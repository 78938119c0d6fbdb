//! The fatal outcomes of a run.  Expected loss (a full node dropping a
//! message) is not an error; these are protocol or configuration violations,
//! after which the run must stop.
use vstd::prelude::*;

verus! {

#[derive(Debug)]
pub enum SimError {
    /// A message reached a routing policy without a header the policy is
    /// contractually owed.
    MissingHeader { element: String, header: String },
    /// A message carried a sender the policy has no rule for.
    InvalidSource { element: String, src: String },
    /// A policy had to choose a destination but the element has none.
    NoNeighbors { element: String },
    /// A produced message claims a source/destination pair no channel joins.
    NoChannel { src: String, dest: String },
    /// A delivered message names a destination that is not registered.
    UnknownElement { id: String },
    /// A channel head missed its release tick: the driver skipped a tick.
    SkippedTick { channel: String },
    /// A message was delivered to an element that cannot receive.
    CannotReceive { id: String },
    /// The run has consumed every message identifier.
    UidExhausted,
}

} // verus!
