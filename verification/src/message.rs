//! Tagged control and report messages exchanged with a running
//! scheduling loop.

use vstd::prelude::*;

verus! {

/// Inbound control message: steers a running scheduling loop.
#[derive(Clone, Copy, Debug, PartialEq, Eq, Structural)]
pub enum IncomingQueueMessage {
    /// Stop the loop before its next dispatch; the run ends successfully.
    Halt,
    /// New number of dispatches between two yield boundaries.
    ChangeSleepIterCount(u64),
    /// New duration of each yield, in milliseconds.
    ChangeSleepDurationMs(u64),
    /// New absolute bound on the number of dispatched events.
    ChangeMaxIter(u64),
}

/// Outbound report message: observed by the external driver.
#[derive(Clone, Copy, Debug, PartialEq, Eq, Structural)]
pub enum OutgoingQueueMessage {
    /// Emitted exactly once at loop entry, before any dispatch.
    Started,
    /// Emitted at a yield boundary, carrying the 1-based dispatch count.
    Iter(u64),
}

} // verus!
