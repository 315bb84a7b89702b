//! The unit of schedulable work.

use vstd::prelude::*;

verus! {

/// One tenant's request, as the dispatch loop sees it.
///
/// A request is a move-only value: whoever holds it owns it, and handing it
/// to a queue or back to the driver gives the ownership away.  The policy
/// carries the three fields and never changes them.
///
/// The estimated cost is a double-precision number that the scheduler only
/// carries; it is held as its IEEE-754 bit pattern, so that it comes back
/// bit for bit.
#[derive(Debug, PartialEq, Eq)]
pub struct Request {
    pub tenant_id: u16,
    pub arrival_timestamp: u64,
    pub task_cost: u64,
}

impl Request {
    /// A request of `tenant_id` that arrived at clock reading `rdtsc`, with
    /// estimated cost `task_time` (the bits of a double).
    pub fn new(tenant_id: u16, rdtsc: u64, task_time: u64) -> (req: Request)
        ensures
            req == (Request { tenant_id, arrival_timestamp: rdtsc, task_cost: task_time }),
    {
        Request { tenant_id, arrival_timestamp: rdtsc, task_cost: task_time }
    }
}

} // verus!
