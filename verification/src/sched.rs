//! The capability that every scheduling policy offers to a dispatch loop.

use crate::request::Request;
use vstd::multiset::Multiset;
use vstd::prelude::*;

verus! {

/// A scheduling policy, as a single-threaded dispatch loop uses it.
///
/// The loop hands new arrivals to `create_task`, asks `pick_next_task` for
/// the request to run, and gives a request that did not finish its slice back
/// through `enqueue_task`.  It never looks at how the policy stores them.
///
/// Whatever the policy, it neither loses nor duplicates a request: the
/// multiset `pending` grows by exactly what is handed in and shrinks by
/// exactly what is handed out.  What it hands out is a function of its state
/// and of the clock reading alone (`choice`), so a run can be replayed.
pub trait Scheduler {
    /// The requests held, each as often as it is held.
    spec fn pending(&self) -> Multiset<Request>;

    /// The request that `pick_next_task` hands out in this state at clock
    /// reading `rdtsc`, if any.
    spec fn choice(&self, rdtsc: u64) -> Option<Request>;

    /// Takes in a request that has just arrived at clock reading `rdtsc` for
    /// `tenant_id`, with estimated cost `task_time`.
    fn create_task(&mut self, rdtsc: u64, task_time: u64, tenant_id: u16)
        ensures
            final(self).pending() == old(self).pending().insert(
                Request { tenant_id, arrival_timestamp: rdtsc, task_cost: task_time },
            ),
    ;

    /// Removes and returns the request to run next, or `None` when the policy
    /// holds nothing.  An empty policy is the idle state, not a failure.
    fn pick_next_task(&mut self, rdtsc: u64) -> (task: Option<Box<Request>>)
        ensures
            task.is_some() <==> old(self).pending().len() > 0,
            match task {
                Some(req) => {
                    &&& old(self).choice(rdtsc) == Some(*req)
                    &&& old(self).pending().count(*req) > 0
                    &&& final(self).pending() == old(self).pending().remove(*req)
                },
                None => {
                    &&& old(self).choice(rdtsc).is_none()
                    &&& final(self).pending() == old(self).pending()
                },
            },
    ;

    /// Takes back a request that was handed out and did not complete, with
    /// its fields as they are.
    fn enqueue_task(&mut self, req: Box<Request>)
        ensures
            final(self).pending() == old(self).pending().insert(*req),
    ;
}

} // verus!
