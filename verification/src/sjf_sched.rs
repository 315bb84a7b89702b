//! A two-tier feedback policy that approximates shortest-job-first.
//!
//! How long a request will run is not known when it arrives.  The policy
//! takes "has never run" as a sign that a request is short: requests that
//! have never been dispatched are always served before requests that were
//! dispatched and came back.  Within a tier the order is first in, first
//! out.  A request that came back can therefore wait without bound while new
//! ones keep arriving; that is the price of the policy and is kept.

use crate::request::Request;
use crate::sched::Scheduler;
use std::collections::VecDeque;
use vstd::multiset::Multiset;
use vstd::prelude::*;
use vstd::seq_lib::group_to_multiset_ensures;

verus! {

/// The two queues of the policy as mathematical sequences, head first.
pub struct Tiers {
    /// Requests that have never been dispatched, in arrival order.
    pub fresh: Seq<Request>,
    /// Requests that were dispatched and handed back, in the order in which
    /// they came back.
    pub returning: Seq<Request>,
}

impl Tiers {
    /// No request in either tier.
    pub open spec fn empty() -> Tiers {
        Tiers { fresh: Seq::empty(), returning: Seq::empty() }
    }

    /// The order in which the held requests leave if nothing else comes in:
    /// the fresh tier, then the returning tier.
    pub open spec fn order(self) -> Seq<Request> {
        self.fresh + self.returning
    }

    /// The number of requests held.
    pub open spec fn len(self) -> nat {
        self.fresh.len() + self.returning.len()
    }

    /// The requests held, each as often as it is held.
    pub open spec fn held(self) -> Multiset<Request> {
        self.fresh.to_multiset().add(self.returning.to_multiset())
    }

    /// The tiers after a new arrival: it joins the tail of the fresh tier.
    pub open spec fn submit_new(self, req: Request) -> Tiers {
        Tiers { fresh: self.fresh.push(req), returning: self.returning }
    }

    /// The tiers after a dispatched request came back: it joins the tail of
    /// the returning tier.
    pub open spec fn resubmit(self, req: Request) -> Tiers {
        Tiers { fresh: self.fresh, returning: self.returning.push(req) }
    }

    /// The request to run next: the head of the fresh tier; the head of the
    /// returning tier only when the fresh tier is empty.
    pub open spec fn next(self) -> Option<Request> {
        if self.fresh.len() > 0 {
            Some(self.fresh.first())
        } else if self.returning.len() > 0 {
            Some(self.returning.first())
        } else {
            None
        }
    }

    /// The tiers after `next` has been handed out.
    pub open spec fn after_select(self) -> Tiers {
        if self.fresh.len() > 0 {
            Tiers { fresh: self.fresh.drop_first(), returning: self.returning }
        } else if self.returning.len() > 0 {
            Tiers { fresh: self.fresh, returning: self.returning.drop_first() }
        } else {
            self
        }
    }
}

/// The requests of a queue of boxes, in the same order.
pub open spec fn unboxed(queue: Seq<Box<Request>>) -> Seq<Request> {
    queue.map_values(|boxed: Box<Request>| *boxed)
}

/// Removing the head of a sequence removes one occurrence of it from the
/// multiset of its elements.
pub proof fn lemma_drop_first_multiset(s: Seq<Request>)
    requires
        s.len() > 0,
    ensures
        s.to_multiset().count(s.first()) > 0,
        s.drop_first().to_multiset() == s.to_multiset().remove(s.first()),
{
    broadcast use group_to_multiset_ensures;
    assert(s.remove(0) =~= s.drop_first());
    assert(s.contains(s[0]));
}

/// The two-tier policy: a queue of requests that have never run and a queue
/// of requests that came back.
pub struct ShortestJF {
    short_rq: VecDeque<Box<Request>>,
    long_rq: VecDeque<Box<Request>>,
}

impl View for ShortestJF {
    type V = Tiers;

    closed spec fn view(&self) -> Tiers {
        Tiers { fresh: unboxed(self.short_rq@), returning: unboxed(self.long_rq@) }
    }
}

impl ShortestJF {
    /// A policy that holds no request.
    pub fn new() -> (sched: ShortestJF)
        ensures
            sched@ == Tiers::empty(),
    {
        let sched = ShortestJF {
            short_rq: VecDeque::with_capacity(32),
            long_rq: VecDeque::with_capacity(32),
        };
        assert(sched@.fresh =~= Seq::empty());
        assert(sched@.returning =~= Seq::empty());
        sched
    }
}

impl Scheduler for ShortestJF {
    open spec fn pending(&self) -> Multiset<Request> {
        self@.held()
    }

    open spec fn choice(&self, rdtsc: u64) -> Option<Request> {
        self@.next()
    }

    /// Appends the new request to the fresh tier, whatever its cost or
    /// tenant.
    fn create_task(&mut self, rdtsc: u64, task_time: u64, tenant_id: u16)
        ensures
            final(self)@ == old(self)@.submit_new(
                Request { tenant_id, arrival_timestamp: rdtsc, task_cost: task_time },
            ),
    {
        let req = Box::new(Request::new(tenant_id, rdtsc, task_time));
        self.short_rq.push_back(req);
        proof {
            broadcast use group_to_multiset_ensures;
            assert(self@.fresh =~= old(self)@.fresh.push(*req));
            assert(self@.held() =~= old(self)@.held().insert(*req));
        }
    }

    /// Hands out the head of the fresh tier and leaves the returning tier as
    /// it is; only with an empty fresh tier, the head of the returning tier.
    /// The clock reading plays no part.
    fn pick_next_task(&mut self, _rdtsc: u64) -> (task: Option<Box<Request>>)
        ensures
            match task {
                Some(req) => old(self)@.next() == Some(*req),
                None => old(self)@.next().is_none(),
            },
            final(self)@ == old(self)@.after_select(),
    {
        if let Some(task) = self.short_rq.pop_front() {
            proof {
                lemma_drop_first_multiset(old(self)@.fresh);
                assert(self@.fresh =~= old(self)@.fresh.drop_first());
                assert(self@.held() =~= old(self)@.held().remove(*task));
            }
            Some(task)
        } else {
            let task = self.long_rq.pop_front();
            proof {
                assert(self@.fresh =~= old(self)@.fresh);
                if task.is_some() {
                    lemma_drop_first_multiset(old(self)@.returning);
                    assert(self@.returning =~= old(self)@.returning.drop_first());
                    assert(self@.held() =~= old(self)@.held().remove(*task.unwrap()));
                } else {
                    assert(self@.returning =~= old(self)@.returning);
                    assert(old(self)@.fresh.to_multiset().len() == 0) by {
                        broadcast use group_to_multiset_ensures;
                    }
                    assert(old(self)@.returning.to_multiset().len() == 0) by {
                        broadcast use group_to_multiset_ensures;
                    }
                }
            }
            task
        }
    }

    /// Appends the request that came back to the returning tier, unchanged.
    fn enqueue_task(&mut self, req: Box<Request>)
        ensures
            final(self)@ == old(self)@.resubmit(*req),
    {
        self.long_rq.push_back(req);
        proof {
            broadcast use group_to_multiset_ensures;
            assert(self@.returning =~= old(self)@.returning.push(*req));
            assert(self@.held() =~= old(self)@.held().insert(*req));
        }
    }
}

} // verus!
