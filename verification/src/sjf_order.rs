//! What the two-tier policy guarantees over whole runs.
//!
//! A run is a sequence of calls on the policy.  The functions here say what
//! state a run leaves and what its selections hand out; the lemmas state the
//! order of service, that nothing is lost or altered on the way through the
//! tiers, and that the returning tier waits for as long as the fresh tier is
//! kept supplied.

use crate::request::Request;
use crate::sjf_sched::lemma_drop_first_multiset;
use crate::sjf_sched::Tiers;
use vstd::multiset::Multiset;
use vstd::prelude::*;
use vstd::seq_lib::group_to_multiset_ensures;

verus! {

/// One call of the dispatch loop on the policy.
pub enum Call {
    /// A new arrival is handed in.
    SubmitNew(Request),
    /// The loop asks for the request to run next.
    SelectNext,
    /// A dispatched request that did not complete is handed back.
    Resubmit(Request),
}

impl Tiers {
    /// The tiers after one call.
    pub open spec fn step(self, call: Call) -> Tiers {
        match call {
            Call::SubmitNew(req) => self.submit_new(req),
            Call::SelectNext => self.after_select(),
            Call::Resubmit(req) => self.resubmit(req),
        }
    }

    /// The tiers after a run of calls, made in order.
    pub open spec fn run(self, calls: Seq<Call>) -> Tiers
        decreases calls.len(),
    {
        if calls.len() == 0 {
            self
        } else {
            self.run(calls.drop_last()).step(calls.last())
        }
    }

    /// What the selections of a run hand out, one entry for each
    /// `SelectNext` in it, in order; `None` where the policy was empty.
    pub open spec fn outputs(self, calls: Seq<Call>) -> Seq<Option<Request>>
        decreases calls.len(),
    {
        if calls.len() == 0 {
            Seq::empty()
        } else {
            let before = calls.drop_last();
            match calls.last() {
                Call::SelectNext => self.outputs(before).push(self.run(before).next()),
                _ => self.outputs(before),
            }
        }
    }
}

/// The run that hands in `reqs` as new arrivals, one after the other.
pub open spec fn arrivals(reqs: Seq<Request>) -> Seq<Call> {
    reqs.map_values(|req: Request| Call::SubmitNew(req))
}

/// The run of `n` selections in a row.
pub open spec fn selections(n: nat) -> Seq<Call> {
    Seq::new(n, |i: int| Call::SelectNext)
}

/// The run in which new arrivals and selections take turns, without a gap:
/// each request of `reqs` arrives and a selection follows at once.
pub open spec fn steady_stream(reqs: Seq<Request>) -> Seq<Call> {
    Seq::new(
        2 * reqs.len(),
        |i: int|
            if i % 2 == 0 {
                Call::SubmitNew(reqs[i / 2])
            } else {
                Call::SelectNext
            },
    )
}

/// What `n` selections in a row hand out when the requests held would leave
/// in the order `order`: its first `n` requests, then `None`.
pub open spec fn served(order: Seq<Request>, n: nat) -> Seq<Option<Request>> {
    Seq::new(
        n,
        |k: int|
            if k < order.len() {
                Some(order[k])
            } else {
                None
            },
    )
}

/// The requests that a run hands in, as new arrivals or as returning ones,
/// each as often as it is handed in.
pub open spec fn taken_in(calls: Seq<Call>) -> Multiset<Request>
    decreases calls.len(),
{
    if calls.len() == 0 {
        Multiset::empty()
    } else {
        match calls.last() {
            Call::SubmitNew(req) => taken_in(calls.drop_last()).insert(req),
            Call::SelectNext => taken_in(calls.drop_last()),
            Call::Resubmit(req) => taken_in(calls.drop_last()).insert(req),
        }
    }
}

/// The requests among the results of selections, each as often as it was
/// handed out.
pub open spec fn handed_out(results: Seq<Option<Request>>) -> Multiset<Request>
    decreases results.len(),
{
    if results.len() == 0 {
        Multiset::empty()
    } else {
        match results.last() {
            Some(req) => handed_out(results.drop_last()).insert(req),
            None => handed_out(results.drop_last()),
        }
    }
}

/// The tiers after `n` selections in a row: the selections empty the fresh
/// tier from its head, then the returning tier.
spec fn drained(tiers: Tiers, n: nat) -> Tiers {
    let from_fresh = if n <= tiers.fresh.len() {
        n
    } else {
        tiers.fresh.len()
    };
    let from_returning = if n - from_fresh <= tiers.returning.len() {
        n - from_fresh
    } else {
        tiers.returning.len() as int
    };
    Tiers {
        fresh: tiers.fresh.skip(from_fresh as int),
        returning: tiers.returning.skip(from_returning),
    }
}

/// A run made of two runs leaves what the second leaves after the first, and
/// hands out what the first hands out, then what the second does.
pub proof fn lemma_run_concat(tiers: Tiers, first: Seq<Call>, second: Seq<Call>)
    ensures
        tiers.run(first + second) == tiers.run(first).run(second),
        tiers.outputs(first + second) == tiers.outputs(first) + tiers.run(first).outputs(second),
    decreases second.len(),
{
    if second.len() == 0 {
        assert(first + second =~= first);
        assert(tiers.outputs(first) + Seq::<Option<Request>>::empty() =~= tiers.outputs(first));
    } else {
        let whole = first + second;
        assert(whole.drop_last() =~= first + second.drop_last());
        assert(whole.last() == second.last());
        lemma_run_concat(tiers, first, second.drop_last());
        let so_far = tiers.outputs(first) + tiers.run(first).outputs(second.drop_last());
        match second.last() {
            Call::SelectNext => {
                let next = tiers.run(first).run(second.drop_last()).next();
                assert(so_far.push(next) =~= tiers.outputs(first) + tiers.run(first).outputs(
                    second.drop_last(),
                ).push(next));
            },
            _ => {},
        }
    }
}

/// New arrivals join the fresh tier in the order in which they come, and
/// nothing is handed out meanwhile.
pub proof fn lemma_run_arrivals(tiers: Tiers, reqs: Seq<Request>)
    ensures
        tiers.run(arrivals(reqs)) == (Tiers {
            fresh: tiers.fresh + reqs,
            returning: tiers.returning,
        }),
        tiers.outputs(arrivals(reqs)) == Seq::<Option<Request>>::empty(),
    decreases reqs.len(),
{
    if reqs.len() == 0 {
        assert(tiers.fresh + reqs =~= tiers.fresh);
    } else {
        assert(arrivals(reqs).drop_last() =~= arrivals(reqs.drop_last()));
        assert(arrivals(reqs).last() == Call::SubmitNew(reqs.last()));
        lemma_run_arrivals(tiers, reqs.drop_last());
        assert((tiers.fresh + reqs.drop_last()).push(reqs.last()) =~= tiers.fresh + reqs);
    }
}

/// Selections in a row hand out the requests held in the order fresh tier,
/// then returning tier, each tier head first, and `None` from then on.
pub proof fn lemma_run_selections(tiers: Tiers, n: nat)
    ensures
        tiers.outputs(selections(n)) == served(tiers.order(), n),
        tiers.run(selections(n)).order() == tiers.order().skip(
            if n <= tiers.len() {
                n as int
            } else {
                tiers.len() as int
            },
        ),
        n >= tiers.len() ==> tiers.run(selections(n)) == Tiers::empty(),
    decreases n,
{
    lemma_selections_drain(tiers, n);
    let after = drained(tiers, n);
    assert(after.order() =~= tiers.order().skip(
        if n <= tiers.len() {
            n as int
        } else {
            tiers.len() as int
        },
    ));
    if n >= tiers.len() {
        assert(after.fresh =~= Seq::empty());
        assert(after.returning =~= Seq::empty());
    }
}

proof fn lemma_selections_drain(tiers: Tiers, n: nat)
    ensures
        tiers.run(selections(n)) == drained(tiers, n),
        tiers.outputs(selections(n)) == served(tiers.order(), n),
    decreases n,
{
    if n == 0 {
        assert(tiers.fresh.skip(0) =~= tiers.fresh);
        assert(tiers.returning.skip(0) =~= tiers.returning);
        assert(served(tiers.order(), 0) =~= Seq::empty());
    } else {
        let m = (n - 1) as nat;
        assert(selections(n).drop_last() =~= selections(m));
        assert(selections(n).last() == Call::SelectNext);
        lemma_selections_drain(tiers, m);
        let before = drained(tiers, m);
        let after = before.after_select();
        let goal = drained(tiers, n);
        assert(after.fresh =~= goal.fresh);
        assert(after.returning =~= goal.returning);
        assert(served(tiers.order(), m).push(before.next()) =~= served(tiers.order(), n));
    }
}

/// Requests that arrive at a policy whose fresh tier is empty and are then
/// selected, as many selections as arrivals and nothing handed back in
/// between, come out in the order in which they arrived, and leave the
/// policy as it was: what waits in the returning tier has not moved.
pub proof fn lemma_arrival_order(tiers: Tiers, reqs: Seq<Request>)
    requires
        tiers.fresh.len() == 0,
    ensures
        tiers.outputs(arrivals(reqs) + selections(reqs.len())) == reqs.map_values(
            |req: Request| Some(req),
        ),
        tiers.run(arrivals(reqs) + selections(reqs.len())) == tiers,
{
    lemma_run_concat(tiers, arrivals(reqs), selections(reqs.len()));
    lemma_run_arrivals(tiers, reqs);
    let filled = tiers.run(arrivals(reqs));
    lemma_selections_drain(filled, reqs.len());
    assert(filled.fresh =~= reqs);
    assert(Seq::<Option<Request>>::empty() + served(filled.order(), reqs.len())
        =~= reqs.map_values(|req: Request| Some(req)));
    let after = drained(filled, reqs.len());
    assert(after.fresh =~= tiers.fresh);
    assert(after.returning =~= tiers.returning);
}

/// In every state with a request in the fresh tier, the selection hands out
/// the head of the fresh tier and leaves the returning tier untouched,
/// however long its requests have waited.
pub proof fn lemma_fresh_tier_first(tiers: Tiers)
    requires
        tiers.fresh.len() > 0,
    ensures
        tiers.next() == Some(tiers.fresh.first()),
        tiers.after_select().fresh == tiers.fresh.drop_first(),
        tiers.after_select().returning == tiers.returning,
{
}

/// A new arrival waits for the fresh requests that came before it and for
/// nothing else: it is what the last of `tiers.fresh.len() + 1` selections
/// in a row hands out, unchanged, whatever waits in the returning tier.
pub proof fn lemma_new_arrival_is_served(tiers: Tiers, req: Request)
    ensures
        tiers.submit_new(req).outputs(selections(tiers.fresh.len() + 1)) == tiers.fresh.push(
            req,
        ).map_values(|held: Request| Some(held)),
        tiers.submit_new(req).outputs(selections(tiers.fresh.len() + 1)).last() == Some(req),
{
    let filled = tiers.submit_new(req);
    lemma_run_selections(filled, tiers.fresh.len() + 1);
    assert(served(filled.order(), tiers.fresh.len() + 1) =~= tiers.fresh.push(req).map_values(
        |held: Request| Some(held),
    ));
}

/// A request that is handed back comes out again, unchanged, once the
/// requests held before it have been served and no new one has arrived: it
/// is what the last of `tiers.len() + 1` selections in a row hands out, and
/// the selections before it hand out the requests held before, in order.
pub proof fn lemma_resubmitted_is_served(tiers: Tiers, req: Request)
    ensures
        tiers.resubmit(req).outputs(selections(tiers.len() + 1)) == tiers.order().push(
            req,
        ).map_values(|held: Request| Some(held)),
        tiers.resubmit(req).outputs(selections(tiers.len() + 1)).last() == Some(req),
        tiers.resubmit(req).run(selections(tiers.len() + 1)) == Tiers::empty(),
{
    let back = tiers.resubmit(req);
    lemma_run_selections(back, tiers.len() + 1);
    assert(back.order() =~= tiers.order().push(req));
    assert(served(back.order(), tiers.len() + 1) =~= tiers.order().push(req).map_values(
        |held: Request| Some(held),
    ));
}

/// A request that passes through an otherwise empty policy comes out with
/// the fields that it went in with, through either tier.
pub proof fn lemma_round_trip(req: Request)
    ensures
        Tiers::empty().submit_new(req).next() == Some(req),
        Tiers::empty().resubmit(req).next() == Some(req),
        Tiers::empty().submit_new(req).after_select() == Tiers::empty(),
        Tiers::empty().resubmit(req).after_select() == Tiers::empty(),
{
    assert(Tiers::empty().submit_new(req).after_select().fresh =~= Seq::empty());
    assert(Tiers::empty().resubmit(req).after_select().returning =~= Seq::empty());
}

/// Over any run, nothing is lost, duplicated or altered: the requests held
/// before together with those handed in are the requests held after
/// together with those handed out.
pub proof fn lemma_nothing_lost(tiers: Tiers, calls: Seq<Call>)
    ensures
        tiers.held().add(taken_in(calls)) == tiers.run(calls).held().add(
            handed_out(tiers.outputs(calls)),
        ),
        tiers.len() + taken_in(calls).len() == tiers.run(calls).len() + handed_out(
            tiers.outputs(calls),
        ).len(),
    decreases calls.len(),
{
    broadcast use group_to_multiset_ensures;

    if calls.len() == 0 {
        assert(tiers.held().add(taken_in(calls)) =~= tiers.run(calls).held().add(
            handed_out(tiers.outputs(calls)),
        ));
    } else {
        let before = calls.drop_last();
        lemma_nothing_lost(tiers, before);
        let mid = tiers.run(before);
        let end = tiers.run(calls);
        let outs = tiers.outputs(before);
        match calls.last() {
            Call::SubmitNew(req) => {
                assert(end.held() =~= mid.held().insert(req));
                assert(tiers.held().add(taken_in(calls)) =~= tiers.held().add(
                    taken_in(before),
                ).insert(req));
                assert(end.held().add(handed_out(outs)) =~= mid.held().add(
                    handed_out(outs),
                ).insert(req));
            },
            Call::Resubmit(req) => {
                assert(end.held() =~= mid.held().insert(req));
                assert(tiers.held().add(taken_in(calls)) =~= tiers.held().add(
                    taken_in(before),
                ).insert(req));
                assert(end.held().add(handed_out(outs)) =~= mid.held().add(
                    handed_out(outs),
                ).insert(req));
            },
            Call::SelectNext => {
                let all = outs.push(mid.next());
                assert(all.drop_last() =~= outs);
                if mid.fresh.len() > 0 {
                    lemma_drop_first_multiset(mid.fresh);
                    let req = mid.fresh.first();
                    assert(end.held() =~= mid.held().remove(req));
                    assert(end.held().add(handed_out(all)) =~= mid.held().add(handed_out(outs)));
                } else if mid.returning.len() > 0 {
                    lemma_drop_first_multiset(mid.returning);
                    let req = mid.returning.first();
                    assert(end.held() =~= mid.held().remove(req));
                    assert(end.held().add(handed_out(all)) =~= mid.held().add(handed_out(outs)));
                } else {
                    assert(handed_out(all) == handed_out(outs));
                }
            },
        }
    }
    lemma_held_len(tiers);
    lemma_held_len(tiers.run(calls));
}

/// The policy holds as many requests as its two tiers are long.
pub proof fn lemma_held_len(tiers: Tiers)
    ensures
        tiers.held().len() == tiers.len(),
{
    broadcast use group_to_multiset_ensures;

}

/// The returning tier starves while the fresh tier is kept supplied: over a
/// run, of any length, in which every selection finds a request in the fresh
/// tier, no request leaves the returning tier.  Those that were in it are
/// still in it, at the same places, and those handed back meanwhile queue up
/// behind them.
pub proof fn lemma_returning_tier_starves(tiers: Tiers, calls: Seq<Call>)
    requires
        forall|i: int|
            0 <= i < calls.len() && calls[i] is SelectNext ==> #[trigger] tiers.run(
                calls.take(i),
            ).fresh.len() > 0,
    ensures
        tiers.returning.is_prefix_of(tiers.run(calls).returning),
    decreases calls.len(),
{
    if calls.len() > 0 {
        let before = calls.drop_last();
        assert forall|i: int| 0 <= i < before.len() && before[i] is SelectNext implies #[trigger]
            tiers.run(before.take(i)).fresh.len() > 0 by {
            assert(before.take(i) =~= calls.take(i));
            assert(before[i] == calls[i]);
        }
        lemma_returning_tier_starves(tiers, before);
        let mid = tiers.run(before);
        if calls.last() is SelectNext {
            assert(calls.take(calls.len() - 1) =~= before);
            assert(tiers.run(calls.take(calls.len() - 1)).fresh.len() > 0);
            assert(tiers.run(calls).returning == mid.returning);
        }
    }
}

/// Under a steady stream of arrivals, of any length, the returning tier is
/// not served at all: every selection hands out a request of the fresh
/// tier, in arrival order, and whatever waits in the returning tier, such as
/// a request that was handed back just before, is still waiting at the end.
pub proof fn lemma_steady_stream_starves(tiers: Tiers, reqs: Seq<Request>)
    ensures
        tiers.run(steady_stream(reqs)).returning == tiers.returning,
        tiers.run(steady_stream(reqs)).fresh == (tiers.fresh + reqs).skip(reqs.len() as int),
        tiers.outputs(steady_stream(reqs)) == (tiers.fresh + reqs).take(
            reqs.len() as int,
        ).map_values(|req: Request| Some(req)),
    decreases reqs.len(),
{
    let n = reqs.len() as int;
    let line = tiers.fresh + reqs;
    let served_now = line.take(n).map_values(|req: Request| Some(req));
    if n == 0 {
        assert(line.skip(0) =~= tiers.fresh);
        assert(served_now =~= Seq::empty());
    } else {
        let earlier = reqs.drop_last();
        let calls = steady_stream(reqs);
        let arrived = calls.drop_last();
        assert(calls.last() == Call::SelectNext);
        assert(arrived.last() == Call::SubmitNew(reqs.last()));
        assert(arrived.drop_last() =~= steady_stream(earlier));
        lemma_steady_stream_starves(tiers, earlier);
        let before = tiers.run(steady_stream(earlier));
        let filled = tiers.run(arrived);
        assert(filled == before.submit_new(reqs.last()));
        let earlier_line = tiers.fresh + earlier;
        assert(filled.fresh =~= line.skip(n - 1));
        assert(filled.next() == Some(line[n - 1]));
        assert(tiers.run(calls).fresh =~= line.skip(n));
        assert(tiers.outputs(arrived) == tiers.outputs(steady_stream(earlier)));
        assert(earlier_line.take(n - 1) =~= line.take(n - 1));
        assert(line.take(n - 1).map_values(|req: Request| Some(req)).push(Some(line[n - 1]))
            =~= served_now);
    }
}

} // verus!
