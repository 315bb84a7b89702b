//! The sending half of the open-loop load generator.
//!
//! A sender issues a fixed number of requests at a fixed rate.  The first
//! goes out at once; each later one is held until its deadline, a whole
//! number of send intervals after the start.  Each request goes to a tenant
//! chosen uniformly at random, a tenant being a port of the server.
//!
//! The sender does not touch the clock or the socket.  Its caller reads the
//! clock, asks `poll` what to do, and does it.

use crate::timestamp::encode_timestamp;
use rand::distributions::Distribution;
use rand::distributions::Uniform;
use rand::rngs::ThreadRng;
use vstd::bytes::spec_u64_to_le_bytes;
use vstd::prelude::*;

verus! {

/// The port of the first tenant; tenant `k` listens on `FIRST_TENANT_PORT + k`.
pub const FIRST_TENANT_PORT: u16 = 1024;

#[verifier::external_type_specification]
#[verifier::external_body]
pub struct ExThreadRng(ThreadRng);

/// `rand::thread_rng`: a handle to the random number generator of the
/// calling thread.  Nothing is claimed of it.  It takes no argument, so no
/// caller can rule out its one failure: it panics where the system has no
/// entropy to seed the generator.
pub assume_specification[ rand::thread_rng ]() -> (rng: ThreadRng)
;

/// `Uniform::from(low..high)` sampled once with `Distribution::sample`: a
/// value of the half-open range, `low` included and `high` excluded.  The
/// range must not be empty; `Uniform::from` panics on an empty one.
#[verifier::external_body]
fn sample_port(rng: &mut ThreadRng, low: u16, high: u16) -> (port: u16)
    requires
        low < high,
    ensures
        low <= port < high,
{
    Uniform::from(low..high).sample(rng)
}

/// What a sender knows, as plain values.
pub struct SenderState {
    /// The number of requests to send in all.
    pub requests: u64,
    /// The number of requests sent so far.
    pub sent: u64,
    /// The interval between two requests, in clock cycles.
    pub rate_inv: u64,
    /// The clock reading at which the sender was made.
    pub start: u64,
    /// The deadline of the next request; zero before the first one.
    pub next: u64,
    /// The port of the first tenant.
    pub first_port: u16,
    /// The port after that of the last tenant.
    pub end_port: u16,
}

impl SenderState {
    /// All requests have been sent.
    pub open spec fn done(self) -> bool {
        self.requests <= self.sent
    }

    /// A request may go out at clock reading `now`: its deadline has come,
    /// or it is the first.
    pub open spec fn due(self, now: u64) -> bool {
        now >= self.next || self.next == 0
    }

    /// The state after one more request has gone out: the next deadline is as
    /// many intervals after the start as requests have been sent.
    pub open spec fn after_send(self) -> SenderState {
        SenderState {
            sent: (self.sent + 1) as u64,
            next: (self.start + (self.sent + 1) * self.rate_inv) as u64,
            ..self
        }
    }

    /// The sender has not sent more than it was asked to, the deadline of
    /// the last request lies within the range of the clock, the deadline of
    /// the next request is as many intervals after the start as requests
    /// have been sent, and there is a tenant to send to.
    pub open spec fn valid(self) -> bool {
        &&& self.sent <= self.requests
        &&& self.start + self.requests * self.rate_inv <= u64::MAX
        &&& self.next == (if self.sent == 0 {
            0
        } else {
            self.start + self.sent * self.rate_inv
        })
        &&& self.first_port < self.end_port
    }
}

/// What the caller of `poll` has to do.
pub enum SendStep {
    /// Nothing more: all requests have been sent.
    Done,
    /// Nothing yet: read the clock and ask again.
    Wait,
    /// Send `payload` to the tenant at `port`.
    Send { payload: Vec<u8>, port: u16 },
}

/// The sending half of a load-generating worker.
pub struct Sender {
    requests: u64,
    sent: u64,
    rate_inv: u64,
    start: u64,
    next: u64,
    first_port: u16,
    end_port: u16,
    rng: ThreadRng,
}

impl View for Sender {
    type V = SenderState;

    closed spec fn view(&self) -> SenderState {
        SenderState {
            requests: self.requests,
            sent: self.sent,
            rate_inv: self.rate_inv,
            start: self.start,
            next: self.next,
            first_port: self.first_port,
            end_port: self.end_port,
        }
    }
}

impl Sender {
    /// A sender of `requests` requests at `req_rate` requests per second, on
    /// a clock that makes `cycles_per_second` cycles per second and now
    /// reads `start`, for tenants `0` to `num_tenants - 1`.
    ///
    /// The rate must not be zero, there must be a tenant, the tenants' ports
    /// must be ports, and the last deadline must be a clock reading.
    pub fn new(
        requests: u64,
        cycles_per_second: u64,
        req_rate: u64,
        start: u64,
        num_tenants: u16,
    ) -> (sender: Sender)
        requires
            req_rate > 0,
            num_tenants > 0,
            FIRST_TENANT_PORT + num_tenants <= u16::MAX,
            start + requests * (cycles_per_second / req_rate) <= u64::MAX,
        ensures
            sender@ == (SenderState {
                requests,
                sent: 0,
                rate_inv: cycles_per_second / req_rate,
                start,
                next: 0,
                first_port: FIRST_TENANT_PORT,
                end_port: (FIRST_TENANT_PORT + num_tenants) as u16,
            }),
            sender@.valid(),
    {
        Sender {
            requests,
            sent: 0,
            rate_inv: cycles_per_second / req_rate,
            start,
            next: 0,
            first_port: FIRST_TENANT_PORT,
            end_port: FIRST_TENANT_PORT + num_tenants,
            rng: rand::thread_rng(),
        }
    }

    /// Whether all requests have been sent.
    pub fn is_done(&self) -> (done: bool)
        ensures
            done == self@.done(),
    {
        self.requests <= self.sent
    }

    /// Decides what to do at clock reading `now` and, where a request goes
    /// out, picks its tenant at random.
    ///
    /// Which of the three steps is taken, the payload, and the state
    /// afterwards depend on the state and on `now` alone; of the port only
    /// its range is known.
    pub fn poll(&mut self, now: u64) -> (step: SendStep)
        requires
            old(self)@.valid(),
        ensures
            final(self)@.valid(),
            match step {
                SendStep::Done => old(self)@.done() && final(self)@ == old(self)@,
                SendStep::Wait => {
                    &&& !old(self)@.done()
                    &&& !old(self)@.due(now)
                    &&& final(self)@ == old(self)@
                },
                SendStep::Send { payload, port } => {
                    &&& !old(self)@.done()
                    &&& old(self)@.due(now)
                    &&& payload@ == spec_u64_to_le_bytes(now)
                    &&& old(self)@.first_port <= port < old(self)@.end_port
                    &&& final(self)@ == old(self)@.after_send()
                },
            },
    {
        let port = sample_port(&mut self.rng, self.first_port, self.end_port);
        self.dispatch(now, port)
    }

    /// What `poll` does once the port `to` of the tenant is chosen: nothing
    /// when all requests have been sent or the next one is not due; else the
    /// request goes out with `now` as its payload, and the next deadline is
    /// set.
    pub fn dispatch(&mut self, now: u64, to: u16) -> (step: SendStep)
        requires
            old(self)@.valid(),
        ensures
            final(self)@.valid(),
            match step {
                SendStep::Done => old(self)@.done() && final(self)@ == old(self)@,
                SendStep::Wait => {
                    &&& !old(self)@.done()
                    &&& !old(self)@.due(now)
                    &&& final(self)@ == old(self)@
                },
                SendStep::Send { payload, port } => {
                    &&& !old(self)@.done()
                    &&& old(self)@.due(now)
                    &&& payload@ == spec_u64_to_le_bytes(now)
                    &&& port == to
                    &&& final(self)@ == old(self)@.after_send()
                },
            },
    {
        if self.requests <= self.sent {
            return SendStep::Done;
        }
        if now >= self.next || self.next == 0 {
            let payload = encode_timestamp(now);
            assert((self.sent + 1) * self.rate_inv <= self.requests * self.rate_inv)
                by (nonlinear_arith)
                requires
                    self.sent + 1 <= self.requests,
            ;
            self.sent += 1;
            self.next = self.start + self.sent * self.rate_inv;
            SendStep::Send { payload, port: to }
        } else {
            SendStep::Wait
        }
    }
}

/// Requests are never early: the first may go out at any time, and request
/// number `sent`, counted from zero, goes out no sooner than `sent` intervals
/// after the start.
pub proof fn lemma_never_early(state: SenderState, now: u64)
    requires
        state.valid(),
    ensures
        state.sent == 0 ==> state.due(now),
        state.sent > 0 ==> (state.due(now) <==> now >= state.start + state.sent * state.rate_inv),
        !state.done() ==> state.after_send().valid(),
{
    if !state.done() {
        assert((state.sent + 1) * state.rate_inv <= state.requests * state.rate_inv)
            by (nonlinear_arith)
            requires
                state.sent + 1 <= state.requests,
                state.rate_inv >= 0,
        ;
    }
    if state.sent > 0 {
        assert(state.sent * state.rate_inv >= 0) by (nonlinear_arith)
            requires
                state.sent >= 0,
                state.rate_inv >= 0,
        ;
    }
}

} // verus!
