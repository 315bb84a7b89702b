//! The receiving half of the open-loop load generator.
//!
//! A receiver counts responses until it has as many as it waits for.  Each
//! response echoes the clock reading that its request carried.  One worker
//! among all, the master, also measures: once the warm-up is over it records
//! for each response the cycles between the request and the response, and
//! at the end reports the median and the tail of what it recorded.
//!
//! The receiver does not touch the clock or the socket.  Its caller receives,
//! reads the clock, and tells the receiver.

use crate::latency::is_sorting_of;
use crate::latency::median_of;
use crate::latency::summarize;
use crate::latency::tail_of;
use crate::latency::LatencySummary;
use crate::timestamp::decode_timestamp;
use crate::timestamp::PAYLOAD_LEN;
use vstd::bytes::spec_u64_from_le_bytes;
use vstd::prelude::*;

verus! {

/// The number of responses at the start of a run that are not measured, so
/// that the figures do not show a cold server.
pub const WARMUP_RESPONSES: u64 = 2000000;

/// A measuring receiver signals progress each time its count of responses
/// is a multiple of this.
pub const PROGRESS_INTERVAL: u64 = 1000000;

/// What a receiver knows, as plain values.
pub struct ReceiverState {
    /// The number of responses to wait for.
    pub responses: u64,
    /// The clock reading at which the receiver was made.
    pub start: u64,
    /// The number of responses received so far.
    pub recvd: u64,
    /// The latencies recorded so far, in clock cycles.
    pub latencies: Seq<u64>,
    /// Whether this receiver measures latency.
    pub master: bool,
    /// The clock reading at which the last response had come; zero before.
    pub stop: u64,
}

impl ReceiverState {
    /// All the responses waited for have come.
    pub open spec fn done(self) -> bool {
        self.responses <= self.recvd
    }

    /// The next response will be measured: this is the master, and with that
    /// response the warm-up is over.
    pub open spec fn measures_next(self) -> bool {
        self.master && self.recvd + 1 > WARMUP_RESPONSES
    }

    /// The state after a response that echoes `stamp` has come at clock
    /// reading `now`.
    pub open spec fn after_response(self, stamp: u64, now: u64) -> ReceiverState {
        ReceiverState {
            recvd: (self.recvd + 1) as u64,
            latencies: if self.measures_next() {
                self.latencies.push((now - stamp) as u64)
            } else {
                self.latencies
            },
            ..self
        }
    }

    /// The number of latencies that a receiver has recorded when it has
    /// counted `recvd` responses: one for each response after the warm-up,
    /// on the master; none on any other.
    pub open spec fn recorded(master: bool, recvd: u64) -> nat {
        if master && recvd > WARMUP_RESPONSES {
            (recvd - WARMUP_RESPONSES) as nat
        } else {
            0
        }
    }

    /// The receiver holds one latency for each response that it measured.
    pub open spec fn valid(self) -> bool {
        self.latencies.len() == Self::recorded(self.master, self.recvd)
    }
}

/// What a receiver reports when it is done.
#[derive(Debug, PartialEq, Eq, Clone, Copy)]
pub struct Report {
    /// The number of responses received.
    pub received: u64,
    /// The clock cycles from the making of the receiver to its last
    /// response.
    pub elapsed: u64,
    /// The median and the tail latency, on the master.
    pub latency: Option<LatencySummary>,
}

/// The receiving half of a load-generating worker.
pub struct Receiver {
    responses: u64,
    start: u64,
    recvd: u64,
    latencies: Vec<u64>,
    master: bool,
    stop: u64,
}

impl View for Receiver {
    type V = ReceiverState;

    closed spec fn view(&self) -> ReceiverState {
        ReceiverState {
            responses: self.responses,
            start: self.start,
            recvd: self.recvd,
            latencies: self.latencies@,
            master: self.master,
            stop: self.stop,
        }
    }
}

impl Receiver {
    /// A receiver that waits for `responses` responses, made at clock
    /// reading `start`, with room for as many latencies.  That many
    /// latencies must fit in memory.
    pub fn new(responses: u64, start: u64, master: bool) -> (receiver: Receiver)
        requires
            responses * 8 <= isize::MAX,
        ensures
            receiver@ == (ReceiverState {
                responses,
                start,
                recvd: 0,
                latencies: Seq::empty(),
                master,
                stop: 0,
            }),
            receiver@.valid(),
    {
        Receiver {
            responses,
            start,
            recvd: 0,
            latencies: Vec::with_capacity(responses as usize),
            master,
            stop: 0,
        }
    }

    /// Whether all the responses waited for have come.
    pub fn is_done(&self) -> (done: bool)
        ensures
            done == self@.done(),
    {
        self.responses <= self.recvd
    }

    /// The number of responses received so far.
    pub fn received(&self) -> (count: u64)
        ensures
            count == self@.recvd,
    {
        self.recvd
    }

    /// Whether the next response will be measured.
    pub fn measures_next(&self) -> (measures: bool)
        requires
            !self@.done(),
        ensures
            measures == self@.measures_next(),
    {
        self.master && self.recvd + 1 > WARMUP_RESPONSES
    }

    /// Whether `report` can be asked for: the last response does not lie
    /// before the start, and the master has recorded a latency.
    pub fn reportable(&self) -> (ready: bool)
        ensures
            ready == (self@.start <= self@.stop && (self@.master ==> self@.latencies.len() > 0)),
    {
        self.start <= self.stop && (!self.master || self.latencies.len() > 0)
    }

    /// Counts a response that has come at clock reading `now` with
    /// `payload`, and records its latency where it is to be measured.
    /// Returns whether progress is to be signalled.
    ///
    /// The receiver must still be waiting.  Where the response is measured,
    /// the clock reading that it echoes must not lie after `now`.
    pub fn on_response(&mut self, payload: &[u8], now: u64) -> (progress: bool)
        requires
            old(self)@.valid(),
            !old(self)@.done(),
            payload@.len() == PAYLOAD_LEN,
            old(self)@.measures_next() ==> spec_u64_from_le_bytes(payload@) <= now,
        ensures
            final(self)@.valid(),
            final(self)@ == old(self)@.after_response(spec_u64_from_le_bytes(payload@), now),
            progress == (old(self)@.measures_next() && final(self)@.recvd % PROGRESS_INTERVAL
                == 0),
    {
        self.recvd += 1;
        let stamp = decode_timestamp(payload);
        if self.recvd > WARMUP_RESPONSES && self.master {
            self.latencies.push(now - stamp);
            self.recvd % PROGRESS_INTERVAL == 0
        } else {
            false
        }
    }

    /// Notes `now` as the time of the last response, if all responses have
    /// come; until then it does nothing.
    pub fn mark_stop(&mut self, now: u64)
        ensures
            final(self)@ == (if old(self)@.done() {
                ReceiverState { stop: now, ..old(self)@ }
            } else {
                old(self)@
            }),
    {
        if self.responses <= self.recvd {
            self.stop = now;
        }
    }

    /// The figures of the run: how many responses came and in how many
    /// cycles, and on the master the median and the tail of the latencies
    /// recorded, which are put in ascending order for it.
    ///
    /// The last response must not lie before the start, and the master must
    /// have recorded a latency.
    pub fn report(&mut self) -> (report: Report)
        requires
            old(self)@.start <= old(self)@.stop,
            old(self)@.master ==> old(self)@.latencies.len() > 0,
        ensures
            report.received == old(self)@.recvd,
            report.elapsed == old(self)@.stop - old(self)@.start,
            old(self)@.master ==> {
                &&& is_sorting_of(final(self)@.latencies, old(self)@.latencies)
                &&& report.latency == Some(
                    LatencySummary {
                        median: median_of(final(self)@.latencies),
                        tail: tail_of(final(self)@.latencies),
                    },
                )
            },
            !old(self)@.master ==> {
                &&& final(self)@.latencies == old(self)@.latencies
                &&& report.latency.is_none()
            },
            final(self)@ == (ReceiverState { latencies: final(self)@.latencies, ..old(self)@ }),
            final(self)@.valid() == old(self)@.valid(),
    {
        let latency = if self.master {
            Some(summarize(&mut self.latencies))
        } else {
            None
        };
        Report { received: self.recvd, elapsed: self.stop - self.start, latency }
    }
}

} // verus!
