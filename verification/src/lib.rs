//! The dispatch core of a multi-tenant server simulator, and the logic of the
//! load generator that drives such a server.
//!
//! The core: the task entity ([`request`]), the capability that every
//! scheduling policy offers to a dispatch loop ([`sched`]), and a two-tier
//! policy that prefers tasks that have never run over tasks that were
//! preempted ([`sjf_sched`]), with what it guarantees over whole runs
//! ([`sjf_order`]).
//!
//! The load generator: the pacing of requests ([`sender`]), the payload that
//! carries a clock reading ([`timestamp`]), the counting and measuring of
//! responses ([`receiver`], [`latency`]), and the plan that puts workers on
//! cores ([`placement`]).  Clock, sockets and threads are the caller's.

pub mod latency;
pub mod placement;
pub mod receiver;
pub mod request;
pub mod sched;
pub mod sender;
pub mod sjf_order;
pub mod sjf_sched;
pub mod timestamp;
