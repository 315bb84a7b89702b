//! Which cores the workers of the load generator run on.
//!
//! The cores of the machine are numbered from zero.  A placement names two
//! spans of them.  The cores are walked in order: a core inside a span takes
//! a sender, the core after it takes the receiver that shares the sender's
//! socket, and the walk goes on behind the pair.  Each pair gets a port of
//! its own, and the receiver that sits on the last core of the second span
//! is the master, as is every receiver after it.

use vstd::prelude::*;

verus! {

/// The port from which the ports of the workers are counted.
pub const FIRST_CLIENT_PORT: u16 = 49000;

/// A run of cores, both ends included.
#[derive(Debug, PartialEq, Eq, Clone, Copy)]
pub struct CoreSpan {
    pub first: usize,
    pub last: usize,
}

impl CoreSpan {
    /// The core lies in the span.
    pub open spec fn covers(self, core: nat) -> bool {
        self.first <= core <= self.last
    }

    /// Whether the core lies in the span.
    pub fn contains(&self, core: usize) -> (inside: bool)
        ensures
            inside == self.covers(core as nat),
    {
        core >= self.first && core <= self.last
    }
}

/// The two spans of cores that take workers.
#[derive(Debug, PartialEq, Eq, Clone, Copy)]
pub struct Placement {
    pub first: CoreSpan,
    pub second: CoreSpan,
}

impl Placement {
    /// The core lies in one of the two spans.
    pub open spec fn covers(self, core: nat) -> bool {
        self.first.covers(core) || self.second.covers(core)
    }
}

/// A sender and the receiver that shares its socket.
#[derive(Debug, PartialEq, Eq, Clone, Copy)]
pub struct Worker {
    /// The core of the sender.
    pub sender_core: usize,
    /// The core of the receiver.
    pub receiver_core: usize,
    /// The local port of the socket.
    pub port: u16,
    /// Whether the receiver measures latency.
    pub master: bool,
}

/// Why a machine and a placement allow no plan.
#[derive(Debug, PartialEq, Eq, Clone, Copy)]
pub enum PlanError {
    /// The machine has an odd number of cores.
    OddCoreCount,
    /// The port of a pair would lie beyond the last port.
    PortOutOfRange,
    /// A sender sits on the last core, so that none is left for its
    /// receiver.
    NoReceiverCore,
}

/// The step by which the port grows at a pair whose sender sits on `core`:
/// the number of the core, as far as it fits in sixteen bits.
pub open spec fn port_step(core: nat) -> nat {
    core % 65536
}

/// The plan for the cores from `at` on, when the last port given out is
/// `port` and `master` says whether a master has been named.
pub open spec fn plan_from(cores: nat, placement: Placement, at: nat, port: u16, master: bool)
    -> Result<Seq<Worker>, PlanError>
    decreases cores - at,
{
    if at >= cores {
        Ok(Seq::empty())
    } else if !placement.covers(at) {
        plan_from(cores, placement, at + 1, port, master)
    } else if port + port_step(at) > u16::MAX {
        Err(PlanError::PortOutOfRange)
    } else if at + 1 >= cores {
        Err(PlanError::NoReceiverCore)
    } else {
        let worker = Worker {
            sender_core: at as usize,
            receiver_core: (at + 1) as usize,
            port: (port + port_step(at)) as u16,
            master: master || at + 1 == placement.second.last,
        };
        match plan_from(cores, placement, at + 2, worker.port, worker.master) {
            Ok(rest) => Ok(seq![worker] + rest),
            Err(error) => Err(error),
        }
    }
}

/// The plan for a machine of `cores` cores.
pub open spec fn planned(cores: nat, placement: Placement) -> Result<Seq<Worker>, PlanError> {
    if cores % 2 != 0 {
        Err(PlanError::OddCoreCount)
    } else {
        plan_from(cores, placement, 0, FIRST_CLIENT_PORT, false)
    }
}

/// The workers found so far, followed by the plan for the rest.
spec fn continued(found: Seq<Worker>, rest: Result<Seq<Worker>, PlanError>) -> Result<
    Seq<Worker>,
    PlanError,
> {
    match rest {
        Ok(more) => Ok(found + more),
        Err(error) => Err(error),
    }
}

/// Plans the workers for a machine of `cores` cores.
pub fn plan_workers(cores: usize, placement: &Placement) -> (plan: Result<Vec<Worker>, PlanError>)
    ensures
        match plan {
            Ok(workers) => planned(cores as nat, *placement) == Ok::<Seq<Worker>, PlanError>(
                workers@,
            ),
            Err(error) => planned(cores as nat, *placement) == Err::<Seq<Worker>, PlanError>(
                error,
            ),
        },
{
    if cores % 2 != 0 {
        return Err(PlanError::OddCoreCount);
    }
    let mut workers: Vec<Worker> = Vec::new();
    let mut at: usize = 0;
    let mut port: u16 = FIRST_CLIENT_PORT;
    let mut master = false;
    assert(Seq::<Worker>::empty() + Seq::<Worker>::empty() =~= Seq::<Worker>::empty());
    while at < cores
        invariant
            at <= cores,
            cores % 2 == 0,
            planned(cores as nat, *placement) == continued(
                workers@,
                plan_from(cores as nat, *placement, at as nat, port, master),
            ),
        decreases cores - at,
    {
        let ghost rest = plan_from(cores as nat, *placement, at as nat, port, master);
        if placement.first.contains(at) || placement.second.contains(at) {
            let step: u16 = (at % 65536) as u16;
            let next_port = match port.checked_add(step) {
                Some(sum) => sum,
                None => {
                    return Err(PlanError::PortOutOfRange);
                },
            };
            if at + 1 >= cores {
                return Err(PlanError::NoReceiverCore);
            }
            port = next_port;
            master = master || at + 1 == placement.second.last;
            let worker = Worker { sender_core: at, receiver_core: at + 1, port, master };
            proof {
                let after = plan_from(cores as nat, *placement, (at + 2) as nat, port, master);
                match after {
                    Ok(more) => {
                        assert(workers@.push(worker) + more =~= workers@ + (seq![worker] + more));
                    },
                    Err(_) => {},
                }
            }
            workers.push(worker);
            at += 2;
        } else {
            at += 1;
        }
    }
    assert(workers@ + Seq::<Worker>::empty() =~= workers@);
    Ok(workers)
}

/// Every sender of `plan` sits on a core of the placement, not before
/// `at`; its receiver sits on the core after it; the pairs follow one
/// another along the cores without sharing any; the ports start above
/// `port` and do not fall from pair to pair; and once a master is named,
/// all later receivers are masters.
pub open spec fn well_laid(
    plan: Seq<Worker>,
    cores: nat,
    placement: Placement,
    at: nat,
    port: u16,
    master: bool,
) -> bool {
    &&& forall|k: int|
        0 <= k < plan.len() ==> {
            &&& placement.covers((#[trigger] plan[k]).sender_core as nat)
            &&& at <= plan[k].sender_core
            &&& plan[k].receiver_core == plan[k].sender_core + 1
            &&& plan[k].receiver_core < cores
            &&& port <= plan[k].port
            &&& (master ==> plan[k].master)
        }
    &&& forall|k: int, l: int|
        0 <= k < l < plan.len() ==> {
            &&& (#[trigger] plan[k]).receiver_core < (#[trigger] plan[l]).sender_core
            &&& plan[k].port <= plan[l].port
            &&& (plan[k].master ==> plan[l].master)
        }
}

/// Every plan for a machine whose cores can be counted, from whatever core
/// it starts, is well laid.
pub proof fn lemma_plan_from_well_laid(
    cores: nat,
    placement: Placement,
    at: nat,
    port: u16,
    master: bool,
)
    requires
        cores <= usize::MAX,
        plan_from(cores, placement, at, port, master) is Ok,
    ensures
        well_laid(
            plan_from(cores, placement, at, port, master)->Ok_0,
            cores,
            placement,
            at,
            port,
            master,
        ),
    decreases cores - at,
{
    let plan = plan_from(cores, placement, at, port, master)->Ok_0;
    if at >= cores {
    } else if !placement.covers(at) {
        lemma_plan_from_well_laid(cores, placement, at + 1, port, master);
    } else {
        let worker = Worker {
            sender_core: at as usize,
            receiver_core: (at + 1) as usize,
            port: (port + port_step(at)) as u16,
            master: master || at + 1 == placement.second.last,
        };
        lemma_plan_from_well_laid(cores, placement, at + 2, worker.port, worker.master);
        let rest = plan_from(cores, placement, at + 2, worker.port, worker.master)->Ok_0;
        assert(plan == seq![worker] + rest);
        assert(plan[0] == worker);
        assert forall|k: int| 0 < k < plan.len() implies #[trigger] plan[k] == rest[k - 1] by {}
        assert forall|k: int| 0 <= k < plan.len() implies {
            &&& placement.covers((#[trigger] plan[k]).sender_core as nat)
            &&& at <= plan[k].sender_core
            &&& plan[k].receiver_core == plan[k].sender_core + 1
            &&& plan[k].receiver_core < cores
            &&& port <= plan[k].port
            &&& (master ==> plan[k].master)
        } by {
            if k > 0 {
                assert(plan[k] == rest[k - 1]);
            }
        }
        assert forall|k: int, l: int| 0 <= k < l < plan.len() implies {
            &&& (#[trigger] plan[k]).receiver_core < (#[trigger] plan[l]).sender_core
            &&& plan[k].port <= plan[l].port
            &&& (plan[k].master ==> plan[l].master)
        } by {
            assert(plan[l] == rest[l - 1]);
            if k > 0 {
                assert(plan[k] == rest[k - 1]);
            }
        }
    }
}

/// The plan for a machine, where there is one, is well laid.
pub proof fn lemma_plan_well_laid(cores: nat, placement: Placement)
    requires
        cores <= usize::MAX,
        planned(cores, placement) is Ok,
    ensures
        well_laid(planned(cores, placement)->Ok_0, cores, placement, 0, FIRST_CLIENT_PORT, false),
{
    lemma_plan_from_well_laid(cores, placement, 0, FIRST_CLIENT_PORT, false);
}

} // verus!
