//! What a remote agent reports and keeps: its host, the plan it runs, and
//! the state of its worker.
use vstd::prelude::*;

use crate::plan;
use crate::supervisor::CommandConfig;

verus! {

/// The host an agent runs on.
#[derive(Debug, Clone)]
pub struct HostInfo {
    pub hostname: String,
    pub vxlan_device: String,
}

/// The plan of one host with the launch configuration of its instances.
#[derive(Debug)]
pub struct Data {
    pub network: plan::Data,
    pub commands: Vec<(usize, CommandConfig)>,
}

impl Data {
    pub fn new() -> (r: Self)
        ensures
            r.network.vxlan@.len() == 0,
            r.network.bridges@.len() == 0,
            r.network.veth@.len() == 0,
            r.network.qdisc@.len() == 0,
            r.commands@.len() == 0,
    {
        Data { network: plan::Data::new(), commands: Vec::new() }
    }
}

/// Where an agent's worker stands.
#[derive(Debug, Clone, Copy, PartialEq, Eq)]
pub enum WorkerStatus {
    Pending,
    Running,
    Failed,
    Stopping,
    Stopped,
}

/// A worker's status from what it holds: a thread handle (and whether that
/// thread has finished), a way to interrupt it, a recorded failure.
pub open spec fn status_of(has_handle: bool, has_interrupt: bool, finished: bool, has_failure: bool) -> WorkerStatus {
    if !has_handle && !has_failure {
        WorkerStatus::Pending
    } else if has_handle && has_interrupt && !has_failure {
        WorkerStatus::Running
    } else if has_handle && !has_interrupt && finished {
        WorkerStatus::Stopped
    } else if has_handle && !has_interrupt {
        WorkerStatus::Stopping
    } else {
        WorkerStatus::Failed
    }
}

impl WorkerStatus {
    /// The status of a worker that holds what the flags say.
    pub fn of(has_handle: bool, has_interrupt: bool, finished: bool, has_failure: bool) -> (r: Self)
        ensures
            r == status_of(has_handle, has_interrupt, finished, has_failure),
    {
        if !has_handle && !has_failure {
            WorkerStatus::Pending
        } else if has_handle && has_interrupt && !has_failure {
            WorkerStatus::Running
        } else if has_handle && !has_interrupt && finished {
            WorkerStatus::Stopped
        } else if has_handle && !has_interrupt {
            WorkerStatus::Stopping
        } else {
            WorkerStatus::Failed
        }
    }

    /// The status in lower case, as it is shown.
    pub fn to_string(&self) -> (r: String)
        ensures
            *self == WorkerStatus::Pending ==> r@ == "pending"@,
            *self == WorkerStatus::Running ==> r@ == "running"@,
            *self == WorkerStatus::Failed ==> r@ == "failed"@,
            *self == WorkerStatus::Stopping ==> r@ == "stopping"@,
            *self == WorkerStatus::Stopped ==> r@ == "stopped"@,
    {
        match self {
            WorkerStatus::Pending => String::from_str("pending"),
            WorkerStatus::Running => String::from_str("running"),
            WorkerStatus::Failed => String::from_str("failed"),
            WorkerStatus::Stopping => String::from_str("stopping"),
            WorkerStatus::Stopped => String::from_str("stopped"),
        }
    }

    /// A new plan or a new run is taken only while the worker is pending.
    pub fn accepts_work(&self) -> (r: bool)
        ensures
            r <==> *self == WorkerStatus::Pending,
    {
        match self {
            WorkerStatus::Pending => true,
            _ => false,
        }
    }
}

} // verus!
