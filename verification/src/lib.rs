//! A scheduler library.
//!
//! This library provides the traits and structures necessary
//! to implement a process scheduler.

use vstd::prelude::*;

mod scheduler;
pub use crate::scheduler::{
    Pid, Process, ProcessState, Scheduler, SchedulingDecision, StopReason, Syscall, SyscallResult,
};

pub mod common_types;
pub use crate::common_types::Timestamp;
pub use crate::common_types::Event;
pub use crate::common_types::Vruntime;

pub mod process_control_block;
pub use process_control_block::ProcessControlBlock;

pub mod schedulers;
pub use schedulers::GeneralProcess;
pub use schedulers::{FairPCB, FairScheduler, PrioRoundRobinPCB, RoundRobinPCB, RoundRobinScheduler};
pub use schedulers::{PriorityQueueScheduler, PriorityRRScheduler};

mod collector;
pub use crate::collector::Collector;
pub use crate::collector::collect_all;

pub mod scheduler_info;
pub use crate::scheduler_info::SchedulerInfo;
pub use crate::scheduler_info::ProcessManager;

mod vruntime_order;

pub mod pids;

pub mod common_funcs;
pub use common_funcs::execute_fork;
pub use common_funcs::execute_exit;
pub use common_funcs::execute_expired;

pub mod process_manager;

verus! {

/// Returns a scheduler with a round robin policy.
///
/// * `timeslice` - the time quanta that a process can run before it is preempted
/// * `minimum_remaining_timeslice` - when a process makes a system call, the scheduler
///                                 has to decide whether to schedule it again for the
///                                 remaining time of its quanta, or to schedule a new
///                                 process. The scheduler will schedule the process
///                                 again if the remaining quanta is greater or equal to
///                                 the `minimum_remaining_timeslice` value.
pub fn round_robin(timeslice: usize, minimum_remaining_timeslice: usize) -> (r: RoundRobinScheduler)
    requires
        timeslice > 0,
    ensures
        r.model() == (scheduler_info::SchedModel {
            ready: Seq::empty(),
            sleeping: Seq::empty(),
            waiting: Seq::empty(),
            running: None,
            quanta: timeslice,
            min_time: minimum_remaining_timeslice,
            next_pid: 1,
            timestamp: 0,
            panicd: false,
            slept_time: 0,
        }),
{
    RoundRobinScheduler::new(timeslice, minimum_remaining_timeslice)
}

/// Returns a scheduler with a priority queue policy: the ready process with
/// the highest priority runs first.
///
/// * `timeslice` - the time quanta that a process can run before it is preempted
/// * `minimum_remaining_timeslice` - the least remaining quanta for which a process
///                                 that made a system call is scheduled again.
pub fn priority_queue(timeslice: usize, minimum_remaining_timeslice: usize) -> (r: PriorityQueueScheduler)
    requires
        timeslice > 0,
    ensures
        r@ == (schedulers::priority_queue::PrioModel {
            queues: Map::empty(),
            sleeping: Seq::empty(),
            waiting: Seq::empty(),
            running: None,
            quanta: timeslice,
            min_time: minimum_remaining_timeslice,
            next_pid: 1,
            timestamp: 0,
            panicd: false,
            slept_time: 0,
        }),
{
    PriorityQueueScheduler::new(timeslice, minimum_remaining_timeslice)
}

/// Returns a scheduler with a simplified completely fair policy.
///
/// * `cpu_time` - the total time units that the cpu has for an iteration, this is used
///              to compute the `timeslice` of each process.
/// * `minimum_remaining_timeslice` - the least remaining quanta for which a process
///                                 that made a system call is scheduled again.
pub fn cfs(cpu_time: usize, minimum_remaining_timeslice: usize) -> (r: FairScheduler)
    requires
        cpu_time > 0,
    ensures
        r@ == (schedulers::cfs::FairModel {
            ready: Seq::empty(),
            sleeping: Seq::empty(),
            waiting: Seq::empty(),
            running: None,
            cpu_time,
            quanta: cpu_time,
            min_timeslice: minimum_remaining_timeslice,
            next_pid: 1,
            timestamp: 0,
            panicd: false,
            slept_time: 0,
            proc_number: 0,
        }),
{
    FairScheduler::new(cpu_time, minimum_remaining_timeslice)
}

} // verus!
