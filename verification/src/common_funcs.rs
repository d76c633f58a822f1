//! The handling of a fork, an exit and an expired timeslice, shared by the
//! schedulers built on `SchedulerActions`.

use vstd::prelude::*;

use crate::scheduler_info::{readied, SchedModel, SchedulerActions};
use crate::{ProcessControlBlock, StopReason, Syscall, SyscallResult};

verus! {

/// The state after a fork of a process with priority `priority`, the
/// running process having stopped with `remaining` units left: the new
/// process is created once the running one accounted for its stop, and the
/// call itself takes one time unit.
pub open spec fn fork_outcome<S: SchedulerActions>(
    m: SchedModel,
    remaining: usize,
    priority: i8,
) -> SchedModel {
    let reason = StopReason::Syscall { syscall: Syscall::Fork(priority), remaining };
    let mid = m.stopped(remaining, reason);
    mid.forked(priority, S::start_vruntime(mid)).skipped(1)
}

/// Handles a fork of a process with priority `priority`, made by the running
/// process with `remaining` units of its timeslice left; returns the pid of
/// the new process.
pub fn execute_fork<S: SchedulerActions>(scheduler: &mut S, remaining: usize, priority: i8) -> (r:
    SyscallResult)
    requires
        old(scheduler).model().can_stop_running(
            remaining,
            StopReason::Syscall { syscall: Syscall::Fork(priority), remaining },
        ),
        old(scheduler).model().stopped(
            remaining,
            StopReason::Syscall { syscall: Syscall::Fork(priority), remaining },
        ).timestamp < usize::MAX,
        old(scheduler).model().next_pid < usize::MAX,
    ensures
        r matches SyscallResult::Pid(p) && p@ == old(scheduler).model().next_pid,
        final(scheduler).model() == fork_outcome::<S>(old(scheduler).model(), remaining, priority),
{
    let reason = StopReason::Syscall { syscall: Syscall::Fork(priority), remaining };
    let new_pid;
    if let Some(mut pcb) = scheduler.get_running() {
        let time = pcb.get_interrupted(remaining, reason);
        scheduler.set_running(Some(pcb));
        scheduler.make_timeskip(time);
        new_pid = scheduler.fork(priority);
        scheduler.make_timeskip(1);
    } else {
        new_pid = scheduler.fork(priority);
        scheduler.make_timeskip(1);
    }
    SyscallResult::Pid(new_pid)
}

/// Handles the exit of the running process, made with `remaining` units of
/// its timeslice left: the clock moves by the time it used, then it ends.
pub fn execute_exit<S: SchedulerActions>(scheduler: &mut S, remaining: usize) -> (r: SyscallResult)
    requires
        old(scheduler).model().running matches Some(p) ==> {
            &&& remaining <= p.payload
            &&& old(scheduler).model().timestamp + (p.payload - remaining) <= usize::MAX
        },
    ensures
        old(scheduler).model().running is None ==> r == SyscallResult::NoRunningProcess
            && final(scheduler).model() == old(scheduler).model(),
        old(scheduler).model().running matches Some(p) ==> r == SyscallResult::Success
            && final(scheduler).model() == (SchedModel {
            running: None,
            panicd: old(scheduler).model().panicd || p.pid == 1,
            ..old(scheduler).model().skipped(p.payload - remaining)
        }),
{
    if let Some(pcb) = scheduler.get_running() {
        scheduler.make_timeskip(pcb.get_payload() - remaining);
    }
    scheduler.kill_running()
}

/// Handles the expiry of the timeslice of the running process: it accounts
/// for the time it ran and goes to the end of the ready queue.
pub fn execute_expired<S: SchedulerActions>(scheduler: &mut S) -> (r: SyscallResult)
    requires
        old(scheduler).model().can_stop_running(0, StopReason::Expired),
    ensures
        old(scheduler).model().running is None ==> r == SyscallResult::NoRunningProcess
            && final(scheduler).model() == old(scheduler).model(),
        old(scheduler).model().running matches Some(p) ==> r == SyscallResult::Success
            && final(scheduler).model() == (SchedModel {
            running: None,
            ready: old(scheduler).model().ready.push(
                readied(p.interrupted(0, StopReason::Expired)),
            ),
            ..old(scheduler).model().stopped(0, StopReason::Expired)
        }),
{
    let reason = StopReason::Expired;
    if let Some(mut pcb) = scheduler.get_running() {
        let time = pcb.get_interrupted(0, reason);
        scheduler.make_timeskip(time);
        scheduler.enqueue_process(&mut pcb);
        scheduler.set_running(None);
        SyscallResult::Success
    } else {
        SyscallResult::NoRunningProcess
    }
}

} // verus!
