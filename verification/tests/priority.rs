use lib::{
    priority_queue, Pid, PriorityRRScheduler, Process, ProcessState, Scheduler,
    SchedulingDecision, StopReason, Syscall, SyscallResult,
};

fn fork(prio: i8, remaining: usize) -> StopReason {
    StopReason::Syscall { syscall: Syscall::Fork(prio), remaining }
}

fn run(pid: usize, timeslice: usize) -> SchedulingDecision {
    SchedulingDecision::Run { pid: Pid::new(pid), timeslice }
}

#[test]
fn pq_empty_is_done() {
    let mut s = priority_queue(3, 1);
    assert_eq!(s.next(), SchedulingDecision::Done);
    assert_eq!(s.stop(StopReason::Expired), SyscallResult::NoRunningProcess);
}

#[test]
fn pq_runs_highest_priority_first() {
    let mut s = priority_queue(3, 1);
    assert_eq!(s.stop(fork(2, 0)), SyscallResult::Pid(Pid::new(1)));
    assert_eq!(s.next(), run(1, 3));
    assert_eq!(s.stop(fork(4, 2)), SyscallResult::Pid(Pid::new(2)));
    assert_eq!(s.next(), run(1, 2));
    assert_eq!(s.stop(StopReason::Expired), SyscallResult::Success);
    assert_eq!(s.next(), run(2, 3));
    let list = s.list();
    assert_eq!(list.len(), 2);
    assert_eq!(list[0].pid(), Pid::new(2));
    assert_eq!(list[0].priority(), 4);
    assert_eq!(list[0].state(), ProcessState::Running);
    assert_eq!(list[1].pid(), Pid::new(1));
    assert_eq!(list[1].priority(), 1);
    assert_eq!(list[1].state(), ProcessState::Ready);
    assert_eq!(list[1].timings(), (3, 1, 2));
}

#[test]
fn pq_priority_rises_back_to_birth_priority() {
    let mut s = priority_queue(3, 1);
    assert_eq!(s.stop(fork(3, 0)), SyscallResult::Pid(Pid::new(1)));
    assert_eq!(s.next(), run(1, 3));
    assert_eq!(s.stop(StopReason::Expired), SyscallResult::Success);
    assert_eq!(s.list()[0].priority(), 2);
    assert_eq!(s.next(), run(1, 3));
    assert_eq!(s.stop(fork(0, 2)), SyscallResult::Pid(Pid::new(2)));
    assert_eq!(s.next(), run(1, 2));
    assert_eq!(s.stop(fork(0, 1)), SyscallResult::Pid(Pid::new(3)));
    let list = s.list();
    assert_eq!(list[0].priority(), 3);
    assert_eq!(list[1].priority(), 0);
    assert_eq!(list[2].priority(), 0);
}

#[test]
fn pq_priority_never_falls_below_zero() {
    let mut s = priority_queue(2, 1);
    s.stop(fork(0, 0));
    assert_eq!(s.next(), run(1, 2));
    assert_eq!(s.stop(StopReason::Expired), SyscallResult::Success);
    assert_eq!(s.list()[0].priority(), 0);
    assert_eq!(s.next(), run(1, 2));
    assert_eq!(s.stop(StopReason::Expired), SyscallResult::Success);
    assert_eq!(s.list()[0].priority(), 0);
}

#[test]
fn pq_sleep_and_wake() {
    let mut s = priority_queue(5, 1);
    s.stop(fork(1, 0));
    assert_eq!(s.next(), run(1, 5));
    assert_eq!(
        s.stop(StopReason::Syscall { syscall: Syscall::Sleep(3), remaining: 4 }),
        SyscallResult::Success
    );
    assert_eq!(s.next(), SchedulingDecision::Sleep(3));
    assert_eq!(s.next(), run(1, 5));
}

#[test]
fn pq_wait_deadlocks_and_exit_panics() {
    let mut s = priority_queue(5, 1);
    s.stop(fork(1, 0));
    assert_eq!(s.next(), run(1, 5));
    assert_eq!(s.stop(fork(1, 4)), SyscallResult::Pid(Pid::new(2)));
    assert_eq!(s.next(), run(1, 4));
    assert_eq!(
        s.stop(StopReason::Syscall { syscall: Syscall::Wait(3), remaining: 3 }),
        SyscallResult::Success
    );
    assert_eq!(s.next(), run(2, 5));
    assert_eq!(
        s.stop(StopReason::Syscall { syscall: Syscall::Wait(4), remaining: 4 }),
        SyscallResult::Success
    );
    assert_eq!(s.next(), SchedulingDecision::Deadlock);
}

#[test]
fn pq_exit_of_pid_one_panics() {
    let mut s = priority_queue(5, 1);
    s.stop(fork(1, 0));
    assert_eq!(s.next(), run(1, 5));
    assert_eq!(s.stop(fork(1, 4)), SyscallResult::Pid(Pid::new(2)));
    assert_eq!(s.next(), run(1, 4));
    assert_eq!(
        s.stop(StopReason::Syscall { syscall: Syscall::Exit, remaining: 2 }),
        SyscallResult::Success
    );
    assert_eq!(s.next(), SchedulingDecision::Panic);
}

#[test]
fn prr_runs_highest_priority_first() {
    let mut s = PriorityRRScheduler::new(3, 1);
    assert_eq!(s.stop(fork(1, 0)), SyscallResult::Pid(Pid::new(1)));
    assert_eq!(s.next(), run(1, 3));
    assert_eq!(s.stop(fork(5, 2)), SyscallResult::Pid(Pid::new(2)));
    assert_eq!(s.next(), run(1, 2));
    assert_eq!(s.stop(StopReason::Expired), SyscallResult::Success);
    assert_eq!(s.next(), run(2, 3));
    let list = s.list();
    assert_eq!(list[0].priority(), 5);
    assert_eq!(list[1].priority(), 1);
}

#[test]
fn prr_exit_and_done() {
    let mut s = PriorityRRScheduler::new(4, 1);
    assert_eq!(s.next(), SchedulingDecision::Done);
    s.stop(fork(2, 0));
    assert_eq!(s.next(), run(1, 4));
    assert_eq!(
        s.stop(StopReason::Syscall { syscall: Syscall::Exit, remaining: 1 }),
        SyscallResult::Success
    );
    assert_eq!(s.next(), SchedulingDecision::Done);
}

#[test]
fn pq_unserved_priority_never_runs() {
    let mut s = priority_queue(3, 1);
    assert_eq!(s.stop(fork(7, 0)), SyscallResult::Pid(Pid::new(1)));
    assert_eq!(s.next(), SchedulingDecision::Done);
    let list = s.list();
    assert_eq!(list.len(), 1);
    assert_eq!(list[0].priority(), 7);
}

#[test]
fn prr_sleep_and_wake() {
    let mut s = PriorityRRScheduler::new(5, 1);
    s.stop(fork(1, 0));
    assert_eq!(s.next(), run(1, 5));
    assert_eq!(
        s.stop(StopReason::Syscall { syscall: Syscall::Sleep(3), remaining: 4 }),
        SyscallResult::Success
    );
    assert_eq!(s.list()[0].state(), ProcessState::Waiting { event: None });
    assert_eq!(s.next(), SchedulingDecision::Sleep(3));
    assert_eq!(s.next(), run(1, 5));
}

#[test]
fn prr_wait_signal_and_deadlock() {
    let mut s = PriorityRRScheduler::new(5, 1);
    s.stop(fork(1, 0));
    assert_eq!(s.next(), run(1, 5));
    assert_eq!(s.stop(fork(2, 4)), SyscallResult::Pid(Pid::new(2)));
    assert_eq!(s.next(), run(1, 4));
    assert_eq!(
        s.stop(StopReason::Syscall { syscall: Syscall::Wait(3), remaining: 3 }),
        SyscallResult::Success
    );
    assert_eq!(s.next(), run(2, 5));
    assert_eq!(
        s.stop(StopReason::Syscall { syscall: Syscall::Signal(3), remaining: 4 }),
        SyscallResult::Success
    );
    assert_eq!(s.next(), run(2, 4));
    assert_eq!(
        s.stop(StopReason::Syscall { syscall: Syscall::Wait(5), remaining: 3 }),
        SyscallResult::Success
    );
    assert_eq!(s.next(), run(1, 5));
    assert_eq!(
        s.stop(StopReason::Syscall { syscall: Syscall::Wait(6), remaining: 4 }),
        SyscallResult::Success
    );
    assert_eq!(s.next(), SchedulingDecision::Deadlock);
    assert_eq!(s.list()[0].priority(), 2);
}
