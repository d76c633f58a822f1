use lib::{
    cfs, Pid, Process, ProcessState, Scheduler, SchedulingDecision, StopReason, Syscall,
    SyscallResult,
};

fn fork(prio: i8, remaining: usize) -> StopReason {
    StopReason::Syscall { syscall: Syscall::Fork(prio), remaining }
}

fn run(pid: usize, timeslice: usize) -> SchedulingDecision {
    SchedulingDecision::Run { pid: Pid::new(pid), timeslice }
}

#[test]
fn cfs_empty_is_done() {
    let mut s = cfs(10, 1);
    assert_eq!(s.next(), SchedulingDecision::Done);
    assert_eq!(s.stop(StopReason::Expired), SyscallResult::NoRunningProcess);
}

#[test]
fn cfs_shares_cpu_time_among_processes() {
    let mut s = cfs(10, 1);
    assert_eq!(s.stop(fork(0, 0)), SyscallResult::Pid(Pid::new(1)));
    assert_eq!(s.next(), run(1, 10));
    assert_eq!(s.stop(fork(0, 7)), SyscallResult::Pid(Pid::new(2)));
    assert_eq!(s.next(), run(1, 5));
}

#[test]
fn cfs_runs_least_vruntime_first() {
    let mut s = cfs(10, 1);
    s.stop(fork(0, 0));
    assert_eq!(s.next(), run(1, 10));
    assert_eq!(s.stop(fork(0, 7)), SyscallResult::Pid(Pid::new(2)));
    assert_eq!(s.next(), run(1, 5));
    assert_eq!(s.stop(StopReason::Expired), SyscallResult::Success);
    assert_eq!(s.next(), run(2, 5));
    let list = s.list();
    assert_eq!(list.len(), 2);
    assert_eq!(list[0].pid(), Pid::new(2));
    assert_eq!(list[0].extra(), "vruntime=3");
    assert_eq!(list[1].pid(), Pid::new(1));
    assert_eq!(list[1].extra(), "vruntime=8");
    assert_eq!(list[1].state(), ProcessState::Ready);
}

#[test]
fn cfs_equal_vruntime_picks_smallest_pid() {
    let mut s = cfs(10, 6);
    assert_eq!(s.stop(fork(0, 0)), SyscallResult::Pid(Pid::new(1)));
    assert_eq!(s.next(), run(1, 10));
    assert_eq!(s.stop(fork(0, 9)), SyscallResult::Pid(Pid::new(2)));
    assert_eq!(s.next(), run(1, 5));
    let list = s.list();
    assert_eq!(list[0].extra(), "vruntime=1");
    assert_eq!(list[1].extra(), "vruntime=1");
}

#[test]
fn cfs_exit_shares_time_again() {
    let mut s = cfs(12, 1);
    s.stop(fork(0, 0));
    assert_eq!(s.next(), run(1, 12));
    assert_eq!(s.stop(fork(0, 11)), SyscallResult::Pid(Pid::new(2)));
    assert_eq!(s.next(), run(1, 6));
    assert_eq!(s.stop(fork(0, 5)), SyscallResult::Pid(Pid::new(3)));
    assert_eq!(s.next(), run(1, 4));
    assert_eq!(s.stop(StopReason::Expired), SyscallResult::Success);
    assert_eq!(s.next(), run(2, 4));
    assert_eq!(
        s.stop(StopReason::Syscall { syscall: Syscall::Exit, remaining: 1 }),
        SyscallResult::Success
    );
    assert_eq!(s.next(), run(3, 6));
}

#[test]
fn cfs_exit_of_pid_one_panics() {
    let mut s = cfs(12, 1);
    s.stop(fork(0, 0));
    assert_eq!(s.next(), run(1, 12));
    assert_eq!(s.stop(fork(0, 11)), SyscallResult::Pid(Pid::new(2)));
    assert_eq!(s.next(), run(1, 6));
    assert_eq!(
        s.stop(StopReason::Syscall { syscall: Syscall::Exit, remaining: 2 }),
        SyscallResult::Success
    );
    assert_eq!(s.next(), SchedulingDecision::Panic);
}

#[test]
fn cfs_sleeping_process_leaves_and_returns() {
    let mut s = cfs(10, 1);
    s.stop(fork(0, 0));
    assert_eq!(s.next(), run(1, 10));
    assert_eq!(s.stop(fork(0, 9)), SyscallResult::Pid(Pid::new(2)));
    assert_eq!(s.next(), run(1, 5));
    assert_eq!(
        s.stop(StopReason::Syscall { syscall: Syscall::Sleep(3), remaining: 4 }),
        SyscallResult::Success
    );
    assert_eq!(s.next(), run(2, 10));
    assert_eq!(s.stop(StopReason::Expired), SyscallResult::Success);
    assert_eq!(s.next(), run(1, 5));
}

#[test]
fn cfs_only_sleepers_make_the_scheduler_sleep() {
    let mut s = cfs(10, 1);
    s.stop(fork(0, 0));
    assert_eq!(s.next(), run(1, 10));
    assert_eq!(
        s.stop(StopReason::Syscall { syscall: Syscall::Sleep(3), remaining: 9 }),
        SyscallResult::Success
    );
    assert_eq!(s.list()[0].state(), ProcessState::Waiting { event: None });
    assert_eq!(s.next(), SchedulingDecision::Sleep(3));
    assert_eq!(s.next(), run(1, 10));
}

#[test]
fn cfs_wait_signal_and_deadlock() {
    let mut s = cfs(10, 1);
    s.stop(fork(0, 0));
    assert_eq!(s.next(), run(1, 10));
    assert_eq!(s.stop(fork(0, 9)), SyscallResult::Pid(Pid::new(2)));
    assert_eq!(s.next(), run(1, 5));
    assert_eq!(
        s.stop(StopReason::Syscall { syscall: Syscall::Wait(7), remaining: 4 }),
        SyscallResult::Success
    );
    assert_eq!(s.next(), run(2, 10));
    assert_eq!(
        s.stop(StopReason::Syscall { syscall: Syscall::Signal(7), remaining: 9 }),
        SyscallResult::Success
    );
    assert_eq!(s.next(), run(2, 5));
    assert_eq!(
        s.stop(StopReason::Syscall { syscall: Syscall::Wait(8), remaining: 4 }),
        SyscallResult::Success
    );
    assert_eq!(s.next(), run(1, 10));
    assert_eq!(
        s.stop(StopReason::Syscall { syscall: Syscall::Wait(9), remaining: 9 }),
        SyscallResult::Success
    );
    assert_eq!(s.next(), SchedulingDecision::Deadlock);
}

#[test]
fn cfs_exit_of_last_process_is_done() {
    let mut s = cfs(10, 1);
    s.stop(fork(0, 0));
    assert_eq!(s.next(), run(1, 10));
    assert_eq!(
        s.stop(StopReason::Syscall { syscall: Syscall::Exit, remaining: 4 }),
        SyscallResult::Success
    );
    assert_eq!(s.next(), SchedulingDecision::Done);
    assert!(s.list().is_empty());
}
