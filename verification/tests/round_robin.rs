use lib::{
    round_robin, Pid, Process, ProcessState, Scheduler, SchedulingDecision, StopReason, Syscall,
    SyscallResult,
};

fn fork(prio: i8, remaining: usize) -> StopReason {
    StopReason::Syscall { syscall: Syscall::Fork(prio), remaining }
}

fn call(syscall: Syscall, remaining: usize) -> StopReason {
    StopReason::Syscall { syscall, remaining }
}

fn run(pid: usize, timeslice: usize) -> SchedulingDecision {
    SchedulingDecision::Run { pid: Pid::new(pid), timeslice }
}

#[test]
fn empty_scheduler_is_done() {
    let mut s = round_robin(3, 1);
    assert_eq!(s.next(), SchedulingDecision::Done);
    assert!(s.list().is_empty());
}

#[test]
fn stop_without_running_process() {
    let mut s = round_robin(3, 1);
    assert_eq!(s.stop(StopReason::Expired), SyscallResult::NoRunningProcess);
    assert_eq!(s.stop(call(Syscall::Exit, 0)), SyscallResult::NoRunningProcess);
    assert_eq!(s.stop(call(Syscall::Sleep(2), 0)), SyscallResult::NoRunningProcess);
    assert_eq!(s.stop(call(Syscall::Wait(1), 0)), SyscallResult::NoRunningProcess);
    assert_eq!(s.stop(call(Syscall::Signal(1), 0)), SyscallResult::NoRunningProcess);
    assert_eq!(s.next(), SchedulingDecision::Done);
}

#[test]
fn forks_give_increasing_pids() {
    let mut s = round_robin(10, 1);
    assert_eq!(s.stop(fork(0, 0)), SyscallResult::Pid(Pid::new(1)));
    assert_eq!(s.next(), run(1, 10));
    assert_eq!(s.stop(fork(0, 9)), SyscallResult::Pid(Pid::new(2)));
    assert_eq!(s.next(), run(1, 9));
    assert_eq!(s.stop(fork(0, 8)), SyscallResult::Pid(Pid::new(3)));
    let mut pids: Vec<usize> = s.list().iter().map(|p| p.pid().get()).collect();
    pids.sort();
    assert_eq!(pids, vec![1, 2, 3]);
}

#[test]
fn expired_process_goes_to_the_end_of_the_queue() {
    let mut s = round_robin(3, 1);
    assert_eq!(s.stop(fork(0, 0)), SyscallResult::Pid(Pid::new(1)));
    assert_eq!(s.next(), run(1, 3));
    assert_eq!(s.stop(fork(0, 2)), SyscallResult::Pid(Pid::new(2)));
    assert_eq!(s.next(), run(1, 2));
    assert_eq!(s.stop(StopReason::Expired), SyscallResult::Success);
    assert_eq!(s.next(), run(2, 3));
    assert_eq!(s.stop(StopReason::Expired), SyscallResult::Success);
    assert_eq!(s.next(), run(1, 3));
}

#[test]
fn list_reports_timings() {
    let mut s = round_robin(3, 1);
    s.stop(fork(0, 0));
    s.next();
    s.stop(fork(0, 2));
    s.next();
    s.stop(StopReason::Expired);
    assert_eq!(s.next(), run(2, 3));
    let list = s.list();
    assert_eq!(list.len(), 2);
    assert_eq!(list[0].pid(), Pid::new(2));
    assert_eq!(list[0].state(), ProcessState::Running);
    assert_eq!(list[0].timings(), (2, 0, 0));
    assert_eq!(list[1].pid(), Pid::new(1));
    assert_eq!(list[1].state(), ProcessState::Ready);
    assert_eq!(list[1].timings(), (3, 1, 2));
    assert_eq!(list[1].priority(), 0);
    assert_eq!(list[1].extra(), String::new());
}

#[test]
fn short_remaining_timeslice_gives_way() {
    let mut s = round_robin(3, 3);
    assert_eq!(s.stop(fork(0, 0)), SyscallResult::Pid(Pid::new(1)));
    assert_eq!(s.next(), run(1, 3));
    assert_eq!(s.stop(fork(0, 1)), SyscallResult::Pid(Pid::new(2)));
    assert_eq!(s.next(), run(2, 3));
}

#[test]
fn long_remaining_timeslice_runs_on() {
    let mut s = round_robin(5, 2);
    s.stop(fork(0, 0));
    assert_eq!(s.next(), run(1, 5));
    assert_eq!(s.stop(fork(0, 2)), SyscallResult::Pid(Pid::new(2)));
    assert_eq!(s.next(), run(1, 2));
}

#[test]
fn exit_of_last_process_is_done() {
    let mut s = round_robin(5, 1);
    s.stop(fork(0, 0));
    assert_eq!(s.next(), run(1, 5));
    assert_eq!(s.stop(call(Syscall::Exit, 3)), SyscallResult::Success);
    assert_eq!(s.next(), SchedulingDecision::Done);
}

#[test]
fn exit_of_pid_one_before_children_panics() {
    let mut s = round_robin(5, 1);
    s.stop(fork(0, 0));
    assert_eq!(s.next(), run(1, 5));
    assert_eq!(s.stop(fork(0, 4)), SyscallResult::Pid(Pid::new(2)));
    assert_eq!(s.next(), run(1, 4));
    assert_eq!(s.stop(call(Syscall::Exit, 2)), SyscallResult::Success);
    assert_eq!(s.next(), SchedulingDecision::Panic);
}

#[test]
fn sleeping_process_wakes_after_its_time() {
    let mut s = round_robin(5, 1);
    s.stop(fork(0, 0));
    assert_eq!(s.next(), run(1, 5));
    assert_eq!(s.stop(call(Syscall::Sleep(3), 4)), SyscallResult::Success);
    assert_eq!(s.next(), SchedulingDecision::Sleep(3));
    assert_eq!(s.next(), run(1, 5));
}

#[test]
fn sleeping_process_is_listed_as_waiting() {
    let mut s = round_robin(5, 1);
    s.stop(fork(0, 0));
    s.next();
    s.stop(call(Syscall::Sleep(3), 4));
    let list = s.list();
    assert_eq!(list.len(), 1);
    assert_eq!(list[0].state(), ProcessState::Waiting { event: None });
    assert_eq!(list[0].timings(), (1, 1, 0));
}

#[test]
fn processes_waiting_for_events_deadlock() {
    let mut s = round_robin(5, 1);
    s.stop(fork(0, 0));
    assert_eq!(s.next(), run(1, 5));
    assert_eq!(s.stop(fork(0, 4)), SyscallResult::Pid(Pid::new(2)));
    assert_eq!(s.next(), run(1, 4));
    assert_eq!(s.stop(call(Syscall::Wait(7), 3)), SyscallResult::Success);
    assert_eq!(s.next(), run(2, 5));
    assert_eq!(s.stop(call(Syscall::Wait(9), 4)), SyscallResult::Success);
    assert_eq!(s.next(), SchedulingDecision::Deadlock);
    let list = s.list();
    assert_eq!(list[0].state(), ProcessState::Waiting { event: Some(7) });
    assert_eq!(list[1].state(), ProcessState::Waiting { event: Some(9) });
}

#[test]
fn signal_releases_waiting_processes() {
    let mut s = round_robin(5, 1);
    s.stop(fork(0, 0));
    assert_eq!(s.next(), run(1, 5));
    assert_eq!(s.stop(fork(0, 4)), SyscallResult::Pid(Pid::new(2)));
    assert_eq!(s.next(), run(1, 4));
    assert_eq!(s.stop(call(Syscall::Wait(7), 3)), SyscallResult::Success);
    assert_eq!(s.next(), run(2, 5));
    assert_eq!(s.stop(call(Syscall::Signal(7), 4)), SyscallResult::Success);
    assert_eq!(s.next(), run(2, 4));
    assert_eq!(s.stop(StopReason::Expired), SyscallResult::Success);
    assert_eq!(s.next(), run(1, 5));
}
