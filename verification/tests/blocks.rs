use std::cmp::Ordering;
use lib::schedulers::round_robin_old;
use lib::{
    Event, FairPCB, GeneralProcess, Pid, PrioRoundRobinPCB, Process, ProcessState, RoundRobinPCB,
    Scheduler, SchedulingDecision, StopReason, Syscall, SyscallResult, Timestamp, Vruntime,
};

#[test]
fn wrapped_numbers_keep_their_value() {
    assert_eq!(Timestamp::new(3).get(), 3);
    assert_eq!(Timestamp::new(3).add(4).get(), 7);
    assert_eq!(Event::new(5).get(), 5);
    assert_eq!(Vruntime::new(2).get(), 2);
    assert_eq!(Vruntime::new(2).add(3).get(), 5);
    assert_eq!(Pid::new(4).add(2), Pid::new(6));
    assert_eq!(Pid::new(9).get(), 9);
}

#[test]
fn general_process_starts_ready() {
    let p = GeneralProcess::new(Pid::new(3), 2, Timestamp::new(7));
    assert_eq!(p.pid(), Pid::new(3));
    assert_eq!(p.state(), ProcessState::Ready);
    assert_eq!(p.priority(), 2);
    assert_eq!(p.timings(), (0, 0, 0));
    assert_eq!(p.extra(), "");
}

#[test]
fn general_process_with_vruntime_reports_it() {
    let p = GeneralProcess::with_vruntime(Pid::new(1), 0, Timestamp::new(0), Vruntime::new(17));
    assert_eq!(p.extra(), "vruntime=17");
}

#[test]
fn fair_block_reports_vruntime() {
    let p = FairPCB::new(Pid::new(1), 0, Timestamp::new(0), Vruntime::new(42));
    assert_eq!(p.extra(), "vruntime=42");
    let q = FairPCB::new(Pid::new(2), 0, Timestamp::new(0), Vruntime::new(0));
    assert_eq!(q.extra(), "vruntime=0");
    let r = FairPCB::new(Pid::new(3), 0, Timestamp::new(0), Vruntime::new(1050));
    assert_eq!(r.extra(), "vruntime=1050");
}

#[test]
fn round_robin_block_counts_time() {
    let mut p = RoundRobinPCB::new(Pid::new(3), 2, 5);
    assert_eq!(p.state, ProcessState::Ready);
    assert_eq!(p.arrival_time, 5);
    p.set_run();
    assert_eq!(p.state, ProcessState::Running);
    p.execute(4);
    p.execute(2);
    p.syscall();
    p.load_payload(7);
    assert_eq!(p.exec_time, 6);
    assert_eq!(p.syscall_time, 1);
    assert_eq!(p.time_payload, 7);
    p.set_sleep();
    assert_eq!(p.state, ProcessState::Waiting { event: None });
    p.wait_for_event(4);
    assert_eq!(p.state(), ProcessState::Waiting { event: Some(4) });
    p.set_state(ProcessState::Ready);
    assert_eq!(p.state(), ProcessState::Ready);
}

#[test]
fn priority_moves_within_bounds() {
    let mut p = PrioRoundRobinPCB::new(Pid::new(1), 2, Timestamp::new(0));
    p.inc_priority();
    assert_eq!(p.priority, 2);
    p.dec_priority();
    p.dec_priority();
    assert_eq!(p.priority, 0);
    p.dec_priority();
    assert_eq!(p.priority, 0);
    p.inc_priority();
    assert_eq!(p.priority, 1);
    assert_eq!(p.priority_at_born, 2);
    p.wait_for_event(Event::new(8));
    assert_eq!(p.state, ProcessState::Waiting { event: Some(8) });
    p.load_payload(3);
    assert_eq!(p.get_payload(), 3);
}

#[test]
fn old_round_robin_forks_and_rotates() {
    let mut s = round_robin_old::RoundRobinScheduler::new(5, 2);
    let fork = |remaining: usize| StopReason::Syscall { syscall: Syscall::Fork(0), remaining };
    assert_eq!(s.stop(fork(0)), SyscallResult::Pid(Pid::new(1)));
    assert_eq!(s.next(), SchedulingDecision::Run { pid: Pid::new(1), timeslice: 5 });
    assert_eq!(s.stop(fork(4)), SyscallResult::Pid(Pid::new(2)));
    assert_eq!(s.next(), SchedulingDecision::Run { pid: Pid::new(1), timeslice: 4 });
    assert_eq!(s.stop(fork(1)), SyscallResult::Pid(Pid::new(3)));
    assert_eq!(s.next(), SchedulingDecision::Run { pid: Pid::new(2), timeslice: 5 });
    let list = s.list();
    let pids: Vec<usize> = list.iter().map(|p| p.pid().get()).collect();
    assert_eq!(pids, vec![2, 3, 1]);
    assert_eq!(list[0].state(), ProcessState::Running);
    assert_eq!(list[2].timings(), (6, 2, 4));
}

#[test]
fn old_round_robin_expiry() {
    let mut s = round_robin_old::RoundRobinScheduler::new(3, 1);
    assert_eq!(s.stop(StopReason::Expired), SyscallResult::NoRunningProcess);
    assert_eq!(s.next(), SchedulingDecision::Done);
    s.stop(StopReason::Syscall { syscall: Syscall::Fork(0), remaining: 0 });
    assert_eq!(s.next(), SchedulingDecision::Run { pid: Pid::new(1), timeslice: 3 });
    assert_eq!(s.stop(StopReason::Expired), SyscallResult::Success);
    assert_eq!(s.next(), SchedulingDecision::Run { pid: Pid::new(1), timeslice: 3 });
}

#[test]
fn vruntimes_compare_by_value() {
    assert!(Vruntime::new(2) < Vruntime::new(3));
    assert!(Vruntime::new(4) > Vruntime::new(3));
    assert_eq!(Vruntime::new(5).partial_cmp(&Vruntime::new(5)), Some(Ordering::Equal));
    assert_eq!(Vruntime::new(7).partial_cmp(&Vruntime::new(1)), Some(Ordering::Greater));
    assert_eq!(Vruntime::new(0).partial_cmp(&Vruntime::new(usize::MAX)), Some(Ordering::Less));
}

#[test]
fn largest_vruntime_is_written_in_full() {
    let p = FairPCB::new(Pid::new(1), 0, Timestamp::new(0), Vruntime::new(usize::MAX));
    assert_eq!(p.extra(), format!("vruntime={}", usize::MAX));
    let q = FairPCB::new(Pid::new(1), 0, Timestamp::new(0), Vruntime::new(10));
    assert_eq!(q.extra(), "vruntime=10");
}
