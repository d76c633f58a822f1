//! The round robin scheduler: ready processes run in turn, each for at most
//! a fixed timeslice.

use vstd::prelude::*;

use crate::process_control_block::PcbView;
use crate::pids::{
    lemma_singleton_add, pids_of, running_pids,
    lemma_aged_all_pids, lemma_awakened_pids, lemma_forked_pids, lemma_pids_of_drop_first,
    lemma_pids_of_push, lemma_sleeper_pids_push, lemma_slept_out_pids, lemma_stopped_pids,
    lemma_unblocked_pids, lemma_unique_insert, lemma_unique_remove, lemma_waiter_pids_push,
    lemma_woken_pids,
};
use vstd::multiset::Multiset;
use crate::collector::{all_items, Collector};
use crate::common_funcs::{execute_exit, execute_expired, execute_fork, fork_outcome};
use crate::schedulers::queue_ops::{
    check_sleepers, least_sleep_time, readied_views, sleep_views, split_sleepers, split_waiters,
    wait_views,
};
use crate::scheduler_info::{
    aged, awoken, opt_block, readied, released, still_asleep, still_waiting, time_to_wake,
    woken_entry, SchedModel, SchedulerActions,
};
use crate::{
    collect_all, Event, GeneralProcess, Pid, ProcessControlBlock, ProcessManager, ProcessState,
    Scheduler, SchedulerInfo, SchedulingDecision, StopReason, Syscall, SyscallResult, Timestamp,
    Vruntime,
};

verus! {

/// The blocks of a sequence of processes.
pub open spec fn blocks(s: Seq<GeneralProcess>) -> Seq<PcbView> {
    s.map_values(|p: GeneralProcess| p@)
}

/// The block of a process that is launched with a timeslice of `quanta`.
pub open spec fn launched(b: PcbView, quanta: usize) -> PcbView {
    PcbView { state: ProcessState::Running, payload: quanta, ..b }
}

/// The block of a process put to sleep.
pub open spec fn asleep(b: PcbView) -> PcbView {
    PcbView { state: ProcessState::Waiting { event: None }, ..b }
}

/// The block of a process that waits for `event`.
pub open spec fn waiting_for(b: PcbView, event: usize) -> PcbView {
    PcbView { state: ProcessState::Waiting { event: Some(event) }, ..b }
}

/// A round robin block: no virtual runtime, and a priority in range.
pub open spec fn plain_block(b: PcbView) -> bool {
    b.vruntime is None && b.priority_in_range()
}

/// What holds of a round robin scheduler between two calls: the timeslice is
/// not zero; every process was created before now; every process is in the
/// state of the queue it sits in; every sleeping process fell asleep no
/// later than now and wakes at a moment below `usize::MAX`.
pub open spec fn round_robin_invariant(m: SchedModel) -> bool {
    &&& m.quanta > 0
    &&& m.arrivals_past()
    &&& m.sleep_starts_past()
    &&& (m.running matches Some(p) ==> p.state == ProcessState::Running && plain_block(p))
    &&& forall|i: int|
        0 <= i < m.ready.len() ==> (#[trigger] m.ready[i]).state == ProcessState::Ready
            && plain_block(m.ready[i])
    &&& forall|i: int|
        0 <= i < m.sleeping.len() ==> {
            let e = #[trigger] m.sleeping[i];
            &&& e.0.state == (ProcessState::Waiting { event: None })
            &&& plain_block(e.0)
            &&& e.1 + e.2 < usize::MAX
        }
    &&& forall|i: int|
        0 <= i < m.waiting.len() ==> {
            let e = #[trigger] m.waiting[i];
            &&& e.0.state == (ProcessState::Waiting { event: Some(e.1) })
            &&& plain_block(e.0)
        }
}

/// The state after the running process, stopped for a sleep of `time`
/// units with `remaining` units left, is put to sleep; the call takes one
/// time unit.
pub open spec fn sleep_outcome(m: SchedModel, remaining: usize, time: usize) -> SchedModel {
    let mid = m.stopped(remaining, StopReason::Syscall { syscall: Syscall::Sleep(time), remaining });
    SchedModel {
        running: None,
        sleeping: mid.sleeping.push((asleep(mid.running.unwrap()), mid.timestamp, time)),
        timestamp: (mid.timestamp + 1) as usize,
        ..mid
    }
}

/// The state after the running process, stopped to wait for `event` with
/// `remaining` units left, is made to wait; the call takes one time unit.
pub open spec fn wait_outcome(m: SchedModel, remaining: usize, event: usize) -> SchedModel {
    let mid = m.stopped(remaining, StopReason::Syscall { syscall: Syscall::Wait(event), remaining });
    SchedModel {
        running: None,
        waiting: mid.waiting.push((waiting_for(mid.running.unwrap(), event), event)),
        timestamp: (mid.timestamp + 1) as usize,
        ..mid
    }
}

/// The state after the running process signals `event` with `remaining`
/// units left: the processes waiting for it become ready, the signaling
/// process keeps running, and the call takes one time unit.
pub open spec fn signal_outcome(m: SchedModel, remaining: usize, event: usize) -> SchedModel {
    m.stopped(remaining, StopReason::Syscall { syscall: Syscall::Signal(event), remaining }).unblocked(
        event,
    ).skipped(1)
}

/// What `stop(reason)` does to a round robin scheduler holding `m`: `m2` is
/// the state afterwards and `r` the answer.
pub open spec fn stop_outcome(m: SchedModel, reason: StopReason, m2: SchedModel, r: SyscallResult) -> bool {
    match reason {
        StopReason::Syscall { syscall: Syscall::Fork(prio), remaining } => {
            &&& r matches SyscallResult::Pid(p) && p@ == m.next_pid
            &&& m2 == fork_outcome::<RoundRobinScheduler>(m, remaining, prio)
        },
        StopReason::Syscall { syscall: Syscall::Exit, remaining } => match m.running {
            Some(p) => {
                &&& r == SyscallResult::Success
                &&& m2 == (SchedModel {
                    running: None,
                    panicd: m.panicd || p.pid == 1,
                    ..m.skipped(p.payload - remaining)
                })
            },
            None => r == SyscallResult::NoRunningProcess && m2 == m,
        },
        StopReason::Syscall { syscall: Syscall::Sleep(time), remaining } => match m.running {
            Some(p) => r == SyscallResult::Success && m2 == sleep_outcome(m, remaining, time),
            None => r == SyscallResult::NoRunningProcess && m2 == m,
        },
        StopReason::Syscall { syscall: Syscall::Wait(event), remaining } => match m.running {
            Some(p) => r == SyscallResult::Success && m2 == wait_outcome(m, remaining, event),
            None => r == SyscallResult::NoRunningProcess && m2 == m,
        },
        StopReason::Syscall { syscall: Syscall::Signal(event), remaining } => match m.running {
            Some(p) => r == SyscallResult::Success && m2 == signal_outcome(m, remaining, event),
            None => r == SyscallResult::NoRunningProcess && m2 == m,
        },
        StopReason::Expired => match m.running {
            Some(p) => {
                &&& r == SyscallResult::Success
                &&& m2 == (SchedModel {
                    running: None,
                    ready: m.ready.push(readied(p.interrupted(0, StopReason::Expired))),
                    ..m.stopped(0, StopReason::Expired)
                })
            },
            None => r == SyscallResult::NoRunningProcess && m2 == m,
        },
    }
}

/// Whether `stop(reason)` is accepted by a round robin scheduler holding
/// `m`: the invariant holds, the running process can account for its stop,
/// and no clock or pid leaves the range of a usize.
pub open spec fn stop_accepted(m: SchedModel, reason: StopReason) -> bool {
    &&& round_robin_invariant(m)
    &&& match reason {
        StopReason::Syscall { syscall, remaining } => {
            &&& (syscall !is Exit ==> m.can_stop_running(remaining, reason))
            &&& match syscall {
                Syscall::Fork(_) => {
                    &&& m.stopped(remaining, reason).timestamp < usize::MAX
                    &&& m.next_pid < usize::MAX
                },
                Syscall::Exit => m.running matches Some(p) ==> {
                    &&& remaining <= p.payload
                    &&& m.timestamp + (p.payload - remaining) <= usize::MAX
                },
                Syscall::Sleep(time) => m.running is Some ==> m.stopped(remaining, reason).timestamp
                    + time < usize::MAX - 1,
                _ => m.running is Some ==> m.stopped(remaining, reason).timestamp < usize::MAX,
            }
        },
        StopReason::Expired => m.can_stop_running(0, reason),
    }
}

/// The state after the scheduler wakes: the slept time is added to the
/// clock and the processes whose sleeping time is over become ready.
pub open spec fn after_wakeup(m: SchedModel) -> SchedModel {
    m.slept_out().woken().awakened()
}

/// What `next()` does to a round robin scheduler holding `m`: `m2` is the
/// state afterwards and `r` the decision. Once the scheduler woke, a panic
/// is reported when the process with pid 1 ended and others are left; with
/// no running process, the first ready process is launched with a full
/// timeslice, or, when none is ready, the scheduler finishes, reports a
/// deadlock or sleeps until the first sleeper wakes; a running process with
/// less than the minimum timeslice left goes to the end of the ready queue
/// and the first ready process is launched; otherwise it runs on for what is
/// left of its timeslice.
pub open spec fn next_outcome(m: SchedModel, m2: SchedModel, r: SchedulingDecision) -> bool {
    let w = after_wakeup(m);
    match w.running {
        None => if w.panics() {
            r == SchedulingDecision::Panic && m2 == w
        } else if w.ready.len() > 0 {
            &&& r matches SchedulingDecision::Run { pid, timeslice } && pid@ == w.ready[0].pid
                && timeslice == w.quanta
            &&& m2 == (SchedModel {
                running: Some(launched(w.ready[0], w.quanta)),
                ready: w.ready.drop_first(),
                ..w
            })
        } else {
            &&& Some(r) == w.blocked_decision()
            &&& m2 == (SchedModel {
                slept_time: match r {
                    SchedulingDecision::Sleep(t) => t,
                    _ => 0,
                },
                ..w
            })
        },
        Some(p) => if p.payload < w.min_time {
            let q = w.ready.push(readied(p));
            &&& r matches SchedulingDecision::Run { pid, timeslice } && pid@ == q[0].pid
                && timeslice == w.quanta
            &&& m2 == (SchedModel {
                running: Some(launched(q[0], w.quanta)),
                ready: q.drop_first(),
                ..w
            })
        } else {
            &&& r matches SchedulingDecision::Run { pid, timeslice } && pid@ == p.pid && timeslice
                == p.payload
            &&& m2 == w
        },
    }
}

/// The pids a round robin scheduler holding `m` holds after `stop(reason)`:
/// a fork adds the pid of the new process, an exit takes out that of the
/// running process, and every other stop keeps them.
pub open spec fn stop_pids(m: SchedModel, reason: StopReason) -> Multiset<usize> {
    match reason {
        StopReason::Syscall { syscall: Syscall::Fork(_), .. } => m.pids().insert(m.next_pid),
        StopReason::Syscall { syscall: Syscall::Exit, .. } => match m.running {
            Some(p) => m.pids().remove(p.pid),
            None => m.pids(),
        },
        _ => m.pids(),
    }
}

/// Each process has its own pid: a stop adds no pid but that of a forked
/// process, which is the next pid and held by none before, takes out none
/// but that of an exiting process and keeps the others, and the next pid
/// never decreases; so when every process has its own pid below the next
/// one to be given, this still holds after the stop.
pub proof fn lemma_stop_keeps_pids_unique(m: SchedModel, reason: StopReason, m2: SchedModel, r: SyscallResult)
    requires
        stop_accepted(m, reason),
        stop_outcome(m, reason, m2, r),
        m.pids_unique(),
    ensures
        m2.pids() =~= stop_pids(m, reason),
        m2.next_pid >= m.next_pid,
        m2.pids_unique(),
{
    match reason {
        StopReason::Syscall { syscall, remaining } => {
            let mid = m.stopped(remaining, reason);
            lemma_stopped_pids(m, remaining, reason);
            match syscall {
                Syscall::Fork(prio) => {
                    lemma_forked_pids(mid, prio, RoundRobinScheduler::start_vruntime(mid));
                    lemma_slept_out_pids(mid.forked(prio, RoundRobinScheduler::start_vruntime(mid)), 1);
                    lemma_unique_insert(m.pids(), m.next_pid);
                    assert(m2.pids() =~= m.pids().insert(m.next_pid));
                    assert(m2.pids_unique());
                },
                Syscall::Exit => {
                    if let Some(p) = m.running {
                        lemma_slept_out_pids(m, p.payload - remaining);
                        assert(m.pids() =~= m2.pids().insert(p.pid));
                        assert(m2.pids() =~= m.pids().remove(p.pid));
                        lemma_unique_remove(m.pids(), m.next_pid, p.pid);
                    }
                    assert(m2.pids_unique());
                },
                Syscall::Sleep(time) => {
                    if let Some(p) = m.running {
                        lemma_sleeper_pids_push(mid.sleeping, (asleep(mid.running.unwrap()), mid.timestamp, time));
                    }
                    assert(m2.pids() =~= m.pids());
                },
                Syscall::Wait(event) => {
                    if let Some(p) = m.running {
                        lemma_waiter_pids_push(mid.waiting, (waiting_for(mid.running.unwrap(), event), event));
                    }
                    assert(m2.pids() =~= m.pids());
                },
                Syscall::Signal(event) => {
                    if let Some(p) = m.running {
                        lemma_unblocked_pids(mid, event);
                        lemma_slept_out_pids(mid.unblocked(event), 1);
                    }
                    assert(m2.pids() =~= m.pids());
                },
            }
        },
        StopReason::Expired => {
            if let Some(p) = m.running {
                lemma_stopped_pids(m, 0, reason);
                lemma_pids_of_push(m.ready, readied(p.interrupted(0, StopReason::Expired)));
            }
            assert(m2.pids() =~= m.pids());
        },
    }
}

/// The clock of a round robin scheduler never goes back on a stop: it moves
/// forward by the time the running process executed, and by one unit for a
/// system call that it handled.
pub proof fn lemma_stop_clock_forward(m: SchedModel, reason: StopReason, m2: SchedModel, r: SyscallResult)
    requires
        stop_accepted(m, reason),
        stop_outcome(m, reason, m2, r),
    ensures
        m2.timestamp >= m.timestamp,
{
}

/// The clock of a round robin scheduler never goes back on `next()`: it
/// moves forward by the time the scheduler slept.
pub proof fn lemma_next_clock_forward(m: SchedModel, m2: SchedModel, r: SchedulingDecision)
    requires
        m.timestamp + m.slept_time <= usize::MAX,
        next_outcome(m, m2, r),
    ensures
        m2.timestamp == m.timestamp + m.slept_time,
{
}

/// `next()` keeps the pids a round robin scheduler holds and the next pid,
/// so each process keeps its own pid.
pub proof fn lemma_next_keeps_pids(m: SchedModel, m2: SchedModel, r: SchedulingDecision)
    requires
        next_outcome(m, m2, r),
    ensures
        m2.pids() =~= m.pids(),
        m2.next_pid == m.next_pid,
        m.pids_unique() ==> m2.pids_unique(),
{
    let a = m.slept_out();
    let b = a.woken();
    let w = b.awakened();
    lemma_slept_out_pids(m, 0);
    lemma_woken_pids(a);
    lemma_awakened_pids(b);
    assert(w.pids() =~= m.pids());
    match w.running {
        None => {
            if w.panics() {
                assert(m2.pids() =~= w.pids());
            } else if w.ready.len() > 0 {
                lemma_pids_of_drop_first(w.ready);
                assert(m2.pids() =~= w.pids());
            } else {
                assert(m2.ready == w.ready);
                assert(m2.pids() =~= w.pids());
            }
        },
        Some(p) => {
            if p.payload < w.min_time {
                let q = w.ready.push(readied(p));
                lemma_pids_of_push(w.ready, readied(p));
                lemma_pids_of_drop_first(q);
                assert(m2.ready == q.drop_first());
                lemma_singleton_add(q[0].pid, pids_of(m2.ready));
                lemma_singleton_add(p.pid, pids_of(w.ready));
                assert(running_pids(m2.running).add(pids_of(m2.ready)) =~= running_pids(w.running).add(
                    pids_of(w.ready),
                ));
            }
            assert(m2.pids() =~= w.pids());
        },
    }
}

/// Listing the processes keeps the pids the scheduler holds.
pub proof fn lemma_list_keeps_pids(m: SchedModel)
    ensures
        m.aged_all().pids() == m.pids(),
        m.aged_all().next_pid == m.next_pid,
{
    lemma_aged_all_pids(m);
}

/// When no process can run and the round robin scheduler sleeps, it sleeps
/// until the first sleeper wakes: some process sleeps, none wakes sooner,
/// and one wakes then.
pub proof fn lemma_sleeps_until_first_wake(m: SchedModel, m2: SchedModel, r: SchedulingDecision)
    requires
        round_robin_invariant(m),
        m.timestamp + m.slept_time <= usize::MAX,
        next_outcome(m, m2, r),
    ensures
        r matches SchedulingDecision::Sleep(t) ==> {
            let w = after_wakeup(m);
            &&& w.sleeping.len() > 0
            &&& forall|i: int|
                0 <= i < w.sleeping.len() ==> t <= #[trigger] time_to_wake(w.sleeping[i], w.timestamp)
            &&& exists|i: int|
                0 <= i < w.sleeping.len() && t == #[trigger] time_to_wake(w.sleeping[i], w.timestamp)
        },
{
    lemma_wakeup_keeps_invariant(m);
    let w = after_wakeup(m);
    if w.sleeping.len() > 0 {
        assert forall|i: int| 0 <= i < w.sleeping.len() implies #[trigger] time_to_wake(
            w.sleeping[i],
            w.timestamp,
        ) <= usize::MAX by {
            let e = w.sleeping[i];
        }
        crate::scheduler_info::lemma_first_wake_is_a_wake(w.sleeping, w.timestamp);
    }
}

/// The round robin scheduler reports a panic exactly when, once woken, no
/// process runs, the process with pid 1 has ended and some process is left,
/// sleeping and waiting ones included.
pub proof fn lemma_next_panics_iff(m: SchedModel, m2: SchedModel, r: SchedulingDecision)
    requires
        next_outcome(m, m2, r),
    ensures
        r == SchedulingDecision::Panic <==> {
            let w = after_wakeup(m);
            &&& w.running is None
            &&& w.panicd
            &&& all_blocks(w).len() > 0
        },
{
    let w = after_wakeup(m);
    assert(all_blocks(w).len() == (if w.running is Some { 1int } else { 0int }) + w.ready.len()
        + w.sleeping.len() + w.waiting.len());
}

/// Waking keeps the invariant, and afterwards every sleeper wakes at a
/// moment not yet past, so that the time until the first wakes is positive.
pub proof fn lemma_wakeup_keeps_invariant(m: SchedModel)
    requires
        round_robin_invariant(m),
        m.timestamp + m.slept_time <= usize::MAX,
    ensures
        round_robin_invariant(after_wakeup(m)),
        after_wakeup(m).sleep_ends_ahead(),
        after_wakeup(m).sleeping.len() > 0 ==> after_wakeup(m).time_for_sleep() > 0,
{
    let a = m.slept_out();
    let b = a.woken();
    let c = b.awakened();
    assert(round_robin_invariant(a));
    assert forall|i: int| 0 <= i < b.sleeping.len() implies {
        let e = #[trigger] b.sleeping[i];
        &&& e.0.state == (ProcessState::Waiting { event: None })
        &&& plain_block(e.0)
        &&& e.1 + e.2 < usize::MAX
        &&& e.1 <= b.timestamp
        &&& e.0.arrival < b.timestamp
        &&& e.2 != 0 ==> b.timestamp - e.1 <= e.2
    } by {
        assert(b.sleeping[i] == woken_entry(a.sleeping[i], a.timestamp));
    }
    crate::scheduler_info::lemma_still_asleep_members(b.sleeping);
    crate::scheduler_info::lemma_awoken_members(b.sleeping);
    assert forall|i: int| 0 <= i < c.sleeping.len() implies {
        let e = #[trigger] c.sleeping[i];
        &&& e.0.state == (ProcessState::Waiting { event: None })
        &&& plain_block(e.0)
        &&& e.1 + e.2 < usize::MAX
        &&& e.1 <= c.timestamp
        &&& e.0.arrival < c.timestamp
        &&& c.timestamp <= e.1 + e.2
    } by {
        let k = choose|k: int|
            #![trigger b.sleeping[k]]
            0 <= k < b.sleeping.len() && still_asleep(b.sleeping)[i] == b.sleeping[k]
                && b.sleeping[k].2 != 0;
    }
    assert forall|i: int| 0 <= i < c.ready.len() implies (#[trigger] c.ready[i]).state
        == ProcessState::Ready && plain_block(c.ready[i]) && c.ready[i].arrival < c.timestamp by {
        if i >= b.ready.len() {
            let j = i - b.ready.len();
            assert(c.ready[i] == awoken(b.sleeping)[j]);
            let k = choose|k: int|
                #![trigger b.sleeping[k]]
                0 <= k < b.sleeping.len() && awoken(b.sleeping)[j] == readied(b.sleeping[k].0)
                    && b.sleeping[k].2 == 0;
        }
    }
    assert(round_robin_invariant(c));
    if c.sleeping.len() > 0 {
        assert forall|i: int| 0 <= i < c.sleeping.len() implies 1 <= #[trigger] time_to_wake(
            c.sleeping[i],
            c.timestamp,
        ) <= usize::MAX by {
            let e = c.sleeping[i];
        }
        crate::scheduler_info::lemma_least_time_to_wake_positive(c.sleeping, c.timestamp);
    }
}

/// Releasing the processes waiting for `event` keeps the invariant.
pub proof fn lemma_unblock_keeps_invariant(m: SchedModel, event: usize)
    requires
        round_robin_invariant(m),
    ensures
        round_robin_invariant(m.unblocked(event)),
{
    let c = m.unblocked(event);
    crate::scheduler_info::lemma_still_waiting_members(m.waiting, event);
    crate::scheduler_info::lemma_released_members(m.waiting, event);
    assert forall|i: int| 0 <= i < c.waiting.len() implies {
        let e = #[trigger] c.waiting[i];
        &&& e.0.state == (ProcessState::Waiting { event: Some(e.1) })
        &&& plain_block(e.0)
        &&& e.0.arrival < c.timestamp
    } by {
        let k = choose|k: int|
            #![trigger m.waiting[k]]
            0 <= k < m.waiting.len() && still_waiting(m.waiting, event)[i] == m.waiting[k]
                && m.waiting[k].1 != event;
    }
    assert forall|i: int| 0 <= i < c.ready.len() implies (#[trigger] c.ready[i]).state
        == ProcessState::Ready && plain_block(c.ready[i]) && c.ready[i].arrival < c.timestamp by {
        if i >= m.ready.len() {
            let j = i - m.ready.len();
            assert(c.ready[i] == released(m.waiting, event)[j]);
            let k = choose|k: int|
                #![trigger m.waiting[k]]
                0 <= k < m.waiting.len() && released(m.waiting, event)[j] == readied(m.waiting[k].0)
                    && m.waiting[k].1 == event;
        }
    }
}

/// Every process of the scheduler: the running one, then the ready, the
/// sleeping and the waiting ones.
pub open spec fn all_blocks(m: SchedModel) -> Seq<PcbView> {
    let running = match m.running {
        Some(p) => seq![p],
        None => Seq::empty(),
    };
    running + m.ready + m.sleeping.map_values(|e: (PcbView, usize, usize)| e.0) + m.waiting.map_values(
        |e: (PcbView, usize)| e.0,
    )
}

/// The round robin scheduler.
pub struct RoundRobinScheduler {
    ready: std::collections::VecDeque<GeneralProcess>,
    sleeping: Vec<(GeneralProcess, Timestamp, usize)>,
    waiting: Vec<(GeneralProcess, Event)>,
    running: Option<GeneralProcess>,
    quanta: usize,
    min_time: usize,
    next_pid: Pid,
    timestamp: Timestamp,
    panicd: bool,
    slept_time: usize,
}

impl RoundRobinScheduler {
    /// Creates a scheduler with no process, that gives each launched process
    /// `timeslice` time units and lets a process that made a system call run
    /// on when at least `minimum_remaining_timeslice` units of its timeslice
    /// are left. The first process gets pid 1; the clock starts at 0.
    pub fn new(timeslice: usize, minimum_remaining_timeslice: usize) -> (r: RoundRobinScheduler)
        requires
            timeslice > 0,
        ensures
            r.model() == (SchedModel {
                ready: Seq::empty(),
                sleeping: Seq::empty(),
                waiting: Seq::empty(),
                running: None,
                quanta: timeslice,
                min_time: minimum_remaining_timeslice,
                next_pid: 1,
                timestamp: 0,
                panicd: false,
                slept_time: 0,
            }),
    {
        let r = RoundRobinScheduler {
            ready: std::collections::VecDeque::new(),
            sleeping: Vec::new(),
            waiting: Vec::new(),
            running: None,
            quanta: timeslice,
            min_time: minimum_remaining_timeslice,
            next_pid: Pid::new(1),
            timestamp: Timestamp::new(0),
            panicd: false,
            slept_time: 0,
        };
        assert(blocks(r.ready@) =~= Seq::empty());
        assert(sleep_views(r.sleeping@) =~= Seq::empty());
        assert(wait_views(r.waiting@) =~= Seq::empty());
        r
    }
}

impl SchedulerInfo for RoundRobinScheduler {
    closed spec fn model(&self) -> SchedModel {
        SchedModel {
            ready: blocks(self.ready@),
            sleeping: sleep_views(self.sleeping@),
            waiting: wait_views(self.waiting@),
            running: opt_block(self.running),
            quanta: self.quanta,
            min_time: self.min_time,
            next_pid: self.next_pid@,
            timestamp: self.timestamp@,
            panicd: self.panicd,
            slept_time: self.slept_time,
        }
    }

    /// Round robin keeps no virtual runtimes.
    open spec fn start_vruntime(model: SchedModel) -> Option<usize> {
        None
    }

    fn get_timestamp(&self) -> (r: Timestamp) {
        self.timestamp
    }

    fn make_timeskip(&mut self, time: usize) {
        self.timestamp = self.timestamp.add(time);
    }

    fn get_next_pid(&self) -> (r: Pid) {
        self.next_pid
    }

    fn inc_next_pid(&mut self) {
        self.next_pid = self.next_pid.add(1);
    }

    fn get_running(&self) -> (r: Option<GeneralProcess>) {
        self.running
    }

    fn set_running(&mut self, proc: Option<GeneralProcess>) {
        self.running = proc;
    }

    fn get_panicd(&self) -> (r: bool) {
        self.panicd
    }

    fn set_panicd(&mut self) {
        self.panicd = true;
    }

    fn reset_panicd(&mut self) {
        self.panicd = false;
    }

    fn get_slept_time(&self) -> (r: usize) {
        self.slept_time
    }

    fn set_slept_time(&mut self, time: usize) {
        self.slept_time = time;
    }

    fn get_quanta(&self) -> (r: usize) {
        self.quanta
    }

    fn get_next_process(&mut self) -> (r: Option<GeneralProcess>) {
        let r = self.ready.pop_front();
        if r.is_some() {
            assert(blocks(self.ready@) =~= blocks(old(self).ready@).drop_first());
        }
        r
    }

    fn push_to_sleeping_queue(&mut self, proc: GeneralProcess, time: usize) {
        self.sleeping.push((proc, self.timestamp, time));
        assert(sleep_views(self.sleeping@) =~= sleep_views(old(self).sleeping@).push(
            (proc@, old(self).timestamp@, time),
        ));
    }

    fn push_to_waiting_queue(&mut self, proc: GeneralProcess, event: Event) {
        self.waiting.push((proc, event));
        assert(wait_views(self.waiting@) =~= wait_views(old(self).waiting@).push(
            (proc@, event@),
        ));
    }

    fn compute_total_time(&mut self) {
        let now = self.timestamp;
        if let Some(mut pcb) = self.running {
            let time = now.get() - pcb.get_arrival_time().get() - 1;
            pcb.set_total_time(time);
            self.running = Some(pcb);
        }
        age_queue(&mut self.ready, now);
        age_sleeping(&mut self.sleeping, now);
        age_waiting(&mut self.waiting, now);
    }

    fn compute_sleeping_times(&mut self) {
        let curr_time = self.timestamp;
        check_sleepers(&mut self.sleeping, curr_time);
    }

    fn has_running_process(&self) -> (r: bool) {
        return if let None = self.running {
            false
        } else {
            true
        };
    }

    fn has_ready_processes(&self) -> (r: bool) {
        return if self.ready.len() == 0 {
            false
        } else {
            true
        };
    }

    fn has_sleeping_processes(&self) -> (r: bool) {
        return if self.sleeping.is_empty() {
            false
        } else {
            true
        };
    }

    fn has_waiting_processes(&self) -> (r: bool) {
        return if self.waiting.is_empty() {
            false
        } else {
            true
        };
    }

    fn get_time_for_sleep(&self) -> (r: usize) {
        least_sleep_time(&self.sleeping, self.timestamp)
    }

    fn get_min_vruntime(&self) -> (r: Option<Vruntime>) {
        None
    }

    fn inc_number(&mut self) {
    }

    fn dec_number(&mut self) {
    }

    fn recompute_quanta(&mut self) {
    }
}

impl Collector for RoundRobinScheduler {
    type Item = GeneralProcess;

    closed spec fn running_items(&self) -> Seq<GeneralProcess> {
        match self.running {
            Some(p) => seq![p],
            None => Seq::empty(),
        }
    }

    closed spec fn ready_items(&self) -> Seq<GeneralProcess> {
        self.ready@
    }

    closed spec fn sleeping_items(&self) -> Seq<GeneralProcess> {
        self.sleeping@.map_values(|e: (GeneralProcess, Timestamp, usize)| e.0)
    }

    closed spec fn waiting_items(&self) -> Seq<GeneralProcess> {
        self.waiting@.map_values(|e: (GeneralProcess, Event)| e.0)
    }

    fn collect_running(&self) -> (r: Vec<GeneralProcess>) {
        let mut proc: Vec<GeneralProcess> = Vec::new();
        match &self.running {
            Some(pcb) => proc.push(*pcb),
            None => (),
        }
        assert(proc@ =~= self.running_items());
        proc
    }

    fn collect_ready(&self) -> (r: Vec<GeneralProcess>) {
        let mut procs: Vec<GeneralProcess> = Vec::new();
        let n = self.ready.len();
        let mut i: usize = 0;
        while i < n
            invariant
                0 <= i <= n,
                n == self.ready@.len(),
                procs@ == self.ready@.take(i as int),
            decreases n - i,
        {
            procs.push(self.ready[i]);
            i = i + 1;
            assert(procs@ =~= self.ready@.take(i as int));
        }
        assert(self.ready@.take(n as int) =~= self.ready@);
        procs
    }

    fn collect_sleeping(&self) -> (r: Vec<GeneralProcess>) {
        let mut procs: Vec<GeneralProcess> = Vec::new();
        let n = self.sleeping.len();
        let mut i: usize = 0;
        while i < n
            invariant
                0 <= i <= n,
                n == self.sleeping@.len(),
                procs@ == self.sleeping_items().take(i as int),
            decreases n - i,
        {
            procs.push(self.sleeping[i].0);
            i = i + 1;
            assert(procs@ =~= self.sleeping_items().take(i as int));
        }
        assert(self.sleeping_items().take(n as int) =~= self.sleeping_items());
        procs
    }

    fn collect_waiting(&self) -> (r: Vec<GeneralProcess>) {
        let mut procs: Vec<GeneralProcess> = Vec::new();
        let n = self.waiting.len();
        let mut i: usize = 0;
        while i < n
            invariant
                0 <= i <= n,
                n == self.waiting@.len(),
                procs@ == self.waiting_items().take(i as int),
            decreases n - i,
        {
            procs.push(self.waiting[i].0);
            i = i + 1;
            assert(procs@ =~= self.waiting_items().take(i as int));
        }
        assert(self.waiting_items().take(n as int) =~= self.waiting_items());
        procs
    }
}

impl RoundRobinScheduler {
    /// The blocks of all the processes are those the model lists.
    proof fn lemma_items_are_blocks(&self)
        ensures
            blocks(all_items(self)) == all_blocks(self.model()),
    {
        let running: Seq<GeneralProcess> = self.running_items();
        assert(blocks(all_items(self)) =~= all_blocks(self.model()));
    }
}

impl Scheduler for RoundRobinScheduler {
    type Proc = GeneralProcess;

    open spec fn stop_allowed(&self, reason: StopReason) -> bool {
        stop_accepted(self.model(), reason)
    }

    open spec fn next_allowed(&self) -> bool {
        &&& round_robin_invariant(self.model())
        &&& self.model().timestamp + self.model().slept_time <= usize::MAX
        &&& (self.model().running matches Some(p) ==> (p.payload >= self.model().min_time ==> p.payload
            > 0))
    }

    open spec fn list_allowed(&self) -> bool {
        round_robin_invariant(self.model())
    }

    fn stop(&mut self, reason: StopReason) -> (r: SyscallResult)
        ensures
            stop_outcome(old(self).model(), reason, final(self).model(), r),
            round_robin_invariant(final(self).model()),
    {
        if let StopReason::Syscall { syscall, remaining } = reason {
            if let Syscall::Fork(prio) = syscall {
                return execute_fork(self, remaining, prio);
            }
            if let Syscall::Exit = syscall {
                return execute_exit(self, remaining);
            }
            if let Syscall::Sleep(time) = syscall {
                if let Some(mut pcb) = self.get_running() {
                    let passed_time = pcb.get_interrupted(remaining, reason);
                    self.make_timeskip(passed_time);
                    self.send_process_to_sleep(&mut pcb, time);
                    self.make_timeskip(1);
                    self.set_running(None);
                    return SyscallResult::Success;
                }
                return SyscallResult::NoRunningProcess;
            }
            if let Syscall::Wait(event) = syscall {
                if let Some(mut pcb) = self.get_running() {
                    let passed_time = pcb.get_interrupted(remaining, reason);
                    self.make_timeskip(passed_time);
                    self.block_process(&mut pcb, Event::new(event));
                    self.make_timeskip(1);
                    self.set_running(None);
                    return SyscallResult::Success;
                }
                return SyscallResult::NoRunningProcess;
            }
            if let Syscall::Signal(event) = syscall {
                if let Some(mut pcb) = self.get_running() {
                    let passed_time = pcb.get_interrupted(remaining, reason);
                    self.make_timeskip(passed_time);
                    self.set_running(Some(pcb));
                    proof {
                        lemma_unblock_keeps_invariant(self.model(), event);
                    }
                    self.unblock_processes(Event::new(event));
                    self.make_timeskip(1);
                    return SyscallResult::Success;
                }
                return SyscallResult::NoRunningProcess;
            }
            return SyscallResult::NoRunningProcess;
        } else {
            return execute_expired(self);
        }
    }

    fn next(&mut self) -> (r: SchedulingDecision)
        ensures
            next_outcome(old(self).model(), final(self).model(), r),
            round_robin_invariant(final(self).model()),
    {
        proof {
            lemma_wakeup_keeps_invariant(self.model());
        }
        self.wakeup_myself();
        if self.get_running().is_none() {
            if self.is_panicd() {
                return SchedulingDecision::Panic;
            }
            self.dequeue_process();
            if let Some(mut pcb) = self.get_running() {
                pcb.set_running();
                pcb.load_payload(self.get_quanta());
                self.set_running(Some(pcb));
                return SchedulingDecision::Run { pid: pcb.get_pid(), timeslice: self.get_quanta() };
            }
            let result = self.is_blocked().unwrap();
            self.decide_sleep(result);
            return result;
        }
        let mut pcb = self.get_running().unwrap();
        if pcb.get_payload() < self.min_time {
            self.enqueue_process(&mut pcb);
            self.dequeue_process();
            let mut ready_process = self.get_running().unwrap();
            ready_process.set_running();
            ready_process.load_payload(self.get_quanta());
            self.set_running(Some(ready_process));
            return SchedulingDecision::Run {
                pid: ready_process.get_pid(),
                timeslice: self.get_quanta(),
            };
        } else {
            let pid = pcb.get_pid();
            let timeslice = pcb.get_payload();
            return SchedulingDecision::Run { pid, timeslice };
        }
    }

    fn list(&mut self) -> (r: Vec<GeneralProcess>)
        ensures
            final(self).model() == old(self).model().aged_all(),
            blocks(r@) == all_blocks(final(self).model()),
            round_robin_invariant(final(self).model()),
    {
        self.compute_total_time();
        let r = collect_all(self);
        proof {
            self.lemma_items_are_blocks();
        }
        r
    }
}

impl ProcessManager for RoundRobinScheduler {
    fn enqueue_process(&mut self, proc: &mut GeneralProcess) {
        proc.set_state(ProcessState::Ready);
        self.ready.push_back(*proc);
        assert(blocks(self.ready@) =~= blocks(old(self).ready@).push(readied(old(proc)@)));
    }

    fn awake_processes(&mut self) {
        let (keep, procs) = split_sleepers(&self.sleeping);
        self.sleeping = keep;
        let ghost start = self.model();
        let n = procs.len();
        let mut i: usize = 0;
        while i < n
            invariant
                0 <= i <= n,
                n == procs@.len(),
                start == (SchedModel { sleeping: still_asleep(old(self).model().sleeping), ..old(self).model() }),
                readied_views(procs@) == awoken(old(self).model().sleeping),
                self.model() == (SchedModel {
                    ready: start.ready + readied_views(procs@).take(i as int),
                    ..start
                }),
            decreases n - i,
        {
            let mut item = procs[i];
            self.enqueue_process(&mut item);
            self.inc_number();
            assert(readied_views(procs@).take(i + 1) =~= readied_views(procs@).take(i as int).push(
                readied(procs@[i as int]@),
            ));
            i = i + 1;
        }
        assert(readied_views(procs@).take(n as int) =~= readied_views(procs@));
        self.recompute_quanta();
    }

    fn unblock_processes(&mut self, event: Event) {
        let (keep, procs) = split_waiters(&self.waiting, event);
        self.waiting = keep;
        let ghost start = self.model();
        let n = procs.len();
        let mut i: usize = 0;
        while i < n
            invariant
                0 <= i <= n,
                n == procs@.len(),
                start == (SchedModel {
                    waiting: still_waiting(old(self).model().waiting, event@),
                    ..old(self).model()
                }),
                readied_views(procs@) == released(old(self).model().waiting, event@),
                self.model() == (SchedModel {
                    ready: start.ready + readied_views(procs@).take(i as int),
                    ..start
                }),
            decreases n - i,
        {
            let mut item = procs[i];
            self.enqueue_process(&mut item);
            self.inc_number();
            assert(readied_views(procs@).take(i + 1) =~= readied_views(procs@).take(i as int).push(
                readied(procs@[i as int]@),
            ));
            i = i + 1;
        }
        assert(readied_views(procs@).take(n as int) =~= readied_views(procs@));
        self.recompute_quanta();
    }
}

impl SchedulerActions for RoundRobinScheduler {

}

/// Computes, at moment `now`, the time of existence of every process of `q`.
fn age_queue(q: &mut std::collections::VecDeque<GeneralProcess>, now: Timestamp)
    requires
        forall|k: int| 0 <= k < blocks(old(q)@).len() ==> #[trigger] blocks(old(q)@)[k].arrival < now@,
    ensures
        blocks(final(q)@) == blocks(old(q)@).map_values(|b: PcbView| aged(b, now@)),
{
    let n = q.len();
    let ghost before = blocks(q@);
    let mut i: usize = 0;
    while i < n
        invariant
            0 <= i <= n,
            n == before.len(),
            q@.len() == n,
            before == blocks(old(q)@),
            forall|k: int| 0 <= k < n ==> #[trigger] before[k].arrival < now@,
            blocks(q@) == before.subrange(i as int, n as int) + before.subrange(0, i as int).map_values(
                |b: PcbView| aged(b, now@),
            ),
        decreases n - i,
    {
        let ghost cur = blocks(q@);
        let ghost prefix = before.subrange(0, i as int).map_values(|b: PcbView| aged(b, now@));
        let mut item = q.pop_front().unwrap();
        assert(item@ == cur[0]);
        assert(cur[0] == before[i as int]);
        assert(blocks(q@) =~= cur.subrange(1, n as int));
        assert(cur.subrange(1, n as int) =~= before.subrange(i + 1, n as int) + prefix);
        let ghost mid = blocks(q@);
        let time = now.get() - item.get_arrival_time().get() - 1;
        item.set_total_time(time);
        assert(item@ == aged(before[i as int], now@));
        q.push_back(item);
        assert(blocks(q@) =~= mid.push(item@));
        assert(prefix.push(aged(before[i as int], now@)) =~= before.subrange(0, i + 1).map_values(
            |b: PcbView| aged(b, now@),
        ));
        i = i + 1;
        assert(blocks(q@) =~= before.subrange(i as int, n as int) + before.subrange(0, i as int).map_values(
            |b: PcbView| aged(b, now@),
        ));
    }
    assert(before.subrange(0, n as int) =~= before);
    assert(blocks(q@) =~= before.map_values(|b: PcbView| aged(b, now@)));
}

/// Computes, at moment `now`, the time of existence of every sleeping
/// process.
fn age_sleeping(v: &mut Vec<(GeneralProcess, Timestamp, usize)>, now: Timestamp)
    requires
        forall|k: int|
            0 <= k < sleep_views(old(v)@).len() ==> #[trigger] sleep_views(old(v)@)[k].0.arrival
                < now@,
    ensures
        sleep_views(final(v)@) == sleep_views(old(v)@).map_values(
            |e: (PcbView, usize, usize)| (aged(e.0, now@), e.1, e.2),
        ),
{
    let n = v.len();
    assert forall|k: int| 0 <= k < n implies #[trigger] old(v)@[k].0@.arrival < now@ by {
        assert(sleep_views(old(v)@)[k].0 == old(v)@[k].0@);
    }
    let mut j: usize = 0;
    while j < n
        invariant
            0 <= j <= n,
            n == v@.len(),
            n == old(v)@.len(),
            forall|k: int| 0 <= k < n ==> #[trigger] old(v)@[k].0@.arrival < now@,
            forall|k: int|
                0 <= k < n ==> (#[trigger] v@[k]).0@ == (if k < j {
                    aged(old(v)@[k].0@, now@)
                } else {
                    old(v)@[k].0@
                }) && v@[k].1 == old(v)@[k].1 && v@[k].2 == old(v)@[k].2,
        decreases n - j,
    {
        let mut item = v[j];
        assert(item.0@ == old(v)@[j as int].0@);
        let time = now.get() - item.0.get_arrival_time().get() - 1;
        item.0.set_total_time(time);
        v.set(j, item);
        j = j + 1;
    }
    assert(sleep_views(v@) =~= sleep_views(old(v)@).map_values(
        |e: (PcbView, usize, usize)| (aged(e.0, now@), e.1, e.2),
    ));
}

/// Computes, at moment `now`, the time of existence of every waiting
/// process.
fn age_waiting(v: &mut Vec<(GeneralProcess, Event)>, now: Timestamp)
    requires
        forall|k: int|
            0 <= k < wait_views(old(v)@).len() ==> #[trigger] wait_views(old(v)@)[k].0.arrival
                < now@,
    ensures
        wait_views(final(v)@) == wait_views(old(v)@).map_values(
            |e: (PcbView, usize)| (aged(e.0, now@), e.1),
        ),
{
    let n = v.len();
    assert forall|k: int| 0 <= k < n implies #[trigger] old(v)@[k].0@.arrival < now@ by {
        assert(wait_views(old(v)@)[k].0 == old(v)@[k].0@);
    }
    let mut j: usize = 0;
    while j < n
        invariant
            0 <= j <= n,
            n == v@.len(),
            n == old(v)@.len(),
            forall|k: int| 0 <= k < n ==> #[trigger] old(v)@[k].0@.arrival < now@,
            forall|k: int|
                0 <= k < n ==> (#[trigger] v@[k]).0@ == (if k < j {
                    aged(old(v)@[k].0@, now@)
                } else {
                    old(v)@[k].0@
                }) && v@[k].1 == old(v)@[k].1,
        decreases n - j,
    {
        let mut item = v[j];
        assert(item.0@ == old(v)@[j as int].0@);
        let time = now.get() - item.0.get_arrival_time().get() - 1;
        item.0.set_total_time(time);
        v.set(j, item);
        j = j + 1;
    }
    assert(wait_views(v@) =~= wait_views(old(v)@).map_values(
        |e: (PcbView, usize)| (aged(e.0, now@), e.1),
    ));
}

} // verus!
