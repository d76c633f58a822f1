//! A simplified completely fair scheduler: the ready process with the least
//! virtual runtime runs next, and the timeslice is the cpu time shared
//! among the processes.

use vstd::prelude::*;

use crate::collector::{all_items, Collector};
use crate::pids::{
    lemma_pids_of_add, lemma_pids_of_push, lemma_pids_of_remove, lemma_pids_of_same,
    lemma_running_to_last, lemma_running_to_third, lemma_singleton_add, lemma_sleeper_pids_push,
    lemma_sleeper_pids_same, lemma_sleepers_split, lemma_unique_insert, lemma_unique_remove,
    lemma_waiter_pids_push, lemma_waiter_pids_same, lemma_waiters_split, pids_of, running_pids,
    sleeper_pids, unique_below, waiter_pids,
};
use crate::process_control_block::PcbView;
use vstd::multiset::Multiset;
use crate::scheduler_info::{
    aged, awoken, least_time_to_wake, readied, released, still_asleep, still_waiting, time_to_wake,
    woken_entry,
};
use crate::schedulers::process_block::fresh_block;
use crate::schedulers::queue_ops::{
    check_sleepers, least_sleep_time, readied_views, sleep_views, split_sleepers, split_waiters,
    wait_views,
};
use crate::{
    collect_all, Event, FairPCB, Pid, Process, ProcessState, Scheduler, SchedulingDecision,
    StopReason, Syscall, SyscallResult, Timestamp, Vruntime,
};

verus! {

/// What the fair scheduler holds, as plain values.
pub struct FairModel {
    /// The ready processes, in the order they were enqueued.
    pub ready: Seq<PcbView>,
    /// The sleeping processes with the moment they fell asleep and their
    /// sleeping time.
    pub sleeping: Seq<(PcbView, usize, usize)>,
    /// The waiting processes with their event.
    pub waiting: Seq<(PcbView, usize)>,
    /// The running process.
    pub running: Option<PcbView>,
    /// The cpu time shared among the processes.
    pub cpu_time: usize,
    /// The timeslice given to a launched process.
    pub quanta: usize,
    /// The least remaining timeslice for which a process runs on.
    pub min_timeslice: usize,
    /// The pid the next created process gets.
    pub next_pid: usize,
    /// The current moment.
    pub timestamp: usize,
    /// Whether the process with pid 1 has ended.
    pub panicd: bool,
    /// The time the scheduler decided to sleep.
    pub slept_time: usize,
    /// The number of processes.
    pub proc_number: usize,
}

/// The blocks of a sequence of fair processes.
pub open spec fn fair_blocks(s: Seq<FairPCB>) -> Seq<PcbView> {
    s.map_values(|p: FairPCB| p@)
}

/// The virtual runtime of a block (0 for one that keeps none).
pub open spec fn vr(b: PcbView) -> int {
    match b.vruntime {
        Some(v) => v as int,
        None => 0,
    }
}

/// The least virtual runtime in `s`, and `usize::MAX` when it is larger.
pub open spec fn least_vruntime(s: Seq<PcbView>) -> int
    decreases s.len(),
{
    if s.len() == 0 {
        usize::MAX as int
    } else {
        let rest = least_vruntime(s.drop_last());
        if vr(s.last()) < rest {
            vr(s.last())
        } else {
            rest
        }
    }
}

/// Whether the process of block `a` runs before that of block `b`: it has
/// a smaller virtual runtime, or the same one and a smaller pid (it was
/// created first).
pub open spec fn runs_before(a: PcbView, b: PcbView) -> bool {
    vr(a) < vr(b) || (vr(a) == vr(b) && a.pid < b.pid)
}

/// The index of the process of `s` that runs first: the least virtual
/// runtime, below `usize::MAX`, and among those the smallest pid (the first
/// such entry when pids repeat).
pub open spec fn pick_least(s: Seq<PcbView>) -> Option<int>
    decreases s.len(),
{
    if s.len() == 0 {
        None
    } else {
        match pick_least(s.drop_last()) {
            None => if vr(s.last()) < usize::MAX {
                Some(s.len() - 1)
            } else {
                None
            },
            Some(i) => if runs_before(s.last(), s[i]) {
                Some(s.len() - 1)
            } else {
                Some(i)
            },
        }
    }
}

/// Whether `k` is the first index of `s` holding a process with pid `pid`.
pub open spec fn is_first_with_pid(s: Seq<PcbView>, pid: usize, k: int) -> bool {
    &&& 0 <= k < s.len()
    &&& s[k].pid == pid
    &&& forall|j: int| 0 <= j < k ==> #[trigger] s[j].pid != pid
}

/// The first index of `s` holding a process with pid `pid`.
pub open spec fn first_with_pid(s: Seq<PcbView>, pid: usize) -> int {
    choose|k: int| is_first_with_pid(s, pid, k)
}

/// The least virtual runtime over a sequence extends one element at a time.
proof fn lemma_least_vruntime_step(s: Seq<PcbView>, i: int)
    requires
        0 <= i < s.len(),
    ensures
        least_vruntime(s.take(i + 1)) == if vr(s[i]) < least_vruntime(s.take(i)) {
            vr(s[i])
        } else {
            least_vruntime(s.take(i))
        },
{
    assert(s.take(i + 1).drop_last() =~= s.take(i));
}

/// The process that runs first over a sequence is chosen one element at a
/// time.
proof fn lemma_pick_least_step(s: Seq<PcbView>, i: int)
    requires
        0 <= i < s.len(),
    ensures
        pick_least(s.take(i + 1)) == match pick_least(s.take(i)) {
            None => if vr(s[i]) < usize::MAX {
                Some(i)
            } else {
                None
            },
            Some(j) => if runs_before(s[i], s[j]) {
                Some(i)
            } else {
                Some(j)
            },
        },
{
    assert(s.take(i + 1).drop_last() =~= s.take(i));
    lemma_pick_least_in_range(s.take(i));
    if let Some(j) = pick_least(s.take(i)) {
        assert(s.take(i + 1)[j] == s[j]);
    }
}

/// The index picked is that of a process with the least virtual runtime,
/// below `usize::MAX`, and no process of the sequence runs before it.
proof fn lemma_pick_least_in_range(s: Seq<PcbView>)
    ensures
        pick_least(s) matches Some(i) ==> {
            &&& 0 <= i < s.len()
            &&& vr(s[i]) == least_vruntime(s)
            &&& vr(s[i]) < usize::MAX
            &&& forall|j: int| 0 <= j < s.len() ==> !runs_before(#[trigger] s[j], s[i])
        },
        pick_least(s) is None ==> least_vruntime(s) == usize::MAX,
        least_vruntime(s) <= usize::MAX,
        forall|j: int| 0 <= j < s.len() ==> least_vruntime(s) <= vr(#[trigger] s[j]),
    decreases s.len(),
{
    if s.len() > 0 {
        let t = s.drop_last();
        lemma_pick_least_in_range(t);
        assert forall|j: int| 0 <= j < s.len() implies least_vruntime(s) <= vr(#[trigger] s[j]) by {
            if j < s.len() - 1 {
                assert(s[j] == t[j]);
            }
        }
        if let Some(i) = pick_least(s) {
            assert forall|j: int| 0 <= j < s.len() implies !runs_before(#[trigger] s[j], s[i]) by {
                if j < s.len() - 1 {
                    assert(s[j] == t[j]);
                    assert(least_vruntime(t) <= vr(t[j]));
                    if let Some(k) = pick_least(t) {
                        assert(t[k] == s[k]);
                        assert(!runs_before(t[j], t[k]));
                    }
                }
            }
        }
    }
}

/// The block after a fair process accounts for a stop: the priority stays.
pub open spec fn fair_accounted(b: PcbView, remaining: usize, reason: StopReason) -> PcbView {
    b.accounted(remaining, reason)
}

impl FairModel {
    /// Every process: the running one, then the ready, sleeping and waiting
    /// ones.
    pub open spec fn all(self) -> Seq<PcbView> {
        let running = match self.running {
            Some(p) => seq![p],
            None => Seq::empty(),
        };
        running + self.ready + self.sleeping.map_values(|e: (PcbView, usize, usize)| e.0)
            + self.waiting.map_values(|e: (PcbView, usize)| e.0)
    }

    /// The virtual runtime a new process starts with: the least one among
    /// the processes, or none when there is no process.
    pub open spec fn min_vruntime(self) -> Option<int> {
        if self.all().len() == 0 {
            None
        } else {
            Some(least_vruntime(self.all()))
        }
    }

    /// The timeslice for `number` processes: the cpu time shared among
    /// them; unchanged when there is none.
    pub open spec fn quanta_for(self, number: usize) -> usize {
        if number == 0 {
            self.quanta
        } else {
            (self.cpu_time / number) as usize
        }
    }

    /// The state after a process with the next pid, priority `prio`, the
    /// least virtual runtime (0 when there is no process) is created now and
    /// enqueued, and the timeslice is shared again.
    pub open spec fn forked(self, prio: i8) -> FairModel {
        let v = match self.min_vruntime() {
            Some(v) => v as usize,
            None => 0usize,
        };
        FairModel {
            next_pid: (self.next_pid + 1) as usize,
            proc_number: (self.proc_number + 1) as usize,
            quanta: self.quanta_for((self.proc_number + 1) as usize),
            ready: self.ready.push(fresh_block(self.next_pid, prio, self.timestamp, Some(v))),
            ..self
        }
    }

    /// The state after the running process accounts for a stop for `reason`
    /// with `remaining` units left and the clock moves by the time it ran.
    pub open spec fn stopped(self, remaining: usize, reason: StopReason) -> FairModel {
        match self.running {
            Some(p) => FairModel {
                running: Some(fair_accounted(p, remaining, reason)),
                timestamp: (self.timestamp + p.executed(remaining, reason)) as usize,
                ..self
            },
            None => self,
        }
    }

    /// The state after the ready process with the least virtual runtime is
    /// taken out of the ready queue and made the running one; with none,
    /// nothing runs.
    pub open spec fn dequeued(self) -> FairModel {
        match pick_least(self.ready) {
            Some(i) => FairModel {
                running: Some(self.ready[i]),
                ready: self.ready.remove(first_with_pid(self.ready, self.ready[i].pid)),
                ..self
            },
            None => FairModel { running: None, ..self },
        }
    }

    /// The number of processes that run or are ready.
    pub open spec fn runnable(self) -> int {
        (if self.running is Some { 1int } else { 0int }) + self.ready.len()
    }

    /// The state after the scheduler wakes from the sleep it decided: the
    /// slept time is added to the clock.
    pub open spec fn slept_out(self) -> FairModel {
        if self.slept_time != 0 {
            FairModel {
                timestamp: (self.timestamp + self.slept_time) as usize,
                slept_time: 0,
                ..self
            }
        } else {
            self
        }
    }

    /// The state after the sleeping times are checked at the current moment.
    pub open spec fn woken(self) -> FairModel {
        FairModel {
            sleeping: self.sleeping.map_values(|e: (PcbView, usize, usize)| woken_entry(e, self.timestamp)),
            ..self
        }
    }

    /// The state after the blocks `woke` join the end of the ready queue:
    /// they are counted, and the cpu time is shared again when there is one.
    pub open spec fn joined(self, woke: Seq<PcbView>) -> FairModel {
        let n = (self.proc_number + woke.len()) as usize;
        FairModel {
            ready: self.ready + woke,
            proc_number: n,
            quanta: if woke.len() > 0 {
                self.quanta_for(n)
            } else {
                self.quanta
            },
            ..self
        }
    }

    /// The state after the processes whose sleeping time is over are made
    /// ready, at the end of the ready queue.
    pub open spec fn awakened(self) -> FairModel {
        FairModel { sleeping: still_asleep(self.sleeping), ..self }.joined(awoken(self.sleeping))
    }

    /// The state after the processes waiting for `event` are made ready, at
    /// the end of the ready queue.
    pub open spec fn unblocked(self, event: usize) -> FairModel {
        FairModel { waiting: still_waiting(self.waiting, event), ..self }.joined(
            released(self.waiting, event),
        )
    }

    /// The time until the first sleeping process wakes, or 0 when none
    /// sleeps.
    pub open spec fn time_for_sleep(self) -> int {
        if self.sleeping.len() == 0 {
            0
        } else {
            least_time_to_wake(self.sleeping, self.timestamp)
        }
    }

    /// Whether the process with pid 1 ended while processes are left.
    pub open spec fn panics(self) -> bool {
        &&& self.panicd
        &&& self.all().len() > 0
    }

    /// The decision when no process can run: `None` when one can.
    pub open spec fn blocked_decision(self) -> Option<SchedulingDecision> {
        if self.running is Some || self.ready.len() > 0 {
            None
        } else if self.sleeping.len() == 0 && self.waiting.len() == 0 {
            Some(SchedulingDecision::Done)
        } else if self.sleeping.len() == 0 {
            Some(SchedulingDecision::Deadlock)
        } else {
            Some(SchedulingDecision::Sleep(self.time_for_sleep() as usize))
        }
    }

    /// Every process has a virtual runtime below `usize::MAX`.
    pub open spec fn vruntimes_below_max(self) -> bool {
        &&& (self.running matches Some(p) ==> vr(p) < usize::MAX)
        &&& forall|i: int| 0 <= i < self.ready.len() ==> vr(#[trigger] self.ready[i]) < usize::MAX
        &&& forall|i: int| 0 <= i < self.sleeping.len() ==> vr(#[trigger] self.sleeping[i].0) < usize::MAX
        &&& forall|i: int| 0 <= i < self.waiting.len() ==> vr(#[trigger] self.waiting[i].0) < usize::MAX
    }

    /// The moment each sleeping process wakes fits in a usize, is not past,
    /// and the time until then plus one fits in a usize.
    pub open spec fn sleep_ends_ahead(self) -> bool {
        forall|i: int|
            0 <= i < self.sleeping.len() ==> {
                let e = #[trigger] self.sleeping[i];
                &&& e.1 + e.2 <= usize::MAX
                &&& self.timestamp <= e.1 + e.2
                &&& e.1 + e.2 - self.timestamp < usize::MAX
            }
    }

    /// The state after the time of existence of every process is computed.
    pub open spec fn aged_all(self) -> FairModel {
        FairModel {
            running: match self.running {
                Some(p) => Some(aged(p, self.timestamp)),
                None => None,
            },
            ready: self.ready.map_values(|b: PcbView| aged(b, self.timestamp)),
            sleeping: self.sleeping.map_values(
                |e: (PcbView, usize, usize)| (aged(e.0, self.timestamp), e.1, e.2),
            ),
            waiting: self.waiting.map_values(|e: (PcbView, usize)| (aged(e.0, self.timestamp), e.1)),
            ..self
        }
    }
}

/// What holds of the fair scheduler between two calls: the cpu time and the
/// timeslice are not zero; the number of processes that run or are ready
/// is counted exactly, and no more processes exist than the cpu time has
/// units; every process was created before now, has a virtual runtime and
/// is in the state of the queue it sits in; every sleeping process fell
/// asleep no later than now and wakes at a moment below `usize::MAX`.
pub open spec fn fair_invariant(m: FairModel) -> bool {
    &&& m.cpu_time > 0
    &&& m.quanta > 0
    &&& m.proc_number == m.runnable()
    &&& m.all().len() <= m.cpu_time
    &&& (m.running matches Some(p) ==> p.state == ProcessState::Running && p.arrival < m.timestamp
        && p.vruntime is Some)
    &&& forall|i: int|
        0 <= i < m.ready.len() ==> (#[trigger] m.ready[i]).state == ProcessState::Ready
            && m.ready[i].arrival < m.timestamp && m.ready[i].vruntime is Some
    &&& forall|i: int|
        0 <= i < m.sleeping.len() ==> {
            let e = #[trigger] m.sleeping[i];
            &&& e.0.state == (ProcessState::Waiting { event: None })
            &&& e.0.arrival < m.timestamp
            &&& e.0.vruntime is Some
            &&& e.1 <= m.timestamp
            &&& e.1 + e.2 < usize::MAX
        }
    &&& forall|i: int|
        0 <= i < m.waiting.len() ==> {
            let e = #[trigger] m.waiting[i];
            &&& e.0.state == (ProcessState::Waiting { event: Some(e.1) })
            &&& e.0.arrival < m.timestamp
            &&& e.0.vruntime is Some
        }
}

/// The block of a process launched with a timeslice of `quanta`.
pub open spec fn fair_launched(b: PcbView, quanta: usize) -> PcbView {
    PcbView { state: ProcessState::Running, payload: quanta, ..b }
}

/// Whether `stop(reason)` is accepted by the fair scheduler holding `m`:
/// the invariant holds, the running process can account for its stop, and
/// no clock, pid or count leaves its range; a fork needs a time unit of cpu
/// time for each process.
pub open spec fn fair_stop_accepted(m: FairModel, reason: StopReason) -> bool {
    &&& fair_invariant(m)
    &&& match reason {
        StopReason::Syscall { syscall, remaining } => match syscall {
            Syscall::Exit => m.running matches Some(p) ==> {
                &&& remaining <= p.payload
                &&& m.timestamp + (p.payload - remaining) <= usize::MAX
            },
            _ => {
                &&& (m.running matches Some(p) ==> p.can_account(remaining, reason) && m.timestamp
                    + p.executed(remaining, reason) <= usize::MAX)
                &&& match syscall {
                    Syscall::Fork(_) => {
                        &&& m.stopped(remaining, reason).timestamp < usize::MAX
                        &&& m.next_pid < usize::MAX
                        &&& m.all().len() + 1 <= m.cpu_time
                    },
                    Syscall::Sleep(time) => m.running is Some ==> m.stopped(
                        remaining,
                        reason,
                    ).timestamp + time < usize::MAX - 1,
                    _ => m.running is Some ==> m.stopped(remaining, reason).timestamp < usize::MAX,
                }
            },
        },
        StopReason::Expired => m.running matches Some(p) ==> p.can_account(0, StopReason::Expired)
            && m.timestamp + p.payload <= usize::MAX,
    }
}

/// The state after the running process, stopped with `remaining` units left
/// for `reason`, leaves the processor: the clock moves by the time it ran
/// and one unit for the call, it is counted no more, and the cpu time is
/// shared again.
pub open spec fn fair_left(m: FairModel, remaining: usize, reason: StopReason) -> FairModel {
    let mid = m.stopped(remaining, reason);
    FairModel {
        running: None,
        timestamp: (mid.timestamp + 1) as usize,
        proc_number: (m.proc_number - 1) as usize,
        quanta: m.quanta_for((m.proc_number - 1) as usize),
        ..mid
    }
}

/// What `stop(reason)` does to the fair scheduler holding `m`: a fork
/// creates a process once the running one accounted for its stop, and takes
/// a time unit; an exit ends the running process after the clock moves by
/// the time it used; a sleep or a wait takes the running process off the
/// processor into the sleeping or the waiting processes and takes a time
/// unit, the cpu time being shared again; a signal makes ready the
/// processes waiting for its event, takes a time unit, and the signaling
/// process keeps running; an expiry is accounted with nothing left, and the
/// process stays the running one until `next()`.
pub open spec fn fair_stop_outcome(m: FairModel, reason: StopReason, m2: FairModel, r: SyscallResult) -> bool {
    match reason {
        StopReason::Syscall { syscall, remaining } => {
            let mid = m.stopped(remaining, reason);
            match syscall {
                Syscall::Fork(prio) => {
                    let f = mid.forked(prio);
                    &&& r matches SyscallResult::Pid(p) && p@ == m.next_pid
                    &&& m2 == (FairModel { timestamp: (f.timestamp + 1) as usize, ..f })
                },
                Syscall::Exit => match m.running {
                    Some(p) => {
                        &&& r == SyscallResult::Success
                        &&& m2 == (FairModel {
                            running: None,
                            panicd: m.panicd || p.pid == 1,
                            proc_number: (m.proc_number - 1) as usize,
                            quanta: m.quanta_for((m.proc_number - 1) as usize),
                            timestamp: (m.timestamp + (p.payload - remaining)) as usize,
                            ..m
                        })
                    },
                    None => r == SyscallResult::NoRunningProcess && m2 == m,
                },
                Syscall::Sleep(time) => match m.running {
                    Some(p) => r == SyscallResult::Success && m2 == (FairModel {
                        sleeping: mid.sleeping.push(
                            (
                                PcbView {
                                    state: ProcessState::Waiting { event: None },
                                    ..mid.running.unwrap()
                                },
                                mid.timestamp,
                                time,
                            ),
                        ),
                        ..fair_left(m, remaining, reason)
                    }),
                    None => r == SyscallResult::NoRunningProcess && m2 == m,
                },
                Syscall::Wait(event) => match m.running {
                    Some(p) => r == SyscallResult::Success && m2 == (FairModel {
                        waiting: mid.waiting.push(
                            (
                                PcbView {
                                    state: ProcessState::Waiting { event: Some(event) },
                                    ..mid.running.unwrap()
                                },
                                event,
                            ),
                        ),
                        ..fair_left(m, remaining, reason)
                    }),
                    None => r == SyscallResult::NoRunningProcess && m2 == m,
                },
                Syscall::Signal(event) => match m.running {
                    Some(p) => {
                        let u = mid.unblocked(event);
                        &&& r == SyscallResult::Success
                        &&& m2 == (FairModel { timestamp: (u.timestamp + 1) as usize, ..u })
                    },
                    None => r == SyscallResult::NoRunningProcess && m2 == m,
                },
            }
        },
        StopReason::Expired => match m.running {
            Some(p) => r == SyscallResult::Success && m2 == m.stopped(0, StopReason::Expired),
            None => r == SyscallResult::NoRunningProcess && m2 == m,
        },
    }
}

/// The state after the fair scheduler wakes: the slept time is added to the
/// clock and the processes whose sleeping time is over become ready.
pub open spec fn fair_after_wakeup(m: FairModel) -> FairModel {
    m.slept_out().woken().awakened()
}

/// What `next()` does to the fair scheduler holding `m`. Once the scheduler
/// woke: with no running process, a panic is reported when the process with
/// pid 1 ended and others are left; otherwise the ready process with the
/// least virtual runtime is launched with the current timeslice, or, when
/// none is ready, the scheduler finishes, reports a deadlock or sleeps until
/// the first sleeper wakes. A running process first has its payload cut to
/// the current timeslice; with less than the minimum left it goes back to
/// the ready queue and the process with the least virtual runtime is
/// launched; otherwise it runs on for its payload.
pub open spec fn fair_next_outcome(m: FairModel, m2: FairModel, r: SchedulingDecision) -> bool {
    let w = fair_after_wakeup(m);
    match w.running {
        None => if w.panics() {
            r == SchedulingDecision::Panic && m2 == w
        } else {
            let d = w.dequeued();
            match d.running {
                Some(p) => {
                    &&& r matches SchedulingDecision::Run { pid, timeslice } && pid@ == p.pid
                        && timeslice == w.quanta
                    &&& m2 == (FairModel { running: Some(fair_launched(p, w.quanta)), ..d })
                },
                None => {
                    &&& Some(r) == w.blocked_decision()
                    &&& m2 == (FairModel {
                        slept_time: match r {
                            SchedulingDecision::Sleep(t) => t,
                            _ => 0,
                        },
                        ..w
                    })
                },
            }
        },
        Some(p) => {
            let p1 = if p.payload > w.quanta { PcbView { payload: w.quanta, ..p } } else { p };
            if p1.payload < w.min_timeslice {
                let d = (FairModel { ready: w.ready.push(readied(p1)), ..w }).dequeued();
                &&& d.running matches Some(q)
                &&& r matches SchedulingDecision::Run { pid, timeslice } && pid@ == q.pid
                    && timeslice == w.quanta
                &&& m2 == (FairModel { running: Some(fair_launched(q, w.quanta)), ..d })
            } else {
                &&& r matches SchedulingDecision::Run { pid, timeslice } && pid@ == p1.pid
                    && timeslice == p1.payload
                &&& m2 == (FairModel { running: Some(p1), ..w })
            }
        },
    }
}

impl FairModel {
    /// The pids of every process the scheduler holds.
    pub open spec fn pids(self) -> Multiset<usize> {
        running_pids(self.running).add(pids_of(self.ready)).add(sleeper_pids(self.sleeping)).add(
            waiter_pids(self.waiting),
        )
    }

    /// Every process has its own pid, below the next one to be given.
    pub open spec fn pids_unique(self) -> bool {
        unique_below(self.pids(), self.next_pid)
    }
}

/// When no process can run and the fair scheduler sleeps, it sleeps until
/// the first sleeper wakes: some process sleeps, none wakes sooner, and one
/// wakes then.
pub proof fn lemma_fair_sleeps_until_first_wake(m: FairModel, m2: FairModel, r: SchedulingDecision)
    requires
        fair_invariant(m),
        m.vruntimes_below_max(),
        m.timestamp + m.slept_time <= usize::MAX,
        fair_next_outcome(m, m2, r),
    ensures
        r matches SchedulingDecision::Sleep(t) ==> {
            let w = fair_after_wakeup(m);
            &&& w.sleeping.len() > 0
            &&& forall|i: int|
                0 <= i < w.sleeping.len() ==> t <= #[trigger] time_to_wake(w.sleeping[i], w.timestamp)
            &&& exists|i: int|
                0 <= i < w.sleeping.len() && t == #[trigger] time_to_wake(w.sleeping[i], w.timestamp)
        },
{
    lemma_fair_wakeup_keeps_invariant(m);
    let w = fair_after_wakeup(m);
    if w.sleeping.len() > 0 {
        assert forall|i: int| 0 <= i < w.sleeping.len() implies #[trigger] time_to_wake(
            w.sleeping[i],
            w.timestamp,
        ) <= usize::MAX by {
            let e = w.sleeping[i];
        }
        crate::scheduler_info::lemma_first_wake_is_a_wake(w.sleeping, w.timestamp);
    }
}

/// The fair scheduler reports a panic exactly when, once woken, no process
/// runs, the process with pid 1 has ended and some process is left,
/// sleeping and waiting ones included.
pub proof fn lemma_fair_next_panics_iff(m: FairModel, m2: FairModel, r: SchedulingDecision)
    requires
        fair_next_outcome(m, m2, r),
    ensures
        r == SchedulingDecision::Panic <==> {
            let w = fair_after_wakeup(m);
            &&& w.running is None
            &&& w.panicd
            &&& w.ready.len() + w.sleeping.len() + w.waiting.len() > 0
        },
{
    lemma_all_len(fair_after_wakeup(m));
}

/// Making ready the processes whose sleeping time is over keeps the pids.
proof fn lemma_fair_awakened_pids(m: FairModel)
    ensures
        m.awakened().pids() =~= m.pids(),
{
    lemma_pids_of_add(m.ready, awoken(m.sleeping));
    lemma_sleepers_split(m.sleeping);
}

/// Making ready the processes waiting for `event` keeps the pids.
proof fn lemma_fair_unblocked_pids(m: FairModel, event: usize)
    ensures
        m.unblocked(event).pids() =~= m.pids(),
{
    lemma_pids_of_add(m.ready, released(m.waiting, event));
    lemma_waiters_split(m.waiting, event);
}

/// Waking keeps the pids and the next pid.
proof fn lemma_fair_wakeup_pids(m: FairModel)
    ensures
        fair_after_wakeup(m).pids() =~= m.pids(),
        fair_after_wakeup(m).next_pid == m.next_pid,
{
    let a = m.slept_out();
    let b = a.woken();
    lemma_sleeper_pids_same(b.sleeping, a.sleeping);
    lemma_fair_awakened_pids(b);
}

/// Launching the ready process with the least virtual runtime moves its pid
/// from the ready queue to the running process, dropping that of the
/// process that ran before.
proof fn lemma_dequeued_pids(m: FairModel)
    ensures
        m.dequeued().pids() =~= (FairModel { running: None, ..m }).pids(),
{
    lemma_pick_least_in_range(m.ready);
    if let Some(i) = pick_least(m.ready) {
        lemma_first_with_pid_exists(m.ready, m.ready[i].pid, i);
        let k = first_with_pid(m.ready, m.ready[i].pid);
        assert(is_first_with_pid(m.ready, m.ready[i].pid, k));
        lemma_pids_of_remove(m.ready, k);
        lemma_singleton_add(m.ready[i].pid, pids_of(m.ready.remove(k)));
    }
}

/// The pids the fair scheduler holding `m` holds after `stop(reason)`: a
/// fork adds the pid of the new process, an exit takes out that of the
/// running process, and every other stop keeps them.
pub open spec fn fair_stop_pids(m: FairModel, reason: StopReason) -> Multiset<usize> {
    match reason {
        StopReason::Syscall { syscall: Syscall::Fork(_), .. } => m.pids().insert(m.next_pid),
        StopReason::Syscall { syscall: Syscall::Exit, .. } => match m.running {
            Some(p) => m.pids().remove(p.pid),
            None => m.pids(),
        },
        _ => m.pids(),
    }
}

/// Each process has its own pid: a stop adds no pid but that of a forked
/// process, which is the next pid and held by none before, takes out none
/// but that of an exiting process and keeps the others, and the next pid
/// never decreases; so when every process has its own pid below the next
/// one to be given, this still holds after the stop.
pub proof fn lemma_fair_stop_keeps_pids_unique(m: FairModel, reason: StopReason, m2: FairModel, r: SyscallResult)
    requires
        fair_stop_accepted(m, reason),
        fair_stop_outcome(m, reason, m2, r),
        m.pids_unique(),
    ensures
        m2.pids() =~= fair_stop_pids(m, reason),
        m2.next_pid >= m.next_pid,
        m2.pids_unique(),
{
    match reason {
        StopReason::Syscall { syscall: Syscall::Fork(prio), remaining } => {
            let mid = m.stopped(remaining, reason);
            let f = mid.forked(prio);
            assert(mid.pids() =~= m.pids());
            lemma_pids_of_push(mid.ready, f.ready.last());
            assert(f.ready =~= mid.ready.push(f.ready.last()));
            assert(m2.pids() =~= m.pids().insert(m.next_pid));
            lemma_unique_insert(m.pids(), m.next_pid);
        },
        StopReason::Syscall { syscall: Syscall::Exit, .. } => {
            if let Some(p) = m.running {
                assert(m.pids() =~= m2.pids().insert(p.pid));
                assert(m2.pids() =~= m.pids().remove(p.pid));
                lemma_unique_remove(m.pids(), m.next_pid, p.pid);
            }
        },
        StopReason::Syscall { syscall, remaining } => {
            let mid = m.stopped(remaining, reason);
            assert(mid.pids() =~= m.pids());
            if m.running is Some {
                match syscall {
                    Syscall::Sleep(_) => {
                        lemma_sleeper_pids_push(mid.sleeping, m2.sleeping.last());
                        assert(m2.sleeping =~= mid.sleeping.push(m2.sleeping.last()));
                        lemma_running_to_third(
                            mid.running.unwrap().pid,
                            pids_of(mid.ready),
                            sleeper_pids(mid.sleeping),
                            waiter_pids(mid.waiting),
                        );
                    },
                    Syscall::Wait(_) => {
                        lemma_waiter_pids_push(mid.waiting, m2.waiting.last());
                        assert(m2.waiting =~= mid.waiting.push(m2.waiting.last()));
                        lemma_running_to_last(
                            mid.running.unwrap().pid,
                            pids_of(mid.ready),
                            sleeper_pids(mid.sleeping),
                            waiter_pids(mid.waiting),
                        );
                    },
                    Syscall::Signal(event) => {
                        lemma_fair_unblocked_pids(mid, event);
                    },
                    _ => {},
                }
            }
            assert(m2.pids() =~= m.pids());
        },
        StopReason::Expired => {
            assert(m2.pids() =~= m.pids());
        },
    }
}

/// Whether the process with pid `pid` is one of `s` that no other process of
/// `s` runs before: the least virtual runtime, and among those the
/// smallest pid.
pub open spec fn runs_first(s: Seq<PcbView>, pid: usize) -> bool {
    exists|k: int|
        #![trigger s[k]]
        0 <= k < s.len() && s[k].pid == pid && vr(s[k]) == least_vruntime(s) && forall|j: int|
            0 <= j < s.len() ==> !runs_before(#[trigger] s[j], s[k])
}

/// The processes among which `next()` of the fair scheduler holding `m`,
/// once woken, chooses one to launch: the ready ones, with the running one put back at
/// the end when it has less than the minimum timeslice left; none when the
/// running process runs on.
pub open spec fn fair_candidates(m: FairModel) -> Option<Seq<PcbView>> {
    match m.running {
        None => Some(m.ready),
        Some(p) => {
            let p1 = if p.payload > m.quanta { PcbView { payload: m.quanta, ..p } } else { p };
            if p1.payload < m.min_timeslice {
                Some(m.ready.push(readied(p1)))
            } else {
                None
            }
        },
    }
}

/// The fair scheduler launches the process with the least virtual runtime,
/// and among those the one created first, that with the smallest pid.
pub proof fn lemma_fair_next_runs_first(m: FairModel, m2: FairModel, r: SchedulingDecision)
    requires
        fair_next_outcome(m, m2, r),
    ensures
        fair_candidates(fair_after_wakeup(m)) matches Some(c) ==> (r matches SchedulingDecision::Run {
            pid,
            ..
        } ==> runs_first(c, pid@)),
{
    if let Some(c) = fair_candidates(fair_after_wakeup(m)) {
        lemma_pick_least_in_range(c);
        if let Some(k) = pick_least(c) {
            assert(c[k].pid == c[k].pid);
        }
    }
}

/// The clock of the fair scheduler never goes back on a stop: it moves
/// forward by the time the running process executed, and by one unit for a
/// system call that it handled.
pub proof fn lemma_fair_stop_clock_forward(m: FairModel, reason: StopReason, m2: FairModel, r: SyscallResult)
    requires
        fair_stop_accepted(m, reason),
        fair_stop_outcome(m, reason, m2, r),
    ensures
        m2.timestamp >= m.timestamp,
{
}

/// `next()` of the fair scheduler moves the clock forward by the time the
/// scheduler slept.
pub proof fn lemma_fair_next_clock_forward(m: FairModel, m2: FairModel, r: SchedulingDecision)
    requires
        m.timestamp + m.slept_time <= usize::MAX,
        fair_next_outcome(m, m2, r),
    ensures
        m2.timestamp == m.timestamp + m.slept_time,
{
}

/// `next()` keeps the pids the fair scheduler holds and the next pid, so
/// each process keeps its own pid.
pub proof fn lemma_fair_next_keeps_pids(m: FairModel, m2: FairModel, r: SchedulingDecision)
    requires
        fair_next_outcome(m, m2, r),
    ensures
        m2.pids() =~= m.pids(),
        m2.next_pid == m.next_pid,
        m.pids_unique() ==> m2.pids_unique(),
{
    let w = fair_after_wakeup(m);
    lemma_fair_wakeup_pids(m);
    match w.running {
        None => {
            if !w.panics() {
                lemma_dequeued_pids(w);
            }
            assert(m2.pids() =~= w.pids());
        },
        Some(p) => {
            let p1 = if p.payload > w.quanta { PcbView { payload: w.quanta, ..p } } else { p };
            if p1.payload < w.min_timeslice {
                let e = FairModel { ready: w.ready.push(readied(p1)), ..w };
                lemma_dequeued_pids(e);
                lemma_pids_of_push(w.ready, readied(p1));
                lemma_singleton_add(p.pid, pids_of(w.ready));
            }
            assert(m2.pids() =~= w.pids());
        },
    }
}

/// Listing the processes keeps the pids the fair scheduler holds.
pub proof fn lemma_fair_list_keeps_pids(m: FairModel)
    ensures
        m.aged_all().pids() == m.pids(),
        m.aged_all().next_pid == m.next_pid,
{
    let a = m.aged_all();
    assert forall|i: int| 0 <= i < a.ready.len() implies #[trigger] a.ready[i].pid == m.ready[i].pid by {}
    lemma_pids_of_same(a.ready, m.ready);
    lemma_sleeper_pids_same(a.sleeping, m.sleeping);
    lemma_waiter_pids_same(a.waiting, m.waiting);
}

/// The fair scheduler.
pub struct FairScheduler {
    ready: Vec<FairPCB>,
    sleeping: Vec<(FairPCB, Timestamp, usize)>,
    waiting: Vec<(FairPCB, Event)>,
    running: Option<FairPCB>,
    cpu_time: usize,
    quanta: usize,
    min_timeslice: usize,
    next_pid: Pid,
    timestamp: Timestamp,
    panicd: bool,
    slept_time: usize,
    proc_number: usize,
}

impl View for FairScheduler {
    type V = FairModel;

    closed spec fn view(&self) -> FairModel {
        FairModel {
            ready: fair_blocks(self.ready@),
            sleeping: self.sleeping@.map_values(|e: (FairPCB, Timestamp, usize)| (e.0@, e.1@, e.2)),
            waiting: self.waiting@.map_values(|e: (FairPCB, Event)| (e.0@, e.1@)),
            running: match self.running {
                Some(p) => Some(p@),
                None => None,
            },
            cpu_time: self.cpu_time,
            quanta: self.quanta,
            min_timeslice: self.min_timeslice,
            next_pid: self.next_pid@,
            timestamp: self.timestamp@,
            panicd: self.panicd,
            slept_time: self.slept_time,
            proc_number: self.proc_number,
        }
    }
}

impl FairScheduler {
    /// Creates a fair scheduler with no process that shares `cpu_time` time
    /// units among its processes, and lets a process that made a system call
    /// run on when at least `minimum_remaining_timeslice` units are left.
    pub fn new(cpu_time: usize, minimum_remaining_timeslice: usize) -> (r: FairScheduler)
        requires
            cpu_time > 0,
        ensures
            r@ == (FairModel {
                ready: Seq::empty(),
                sleeping: Seq::empty(),
                waiting: Seq::empty(),
                running: None,
                cpu_time,
                quanta: cpu_time,
                min_timeslice: minimum_remaining_timeslice,
                next_pid: 1,
                timestamp: 0,
                panicd: false,
                slept_time: 0,
                proc_number: 0,
            }),
    {
        let r = FairScheduler {
            ready: Vec::new(),
            sleeping: Vec::new(),
            waiting: Vec::new(),
            running: None,
            cpu_time,
            quanta: cpu_time,
            min_timeslice: minimum_remaining_timeslice,
            next_pid: Pid::new(1),
            timestamp: Timestamp::new(0),
            panicd: false,
            slept_time: 0,
            proc_number: 0,
        };
        assert(r@.ready =~= Seq::empty());
        assert(r@.sleeping =~= Seq::empty());
        assert(r@.waiting =~= Seq::empty());
        r
    }

    /// Moves the clock `time` units forward.
    fn make_timeskip(&mut self, time: usize)
        requires
            old(self)@.timestamp + time <= usize::MAX,
        ensures
            final(self)@ == (FairModel { timestamp: (old(self)@.timestamp + time) as usize, ..old(self)@ }),
    {
        self.timestamp = self.timestamp.add(time);
    }

    /// Marks the next pid as used.
    fn inc_pid(&mut self)
        requires
            old(self)@.next_pid < usize::MAX,
        ensures
            final(self)@ == (FairModel { next_pid: (old(self)@.next_pid + 1) as usize, ..old(self)@ }),
    {
        self.next_pid = self.next_pid.add(1);
    }

    /// Counts one more process.
    fn inc_number(&mut self)
        requires
            old(self)@.proc_number < usize::MAX,
        ensures
            final(self)@ == (FairModel {
                proc_number: (old(self)@.proc_number + 1) as usize,
                ..old(self)@
            }),
    {
        self.proc_number = self.proc_number + 1;
    }

    /// Counts one process less.
    fn dec_number(&mut self)
        requires
            old(self)@.proc_number > 0,
        ensures
            final(self)@ == (FairModel {
                proc_number: (old(self)@.proc_number - 1) as usize,
                ..old(self)@
            }),
    {
        self.proc_number = self.proc_number - 1;
    }

    /// Shares the cpu time among the processes, when there is one.
    fn recalculate_quanta(&mut self)
        requires
            old(self)@.proc_number <= old(self)@.cpu_time,
        ensures
            final(self)@ == (FairModel {
                quanta: old(self)@.quanta_for(old(self)@.proc_number),
                ..old(self)@
            }),
    {
        if self.proc_number == 0 {
            return ;
        }
        let new_quanta = self.cpu_time / self.proc_number;
        proof {
            assert(new_quanta > 0) by (nonlinear_arith)
                requires
                    new_quanta == self.cpu_time / self.proc_number,
                    0 < self.proc_number <= self.cpu_time,
            ;
        }
        self.quanta = new_quanta;
    }

    /// The least virtual runtime among the processes, or none when there is
    /// no process.
    fn get_min_viruntime(&self) -> (r: Option<Vruntime>)
        ensures
            match r {
                Some(v) => self@.min_vruntime() == Some(v@ as int),
                None => self@.min_vruntime() is None,
            },
    {
        if self.running.is_none() && self.ready.len() == 0 && self.sleeping.len() == 0
            && self.waiting.len() == 0 {
            assert(self@.all().len() == 0);
            return None;
        }
        let ghost all = self@.all();
        let ghost offset: int = if self.running is Some { 1 } else { 0 };
        let mut min = Vruntime::new(usize::MAX);
        assert(all.take(0) =~= Seq::<PcbView>::empty());
        if let Some(pcb) = self.running {
            proof {
                lemma_least_vruntime_step(all, 0);
            }
            if pcb.vruntime.get() < min.get() {
                min = pcb.vruntime;
            }
        }
        let nr = self.ready.len();
        let mut i: usize = 0;
        while i < nr
            invariant
                0 <= i <= nr,
                nr == self.ready@.len(),
                all == self@.all(),
                offset == (if self.running is Some { 1int } else { 0int }),
                min@ == least_vruntime(all.take(offset + i)),
            decreases nr - i,
        {
            proof {
                assert(all[offset + i] == self.ready@[i as int]@);
                lemma_least_vruntime_step(all, offset + i);
            }
            if self.ready[i].vruntime.get() < min.get() {
                min = self.ready[i].vruntime;
            }
            i = i + 1;
        }
        let ns = self.sleeping.len();
        let mut j: usize = 0;
        while j < ns
            invariant
                0 <= j <= ns,
                ns == self.sleeping@.len(),
                all == self@.all(),
                offset == (if self.running is Some { 1int } else { 0int }),
                min@ == least_vruntime(all.take(offset + nr + j)),
                nr == self.ready@.len(),
            decreases ns - j,
        {
            proof {
                assert(all[offset + nr + j] == self.sleeping@[j as int].0@);
                lemma_least_vruntime_step(all, offset + nr + j);
            }
            if self.sleeping[j].0.vruntime.get() < min.get() {
                min = self.sleeping[j].0.vruntime;
            }
            j = j + 1;
        }
        let nw = self.waiting.len();
        let mut k: usize = 0;
        while k < nw
            invariant
                0 <= k <= nw,
                nw == self.waiting@.len(),
                all == self@.all(),
                offset == (if self.running is Some { 1int } else { 0int }),
                min@ == least_vruntime(all.take(offset + nr + ns + k)),
                nr == self.ready@.len(),
                ns == self.sleeping@.len(),
            decreases nw - k,
        {
            proof {
                assert(all[offset + nr + ns + k] == self.waiting@[k as int].0@);
                lemma_least_vruntime_step(all, offset + nr + ns + k);
            }
            if self.waiting[k].0.vruntime.get() < min.get() {
                min = self.waiting[k].0.vruntime;
            }
            k = k + 1;
        }
        assert(all.take(offset + nr + ns + nw) =~= all);
        Some(min)
    }

    /// Takes out of the ready queue the first process with the least virtual
    /// runtime (below `usize::MAX`), removing the first ready entry with its
    /// pid.
    #[verifier::rlimit(40)]
    fn get_next_process(&mut self) -> (r: Option<FairPCB>)
        ensures
            match pick_least(old(self)@.ready) {
                Some(i) => {
                    &&& r matches Some(p) && p@ == old(self)@.ready[i]
                    &&& final(self)@ == (FairModel {
                        ready: old(self)@.ready.remove(
                            first_with_pid(old(self)@.ready, old(self)@.ready[i].pid),
                        ),
                        ..old(self)@
                    })
                },
                None => r is None && final(self)@ == old(self)@,
            },
    {
        let ghost s = self@.ready;
        let mut process: Option<FairPCB> = None;
        let mut min_vruntime = Vruntime::new(usize::MAX);
        let n = self.ready.len();
        let mut i: usize = 0;
        assert(s.take(0) =~= Seq::<PcbView>::empty());
        while i < n
            invariant
                0 <= i <= n,
                n == self.ready@.len(),
                s == self@.ready,
                min_vruntime@ == least_vruntime(s.take(i as int)),
                match pick_least(s.take(i as int)) {
                    Some(j) => process matches Some(p) && p@ == s[j] && 0 <= j < i,
                    None => process is None,
                },
            decreases n - i,
        {
            proof {
                lemma_least_vruntime_step(s, i as int);
                lemma_pick_least_step(s, i as int);
                lemma_pick_least_in_range(s.take(i as int));
                assert(s[i as int] == self.ready@[i as int]@);
            }
            let item = self.ready[i];
            let better = match process {
                None => item.vruntime.get() < min_vruntime.get(),
                Some(best) => item.vruntime.get() < best.vruntime.get() || (item.vruntime.get()
                    == best.vruntime.get() && item.pid.get() < best.pid.get()),
            };
            if better {
                process = Some(item);
            }
            if item.vruntime.get() < min_vruntime.get() {
                min_vruntime = item.vruntime;
            }
            i = i + 1;
        }
        assert(s.take(n as int) =~= s);
        proof {
            lemma_pick_least_in_range(s);
        }
        if let Some(pcb) = process {
            let ghost picked = choose|j: int| pick_least(s) == Some(j);
            let mut k: usize = 0;
            while self.ready[k].pid != pcb.pid
                invariant
                    0 <= k <= picked,
                    n == self.ready@.len(),
                    s == self@.ready,
                    pick_least(s) == Some(picked),
                    0 <= picked < n,
                    pcb@ == s[picked],
                    forall|j: int| 0 <= j < k ==> #[trigger] s[j].pid != pcb@.pid,
                decreases picked - k,
            {
                proof {
                    crate::scheduler::lemma_pid_view_injective(self.ready@[k as int].pid, pcb.pid);
                    if k == picked {
                        assert(self.ready@[k as int].pid@ == pcb.pid@);
                    }
                }
                k = k + 1;
            }
            proof {
                crate::scheduler::lemma_pid_view_injective(self.ready@[k as int].pid, pcb.pid);
                assert(is_first_with_pid(s, s[picked].pid, k as int));
                let c = first_with_pid(s, s[picked].pid);
                assert(is_first_with_pid(s, s[picked].pid, c));
                if c < k {
                    assert(s[c].pid != pcb@.pid);
                } else if c > k {
                    assert(s[k as int].pid != s[picked].pid);
                }
            }
            self.ready.remove(k);
            assert(self@.ready =~= s.remove(k as int));
        }
        process
    }

    /// Creates a process with the next pid, priority `priority`, created at
    /// `timestamp`, with virtual runtime `vruntime`.
    fn spawn_process(&mut self, priority: i8, timestamp: Timestamp, vruntime: Vruntime) -> (r: FairPCB)
        requires
            old(self)@.next_pid < usize::MAX,
        ensures
            r@ == fresh_block(old(self)@.next_pid, priority, timestamp@, Some(vruntime@)),
            final(self)@ == (FairModel { next_pid: (old(self)@.next_pid + 1) as usize, ..old(self)@ }),
    {
        let new_proc = FairPCB::new(self.next_pid, priority, timestamp, vruntime);
        self.inc_pid();
        new_proc
    }

    /// Creates a process with the next pid and priority `priority`, created
    /// at `timestamp`, with the least virtual runtime of the processes (0
    /// when there is none); counts it, shares the cpu time again and
    /// enqueues it. Returns its pid.
    fn fork(&mut self, priority: i8, timestamp: Timestamp) -> (r: Pid)
        requires
            timestamp@ == old(self)@.timestamp,
            old(self)@.next_pid < usize::MAX,
            old(self)@.proc_number + 1 <= old(self)@.cpu_time,
        ensures
            r@ == old(self)@.next_pid,
            final(self)@ == old(self)@.forked(priority),
    {
        let vruntime = self.get_min_viruntime();
        let new_proc: FairPCB;
        match vruntime {
            Some(time) => new_proc = self.spawn_process(priority, timestamp, time),
            None => new_proc = self.spawn_process(priority, timestamp, Vruntime::new(0)),
        }
        self.inc_number();
        self.recalculate_quanta();
        self.enqueue_process(new_proc);
        new_proc.pid
    }

    /// Accounts for the stop of `proc` for `reason` with `remaining` units
    /// left; returns the time it executed.
    fn interrupt_process(&self, proc: &mut FairPCB, remaining: usize, reason: StopReason) -> (r: usize)
        requires
            old(proc)@.can_account(remaining, reason),
        ensures
            r == old(proc)@.executed(remaining, reason),
            final(proc)@ == fair_accounted(old(proc)@, remaining, reason),
    {
        let exec_time: usize;
        if let StopReason::Syscall { .. } = reason {
            proc.syscall();
            exec_time = proc.time_payload - remaining - 1;
            proc.vruntime = proc.vruntime.add(exec_time + 1);
        } else {
            exec_time = proc.time_payload - remaining;
            proc.vruntime = proc.vruntime.add(exec_time);
        }
        proc.execute(exec_time);
        proc.load_payload(remaining);
        exec_time
    }

    /// Makes `proc` ready and puts it at the end of the ready queue.
    fn enqueue_process(&mut self, proc: FairPCB)
        ensures
            final(self)@ == (FairModel { ready: old(self)@.ready.push(readied(proc@)), ..old(self)@ }),
    {
        let mut proc = proc;
        proc.set_state(ProcessState::Ready);
        self.ready.push(proc);
        assert(self@.ready =~= old(self)@.ready.push(readied(proc@)));
    }

    /// Makes the ready process with the least virtual runtime the running
    /// one.
    fn dequeue_process(&mut self)
        ensures
            final(self)@ == old(self)@.dequeued(),
    {
        self.running = self.get_next_process();
    }

    /// Ends the running process; ending the process with pid 1 is recorded.
    fn kill_running(&mut self) -> (r: SyscallResult)
        requires
            fair_invariant(old(self)@),
        ensures
            old(self)@.running is None ==> r == SyscallResult::NoRunningProcess && final(self)@ == old(
                self,
            )@,
            old(self)@.running matches Some(p) ==> r == SyscallResult::Success && final(self)@ == (
            FairModel {
                running: None,
                panicd: old(self)@.panicd || p.pid == 1,
                proc_number: (old(self)@.proc_number - 1) as usize,
                quanta: old(self)@.quanta_for((old(self)@.proc_number - 1) as usize),
                ..old(self)@
            }),
    {
        if let Some(proc) = self.running {
            if proc.pid.get() == 1 {
                self.panicd = true;
            }
            self.dec_number();
            self.running = None;
            self.recalculate_quanta();
            SyscallResult::Success
        } else {
            SyscallResult::NoRunningProcess
        }
    }


    /// Marks the sleeping processes whose sleeping time has passed.
    fn update_sleeping_times(&mut self)
        requires
            forall|i: int|
                0 <= i < old(self)@.sleeping.len() ==> #[trigger] old(self)@.sleeping[i].1
                    <= old(self)@.timestamp,
        ensures
            final(self)@ == old(self)@.woken(),
    {
        let curr_time = self.timestamp;
        proof {
            assert forall|k: int| 0 <= k < sleep_views(self.sleeping@).len() implies #[trigger] sleep_views(
                self.sleeping@,
            )[k].1 <= curr_time@ by {
                assert(self@.sleeping[k] == sleep_views(self.sleeping@)[k]);
            }
        }
        check_sleepers(&mut self.sleeping, curr_time);
        assert(self@.sleeping =~= old(self)@.woken().sleeping);
    }

    /// Puts `proc` to sleep for `time` units, from now: it is counted no
    /// more, the cpu time is shared again, and the call takes a time unit.
    fn send_process_to_sleep(&mut self, proc: FairPCB, time: usize)
        requires
            old(self)@.timestamp < usize::MAX,
            0 < old(self)@.proc_number <= old(self)@.cpu_time,
        ensures
            final(self)@ == (FairModel {
                sleeping: old(self)@.sleeping.push(
                    (
                        PcbView { state: ProcessState::Waiting { event: None }, ..proc@ },
                        old(self)@.timestamp,
                        time,
                    ),
                ),
                timestamp: (old(self)@.timestamp + 1) as usize,
                proc_number: (old(self)@.proc_number - 1) as usize,
                quanta: old(self)@.quanta_for((old(self)@.proc_number - 1) as usize),
                ..old(self)@
            }),
    {
        let mut proc = proc;
        proc.set_sleeping();
        self.sleeping.push((proc, self.timestamp, time));
        assert(self@.sleeping =~= old(self)@.sleeping.push((proc@, old(self)@.timestamp, time)));
        self.dec_number();
        self.recalculate_quanta();
        self.make_timeskip(1);
    }

    /// Makes `proc` wait for `event`: it is counted no more, the cpu time is
    /// shared again, and the call takes a time unit.
    fn block_process(&mut self, proc: FairPCB, event: Event)
        requires
            old(self)@.timestamp < usize::MAX,
            0 < old(self)@.proc_number <= old(self)@.cpu_time,
        ensures
            final(self)@ == (FairModel {
                waiting: old(self)@.waiting.push(
                    (PcbView { state: ProcessState::Waiting { event: Some(event@) }, ..proc@ }, event@),
                ),
                timestamp: (old(self)@.timestamp + 1) as usize,
                proc_number: (old(self)@.proc_number - 1) as usize,
                quanta: old(self)@.quanta_for((old(self)@.proc_number - 1) as usize),
                ..old(self)@
            }),
    {
        let mut proc = proc;
        proc.wait_for_event(event);
        self.waiting.push((proc, event));
        assert(self@.waiting =~= old(self)@.waiting.push((proc@, event@)));
        self.dec_number();
        self.recalculate_quanta();
        self.make_timeskip(1);
    }

    /// Makes ready the processes `procs`, in order, at the end of the ready
    /// queue; counts them and shares the cpu time again when there is one.
    fn join_ready(&mut self, procs: Vec<FairPCB>)
        requires
            old(self)@.proc_number + procs@.len() <= old(self)@.cpu_time,
        ensures
            final(self)@ == old(self)@.joined(readied_views(procs@)),
    {
        let ghost start = self@;
        let n = procs.len();
        let mut i: usize = 0;
        while i < n
            invariant
                0 <= i <= n,
                n == procs@.len(),
                self@ == (FairModel { ready: start.ready + readied_views(procs@).take(i as int), ..start }),
            decreases n - i,
        {
            let item = procs[i];
            self.enqueue_process(item);
            assert(start.ready + readied_views(procs@).take(i + 1) =~= (start.ready + readied_views(
                procs@,
            ).take(i as int)).push(readied(item@)));
            i = i + 1;
        }
        assert(readied_views(procs@).take(n as int) =~= readied_views(procs@));
        self.proc_number = self.proc_number + n;
        if n > 0 {
            self.recalculate_quanta();
        }
    }

    /// Makes ready the processes whose sleeping time is over, in order.
    fn awake_processes(&mut self)
        requires
            old(self)@.proc_number + awoken(old(self)@.sleeping).len() <= old(self)@.cpu_time,
        ensures
            final(self)@ == old(self)@.awakened(),
    {
        let (keep, procs) = split_sleepers(&self.sleeping);
        self.sleeping = keep;
        proof {
            assert(procs@.len() == readied_views(procs@).len());
        }
        self.join_ready(procs);
    }

    /// Makes ready the processes waiting for `event`, in order.
    fn unblock_processes(&mut self, event: Event)
        requires
            old(self)@.proc_number + released(old(self)@.waiting, event@).len() <= old(self)@.cpu_time,
        ensures
            final(self)@ == old(self)@.unblocked(event@),
    {
        let (keep, procs) = split_waiters(&self.waiting, event);
        self.waiting = keep;
        proof {
            assert(procs@.len() == readied_views(procs@).len());
        }
        self.join_ready(procs);
    }

    /// The time until the first sleeping process wakes, or 0 when none
    /// sleeps.
    fn get_sleep_time(&self) -> (r: usize)
        requires
            self@.sleep_ends_ahead(),
        ensures
            r == self@.time_for_sleep(),
    {
        least_sleep_time(&self.sleeping, self.timestamp)
    }

    /// Whether the process with pid 1 ended while processes are left.
    fn is_panicd(&self) -> (r: bool)
        ensures
            r == self@.panics(),
    {
        proof {
            lemma_all_len(self@);
        }
        self.panicd && (self.running.is_some() || self.ready.len() != 0 || self.sleeping.len() != 0
            || self.waiting.len() != 0)
    }

    /// The decision when no process runs and none is ready: done when no
    /// process is left, deadlock when all wait for events, otherwise sleep
    /// until the first sleeping process wakes; `None` when one runs or is
    /// ready.
    fn is_blocked(&self) -> (r: Option<SchedulingDecision>)
        requires
            self@.running is None && self@.ready.len() == 0 ==> {
                &&& self@.sleep_ends_ahead()
                &&& self@.sleeping.len() > 0 ==> self@.time_for_sleep() > 0
            },
        ensures
            r == self@.blocked_decision(),
    {
        if self.running.is_some() || self.ready.len() != 0 {
            return None;
        }
        if self.sleeping.len() == 0 && self.waiting.len() == 0 {
            return Some(SchedulingDecision::Done);
        }
        if self.sleeping.len() == 0 {
            return Some(SchedulingDecision::Deadlock);
        }
        let time = self.get_sleep_time();
        Some(SchedulingDecision::Sleep(time))
    }

    /// Records the time to sleep when `decision` is to sleep, 0 otherwise.
    fn give_time_to_sleep(&mut self, decision: SchedulingDecision)
        ensures
            final(self)@ == (FairModel {
                slept_time: match decision {
                    SchedulingDecision::Sleep(time) => time,
                    _ => 0,
                },
                ..old(self)@
            }),
    {
        if let SchedulingDecision::Sleep(time) = decision {
            self.slept_time = time;
        } else {
            self.slept_time = 0;
        }
    }

    /// Adds the slept time to the clock, then makes ready the processes
    /// whose sleeping time is over.
    fn wakeup_myself(&mut self)
        requires
            fair_invariant(old(self)@),
            old(self)@.timestamp + old(self)@.slept_time <= usize::MAX,
        ensures
            final(self)@ == fair_after_wakeup(old(self)@),
    {
        if self.slept_time != 0 {
            let slept = self.slept_time;
            self.make_timeskip(slept);
            self.slept_time = 0;
        }
        assert(self@ == old(self)@.slept_out());
        self.update_sleeping_times();
        proof {
            let b = old(self)@.slept_out().woken();
            lemma_all_len(old(self)@);
            crate::scheduler_info::lemma_sleepers_count(b.sleeping);
        }
        self.awake_processes();
    }

    /// Computes the time of existence of every process.
    fn update_existence_time(&mut self)
        requires
            fair_invariant(old(self)@),
        ensures
            final(self)@ == old(self)@.aged_all(),
    {
        let now = self.timestamp;
        if let Some(mut pcb) = self.running {
            pcb.total_time = now.get() - pcb.arrival_time.get() - 1;
            self.running = Some(pcb);
        }
        proof {
            assert forall|k: int| 0 <= k < self.ready@.len() implies #[trigger] self.ready@[k]@.arrival
                < now@ by {
                assert(self@.ready[k] == self.ready@[k]@);
            }
        }
        proof {
            assert forall|k: int| 0 <= k < self.sleeping@.len() implies #[trigger] self.sleeping@[k].0.arrival_time@
                < now@ by {
                assert(self@.sleeping[k].0 == self.sleeping@[k].0@);
            }
            assert forall|k: int| 0 <= k < self.waiting@.len() implies #[trigger] self.waiting@[k].0.arrival_time@
                < now@ by {
                assert(self@.waiting[k].0 == self.waiting@[k].0@);
            }
        }
        age_fair_queue(&mut self.ready, now);
        age_fair_sleeping(&mut self.sleeping, now);
        age_fair_waiting(&mut self.waiting, now);
        assert(self@.sleeping =~= old(self)@.sleeping.map_values(
            |e: (PcbView, usize, usize)| (aged(e.0, now@), e.1, e.2),
        ));
        assert(self@.waiting =~= old(self)@.waiting.map_values(
            |e: (PcbView, usize)| (aged(e.0, now@), e.1),
        ));
    }
}

impl Collector for FairScheduler {
    type Item = FairPCB;

    closed spec fn running_items(&self) -> Seq<FairPCB> {
        match self.running {
            Some(p) => seq![p],
            None => Seq::empty(),
        }
    }

    closed spec fn ready_items(&self) -> Seq<FairPCB> {
        self.ready@
    }

    closed spec fn sleeping_items(&self) -> Seq<FairPCB> {
        self.sleeping@.map_values(|e: (FairPCB, Timestamp, usize)| e.0)
    }

    closed spec fn waiting_items(&self) -> Seq<FairPCB> {
        self.waiting@.map_values(|e: (FairPCB, Event)| e.0)
    }

    fn collect_running(&self) -> (r: Vec<FairPCB>) {
        let mut proc: Vec<FairPCB> = Vec::new();
        match &self.running {
            Some(pcb) => proc.push(*pcb),
            None => (),
        }
        assert(proc@ =~= self.running_items());
        proc
    }

    fn collect_ready(&self) -> (r: Vec<FairPCB>) {
        let mut procs: Vec<FairPCB> = Vec::new();
        let n = self.ready.len();
        let mut i: usize = 0;
        while i < n
            invariant
                0 <= i <= n,
                n == self.ready@.len(),
                procs@ == self.ready@.take(i as int),
            decreases n - i,
        {
            procs.push(self.ready[i]);
            i = i + 1;
            assert(procs@ =~= self.ready@.take(i as int));
        }
        assert(self.ready@.take(n as int) =~= self.ready@);
        procs
    }

    fn collect_sleeping(&self) -> (r: Vec<FairPCB>) {
        let mut procs: Vec<FairPCB> = Vec::new();
        let n = self.sleeping.len();
        let mut i: usize = 0;
        while i < n
            invariant
                0 <= i <= n,
                n == self.sleeping@.len(),
                procs@ == self.sleeping_items().take(i as int),
            decreases n - i,
        {
            procs.push(self.sleeping[i].0);
            i = i + 1;
            assert(procs@ =~= self.sleeping_items().take(i as int));
        }
        assert(self.sleeping_items().take(n as int) =~= self.sleeping_items());
        procs
    }

    fn collect_waiting(&self) -> (r: Vec<FairPCB>) {
        let mut procs: Vec<FairPCB> = Vec::new();
        let n = self.waiting.len();
        let mut i: usize = 0;
        while i < n
            invariant
                0 <= i <= n,
                n == self.waiting@.len(),
                procs@ == self.waiting_items().take(i as int),
            decreases n - i,
        {
            procs.push(self.waiting[i].0);
            i = i + 1;
            assert(procs@ =~= self.waiting_items().take(i as int));
        }
        assert(self.waiting_items().take(n as int) =~= self.waiting_items());
        procs
    }
}

impl FairScheduler {
    /// The blocks of all the processes are those the model lists.
    proof fn lemma_items_are_blocks(&self)
        ensures
            fair_blocks(all_items(self)) == self@.all(),
    {
        assert(fair_blocks(all_items(self)) =~= self@.all());
    }
}

/// The number of processes is the sum of the sizes of the queues.
proof fn lemma_all_len(m: FairModel)
    ensures
        m.all().len() == (if m.running is Some { 1int } else { 0int }) + m.ready.len()
            + m.sleeping.len() + m.waiting.len(),
{
}

/// Sharing the cpu time among at most as many processes as it has units
/// gives a timeslice of at least one unit.
proof fn lemma_quanta_for_positive(m: FairModel, number: usize)
    requires
        m.quanta > 0,
        number <= m.cpu_time,
    ensures
        m.quanta_for(number) > 0,
{
    if number > 0 {
        assert(m.cpu_time / number > 0) by (nonlinear_arith)
            requires
                0 < number <= m.cpu_time,
        ;
    }
}

/// The dequeued state keeps the count of processes, and the launched
/// process was ready, created before now.
proof fn lemma_dequeued_keeps_count(m: FairModel)
    requires
        m.running is None,
        forall|i: int|
            0 <= i < m.ready.len() ==> (#[trigger] m.ready[i]).arrival < m.timestamp
                && m.ready[i].vruntime is Some && m.ready[i].state == ProcessState::Ready,
    ensures
        m.dequeued().all().len() == m.all().len(),
        m.dequeued().running matches Some(p) ==> p.arrival < m.timestamp && p.vruntime is Some,
        forall|i: int|
            0 <= i < m.dequeued().ready.len() ==> (#[trigger] m.dequeued().ready[i]).arrival
                < m.timestamp && m.dequeued().ready[i].vruntime is Some
                && m.dequeued().ready[i].state == ProcessState::Ready,
        m.ready.len() > 0 && least_vruntime(m.ready) < usize::MAX ==> m.dequeued().running is Some,
{
    lemma_pick_least_in_range(m.ready);
    if let Some(i) = pick_least(m.ready) {
        let k = first_with_pid(m.ready, m.ready[i].pid);
        assert(is_first_with_pid(m.ready, m.ready[i].pid, i) ==> is_first_with_pid(
            m.ready,
            m.ready[i].pid,
            k,
        ));
        if !is_first_with_pid(m.ready, m.ready[i].pid, i) {
            let j = choose|j: int| 0 <= j < i && #[trigger] m.ready[j].pid == m.ready[i].pid;
            let mut x = j;
            assert(exists|x: int| is_first_with_pid(m.ready, m.ready[i].pid, x)) by {
                lemma_first_with_pid_exists(m.ready, m.ready[i].pid, i);
            }
        }
        assert(is_first_with_pid(m.ready, m.ready[i].pid, k));
        lemma_all_len(m);
        lemma_all_len(m.dequeued());
    } else {
        lemma_all_len(m);
        lemma_all_len(m.dequeued());
    }
}

/// Making ready the blocks `woke`, each a ready block with a virtual
/// runtime created before now, keeps the invariant, and so does counting
/// them when they are no more than the processes that left the other
/// queues.
proof fn lemma_joined_keeps_invariant(m: FairModel, before: FairModel, woke: Seq<PcbView>)
    requires
        m.cpu_time > 0,
        m.quanta > 0,
        m.proc_number == m.runnable(),
        m.all().len() + woke.len() <= before.all().len(),
        before.all().len() <= m.cpu_time,
        m.cpu_time == before.cpu_time,
        forall|i: int|
            0 <= i < m.ready.len() ==> (#[trigger] m.ready[i]).state == ProcessState::Ready
                && m.ready[i].arrival < m.timestamp && m.ready[i].vruntime is Some,
        forall|i: int|
            0 <= i < woke.len() ==> (#[trigger] woke[i]).state == ProcessState::Ready
                && woke[i].arrival < m.timestamp && woke[i].vruntime is Some,
    ensures
        m.joined(woke).proc_number == m.joined(woke).runnable(),
        m.joined(woke).quanta > 0,
        forall|i: int|
            0 <= i < m.joined(woke).ready.len() ==> (#[trigger] m.joined(woke).ready[i]).state
                == ProcessState::Ready && m.joined(woke).ready[i].arrival < m.timestamp
                && m.joined(woke).ready[i].vruntime is Some,
{
    let j = m.joined(woke);
    lemma_all_len(m);
    if woke.len() > 0 {
        lemma_quanta_for_positive(m, (m.proc_number + woke.len()) as usize);
    }
    assert forall|i: int| 0 <= i < j.ready.len() implies (#[trigger] j.ready[i]).state
        == ProcessState::Ready && j.ready[i].arrival < m.timestamp && j.ready[i].vruntime is Some by {
        if i >= m.ready.len() {
            assert(j.ready[i] == woke[i - m.ready.len()]);
        }
    }
}

/// Waking keeps the invariant and the virtual runtimes below `usize::MAX`,
/// and afterwards every sleeper wakes at a moment not yet past, so that the
/// time until the first wakes is positive.
pub proof fn lemma_fair_wakeup_keeps_invariant(m: FairModel)
    requires
        fair_invariant(m),
        m.vruntimes_below_max(),
        m.timestamp + m.slept_time <= usize::MAX,
    ensures
        fair_invariant(fair_after_wakeup(m)),
        fair_after_wakeup(m).vruntimes_below_max(),
        fair_after_wakeup(m).sleep_ends_ahead(),
        fair_after_wakeup(m).sleeping.len() > 0 ==> fair_after_wakeup(m).time_for_sleep() > 0,
{
    let a = m.slept_out();
    let b = a.woken();
    let c = b.awakened();
    let half = FairModel { sleeping: still_asleep(b.sleeping), ..b };
    lemma_all_len(m);
    lemma_all_len(b);
    lemma_all_len(half);
    crate::scheduler_info::lemma_sleepers_count(b.sleeping);
    assert forall|i: int| 0 <= i < b.sleeping.len() implies {
        let e = #[trigger] b.sleeping[i];
        &&& e.0.state == (ProcessState::Waiting { event: None })
        &&& e.0.arrival < b.timestamp
        &&& e.0.vruntime is Some
        &&& vr(e.0) < usize::MAX
        &&& e.1 + e.2 < usize::MAX
        &&& e.1 <= b.timestamp
        &&& e.2 != 0 ==> b.timestamp - e.1 <= e.2
    } by {
        assert(b.sleeping[i] == woken_entry(a.sleeping[i], a.timestamp));
        assert(a.sleeping[i] == m.sleeping[i]);
    }
    crate::scheduler_info::lemma_still_asleep_members(b.sleeping);
    crate::scheduler_info::lemma_awoken_members(b.sleeping);
    let woke = awoken(b.sleeping);
    assert forall|i: int| 0 <= i < woke.len() implies (#[trigger] woke[i]).state == ProcessState::Ready
        && woke[i].arrival < half.timestamp && woke[i].vruntime is Some && vr(woke[i]) < usize::MAX by {
        let k = choose|k: int|
            #![trigger b.sleeping[k]]
            0 <= k < b.sleeping.len() && awoken(b.sleeping)[i] == readied(b.sleeping[k].0)
                && b.sleeping[k].2 == 0;
    }
    assert forall|i: int| 0 <= i < half.ready.len() implies (#[trigger] half.ready[i]).state
        == ProcessState::Ready && half.ready[i].arrival < half.timestamp
        && half.ready[i].vruntime is Some by {
        assert(half.ready[i] == m.ready[i]);
    }
    lemma_joined_keeps_invariant(half, b, woke);
    assert forall|i: int| 0 <= i < c.sleeping.len() implies {
        let e = #[trigger] c.sleeping[i];
        &&& e.0.state == (ProcessState::Waiting { event: None })
        &&& e.0.arrival < c.timestamp
        &&& e.0.vruntime is Some
        &&& vr(e.0) < usize::MAX
        &&& e.1 <= c.timestamp
        &&& e.1 + e.2 < usize::MAX
        &&& c.timestamp <= e.1 + e.2
    } by {
        let k = choose|k: int|
            #![trigger b.sleeping[k]]
            0 <= k < b.sleeping.len() && still_asleep(b.sleeping)[i] == b.sleeping[k]
                && b.sleeping[k].2 != 0;
    }
    assert forall|i: int| 0 <= i < c.ready.len() implies vr(#[trigger] c.ready[i]) < usize::MAX by {
        if i < m.ready.len() {
            assert(c.ready[i] == m.ready[i]);
        } else {
            assert(c.ready[i] == woke[i - m.ready.len()]);
        }
    }
    assert forall|i: int| 0 <= i < c.waiting.len() implies vr(#[trigger] c.waiting[i].0) < usize::MAX by {
        assert(c.waiting[i] == m.waiting[i]);
    }
    lemma_all_len(c);
    assert(fair_invariant(c));
    if c.sleeping.len() > 0 {
        assert forall|i: int| 0 <= i < c.sleeping.len() implies 1 <= #[trigger] time_to_wake(
            c.sleeping[i],
            c.timestamp,
        ) <= usize::MAX by {
            let e = c.sleeping[i];
        }
        crate::scheduler_info::lemma_least_time_to_wake_positive(c.sleeping, c.timestamp);
    }
}

/// Releasing the processes waiting for `event` keeps the invariant.
pub proof fn lemma_fair_unblock_keeps_invariant(m: FairModel, event: usize)
    requires
        fair_invariant(m),
    ensures
        fair_invariant(m.unblocked(event)),
        m.unblocked(event).all().len() == m.all().len(),
{
    let half = FairModel { waiting: still_waiting(m.waiting, event), ..m };
    let c = m.unblocked(event);
    let rel = released(m.waiting, event);
    lemma_all_len(m);
    lemma_all_len(half);
    lemma_all_len(c);
    crate::scheduler_info::lemma_waiters_count(m.waiting, event);
    crate::scheduler_info::lemma_still_waiting_members(m.waiting, event);
    crate::scheduler_info::lemma_released_members(m.waiting, event);
    assert forall|i: int| 0 <= i < rel.len() implies (#[trigger] rel[i]).state == ProcessState::Ready
        && rel[i].arrival < half.timestamp && rel[i].vruntime is Some by {
        let k = choose|k: int|
            #![trigger m.waiting[k]]
            0 <= k < m.waiting.len() && released(m.waiting, event)[i] == readied(m.waiting[k].0)
                && m.waiting[k].1 == event;
    }
    lemma_joined_keeps_invariant(half, m, rel);
    assert forall|i: int| 0 <= i < c.waiting.len() implies {
        let e = #[trigger] c.waiting[i];
        &&& e.0.state == (ProcessState::Waiting { event: Some(e.1) })
        &&& e.0.arrival < c.timestamp
        &&& e.0.vruntime is Some
    } by {
        let k = choose|k: int|
            #![trigger m.waiting[k]]
            0 <= k < m.waiting.len() && still_waiting(m.waiting, event)[i] == m.waiting[k]
                && m.waiting[k].1 != event;
    }
}

/// Some process holds pid `pid` at index `i`, so a first one exists.
proof fn lemma_first_with_pid_exists(s: Seq<PcbView>, pid: usize, i: int)
    requires
        0 <= i < s.len(),
        s[i].pid == pid,
    ensures
        exists|k: int| is_first_with_pid(s, pid, k),
    decreases i,
{
    if !is_first_with_pid(s, pid, i) {
        let j = choose|j: int| 0 <= j < i && #[trigger] s[j].pid == pid;
        lemma_first_with_pid_exists(s, pid, j);
    }
}

impl Scheduler for FairScheduler {
    type Proc = FairPCB;

    open spec fn stop_allowed(&self, reason: StopReason) -> bool {
        fair_stop_accepted(self@, reason)
    }

    open spec fn next_allowed(&self) -> bool {
        &&& fair_invariant(self@)
        &&& self@.vruntimes_below_max()
        &&& self@.timestamp + self@.slept_time <= usize::MAX
        &&& (self@.running matches Some(p) ==> (p.payload >= self@.min_timeslice ==> p.payload > 0))
    }

    open spec fn list_allowed(&self) -> bool {
        fair_invariant(self@)
    }

    fn stop(&mut self, reason: StopReason) -> (r: SyscallResult)
        ensures
            fair_stop_outcome(old(self)@, reason, final(self)@, r),
            fair_invariant(final(self)@),
    {
        proof {
            lemma_all_len(self@);
            lemma_all_len(self@.stopped(0, StopReason::Expired));
        }
        if let StopReason::Syscall { syscall, remaining } = reason {
            proof {
                lemma_all_len(self@.stopped(remaining, reason));
                lemma_all_len(self@.stopped(remaining, reason).forked(0));
                if self@.proc_number + 1 <= self@.cpu_time {
                    lemma_quanta_for_positive(self@, (self@.proc_number + 1) as usize);
                }
                if self@.proc_number > 0 {
                    lemma_quanta_for_positive(self@, (self@.proc_number - 1) as usize);
                }
            }
            if let Syscall::Fork(prio) = syscall {
                let new_proc_pid: Pid;
                if let Some(mut pcb) = self.running {
                    let passed_time = self.interrupt_process(&mut pcb, remaining, reason);
                    self.running = Some(pcb);
                    self.make_timeskip(passed_time);
                    new_proc_pid = self.fork(prio, self.timestamp);
                    self.make_timeskip(1);
                } else {
                    new_proc_pid = self.fork(prio, self.timestamp);
                    self.make_timeskip(1);
                }
                return SyscallResult::Pid(new_proc_pid);
            }
            if let Syscall::Exit = syscall {
                if let Some(pcb) = self.running {
                    self.make_timeskip(pcb.time_payload - remaining);
                }
                return self.kill_running();
            }
            if let Some(mut pcb) = self.running {
                let passed_time = self.interrupt_process(&mut pcb, remaining, reason);
                self.make_timeskip(passed_time);
                match syscall {
                    Syscall::Sleep(time) => {
                        self.running = None;
                        self.send_process_to_sleep(pcb, time);
                    },
                    Syscall::Wait(event) => {
                        self.running = None;
                        self.block_process(pcb, Event::new(event));
                    },
                    Syscall::Signal(event) => {
                        self.running = Some(pcb);
                        proof {
                            lemma_all_len(self@);
                            crate::scheduler_info::lemma_waiters_count(self@.waiting, event);
                            lemma_fair_unblock_keeps_invariant(self@, event);
                        }
                        self.unblock_processes(Event::new(event));
                        self.make_timeskip(1);
                    },
                    _ => {},
                }
                return SyscallResult::Success;
            }
            return SyscallResult::NoRunningProcess;
        }
        if let Some(mut pcb) = self.running {
            let passed_time = self.interrupt_process(&mut pcb, 0, StopReason::Expired);
            self.make_timeskip(passed_time);
            self.running = Some(pcb);
            return SyscallResult::Success;
        }
        SyscallResult::NoRunningProcess
    }

    fn next(&mut self) -> (r: SchedulingDecision)
        ensures
            fair_next_outcome(old(self)@, final(self)@, r),
            fair_invariant(final(self)@),
    {
        proof {
            lemma_fair_wakeup_keeps_invariant(self@);
        }
        self.wakeup_myself();
        if let None = self.running {
            if self.is_panicd() {
                return SchedulingDecision::Panic;
            }
            proof {
                lemma_dequeued_keeps_count(self@);
                lemma_pick_least_in_range(self@.ready);
                if self@.ready.len() > 0 {
                    assert(vr(self@.ready[0]) < usize::MAX);
                }
            }
            self.dequeue_process();
            if let Some(mut pcb) = self.running {
                pcb.set_running();
                pcb.load_payload(self.quanta);
                self.running = Some(pcb);
                return SchedulingDecision::Run { pid: pcb.pid, timeslice: self.quanta };
            }
            let result = self.is_blocked().unwrap();
            self.give_time_to_sleep(result);
            return result;
        }
        let mut proc = self.running.unwrap();
        if proc.time_payload > self.quanta {
            proc.time_payload = self.quanta;
            self.running = Some(proc);
        }
        if proc.time_payload < self.min_timeslice {
            self.enqueue_process(proc);
            proof {
                let m = FairModel { running: None, ..self@ };
                lemma_dequeued_keeps_count(m);
                lemma_pick_least_in_range(m.ready);
                assert(vr(m.ready[m.ready.len() - 1]) < usize::MAX);
            }
            self.running = None;
            self.dequeue_process();
            let mut ready_proc = self.running.unwrap();
            ready_proc.set_running();
            ready_proc.load_payload(self.quanta);
            self.running = Some(ready_proc);
            return SchedulingDecision::Run { pid: ready_proc.pid, timeslice: self.quanta };
        }
        SchedulingDecision::Run { pid: proc.pid, timeslice: proc.time_payload }
    }

    fn list(&mut self) -> (r: Vec<FairPCB>)
        ensures
            final(self)@ == old(self)@.aged_all(),
            fair_blocks(r@) == final(self)@.all(),
            fair_invariant(final(self)@),
    {
        self.update_existence_time();
        let r = collect_all(self);
        proof {
            self.lemma_items_are_blocks();
        }
        r
    }
}

/// Computes, at moment `now`, the time of existence of every sleeping
/// process.
fn age_fair_sleeping(v: &mut Vec<(FairPCB, Timestamp, usize)>, now: Timestamp)
    requires
        forall|k: int| 0 <= k < old(v)@.len() ==> #[trigger] old(v)@[k].0.arrival_time@ < now@,
    ensures
        sleep_views(final(v)@) == sleep_views(old(v)@).map_values(
            |e: (PcbView, usize, usize)| (aged(e.0, now@), e.1, e.2),
        ),
{
    let n = v.len();
    let mut j: usize = 0;
    while j < n
        invariant
            0 <= j <= n,
            n == v@.len(),
            n == old(v)@.len(),
            forall|k: int| 0 <= k < n ==> #[trigger] old(v)@[k].0.arrival_time@ < now@,
            forall|k: int|
                0 <= k < n ==> (#[trigger] v@[k]).0@ == (if k < j {
                    aged(old(v)@[k].0@, now@)
                } else {
                    old(v)@[k].0@
                }) && v@[k].1 == old(v)@[k].1 && v@[k].2 == old(v)@[k].2,
        decreases n - j,
    {
        let mut item = v[j];
        item.0.total_time = now.get() - item.0.arrival_time.get() - 1;
        v.set(j, item);
        j = j + 1;
    }
    assert(sleep_views(v@) =~= sleep_views(old(v)@).map_values(
        |e: (PcbView, usize, usize)| (aged(e.0, now@), e.1, e.2),
    ));
}

/// Computes, at moment `now`, the time of existence of every waiting
/// process.
fn age_fair_waiting(v: &mut Vec<(FairPCB, Event)>, now: Timestamp)
    requires
        forall|k: int| 0 <= k < old(v)@.len() ==> #[trigger] old(v)@[k].0.arrival_time@ < now@,
    ensures
        wait_views(final(v)@) == wait_views(old(v)@).map_values(
            |e: (PcbView, usize)| (aged(e.0, now@), e.1),
        ),
{
    let n = v.len();
    let mut j: usize = 0;
    while j < n
        invariant
            0 <= j <= n,
            n == v@.len(),
            n == old(v)@.len(),
            forall|k: int| 0 <= k < n ==> #[trigger] old(v)@[k].0.arrival_time@ < now@,
            forall|k: int|
                0 <= k < n ==> (#[trigger] v@[k]).0@ == (if k < j {
                    aged(old(v)@[k].0@, now@)
                } else {
                    old(v)@[k].0@
                }) && v@[k].1 == old(v)@[k].1,
        decreases n - j,
    {
        let mut item = v[j];
        item.0.total_time = now.get() - item.0.arrival_time.get() - 1;
        v.set(j, item);
        j = j + 1;
    }
    assert(wait_views(v@) =~= wait_views(old(v)@).map_values(
        |e: (PcbView, usize)| (aged(e.0, now@), e.1),
    ));
}

/// Computes, at moment `now`, the time of existence of every process of `v`.
fn age_fair_queue(v: &mut Vec<FairPCB>, now: Timestamp)
    requires
        forall|k: int| 0 <= k < old(v)@.len() ==> #[trigger] old(v)@[k]@.arrival < now@,
    ensures
        fair_blocks(final(v)@) == fair_blocks(old(v)@).map_values(|b: PcbView| aged(b, now@)),
{
    let n = v.len();
    let mut i: usize = 0;
    while i < n
        invariant
            0 <= i <= n,
            n == v@.len(),
            n == old(v)@.len(),
            forall|k: int| 0 <= k < n ==> #[trigger] old(v)@[k]@.arrival < now@,
            forall|k: int|
                0 <= k < n ==> (#[trigger] v@[k])@ == if k < i {
                    aged(old(v)@[k]@, now@)
                } else {
                    old(v)@[k]@
                },
        decreases n - i,
    {
        let mut item = v[i];
        item.total_time = now.get() - item.arrival_time.get() - 1;
        v.set(i, item);
        i = i + 1;
    }
    assert(fair_blocks(v@) =~= fair_blocks(old(v)@).map_values(|b: PcbView| aged(b, now@)));
}

} // verus!
