//! The priority round robin scheduler: the ready process of the highest
//! priority runs next, and priorities never change.

use vstd::prelude::*;

use std::collections::{HashMap, VecDeque};

use crate::collector::{all_items, Collector};
use crate::common_types::{MAX_PRIO, MIN_PRIO};
use crate::process_control_block::PcbView;
use crate::scheduler_info::readied;
use crate::scheduler_info::{awoken, released, still_asleep, still_waiting};
use crate::schedulers::priority_queue::{
    age_prio_sleeping, age_prio_waiting, lemma_dequeued_ok, lemma_prio_unblock_keeps_invariant,
    lemma_prio_wakeup_keeps_invariant, lemma_pushed_ok, pblocks, pq_next_outcome, prio_invariant,
    pushed, pushed_all, ready_entry_ok, PrioModel,
};
use crate::schedulers::process_block::fresh_block;
use crate::schedulers::queue_ops::{
    check_sleepers, least_sleep_time, readied_views, sleep_views, split_sleepers, split_waiters,
    wait_views,
};
use crate::schedulers::ready_queues::{
    age_ready, any_ready, list_ready, listed, listed_views, pop_highest, push_ready, queues_of,
};
use crate::{
    collect_all, Event, Pid, PrioRoundRobinPCB, ProcessState, Scheduler, SchedulingDecision,
    StopReason, Syscall, SyscallResult, Timestamp,
};

verus! {

/// The priority round robin scheduler.
pub struct PriorityRRScheduler {
    /// Map with the ready processes for each priority
    ready: HashMap<i8, VecDeque<PrioRoundRobinPCB>>,
    /// Sleeping queue, common for all priorities
    sleeping: Vec<(PrioRoundRobinPCB, Timestamp, usize)>,
    /// Waiting queue, common for all priorities
    waiting: Vec<(PrioRoundRobinPCB, Event)>,
    /// Running process
    running: Option<PrioRoundRobinPCB>,
    /// Time quanta of the scheduler
    ///
    /// The maximum time a process can run before being preempted
    quanta: usize,
    /// The minimum remaining time a process needs for being replanified just after
    /// a syscall
    min_time: usize,
    /// The pid of the next process that will be spawned
    next_pid: Pid,
    /// Current time (since process with PID 1 started)
    timestamp: Timestamp,
    /// Panic indicator
    ///
    /// If process with PID 1 is killed before it's children, panic is activated
    panicd: bool,
    /// Time that scheduler has slept
    slept_time: usize,
}

impl View for PriorityRRScheduler {
    type V = PrioModel;

    closed spec fn view(&self) -> PrioModel {
        PrioModel {
            queues: queues_of(self.ready@),
            sleeping: sleep_views(self.sleeping@),
            waiting: wait_views(self.waiting@),
            running: match self.running {
                Some(p) => Some(p@),
                None => None,
            },
            quanta: self.quanta,
            min_time: self.min_time,
            next_pid: self.next_pid@,
            timestamp: self.timestamp@,
            panicd: self.panicd,
            slept_time: self.slept_time,
        }
    }
}

/// Whether `stop(reason)` is accepted by the priority round robin scheduler
/// holding `m`: the invariant holds, the running process can account for
/// its stop (an expiry with nothing left), and no clock or pid leaves the
/// range of a usize.
pub open spec fn prr_stop_accepted(m: PrioModel, reason: StopReason) -> bool {
    &&& prio_invariant(m)
    &&& match reason {
        StopReason::Syscall { syscall, remaining } => match syscall {
            Syscall::Exit => m.running matches Some(p) ==> {
                &&& remaining <= p.payload
                &&& m.timestamp + (p.payload - remaining) <= usize::MAX
            },
            _ => {
                &&& (m.running matches Some(p) ==> p.can_account(remaining, reason) && m.timestamp
                    + p.executed(remaining, reason) <= usize::MAX)
                &&& match syscall {
                    Syscall::Fork(_) => m.accounted_stop(remaining, reason).timestamp < usize::MAX
                        && m.next_pid < usize::MAX,
                    Syscall::Sleep(time) => m.running is Some ==> m.accounted_stop(
                        remaining,
                        reason,
                    ).timestamp + time < usize::MAX - 1,
                    _ => m.running is Some ==> m.accounted_stop(remaining, reason).timestamp
                        < usize::MAX,
                }
            },
        },
        StopReason::Expired => m.running matches Some(p) ==> p.can_account(0, reason) && m.timestamp
            + p.executed(0, reason) <= usize::MAX,
    }
}

/// What `stop(reason)` does to the priority round robin scheduler holding
/// `m`; the priorities never change. A fork creates a process once the
/// running one accounted for its stop, and takes a time unit; an exit ends
/// the running process after the clock moves by the time it used; a sleep
/// or a wait takes the running process off the processor into the sleeping
/// or the waiting processes, and takes a time unit; a signal enqueues the
/// processes waiting for its event, takes a time unit, and the signaling
/// process keeps running; an expiry is accounted with nothing left, and the
/// process stays the running one until `next()`.
pub open spec fn prr_stop_outcome(m: PrioModel, reason: StopReason, m2: PrioModel, r: SyscallResult) -> bool {
    match reason {
        StopReason::Syscall { syscall, remaining } => {
            let mid = m.accounted_stop(remaining, reason);
            match syscall {
                Syscall::Fork(prio) => {
                    &&& r matches SyscallResult::Pid(p) && p@ == m.next_pid
                    &&& m2 == mid.forked(prio).skipped(1)
                },
                Syscall::Exit => match m.running {
                    Some(p) => r == SyscallResult::Success && m2 == (PrioModel {
                        running: None,
                        panicd: m.panicd || p.pid == 1,
                        ..m.skipped(p.payload - remaining)
                    }),
                    None => r == SyscallResult::NoRunningProcess && m2 == m,
                },
                Syscall::Sleep(time) => match m.running {
                    Some(p) => r == SyscallResult::Success && m2 == (PrioModel {
                        running: None,
                        sleeping: mid.sleeping.push(
                            (
                                PcbView {
                                    state: ProcessState::Waiting { event: None },
                                    ..mid.running.unwrap()
                                },
                                mid.timestamp,
                                time,
                            ),
                        ),
                        ..mid.skipped(1)
                    }),
                    None => r == SyscallResult::NoRunningProcess && m2 == m,
                },
                Syscall::Wait(event) => match m.running {
                    Some(p) => r == SyscallResult::Success && m2 == (PrioModel {
                        running: None,
                        waiting: mid.waiting.push(
                            (
                                PcbView {
                                    state: ProcessState::Waiting { event: Some(event) },
                                    ..mid.running.unwrap()
                                },
                                event,
                            ),
                        ),
                        ..mid.skipped(1)
                    }),
                    None => r == SyscallResult::NoRunningProcess && m2 == m,
                },
                Syscall::Signal(event) => match m.running {
                    Some(p) => r == SyscallResult::Success && m2 == mid.unblocked(event).skipped(1),
                    None => r == SyscallResult::NoRunningProcess && m2 == m,
                },
            }
        },
        StopReason::Expired => match m.running {
            Some(p) => r == SyscallResult::Success && m2 == m.accounted_stop(0, reason),
            None => r == SyscallResult::NoRunningProcess && m2 == m,
        },
    }
}

/// What `next()` does to the priority round robin scheduler holding `m`: the
/// same as the priority queue scheduler. Once the scheduler woke, with no
/// running process a panic is reported when the process with pid 1 ended
/// and others are left; otherwise the first process of the highest served
/// priority is launched with a full timeslice, or, when none is ready, the
/// scheduler finishes, reports a deadlock or sleeps until the first sleeper
/// wakes. A running process with less than the minimum timeslice left is
/// enqueued again and the first process of the highest served priority is
/// launched (the running one itself when none is); otherwise it runs on for
/// what is left.
pub open spec fn prr_next_outcome(m: PrioModel, m2: PrioModel, r: SchedulingDecision) -> bool {
    pq_next_outcome(m, m2, r)
}

impl PriorityRRScheduler {
    /// Creates a scheduler with no process, that gives each launched process
    /// `timeslice` time units and lets a process that made a system call run
    /// on when at least `minimum_remaining_timeslice` units are left.
    pub fn new(timeslice: usize, minimum_remaining_timeslice: usize) -> (r: PriorityRRScheduler)
        requires
            timeslice > 0,
        ensures
            r@ == (PrioModel {
                queues: Map::empty(),
                sleeping: Seq::empty(),
                waiting: Seq::empty(),
                running: None,
                quanta: timeslice,
                min_time: minimum_remaining_timeslice,
                next_pid: 1,
                timestamp: 0,
                panicd: false,
                slept_time: 0,
            }),
    {
        let r = PriorityRRScheduler {
            ready: HashMap::new(),
            sleeping: Vec::new(),
            waiting: Vec::new(),
            running: None,
            quanta: timeslice,
            min_time: minimum_remaining_timeslice,
            next_pid: Pid::new(1),
            timestamp: Timestamp::new(0),
            panicd: false,
            slept_time: 0,
        };
        assert(r@.queues =~= Map::<i8, Seq<PcbView>>::empty());
        assert(r@.sleeping =~= Seq::<(PcbView, usize, usize)>::empty());
        assert(r@.waiting =~= Seq::<(PcbView, usize)>::empty());
        r
    }

    /// Computes the time of existence of the running, sleeping and waiting
    /// processes and of the ready processes of the served priorities.
    fn update_existence_time(&mut self)
        requires
            prio_invariant(old(self)@),
        ensures
            final(self)@ == old(self)@.aged_all(),
    {
        let now = self.timestamp;
        if let Some(mut pcb) = self.running {
            pcb.total_time = now.get() - pcb.arrival_time.get() - 1;
            self.running = Some(pcb);
        }
        proof {
            assert forall|k: i8, i: int|
                MIN_PRIO <= k <= MAX_PRIO && self@.queues.contains_key(k) && 0 <= i
                    < self@.queues[k].len() implies #[trigger] self@.queues[k][i].arrival < now@ by {
                assert(ready_entry_ok(self@.queues[k][i], k, now@));
            }
            assert forall|k: int| 0 <= k < self.sleeping@.len() implies #[trigger] self.sleeping@[k].0.arrival_time@
                < now@ by {
                assert(self@.sleeping[k].0 == self.sleeping@[k].0@);
            }
            assert forall|k: int| 0 <= k < self.waiting@.len() implies #[trigger] self.waiting@[k].0.arrival_time@
                < now@ by {
                assert(self@.waiting[k].0 == self.waiting@[k].0@);
            }
        }
        age_ready(&mut self.ready, now);
        age_prio_sleeping(&mut self.sleeping, now);
        age_prio_waiting(&mut self.waiting, now);
    }

    /// Moves the clock `time` units forward.
    fn make_timeskip(&mut self, time: usize)
        requires
            old(self)@.timestamp + time <= usize::MAX,
        ensures
            final(self)@ == old(self)@.skipped(time as int),
    {
        self.timestamp = self.timestamp.add(time);
    }

    /// Marks the next pid as used.
    fn inc_pid(&mut self)
        requires
            old(self)@.next_pid < usize::MAX,
        ensures
            final(self)@ == (PrioModel { next_pid: (old(self)@.next_pid + 1) as usize, ..old(self)@ }),
    {
        self.next_pid = self.next_pid.add(1);
    }

    /// Creates a process with the next pid and priority `priority`, created
    /// at `timestamp`.
    fn spawn_process(&mut self, priority: i8, timestamp: Timestamp) -> (r: PrioRoundRobinPCB)
        requires
            old(self)@.next_pid < usize::MAX,
        ensures
            r@ == fresh_block(old(self)@.next_pid, priority, timestamp@, None),
            final(self)@ == (PrioModel { next_pid: (old(self)@.next_pid + 1) as usize, ..old(self)@ }),
    {
        let new_proc = PrioRoundRobinPCB::new(self.next_pid, priority, timestamp);
        self.inc_pid();
        new_proc
    }

    /// Creates a process with the next pid and priority `priority`, created
    /// now, and enqueues it; returns its pid.
    fn fork(&mut self, priority: i8, timestamp: Timestamp) -> (r: Pid)
        requires
            timestamp@ == old(self)@.timestamp,
            old(self)@.next_pid < usize::MAX,
        ensures
            r@ == old(self)@.next_pid,
            final(self)@ == old(self)@.forked(priority),
    {
        let new_proc = self.spawn_process(priority, timestamp);
        self.enqueue_process(new_proc);
        new_proc.pid
    }

    /// Makes `proc` ready and puts it at the end of the queue of its
    /// priority.
    fn enqueue_process(&mut self, proc: PrioRoundRobinPCB)
        ensures
            final(self)@ == (PrioModel { queues: pushed(old(self)@.queues, readied(proc@)), ..old(self)@ }),
    {
        let mut proc = proc;
        proc.set_state(ProcessState::Ready);
        push_ready(&mut self.ready, proc);
    }

    /// Makes the first process of the highest served priority the running
    /// one, when there is one.
    fn dequeue_process(&mut self)
        ensures
            final(self)@ == old(self)@.dequeued(),
    {
        if let Some(p) = pop_highest(&mut self.ready) {
            self.running = Some(p);
        }
    }

    /// Ends the running process; ending the process with pid 1 is recorded.
    fn kill_running(&mut self) -> (r: SyscallResult)
        ensures
            old(self)@.running is None ==> r == SyscallResult::NoRunningProcess && final(self)@ == old(
                self,
            )@,
            old(self)@.running matches Some(p) ==> r == SyscallResult::Success && final(self)@ == (
            PrioModel { running: None, panicd: old(self)@.panicd || p.pid == 1, ..old(self)@ }),
    {
        if let Some(proc) = self.running {
            if proc.pid.get() == 1 {
                self.panicd = true;
            }
            self.running = None;
            SyscallResult::Success
        } else {
            SyscallResult::NoRunningProcess
        }
    }

    /// Accounts for the stop of `running` for `reason` with `remaining`
    /// units left, keeping its priority; returns the time it executed.
    fn interrupt_process(&self, running: &mut PrioRoundRobinPCB, remaining: usize, reason: StopReason) -> (r: usize)
        requires
            old(running)@.can_account(remaining, reason),
        ensures
            r == old(running)@.executed(remaining, reason),
            final(running)@ == old(running)@.accounted(remaining, reason),
    {
        let exec_time: usize;
        if let StopReason::Syscall { .. } = reason {
            running.syscall();
            exec_time = running.time_payload - remaining - 1;
        } else {
            exec_time = running.time_payload - remaining;
        }
        running.execute(exec_time);
        running.load_payload(remaining);
        return exec_time;
    }
}

impl PriorityRRScheduler {
    /// Marks the sleeping processes whose sleeping time has passed.
    fn update_sleeping_times(&mut self)
        requires
            prio_invariant(old(self)@),
        ensures
            final(self)@ == old(self)@.woken(),
    {
        let curr_time = self.timestamp;
        proof {
            assert forall|k: int| 0 <= k < sleep_views(self.sleeping@).len() implies #[trigger] sleep_views(
                self.sleeping@,
            )[k].1 <= curr_time@ by {
                assert(self@.sleeping[k] == sleep_views(self.sleeping@)[k]);
            }
        }
        check_sleepers(&mut self.sleeping, curr_time);
    }

    /// Puts `proc` to sleep for `time` units, from now; takes a time unit.
    fn send_process_to_sleep(&mut self, proc: PrioRoundRobinPCB, time: usize)
        requires
            old(self)@.timestamp < usize::MAX,
        ensures
            final(self)@ == (PrioModel {
                sleeping: old(self)@.sleeping.push(
                    (
                        PcbView { state: ProcessState::Waiting { event: None }, ..proc@ },
                        old(self)@.timestamp,
                        time,
                    ),
                ),
                timestamp: (old(self)@.timestamp + 1) as usize,
                ..old(self)@
            }),
    {
        let mut proc = proc;
        proc.set_sleeping();
        self.sleeping.push((proc, self.timestamp, time));
        assert(self@.sleeping =~= old(self)@.sleeping.push((proc@, old(self)@.timestamp, time)));
        self.make_timeskip(1);
    }

    /// Enqueues the processes whose sleeping time is over, in order.
    fn awake_processes(&mut self)
        ensures
            final(self)@ == old(self)@.awakened(),
    {
        let (keep, procs) = split_sleepers(&self.sleeping);
        self.sleeping = keep;
        let ghost start = self@;
        let n = procs.len();
        let mut i: usize = 0;
        while i < n
            invariant
                0 <= i <= n,
                n == procs@.len(),
                start == (PrioModel { sleeping: still_asleep(old(self)@.sleeping), ..old(self)@ }),
                readied_views(procs@) == awoken(old(self)@.sleeping),
                self@ == (PrioModel {
                    queues: pushed_all(start.queues, readied_views(procs@).take(i as int)),
                    ..start
                }),
            decreases n - i,
        {
            let item = procs[i];
            self.enqueue_process(item);
            assert(readied_views(procs@).take(i + 1).drop_last() =~= readied_views(procs@).take(
                i as int,
            ));
            i = i + 1;
        }
        assert(readied_views(procs@).take(n as int) =~= readied_views(procs@));
    }

    /// Makes `proc` wait for `event`; takes a time unit.
    fn block_process(&mut self, proc: PrioRoundRobinPCB, event: Event)
        requires
            old(self)@.timestamp < usize::MAX,
        ensures
            final(self)@ == (PrioModel {
                waiting: old(self)@.waiting.push(
                    (PcbView { state: ProcessState::Waiting { event: Some(event@) }, ..proc@ }, event@),
                ),
                timestamp: (old(self)@.timestamp + 1) as usize,
                ..old(self)@
            }),
    {
        let mut proc = proc;
        proc.wait_for_event(event);
        self.waiting.push((proc, event));
        assert(self@.waiting =~= old(self)@.waiting.push((proc@, event@)));
        self.make_timeskip(1);
    }

    /// Enqueues the processes waiting for `event`, in order; takes a time
    /// unit.
    fn unblock_processes(&mut self, event: Event)
        requires
            old(self)@.timestamp < usize::MAX,
        ensures
            final(self)@ == old(self)@.unblocked(event@).skipped(1),
    {
        let (keep, procs) = split_waiters(&self.waiting, event);
        self.waiting = keep;
        let ghost start = self@;
        let n = procs.len();
        let mut i: usize = 0;
        while i < n
            invariant
                0 <= i <= n,
                n == procs@.len(),
                start == (PrioModel { waiting: still_waiting(old(self)@.waiting, event@), ..old(self)@ }),
                readied_views(procs@) == released(old(self)@.waiting, event@),
                self@ == (PrioModel {
                    queues: pushed_all(start.queues, readied_views(procs@).take(i as int)),
                    ..start
                }),
            decreases n - i,
        {
            let item = procs[i];
            self.enqueue_process(item);
            assert(readied_views(procs@).take(i + 1).drop_last() =~= readied_views(procs@).take(
                i as int,
            ));
            i = i + 1;
        }
        assert(readied_views(procs@).take(n as int) =~= readied_views(procs@));
        self.make_timeskip(1);
    }

    /// The time until the first sleeping process wakes, or 0 when none
    /// sleeps.
    fn get_sleep_time(&self) -> (r: usize)
        requires
            forall|i: int|
                0 <= i < self@.sleeping.len() ==> {
                    let e = #[trigger] self@.sleeping[i];
                    &&& e.1 + e.2 <= usize::MAX
                    &&& self@.timestamp <= e.1 + e.2
                    &&& e.1 + e.2 - self@.timestamp < usize::MAX
                },
        ensures
            r == self@.time_for_sleep(),
    {
        least_sleep_time(&self.sleeping, self.timestamp)
    }

    /// Whether a process of a served priority is ready.
    fn has_ready_processes(&self) -> (r: bool)
        ensures
            r == self@.has_ready(),
    {
        any_ready(&self.ready)
    }

    /// Whether the process with pid 1 ended while processes are left.
    fn is_panicd(&self) -> (r: bool)
        ensures
            r == self@.panics(),
    {
        if !self.panicd {
            return false;
        }
        if self.has_ready_processes() || self.sleeping.len() != 0 || self.waiting.len() != 0 {
            return true;
        }
        if self.running.is_some() {
            return true;
        }
        false
    }

    /// The decision when no process runs and none of a served priority is
    /// ready; `None` when one runs or is ready.
    fn is_blocked(&self) -> (r: Option<SchedulingDecision>)
        requires
            self@.running is None && !self@.has_ready() ==> {
                &&& forall|i: int|
                    0 <= i < self@.sleeping.len() ==> {
                        let e = #[trigger] self@.sleeping[i];
                        &&& e.1 + e.2 <= usize::MAX
                        &&& self@.timestamp <= e.1 + e.2
                        &&& e.1 + e.2 - self@.timestamp < usize::MAX
                    }
                &&& self@.sleeping.len() > 0 ==> self@.time_for_sleep() > 0
            },
        ensures
            r == self@.blocked_decision(),
    {
        if self.running.is_some() {
            return None;
        }
        if self.has_ready_processes() {
            return None;
        }
        if self.sleeping.len() == 0 && self.waiting.len() == 0 {
            return Some(SchedulingDecision::Done);
        }
        if self.sleeping.len() == 0 && self.waiting.len() != 0 {
            return Some(SchedulingDecision::Deadlock);
        }
        if self.sleeping.len() != 0 {
            let sleep_time = self.get_sleep_time();
            return Some(SchedulingDecision::Sleep(sleep_time));
        }
        None
    }

    /// Records the time to sleep when `decision` is to sleep, 0 otherwise.
    fn give_time_to_sleep(&mut self, decision: SchedulingDecision)
        ensures
            final(self)@ == (PrioModel {
                slept_time: match decision {
                    SchedulingDecision::Sleep(time) => time,
                    _ => 0,
                },
                ..old(self)@
            }),
    {
        if let SchedulingDecision::Sleep(time) = decision {
            self.slept_time = time;
        } else {
            self.slept_time = 0;
        }
    }

    /// Adds the slept time to the clock, then enqueues the processes whose
    /// sleeping time is over.
    fn wakeup_myself(&mut self)
        requires
            prio_invariant(old(self)@),
            old(self)@.timestamp + old(self)@.slept_time <= usize::MAX,
        ensures
            final(self)@ == old(self)@.slept_out().woken().awakened(),
    {
        if self.slept_time != 0 {
            let slept = self.slept_time;
            self.make_timeskip(slept);
            self.slept_time = 0;
        }
        self.update_sleeping_times();
        self.awake_processes();
    }
}

impl Collector for PriorityRRScheduler {
    type Item = PrioRoundRobinPCB;

    closed spec fn running_items(&self) -> Seq<PrioRoundRobinPCB> {
        match self.running {
            Some(p) => seq![p],
            None => Seq::empty(),
        }
    }

    closed spec fn ready_items(&self) -> Seq<PrioRoundRobinPCB> {
        listed(self.ready@)
    }

    closed spec fn sleeping_items(&self) -> Seq<PrioRoundRobinPCB> {
        self.sleeping@.map_values(|e: (PrioRoundRobinPCB, Timestamp, usize)| e.0)
    }

    closed spec fn waiting_items(&self) -> Seq<PrioRoundRobinPCB> {
        self.waiting@.map_values(|e: (PrioRoundRobinPCB, Event)| e.0)
    }

    fn collect_running(&self) -> (r: Vec<PrioRoundRobinPCB>) {
        let mut proc: Vec<PrioRoundRobinPCB> = Vec::new();
        match &self.running {
            Some(pcb) => proc.push(*pcb),
            None => (),
        }
        assert(proc@ =~= self.running_items());
        proc
    }

    fn collect_ready(&self) -> (r: Vec<PrioRoundRobinPCB>) {
        list_ready(&self.ready)
    }

    fn collect_sleeping(&self) -> (r: Vec<PrioRoundRobinPCB>) {
        let mut procs: Vec<PrioRoundRobinPCB> = Vec::new();
        let n = self.sleeping.len();
        let mut i: usize = 0;
        while i < n
            invariant
                0 <= i <= n,
                n == self.sleeping@.len(),
                procs@ == self.sleeping_items().take(i as int),
            decreases n - i,
        {
            procs.push(self.sleeping[i].0);
            i = i + 1;
            assert(procs@ =~= self.sleeping_items().take(i as int));
        }
        assert(self.sleeping_items().take(n as int) =~= self.sleeping_items());
        procs
    }

    fn collect_waiting(&self) -> (r: Vec<PrioRoundRobinPCB>) {
        let mut procs: Vec<PrioRoundRobinPCB> = Vec::new();
        let n = self.waiting.len();
        let mut i: usize = 0;
        while i < n
            invariant
                0 <= i <= n,
                n == self.waiting@.len(),
                procs@ == self.waiting_items().take(i as int),
            decreases n - i,
        {
            procs.push(self.waiting[i].0);
            i = i + 1;
            assert(procs@ =~= self.waiting_items().take(i as int));
        }
        assert(self.waiting_items().take(n as int) =~= self.waiting_items());
        procs
    }
}

impl PriorityRRScheduler {
    /// The blocks of all the processes are those the model lists.
    proof fn lemma_items_are_blocks(&self)
        ensures
            pblocks(all_items(self)) == self@.all(),
    {
        crate::schedulers::ready_queues::lemma_listed_blocks(self.ready@, 127);
        assert(pblocks(listed(self.ready@)) == listed_views(self@.queues));
        assert(pblocks(all_items(self)) =~= self@.all());
    }
}

impl Scheduler for PriorityRRScheduler {
    type Proc = PrioRoundRobinPCB;

    open spec fn stop_allowed(&self, reason: StopReason) -> bool {
        prr_stop_accepted(self@, reason)
    }

    open spec fn next_allowed(&self) -> bool {
        &&& prio_invariant(self@)
        &&& self@.timestamp + self@.slept_time <= usize::MAX
        &&& (self@.running matches Some(p) ==> (p.payload >= self@.min_time ==> p.payload > 0))
    }

    open spec fn list_allowed(&self) -> bool {
        prio_invariant(self@)
    }

    fn stop(&mut self, reason: StopReason) -> (r: SyscallResult)
        ensures
            prr_stop_outcome(old(self)@, reason, final(self)@, r),
            prio_invariant(final(self)@),
    {
        if let StopReason::Syscall { syscall, remaining } = reason {
            let new_proc_pid: Pid;
            if let Syscall::Fork(prio) = syscall {
                if let Some(mut pcb) = self.running {
                    let passed_time = self.interrupt_process(&mut pcb, remaining, reason);
                    self.running = Some(pcb);
                    self.make_timeskip(passed_time);
                    proof {
                        lemma_pushed_ok(
                            self@.queues,
                            readied(fresh_block(self@.next_pid, prio, self@.timestamp, None)),
                            (self@.timestamp + 1) as usize,
                        );
                    }
                    new_proc_pid = self.fork(prio, self.timestamp);
                    self.make_timeskip(1);
                } else {
                    proof {
                        lemma_pushed_ok(
                            self@.queues,
                            readied(fresh_block(self@.next_pid, prio, self@.timestamp, None)),
                            (self@.timestamp + 1) as usize,
                        );
                    }
                    new_proc_pid = self.fork(prio, self.timestamp);
                    self.make_timeskip(1);
                }
                return SyscallResult::Pid(new_proc_pid);
            }
            if let Syscall::Sleep(time) = syscall {
                if let Some(mut pcb) = self.running {
                    let passed_time = self.interrupt_process(&mut pcb, remaining, reason);
                    self.make_timeskip(passed_time);
                    self.send_process_to_sleep(pcb, time);
                    self.running = None;
                    return SyscallResult::Success;
                }
                return SyscallResult::NoRunningProcess;
            }
            if let Syscall::Wait(event) = syscall {
                if let Some(mut pcb) = self.running {
                    let passed_time = self.interrupt_process(&mut pcb, remaining, reason);
                    self.make_timeskip(passed_time);
                    self.block_process(pcb, Event::new(event));
                    self.running = None;
                    return SyscallResult::Success;
                }
                return SyscallResult::NoRunningProcess;
            }
            if let Syscall::Signal(event) = syscall {
                if let Some(mut pcb) = self.running {
                    let passed_time = self.interrupt_process(&mut pcb, remaining, reason);
                    self.make_timeskip(passed_time);
                    self.running = Some(pcb);
                    proof {
                        lemma_prio_unblock_keeps_invariant(self@, event);
                    }
                    self.unblock_processes(Event::new(event));
                    return SyscallResult::Success;
                }
                return SyscallResult::NoRunningProcess;
            }
            if let Syscall::Exit = syscall {
                if let Some(pcb) = self.running {
                    self.make_timeskip(pcb.time_payload - remaining);
                }
                return self.kill_running();
            }
        }
        if let Some(mut pcb) = self.running {
            let passed_time = self.interrupt_process(&mut pcb, 0, reason);
            self.make_timeskip(passed_time);
            self.running = Some(pcb);
            return SyscallResult::Success;
        }
        SyscallResult::NoRunningProcess
    }

    fn next(&mut self) -> (r: SchedulingDecision)
        ensures
            prr_next_outcome(old(self)@, final(self)@, r),
            prio_invariant(final(self)@),
    {
        proof {
            lemma_prio_wakeup_keeps_invariant(self@);
        }
        self.wakeup_myself();
        proof {
            lemma_dequeued_ok(self@);
        }
        if self.running.is_none() {
            if self.is_panicd() {
                return SchedulingDecision::Panic;
            }
            self.dequeue_process();
            if let Some(mut pcb) = self.running {
                pcb.set_running();
                pcb.load_payload(self.quanta);
                self.running = Some(pcb);
                return SchedulingDecision::Run { pid: pcb.pid, timeslice: self.quanta };
            }
            let result = self.is_blocked().unwrap();
            self.give_time_to_sleep(result);
            return result;
        }
        let proc = self.running.unwrap();
        if proc.time_payload < self.min_time {
            proof {
                lemma_pushed_ok(self@.queues, readied(proc@), self@.timestamp);
            }
            self.enqueue_process(proc);
            proof {
                lemma_dequeued_ok(self@);
            }
            self.dequeue_process();
            let mut ready_proc = self.running.unwrap();
            ready_proc.set_running();
            ready_proc.load_payload(self.quanta);
            self.running = Some(ready_proc);
            return SchedulingDecision::Run { pid: ready_proc.pid, timeslice: self.quanta };
        }
        SchedulingDecision::Run { pid: proc.pid, timeslice: proc.time_payload }
    }

    fn list(&mut self) -> (r: Vec<PrioRoundRobinPCB>)
        ensures
            final(self)@ == old(self)@.aged_all(),
            pblocks(r@) == final(self)@.all(),
    {
        self.update_existence_time();
        let r = collect_all(self);
        proof {
            self.lemma_items_are_blocks();
        }
        r
    }
}

} // verus!
