//! The priority queue scheduler: the ready process of the highest priority
//! runs next; a process that makes a system call gains a priority level (up
//! to its priority at creation), one whose timeslice expires loses one
//! (down to 0).

use vstd::prelude::*;

use std::collections::{HashMap, VecDeque};

use crate::collector::{all_items, Collector};
use crate::common_types::{MAX_PRIO, MIN_PRIO};
use crate::process_control_block::PcbView;
use crate::scheduler_info::{
    aged, awoken, least_time_to_wake, readied, released, still_asleep, still_waiting,
    time_to_wake, woken_entry,
};
use crate::schedulers::process_block::fresh_block;
use crate::schedulers::queue_ops::{
    check_sleepers, least_sleep_time, readied_views, sleep_views, split_sleepers, split_waiters,
    wait_views,
};
use crate::schedulers::ready_queues::{
    age_ready, aged_queues, any_ready, highest_ready, list_ready, listed, listed_views,
    pop_highest, push_ready, queue_at, queues_of,
};
use crate::{
    collect_all, Event, Pid, PrioRoundRobinPCB, ProcessState, Scheduler, SchedulingDecision,
    StopReason, Syscall, SyscallResult, Timestamp,
};

verus! {

/// What a priority scheduler holds, as plain values.
pub struct PrioModel {
    /// The ready queues, by priority.
    pub queues: Map<i8, Seq<PcbView>>,
    /// The sleeping processes with the moment they fell asleep and their
    /// sleeping time (0 once it has passed).
    pub sleeping: Seq<(PcbView, usize, usize)>,
    /// The waiting processes with their event.
    pub waiting: Seq<(PcbView, usize)>,
    /// The running process.
    pub running: Option<PcbView>,
    /// The timeslice given to a launched process.
    pub quanta: usize,
    /// The least remaining timeslice for which a process runs on.
    pub min_time: usize,
    /// The pid the next created process gets.
    pub next_pid: usize,
    /// The current moment.
    pub timestamp: usize,
    /// Whether the process with pid 1 has ended.
    pub panicd: bool,
    /// The time the scheduler decided to sleep.
    pub slept_time: usize,
}

/// The queues after `b` is put at the end of the queue of its priority.
pub open spec fn pushed(q: Map<i8, Seq<PcbView>>, b: PcbView) -> Map<i8, Seq<PcbView>> {
    q.insert(b.priority, queue_at(q, b.priority).push(b))
}

/// The queues after every block of `s`, in order, is put at the end of the
/// queue of its priority.
pub open spec fn pushed_all(q: Map<i8, Seq<PcbView>>, s: Seq<PcbView>) -> Map<i8, Seq<PcbView>>
    decreases s.len(),
{
    if s.len() == 0 {
        q
    } else {
        pushed(pushed_all(q, s.drop_last()), s.last())
    }
}

/// The block of a process launched with a timeslice of `quanta`.
pub open spec fn prio_launched(b: PcbView, quanta: usize) -> PcbView {
    PcbView { state: ProcessState::Running, payload: quanta, ..b }
}

/// A ready entry of the queue of priority `k`, at moment `now`.
pub open spec fn ready_entry_ok(b: PcbView, k: i8, now: usize) -> bool {
    &&& b.priority == k
    &&& b.state == ProcessState::Ready
    &&& b.arrival < now
    &&& b.priority_in_range()
}

/// Every entry of every queue is ready, sits in the queue of its priority,
/// was created before `now`, and has its priority in range.
pub open spec fn queues_ok(q: Map<i8, Seq<PcbView>>, now: usize) -> bool {
    forall|k: i8, i: int|
        q.contains_key(k) && 0 <= i < q[k].len() ==> ready_entry_ok(#[trigger] q[k][i], k, now)
}

impl PrioModel {
    /// Whether a process of a served priority is ready.
    pub open spec fn has_ready(self) -> bool {
        highest_ready(self.queues) is Some
    }

    /// The state after the first process of the highest served priority is
    /// taken out of its queue and made the running one; with none, the
    /// running process stays.
    pub open spec fn dequeued(self) -> PrioModel {
        match highest_ready(self.queues) {
            Some(p) => PrioModel {
                running: Some(queue_at(self.queues, p)[0]),
                queues: self.queues.insert(p, queue_at(self.queues, p).drop_first()),
                ..self
            },
            None => self,
        }
    }

    /// The state after a process with the next pid and priority `prio` is
    /// created now and enqueued.
    pub open spec fn forked(self, prio: i8) -> PrioModel {
        PrioModel {
            next_pid: (self.next_pid + 1) as usize,
            queues: pushed(self.queues, fresh_block(self.next_pid, prio, self.timestamp, None)),
            ..self
        }
    }

    /// The state after the clock moves `time` units forward.
    pub open spec fn skipped(self, time: int) -> PrioModel {
        PrioModel { timestamp: (self.timestamp + time) as usize, ..self }
    }

    /// The state after the running process stops for `reason` with
    /// `remaining` units left and has its priority changed, and the clock
    /// moves by the time it ran.
    pub open spec fn stopped(self, remaining: usize, reason: StopReason) -> PrioModel {
        match self.running {
            Some(p) => PrioModel {
                running: Some(p.interrupted(remaining, reason)),
                timestamp: (self.timestamp + p.executed(remaining, reason)) as usize,
                ..self
            },
            None => self,
        }
    }

    /// The state after the running process accounts for a stop for `reason`
    /// with `remaining` units left, keeping its priority, and the clock
    /// moves by the time it ran.
    pub open spec fn accounted_stop(self, remaining: usize, reason: StopReason) -> PrioModel {
        match self.running {
            Some(p) => PrioModel {
                running: Some(p.accounted(remaining, reason)),
                timestamp: (self.timestamp + p.executed(remaining, reason)) as usize,
                ..self
            },
            None => self,
        }
    }

    /// The state after the slept time is added to the clock.
    pub open spec fn slept_out(self) -> PrioModel {
        if self.slept_time != 0 {
            PrioModel {
                timestamp: (self.timestamp + self.slept_time) as usize,
                slept_time: 0,
                ..self
            }
        } else {
            self
        }
    }

    /// The state after the sleeping times are checked at the current moment.
    pub open spec fn woken(self) -> PrioModel {
        PrioModel {
            sleeping: self.sleeping.map_values(|e: (PcbView, usize, usize)| woken_entry(e, self.timestamp)),
            ..self
        }
    }

    /// The state after the processes whose sleeping time is over are
    /// enqueued, in order.
    pub open spec fn awakened(self) -> PrioModel {
        PrioModel {
            queues: pushed_all(self.queues, awoken(self.sleeping)),
            sleeping: still_asleep(self.sleeping),
            ..self
        }
    }

    /// The state after the processes waiting for `event` are enqueued, in
    /// order.
    pub open spec fn unblocked(self, event: usize) -> PrioModel {
        PrioModel {
            queues: pushed_all(self.queues, released(self.waiting, event)),
            waiting: still_waiting(self.waiting, event),
            ..self
        }
    }

    /// The state after the time of existence of the running, sleeping and
    /// waiting processes and of those in the queues of the served
    /// priorities is computed.
    pub open spec fn aged_all(self) -> PrioModel {
        PrioModel {
            running: match self.running {
                Some(p) => Some(aged(p, self.timestamp)),
                None => None,
            },
            queues: aged_queues(self.queues, self.timestamp),
            sleeping: self.sleeping.map_values(
                |e: (PcbView, usize, usize)| (aged(e.0, self.timestamp), e.1, e.2),
            ),
            waiting: self.waiting.map_values(|e: (PcbView, usize)| (aged(e.0, self.timestamp), e.1)),
            ..self
        }
    }

    /// The time until the first sleeping process wakes, or 0 when none
    /// sleeps.
    pub open spec fn time_for_sleep(self) -> int {
        if self.sleeping.len() == 0 {
            0
        } else {
            least_time_to_wake(self.sleeping, self.timestamp)
        }
    }

    /// Whether the process with pid 1 ended while processes are left.
    pub open spec fn panics(self) -> bool {
        &&& self.panicd
        &&& (self.has_ready() || self.sleeping.len() > 0 || self.waiting.len() > 0
            || self.running is Some)
    }

    /// The decision when no process can run: `None` when one can.
    pub open spec fn blocked_decision(self) -> Option<SchedulingDecision> {
        if self.running is Some || self.has_ready() {
            None
        } else if self.sleeping.len() == 0 && self.waiting.len() == 0 {
            Some(SchedulingDecision::Done)
        } else if self.sleeping.len() == 0 {
            Some(SchedulingDecision::Deadlock)
        } else {
            Some(SchedulingDecision::Sleep(self.time_for_sleep() as usize))
        }
    }

    /// Every process of the scheduler: the running one, the ready ones
    /// (highest priority first, each queue in order), then the sleeping and
    /// the waiting ones.
    pub open spec fn all(self) -> Seq<PcbView> {
        let running = match self.running {
            Some(p) => seq![p],
            None => Seq::empty(),
        };
        running + listed_views(self.queues) + self.sleeping.map_values(|e: (PcbView, usize, usize)| e.0)
            + self.waiting.map_values(|e: (PcbView, usize)| e.0)
    }
}

/// What holds of a priority scheduler between two calls: the timeslice is
/// not zero; every process was created before now, is in the state of the
/// queue it sits in (a ready one in the queue of its priority), and has its
/// priority in range; every sleeping process fell asleep no later than now
/// and wakes at a moment below `usize::MAX`.
pub open spec fn prio_invariant(m: PrioModel) -> bool {
    &&& m.quanta > 0
    &&& (m.running matches Some(p) ==> p.state == ProcessState::Running && p.arrival < m.timestamp
        && p.priority_in_range())
    &&& queues_ok(m.queues, m.timestamp)
    &&& forall|i: int|
        0 <= i < m.sleeping.len() ==> {
            let e = #[trigger] m.sleeping[i];
            &&& e.0.state == (ProcessState::Waiting { event: None })
            &&& e.0.arrival < m.timestamp
            &&& e.0.priority_in_range()
            &&& e.1 <= m.timestamp
            &&& e.1 + e.2 < usize::MAX
        }
    &&& forall|i: int|
        0 <= i < m.waiting.len() ==> {
            let e = #[trigger] m.waiting[i];
            &&& e.0.state == (ProcessState::Waiting { event: Some(e.1) })
            &&& e.0.arrival < m.timestamp
            &&& e.0.priority_in_range()
        }
}

/// A later moment keeps the queues valid.
pub proof fn lemma_queues_ok_later(q: Map<i8, Seq<PcbView>>, now: usize, later: usize)
    requires
        queues_ok(q, now),
        now <= later,
    ensures
        queues_ok(q, later),
{
}

/// Putting a valid ready block in the queue of its priority keeps the queues
/// valid.
pub proof fn lemma_pushed_ok(q: Map<i8, Seq<PcbView>>, b: PcbView, now: usize)
    requires
        queues_ok(q, now),
        ready_entry_ok(b, b.priority, now),
    ensures
        queues_ok(pushed(q, b), now),
{
    let r = pushed(q, b);
    assert forall|k: i8, i: int| r.contains_key(k) && 0 <= i < r[k].len() implies ready_entry_ok(
        #[trigger] r[k][i],
        k,
        now,
    ) by {
        if k != b.priority {
            assert(r[k] == q[k]);
        } else if i < queue_at(q, b.priority).len() {
            assert(r[k][i] == q[k][i]);
        }
    }
}

/// Putting valid ready blocks in the queues of their priorities keeps the
/// queues valid.
pub proof fn lemma_pushed_all_ok(q: Map<i8, Seq<PcbView>>, s: Seq<PcbView>, now: usize)
    requires
        queues_ok(q, now),
        forall|i: int| 0 <= i < s.len() ==> ready_entry_ok(#[trigger] s[i], s[i].priority, now),
    ensures
        queues_ok(pushed_all(q, s), now),
    decreases s.len(),
{
    if s.len() > 0 {
        let t = s.drop_last();
        assert forall|i: int| 0 <= i < t.len() implies ready_entry_ok(#[trigger] t[i], t[i].priority, now) by {
            assert(t[i] == s[i]);
        }
        lemma_pushed_all_ok(q, t, now);
        assert(s.last() == s[s.len() - 1]);
        lemma_pushed_ok(pushed_all(q, t), s.last(), now);
    }
}

/// Taking the first process of the highest served queue keeps the queues
/// valid, and the process taken is a valid ready entry.
pub proof fn lemma_dequeued_ok(m: PrioModel)
    requires
        queues_ok(m.queues, m.timestamp),
    ensures
        queues_ok(m.dequeued().queues, m.timestamp),
        highest_ready(m.queues) matches Some(p) ==> ready_entry_ok(
            queue_at(m.queues, p)[0],
            p,
            m.timestamp,
        ),
{
    if let Some(p) = highest_ready(m.queues) {
        lemma_search_ready_found(m.queues, crate::common_types::MAX_PRIO as int);
        let q = m.queues;
        let r = m.dequeued().queues;
        assert(q.contains_key(p));
        assert(q[p][0] == queue_at(q, p)[0]);
        assert forall|k: i8, i: int| r.contains_key(k) && 0 <= i < r[k].len() implies ready_entry_ok(
            #[trigger] r[k][i],
            k,
            m.timestamp,
        ) by {
            if k != p {
                assert(r[k] == q[k]);
            } else {
                assert(r[k][i] == q[k][i + 1]);
            }
        }
    }
}

/// The priority found holds a queue that is not empty.
pub proof fn lemma_search_ready_found(q: Map<i8, Seq<PcbView>>, p: int)
    ensures
        crate::schedulers::ready_queues::search_ready(q, p) matches Some(k) ==> queue_at(q, k).len()
            > 0,
    decreases p + 1 - crate::common_types::MIN_PRIO,
{
    if crate::common_types::MIN_PRIO <= p <= crate::common_types::MAX_PRIO && queue_at(q, p as i8).len() == 0 {
        lemma_search_ready_found(q, p - 1);
    }
}

/// The blocks of a sequence of priority processes.
pub open spec fn pblocks(s: Seq<PrioRoundRobinPCB>) -> Seq<PcbView> {
    s.map_values(|p: PrioRoundRobinPCB| p@)
}

/// The priority queue scheduler.
pub struct PriorityQueueScheduler {
    /// Map with the ready processes for each priority
    ready: HashMap<i8, VecDeque<PrioRoundRobinPCB>>,
    /// Sleeping queue, common for all priorities
    sleeping: Vec<(PrioRoundRobinPCB, Timestamp, usize)>,
    /// Waiting queue, common for all priorities
    waiting: Vec<(PrioRoundRobinPCB, Event)>,
    /// Running process
    running: Option<PrioRoundRobinPCB>,
    /// Time quanta of the scheduler
    ///
    /// The maximum time a process can run before being preempted
    quanta: usize,
    /// The minimum remaining time a process needs for being replanified just after
    /// a syscall
    min_time: usize,
    /// The pid of the next process that will be spawned
    next_pid: Pid,
    /// Current time (since process with PID 1 started)
    timestamp: Timestamp,
    /// Panic indicator
    ///
    /// If process with PID 1 is killed before it's children, panic is activated
    panicd: bool,
    /// Time that scheduler has slept
    slept_time: usize,
}

impl View for PriorityQueueScheduler {
    type V = PrioModel;

    closed spec fn view(&self) -> PrioModel {
        PrioModel {
            queues: queues_of(self.ready@),
            sleeping: sleep_views(self.sleeping@),
            waiting: wait_views(self.waiting@),
            running: match self.running {
                Some(p) => Some(p@),
                None => None,
            },
            quanta: self.quanta,
            min_time: self.min_time,
            next_pid: self.next_pid@,
            timestamp: self.timestamp@,
            panicd: self.panicd,
            slept_time: self.slept_time,
        }
    }
}

/// Computes, at moment `now`, the time of existence of every sleeping
/// process.
pub fn age_prio_sleeping(v: &mut Vec<(PrioRoundRobinPCB, Timestamp, usize)>, now: Timestamp)
    requires
        forall|k: int| 0 <= k < old(v)@.len() ==> #[trigger] old(v)@[k].0.arrival_time@ < now@,
    ensures
        sleep_views(final(v)@) == sleep_views(old(v)@).map_values(
            |e: (PcbView, usize, usize)| (aged(e.0, now@), e.1, e.2),
        ),
{
    let n = v.len();
    let mut j: usize = 0;
    while j < n
        invariant
            0 <= j <= n,
            n == v@.len(),
            n == old(v)@.len(),
            forall|k: int| 0 <= k < n ==> #[trigger] old(v)@[k].0.arrival_time@ < now@,
            forall|k: int|
                0 <= k < n ==> (#[trigger] v@[k]).0@ == (if k < j {
                    aged(old(v)@[k].0@, now@)
                } else {
                    old(v)@[k].0@
                }) && v@[k].1 == old(v)@[k].1 && v@[k].2 == old(v)@[k].2,
        decreases n - j,
    {
        let mut item = v[j];
        item.0.total_time = now.get() - item.0.arrival_time.get() - 1;
        v.set(j, item);
        j = j + 1;
    }
    assert(sleep_views(v@) =~= sleep_views(old(v)@).map_values(
        |e: (PcbView, usize, usize)| (aged(e.0, now@), e.1, e.2),
    ));
}

/// Computes, at moment `now`, the time of existence of every waiting
/// process.
pub fn age_prio_waiting(v: &mut Vec<(PrioRoundRobinPCB, Event)>, now: Timestamp)
    requires
        forall|k: int| 0 <= k < old(v)@.len() ==> #[trigger] old(v)@[k].0.arrival_time@ < now@,
    ensures
        wait_views(final(v)@) == wait_views(old(v)@).map_values(
            |e: (PcbView, usize)| (aged(e.0, now@), e.1),
        ),
{
    let n = v.len();
    let mut j: usize = 0;
    while j < n
        invariant
            0 <= j <= n,
            n == v@.len(),
            n == old(v)@.len(),
            forall|k: int| 0 <= k < n ==> #[trigger] old(v)@[k].0.arrival_time@ < now@,
            forall|k: int|
                0 <= k < n ==> (#[trigger] v@[k]).0@ == (if k < j {
                    aged(old(v)@[k].0@, now@)
                } else {
                    old(v)@[k].0@
                }) && v@[k].1 == old(v)@[k].1,
        decreases n - j,
    {
        let mut item = v[j];
        item.0.total_time = now.get() - item.0.arrival_time.get() - 1;
        v.set(j, item);
        j = j + 1;
    }
    assert(wait_views(v@) =~= wait_views(old(v)@).map_values(
        |e: (PcbView, usize)| (aged(e.0, now@), e.1),
    ));
}

/// Accounts for the stop of `running` for `reason` with `remaining` units
/// left: a system call is counted and rewarded with a priority level, an
/// expiry penalised with one; returns the time it executed.
pub fn interrupt_prio(running: &mut PrioRoundRobinPCB, remaining: usize, reason: StopReason) -> (r: usize)
    requires
        old(running)@.can_interrupt(remaining, reason),
    ensures
        r == old(running)@.executed(remaining, reason),
        final(running)@ == old(running)@.interrupted(remaining, reason),
{
    let exec_time: usize;
    if let StopReason::Syscall { .. } = reason {
        running.syscall();
        running.inc_priority();
        exec_time = running.time_payload - remaining - 1;
    } else {
        exec_time = running.time_payload - remaining;
        running.dec_priority();
    }
    running.execute(exec_time);
    running.load_payload(remaining);
    exec_time
}

impl PriorityQueueScheduler {
    /// Creates a scheduler with no process, that gives each launched process
    /// `timeslice` time units and lets a process that made a system call run
    /// on when at least `minimum_remaining_timeslice` units are left.
    pub fn new(timeslice: usize, minimum_remaining_timeslice: usize) -> (r: PriorityQueueScheduler)
        requires
            timeslice > 0,
        ensures
            r@ == (PrioModel {
                queues: Map::empty(),
                sleeping: Seq::empty(),
                waiting: Seq::empty(),
                running: None,
                quanta: timeslice,
                min_time: minimum_remaining_timeslice,
                next_pid: 1,
                timestamp: 0,
                panicd: false,
                slept_time: 0,
            }),
    {
        let r = PriorityQueueScheduler {
            ready: HashMap::new(),
            sleeping: Vec::new(),
            waiting: Vec::new(),
            running: None,
            quanta: timeslice,
            min_time: minimum_remaining_timeslice,
            next_pid: Pid::new(1),
            timestamp: Timestamp::new(0),
            panicd: false,
            slept_time: 0,
        };
        assert(r@.queues =~= Map::<i8, Seq<PcbView>>::empty());
        assert(r@.sleeping =~= Seq::<(PcbView, usize, usize)>::empty());
        assert(r@.waiting =~= Seq::<(PcbView, usize)>::empty());
        r
    }

    /// Computes the time of existence of the running, sleeping and waiting
    /// processes and of the ready processes of the served priorities.
    fn update_existence_time(&mut self)
        requires
            prio_invariant(old(self)@),
        ensures
            final(self)@ == old(self)@.aged_all(),
    {
        let now = self.timestamp;
        if let Some(mut pcb) = self.running {
            pcb.total_time = now.get() - pcb.arrival_time.get() - 1;
            self.running = Some(pcb);
        }
        proof {
            assert forall|k: i8, i: int|
                MIN_PRIO <= k <= MAX_PRIO && self@.queues.contains_key(k) && 0 <= i
                    < self@.queues[k].len() implies #[trigger] self@.queues[k][i].arrival < now@ by {
                assert(ready_entry_ok(self@.queues[k][i], k, now@));
            }
            assert forall|k: int| 0 <= k < self.sleeping@.len() implies #[trigger] self.sleeping@[k].0.arrival_time@
                < now@ by {
                assert(self@.sleeping[k].0 == self.sleeping@[k].0@);
            }
            assert forall|k: int| 0 <= k < self.waiting@.len() implies #[trigger] self.waiting@[k].0.arrival_time@
                < now@ by {
                assert(self@.waiting[k].0 == self.waiting@[k].0@);
            }
        }
        age_ready(&mut self.ready, now);
        age_prio_sleeping(&mut self.sleeping, now);
        age_prio_waiting(&mut self.waiting, now);
    }

    /// Marks the sleeping processes whose sleeping time has passed.
    fn update_sleeping_times(&mut self)
        requires
            prio_invariant(old(self)@),
        ensures
            final(self)@ == old(self)@.woken(),
    {
        let curr_time = self.timestamp;
        proof {
            assert forall|k: int| 0 <= k < sleep_views(self.sleeping@).len() implies #[trigger] sleep_views(
                self.sleeping@,
            )[k].1 <= curr_time@ by {
                assert(self@.sleeping[k] == sleep_views(self.sleeping@)[k]);
            }
        }
        check_sleepers(&mut self.sleeping, curr_time);
    }

    /// Moves the clock `time` units forward.
    fn make_timeskip(&mut self, time: usize)
        requires
            old(self)@.timestamp + time <= usize::MAX,
        ensures
            final(self)@ == old(self)@.skipped(time as int),
    {
        self.timestamp = self.timestamp.add(time);
    }

    /// Marks the next pid as used.
    fn inc_pid(&mut self)
        requires
            old(self)@.next_pid < usize::MAX,
        ensures
            final(self)@ == (PrioModel { next_pid: (old(self)@.next_pid + 1) as usize, ..old(self)@ }),
    {
        self.next_pid = self.next_pid.add(1);
    }

    /// Creates a process with the next pid and priority `priority`, created
    /// at `timestamp`.
    fn spawn_process(&mut self, priority: i8, timestamp: Timestamp) -> (r: PrioRoundRobinPCB)
        requires
            old(self)@.next_pid < usize::MAX,
        ensures
            r@ == fresh_block(old(self)@.next_pid, priority, timestamp@, None),
            final(self)@ == (PrioModel { next_pid: (old(self)@.next_pid + 1) as usize, ..old(self)@ }),
    {
        let new_proc = PrioRoundRobinPCB::new(self.next_pid, priority, timestamp);
        self.inc_pid();
        new_proc
    }

    /// Creates a process with the next pid and priority `priority`, created
    /// now, enqueues it, and takes a time unit; returns its pid.
    fn fork(&mut self, priority: i8, timestamp: Timestamp) -> (r: Pid)
        requires
            timestamp@ == old(self)@.timestamp,
            old(self)@.timestamp < usize::MAX,
            old(self)@.next_pid < usize::MAX,
        ensures
            r@ == old(self)@.next_pid,
            final(self)@ == old(self)@.forked(priority).skipped(1),
    {
        let new_proc = self.spawn_process(priority, timestamp);
        self.enqueue_process(new_proc);
        self.make_timeskip(1);
        new_proc.pid
    }

    /// Makes `proc` ready and puts it at the end of the queue of its
    /// priority.
    fn enqueue_process(&mut self, proc: PrioRoundRobinPCB)
        ensures
            final(self)@ == (PrioModel { queues: pushed(old(self)@.queues, readied(proc@)), ..old(self)@ }),
    {
        let mut proc = proc;
        proc.set_state(ProcessState::Ready);
        push_ready(&mut self.ready, proc);
    }

    /// Makes the first process of the highest served priority the running
    /// one, when there is one.
    fn dequeue_process(&mut self)
        ensures
            final(self)@ == old(self)@.dequeued(),
    {
        if let Some(p) = pop_highest(&mut self.ready) {
            self.running = Some(p);
        }
    }

    /// Ends the running process; ending the process with pid 1 is recorded.
    fn kill_running(&mut self) -> (r: SyscallResult)
        ensures
            old(self)@.running is None ==> r == SyscallResult::NoRunningProcess && final(self)@ == old(
                self,
            )@,
            old(self)@.running matches Some(p) ==> r == SyscallResult::Success && final(self)@ == (
            PrioModel { running: None, panicd: old(self)@.panicd || p.pid == 1, ..old(self)@ }),
    {
        if let Some(proc) = self.running {
            if proc.pid.get() == 1 {
                self.panicd = true;
            }
            self.running = None;
            SyscallResult::Success
        } else {
            SyscallResult::NoRunningProcess
        }
    }

    /// Puts `proc` to sleep for `time` units, from now; takes a time unit.
    fn send_process_to_sleep(&mut self, proc: PrioRoundRobinPCB, time: usize)
        requires
            old(self)@.timestamp < usize::MAX,
        ensures
            final(self)@ == (PrioModel {
                sleeping: old(self)@.sleeping.push(
                    (
                        PcbView { state: ProcessState::Waiting { event: None }, ..proc@ },
                        old(self)@.timestamp,
                        time,
                    ),
                ),
                timestamp: (old(self)@.timestamp + 1) as usize,
                ..old(self)@
            }),
    {
        let mut proc = proc;
        proc.set_sleeping();
        self.sleeping.push((proc, self.timestamp, time));
        assert(self@.sleeping =~= old(self)@.sleeping.push((proc@, old(self)@.timestamp, time)));
        self.make_timeskip(1);
    }

    /// Enqueues the processes whose sleeping time is over, in order.
    fn awake_processes(&mut self)
        ensures
            final(self)@ == old(self)@.awakened(),
    {
        let (keep, procs) = split_sleepers(&self.sleeping);
        self.sleeping = keep;
        let ghost start = self@;
        let n = procs.len();
        let mut i: usize = 0;
        while i < n
            invariant
                0 <= i <= n,
                n == procs@.len(),
                start == (PrioModel { sleeping: still_asleep(old(self)@.sleeping), ..old(self)@ }),
                readied_views(procs@) == awoken(old(self)@.sleeping),
                self@ == (PrioModel {
                    queues: pushed_all(start.queues, readied_views(procs@).take(i as int)),
                    ..start
                }),
            decreases n - i,
        {
            let item = procs[i];
            self.enqueue_process(item);
            assert(readied_views(procs@).take(i + 1).drop_last() =~= readied_views(procs@).take(
                i as int,
            ));
            i = i + 1;
        }
        assert(readied_views(procs@).take(n as int) =~= readied_views(procs@));
    }

    /// Makes `proc` wait for `event`; takes a time unit.
    fn block_process(&mut self, proc: PrioRoundRobinPCB, event: Event)
        requires
            old(self)@.timestamp < usize::MAX,
        ensures
            final(self)@ == (PrioModel {
                waiting: old(self)@.waiting.push(
                    (PcbView { state: ProcessState::Waiting { event: Some(event@) }, ..proc@ }, event@),
                ),
                timestamp: (old(self)@.timestamp + 1) as usize,
                ..old(self)@
            }),
    {
        let mut proc = proc;
        proc.wait_for_event(event);
        self.waiting.push((proc, event));
        assert(self@.waiting =~= old(self)@.waiting.push((proc@, event@)));
        self.make_timeskip(1);
    }

    /// Enqueues the processes waiting for `event`, in order; takes a time
    /// unit.
    fn unblock_processes(&mut self, event: Event)
        requires
            old(self)@.timestamp < usize::MAX,
        ensures
            final(self)@ == old(self)@.unblocked(event@).skipped(1),
    {
        let (keep, procs) = split_waiters(&self.waiting, event);
        self.waiting = keep;
        let ghost start = self@;
        let n = procs.len();
        let mut i: usize = 0;
        while i < n
            invariant
                0 <= i <= n,
                n == procs@.len(),
                start == (PrioModel { waiting: still_waiting(old(self)@.waiting, event@), ..old(self)@ }),
                readied_views(procs@) == released(old(self)@.waiting, event@),
                self@ == (PrioModel {
                    queues: pushed_all(start.queues, readied_views(procs@).take(i as int)),
                    ..start
                }),
            decreases n - i,
        {
            let item = procs[i];
            self.enqueue_process(item);
            assert(readied_views(procs@).take(i + 1).drop_last() =~= readied_views(procs@).take(
                i as int,
            ));
            i = i + 1;
        }
        assert(readied_views(procs@).take(n as int) =~= readied_views(procs@));
        self.make_timeskip(1);
    }

    /// The time until the first sleeping process wakes, or 0 when none
    /// sleeps.
    fn get_sleep_time(&self) -> (r: usize)
        requires
            forall|i: int|
                0 <= i < self@.sleeping.len() ==> {
                    let e = #[trigger] self@.sleeping[i];
                    &&& e.1 + e.2 <= usize::MAX
                    &&& self@.timestamp <= e.1 + e.2
                    &&& e.1 + e.2 - self@.timestamp < usize::MAX
                },
        ensures
            r == self@.time_for_sleep(),
    {
        least_sleep_time(&self.sleeping, self.timestamp)
    }

    /// Whether a process of a served priority is ready.
    fn has_ready_processes(&self) -> (r: bool)
        ensures
            r == self@.has_ready(),
    {
        any_ready(&self.ready)
    }

    /// Whether the process with pid 1 ended while processes are left.
    fn is_panicd(&self) -> (r: bool)
        ensures
            r == self@.panics(),
    {
        if !self.panicd {
            return false;
        }
        if self.has_ready_processes() || self.sleeping.len() != 0 || self.waiting.len() != 0 {
            return true;
        }
        if self.running.is_some() {
            return true;
        }
        false
    }

    /// The decision when no process runs and none of a served priority is
    /// ready; `None` when one runs or is ready.
    fn is_blocked(&self) -> (r: Option<SchedulingDecision>)
        requires
            self@.running is None && !self@.has_ready() ==> {
                &&& forall|i: int|
                    0 <= i < self@.sleeping.len() ==> {
                        let e = #[trigger] self@.sleeping[i];
                        &&& e.1 + e.2 <= usize::MAX
                        &&& self@.timestamp <= e.1 + e.2
                        &&& e.1 + e.2 - self@.timestamp < usize::MAX
                    }
                &&& self@.sleeping.len() > 0 ==> self@.time_for_sleep() > 0
            },
        ensures
            r == self@.blocked_decision(),
    {
        if self.running.is_some() {
            return None;
        }
        if self.has_ready_processes() {
            return None;
        }
        if self.sleeping.len() == 0 && self.waiting.len() == 0 {
            return Some(SchedulingDecision::Done);
        }
        if self.sleeping.len() == 0 && self.waiting.len() != 0 {
            return Some(SchedulingDecision::Deadlock);
        }
        if self.sleeping.len() != 0 {
            let sleep_time = self.get_sleep_time();
            return Some(SchedulingDecision::Sleep(sleep_time));
        }
        None
    }

    /// Records the time to sleep when `decision` is to sleep, 0 otherwise.
    fn give_time_to_sleep(&mut self, decision: SchedulingDecision)
        ensures
            final(self)@ == (PrioModel {
                slept_time: match decision {
                    SchedulingDecision::Sleep(time) => time,
                    _ => 0,
                },
                ..old(self)@
            }),
    {
        if let SchedulingDecision::Sleep(time) = decision {
            self.slept_time = time;
        } else {
            self.slept_time = 0;
        }
    }

    /// Adds the slept time to the clock, then enqueues the processes whose
    /// sleeping time is over.
    fn wakeup_myself(&mut self)
        requires
            prio_invariant(old(self)@),
            old(self)@.timestamp + old(self)@.slept_time <= usize::MAX,
        ensures
            final(self)@ == old(self)@.slept_out().woken().awakened(),
    {
        if self.slept_time != 0 {
            let slept = self.slept_time;
            self.make_timeskip(slept);
            self.slept_time = 0;
        }
        self.update_sleeping_times();
        self.awake_processes();
    }
}

/// The state after a priority scheduler wakes: the slept time is added to
/// the clock and the processes whose sleeping time is over are enqueued.
pub open spec fn prio_after_wakeup(m: PrioModel) -> PrioModel {
    m.slept_out().woken().awakened()
}

/// Waking keeps the invariant, and afterwards every sleeper wakes at a
/// moment not yet past, so that the time until the first wakes is positive.
pub proof fn lemma_prio_wakeup_keeps_invariant(m: PrioModel)
    requires
        prio_invariant(m),
        m.timestamp + m.slept_time <= usize::MAX,
    ensures
        prio_invariant(prio_after_wakeup(m)),
        forall|i: int|
            0 <= i < prio_after_wakeup(m).sleeping.len() ==> {
                let e = #[trigger] prio_after_wakeup(m).sleeping[i];
                &&& e.1 + e.2 <= usize::MAX
                &&& prio_after_wakeup(m).timestamp <= e.1 + e.2
                &&& e.1 + e.2 - prio_after_wakeup(m).timestamp < usize::MAX
            },
        prio_after_wakeup(m).sleeping.len() > 0 ==> prio_after_wakeup(m).time_for_sleep() > 0,
{
    let a = m.slept_out();
    let b = a.woken();
    let c = b.awakened();
    lemma_queues_ok_later(m.queues, m.timestamp, a.timestamp);
    assert forall|i: int| 0 <= i < b.sleeping.len() implies {
        let e = #[trigger] b.sleeping[i];
        &&& e.0.state == (ProcessState::Waiting { event: None })
        &&& e.0.arrival < b.timestamp
        &&& e.0.priority_in_range()
        &&& e.1 <= b.timestamp
        &&& e.1 + e.2 < usize::MAX
        &&& e.2 != 0 ==> b.timestamp - e.1 <= e.2
    } by {
        assert(b.sleeping[i] == woken_entry(a.sleeping[i], a.timestamp));
    }
    crate::scheduler_info::lemma_still_asleep_members(b.sleeping);
    crate::scheduler_info::lemma_awoken_members(b.sleeping);
    assert forall|i: int| 0 <= i < c.sleeping.len() implies {
        let e = #[trigger] c.sleeping[i];
        &&& e.0.state == (ProcessState::Waiting { event: None })
        &&& e.0.arrival < c.timestamp
        &&& e.0.priority_in_range()
        &&& e.1 <= c.timestamp
        &&& e.1 + e.2 < usize::MAX
        &&& c.timestamp <= e.1 + e.2
    } by {
        let k = choose|k: int|
            #![trigger b.sleeping[k]]
            0 <= k < b.sleeping.len() && still_asleep(b.sleeping)[i] == b.sleeping[k]
                && b.sleeping[k].2 != 0;
    }
    let w = awoken(b.sleeping);
    assert forall|j: int| 0 <= j < w.len() implies ready_entry_ok(#[trigger] w[j], w[j].priority, b.timestamp) by {
        let k = choose|k: int|
            #![trigger b.sleeping[k]]
            0 <= k < b.sleeping.len() && awoken(b.sleeping)[j] == readied(b.sleeping[k].0)
                && b.sleeping[k].2 == 0;
    }
    lemma_pushed_all_ok(b.queues, w, b.timestamp);
    assert(prio_invariant(c));
    if c.sleeping.len() > 0 {
        assert forall|i: int| 0 <= i < c.sleeping.len() implies 1 <= #[trigger] time_to_wake(
            c.sleeping[i],
            c.timestamp,
        ) <= usize::MAX by {
            let e = c.sleeping[i];
        }
        crate::scheduler_info::lemma_least_time_to_wake_positive(c.sleeping, c.timestamp);
    }
}

/// Enqueueing the processes waiting for `event` keeps the invariant.
pub proof fn lemma_prio_unblock_keeps_invariant(m: PrioModel, event: usize)
    requires
        prio_invariant(m),
    ensures
        prio_invariant(m.unblocked(event)),
{
    let c = m.unblocked(event);
    crate::scheduler_info::lemma_still_waiting_members(m.waiting, event);
    crate::scheduler_info::lemma_released_members(m.waiting, event);
    assert forall|i: int| 0 <= i < c.waiting.len() implies {
        let e = #[trigger] c.waiting[i];
        &&& e.0.state == (ProcessState::Waiting { event: Some(e.1) })
        &&& e.0.arrival < c.timestamp
        &&& e.0.priority_in_range()
    } by {
        let k = choose|k: int|
            #![trigger m.waiting[k]]
            0 <= k < m.waiting.len() && still_waiting(m.waiting, event)[i] == m.waiting[k]
                && m.waiting[k].1 != event;
    }
    let w = released(m.waiting, event);
    assert forall|j: int| 0 <= j < w.len() implies ready_entry_ok(#[trigger] w[j], w[j].priority, m.timestamp) by {
        let k = choose|k: int|
            #![trigger m.waiting[k]]
            0 <= k < m.waiting.len() && released(m.waiting, event)[j] == readied(m.waiting[k].0)
                && m.waiting[k].1 == event;
    }
    lemma_pushed_all_ok(m.queues, w, m.timestamp);
}

/// Whether `stop(reason)` is accepted by the priority queue scheduler
/// holding `m`: the invariant holds, the running process can be stopped and
/// have its priority changed, and no clock or pid leaves the range of a
/// usize.
pub open spec fn pq_stop_accepted(m: PrioModel, reason: StopReason) -> bool {
    &&& prio_invariant(m)
    &&& match reason {
        StopReason::Syscall { syscall, remaining } => match syscall {
            Syscall::Exit => m.running matches Some(p) ==> {
                &&& remaining <= p.payload
                &&& m.timestamp + (p.payload - remaining) <= usize::MAX
            },
            _ => {
                &&& (m.running matches Some(p) ==> p.can_interrupt(remaining, reason) && m.timestamp
                    + p.executed(remaining, reason) <= usize::MAX)
                &&& match syscall {
                    Syscall::Fork(_) => m.stopped(remaining, reason).timestamp < usize::MAX
                        && m.next_pid < usize::MAX,
                    Syscall::Sleep(time) => m.running is Some ==> m.stopped(
                        remaining,
                        reason,
                    ).timestamp + time < usize::MAX - 1,
                    _ => m.running is Some ==> m.stopped(remaining, reason).timestamp < usize::MAX,
                }
            },
        },
        StopReason::Expired => m.running matches Some(p) ==> p.can_interrupt(0, reason)
            && m.timestamp + p.payload <= usize::MAX,
    }
}

/// What `stop(reason)` does to the priority queue scheduler holding `m`:
/// `m2` is the state afterwards and `r` the answer.
pub open spec fn pq_stop_outcome(m: PrioModel, reason: StopReason, m2: PrioModel, r: SyscallResult) -> bool {
    match reason {
        StopReason::Syscall { syscall, remaining } => {
            let mid = m.stopped(remaining, reason);
            match syscall {
                Syscall::Fork(prio) => {
                    &&& r matches SyscallResult::Pid(p) && p@ == m.next_pid
                    &&& m2 == mid.forked(prio).skipped(1)
                },
                Syscall::Exit => match m.running {
                    Some(p) => r == SyscallResult::Success && m2 == (PrioModel {
                        running: None,
                        panicd: m.panicd || p.pid == 1,
                        ..m.skipped(p.payload - remaining)
                    }),
                    None => r == SyscallResult::NoRunningProcess && m2 == m,
                },
                Syscall::Sleep(time) => match m.running {
                    Some(p) => r == SyscallResult::Success && m2 == (PrioModel {
                        running: None,
                        sleeping: mid.sleeping.push(
                            (
                                PcbView {
                                    state: ProcessState::Waiting { event: None },
                                    ..mid.running.unwrap()
                                },
                                mid.timestamp,
                                time,
                            ),
                        ),
                        ..mid.skipped(1)
                    }),
                    None => r == SyscallResult::NoRunningProcess && m2 == m,
                },
                Syscall::Wait(event) => match m.running {
                    Some(p) => r == SyscallResult::Success && m2 == (PrioModel {
                        running: None,
                        waiting: mid.waiting.push(
                            (
                                PcbView {
                                    state: ProcessState::Waiting { event: Some(event) },
                                    ..mid.running.unwrap()
                                },
                                event,
                            ),
                        ),
                        ..mid.skipped(1)
                    }),
                    None => r == SyscallResult::NoRunningProcess && m2 == m,
                },
                Syscall::Signal(event) => match m.running {
                    Some(p) => r == SyscallResult::Success && m2 == mid.unblocked(event).skipped(1),
                    None => r == SyscallResult::NoRunningProcess && m2 == m,
                },
            }
        },
        StopReason::Expired => match m.running {
            Some(p) => r == SyscallResult::Success && m2 == m.stopped(0, reason),
            None => r == SyscallResult::NoRunningProcess && m2 == m,
        },
    }
}

/// What `next()` does to the priority queue scheduler holding `m`. Once the
/// scheduler woke: with no running process, a panic is reported when the
/// process with pid 1 ended and others are left; otherwise the first
/// process of the highest served priority is launched with a full
/// timeslice, or, when none is ready, the scheduler finishes, reports a
/// deadlock or sleeps until the first sleeper wakes. A running process with
/// less than the minimum timeslice left is enqueued again and the first
/// process of the highest served priority is launched (the running one
/// itself when none is); otherwise it runs on for what is left.
pub open spec fn pq_next_outcome(m: PrioModel, m2: PrioModel, r: SchedulingDecision) -> bool {
    let w = prio_after_wakeup(m);
    match w.running {
        None => if w.panics() {
            r == SchedulingDecision::Panic && m2 == w
        } else if w.has_ready() {
            let d = w.dequeued();
            let q = d.running.unwrap();
            &&& r matches SchedulingDecision::Run { pid, timeslice } && pid@ == q.pid && timeslice
                == w.quanta
            &&& m2 == (PrioModel { running: Some(prio_launched(q, w.quanta)), ..d })
        } else {
            &&& Some(r) == w.blocked_decision()
            &&& m2 == (PrioModel {
                slept_time: match r {
                    SchedulingDecision::Sleep(t) => t,
                    _ => 0,
                },
                ..w
            })
        },
        Some(p) => if p.payload < w.min_time {
            let d = (PrioModel { queues: pushed(w.queues, readied(p)), ..w }).dequeued();
            let q = d.running.unwrap();
            &&& r matches SchedulingDecision::Run { pid, timeslice } && pid@ == q.pid && timeslice
                == w.quanta
            &&& m2 == (PrioModel { running: Some(prio_launched(q, w.quanta)), ..d })
        } else {
            &&& r matches SchedulingDecision::Run { pid, timeslice } && pid@ == p.pid && timeslice
                == p.payload
            &&& m2 == w
        },
    }
}

impl Collector for PriorityQueueScheduler {
    type Item = PrioRoundRobinPCB;

    closed spec fn running_items(&self) -> Seq<PrioRoundRobinPCB> {
        match self.running {
            Some(p) => seq![p],
            None => Seq::empty(),
        }
    }

    closed spec fn ready_items(&self) -> Seq<PrioRoundRobinPCB> {
        listed(self.ready@)
    }

    closed spec fn sleeping_items(&self) -> Seq<PrioRoundRobinPCB> {
        self.sleeping@.map_values(|e: (PrioRoundRobinPCB, Timestamp, usize)| e.0)
    }

    closed spec fn waiting_items(&self) -> Seq<PrioRoundRobinPCB> {
        self.waiting@.map_values(|e: (PrioRoundRobinPCB, Event)| e.0)
    }

    fn collect_running(&self) -> (r: Vec<PrioRoundRobinPCB>) {
        let mut proc: Vec<PrioRoundRobinPCB> = Vec::new();
        match &self.running {
            Some(pcb) => proc.push(*pcb),
            None => (),
        }
        assert(proc@ =~= self.running_items());
        proc
    }

    fn collect_ready(&self) -> (r: Vec<PrioRoundRobinPCB>) {
        list_ready(&self.ready)
    }

    fn collect_sleeping(&self) -> (r: Vec<PrioRoundRobinPCB>) {
        let mut procs: Vec<PrioRoundRobinPCB> = Vec::new();
        let n = self.sleeping.len();
        let mut i: usize = 0;
        while i < n
            invariant
                0 <= i <= n,
                n == self.sleeping@.len(),
                procs@ == self.sleeping_items().take(i as int),
            decreases n - i,
        {
            procs.push(self.sleeping[i].0);
            i = i + 1;
            assert(procs@ =~= self.sleeping_items().take(i as int));
        }
        assert(self.sleeping_items().take(n as int) =~= self.sleeping_items());
        procs
    }

    fn collect_waiting(&self) -> (r: Vec<PrioRoundRobinPCB>) {
        let mut procs: Vec<PrioRoundRobinPCB> = Vec::new();
        let n = self.waiting.len();
        let mut i: usize = 0;
        while i < n
            invariant
                0 <= i <= n,
                n == self.waiting@.len(),
                procs@ == self.waiting_items().take(i as int),
            decreases n - i,
        {
            procs.push(self.waiting[i].0);
            i = i + 1;
            assert(procs@ =~= self.waiting_items().take(i as int));
        }
        assert(self.waiting_items().take(n as int) =~= self.waiting_items());
        procs
    }
}

impl PriorityQueueScheduler {
    /// The blocks of all the processes are those the model lists.
    proof fn lemma_items_are_blocks(&self)
        ensures
            pblocks(all_items(self)) == self@.all(),
    {
        crate::schedulers::ready_queues::lemma_listed_blocks(self.ready@, 127);
        assert(pblocks(listed(self.ready@)) == listed_views(self@.queues));
        assert(pblocks(all_items(self)) =~= self@.all());
    }
}

impl Scheduler for PriorityQueueScheduler {
    type Proc = PrioRoundRobinPCB;

    open spec fn stop_allowed(&self, reason: StopReason) -> bool {
        pq_stop_accepted(self@, reason)
    }

    open spec fn next_allowed(&self) -> bool {
        &&& prio_invariant(self@)
        &&& self@.timestamp + self@.slept_time <= usize::MAX
        &&& (self@.running matches Some(p) ==> (p.payload >= self@.min_time ==> p.payload > 0))
    }

    open spec fn list_allowed(&self) -> bool {
        prio_invariant(self@)
    }

    fn stop(&mut self, reason: StopReason) -> (r: SyscallResult)
        ensures
            pq_stop_outcome(old(self)@, reason, final(self)@, r),
            prio_invariant(final(self)@),
    {
        proof {
            if let Some(p) = self@.running {
                if p.can_interrupt(0, StopReason::Expired) {
                    crate::process_control_block::lemma_interrupted_priority_in_range(
                        p,
                        0,
                        StopReason::Expired,
                    );
                }
                if let StopReason::Syscall { syscall, remaining } = reason {
                    if p.can_interrupt(remaining, reason) {
                        crate::process_control_block::lemma_interrupted_priority_in_range(
                            p,
                            remaining,
                            reason,
                        );
                    }
                }
            }
        }
        if let StopReason::Syscall { syscall, remaining } = reason {
            let new_proc_pid: Pid;
            if let Syscall::Fork(prio) = syscall {
                if let Some(mut pcb) = self.running {
                    let time = interrupt_prio(&mut pcb, remaining, reason);
                    self.running = Some(pcb);
                    self.make_timeskip(time);
                    proof {
                        lemma_pushed_ok(self@.queues, readied(fresh_block(self@.next_pid, prio, self@.timestamp, None)), (self@.timestamp + 1) as usize);
                    }
                    new_proc_pid = self.fork(prio, self.timestamp);
                } else {
                    new_proc_pid = self.fork(prio, self.timestamp);
                }
                return SyscallResult::Pid(new_proc_pid);
            }
            if let Syscall::Sleep(time) = syscall {
                if let Some(mut pcb) = self.running {
                    let passed_time = interrupt_prio(&mut pcb, remaining, reason);
                    self.make_timeskip(passed_time);
                    self.send_process_to_sleep(pcb, time);
                    self.running = None;
                    return SyscallResult::Success;
                }
            }
            if let Syscall::Wait(event) = syscall {
                if let Some(mut pcb) = self.running {
                    let passed_time = interrupt_prio(&mut pcb, remaining, reason);
                    self.make_timeskip(passed_time);
                    self.block_process(pcb, Event::new(event));
                    self.running = None;
                    return SyscallResult::Success;
                }
            }
            if let Syscall::Signal(event) = syscall {
                if let Some(mut pcb) = self.running {
                    let time = interrupt_prio(&mut pcb, remaining, reason);
                    self.make_timeskip(time);
                    proof {
                        lemma_prio_unblock_keeps_invariant(self@, event);
                    }
                    self.unblock_processes(Event::new(event));
                    self.running = Some(pcb);
                    return SyscallResult::Success;
                }
            }
            if let Syscall::Exit = syscall {
                if let Some(pcb) = self.running {
                    self.make_timeskip(pcb.time_payload - remaining);
                }
                return self.kill_running();
            }
        }
        if let Some(mut pcb) = self.running {
            let time = interrupt_prio(&mut pcb, 0, reason);
            self.make_timeskip(time);
            self.running = Some(pcb);
            return SyscallResult::Success;
        }
        SyscallResult::NoRunningProcess
    }

    fn next(&mut self) -> (r: SchedulingDecision)
        ensures
            pq_next_outcome(old(self)@, final(self)@, r),
            prio_invariant(final(self)@),
    {
        proof {
            lemma_prio_wakeup_keeps_invariant(self@);
        }
        self.wakeup_myself();
        proof {
            lemma_dequeued_ok(self@);
        }
        if self.running.is_none() {
            if self.is_panicd() {
                return SchedulingDecision::Panic;
            }
            self.dequeue_process();
            if let Some(mut pcb) = self.running {
                pcb.set_running();
                pcb.load_payload(self.quanta);
                self.running = Some(pcb);
                return SchedulingDecision::Run { pid: pcb.pid, timeslice: self.quanta };
            }
            let result = self.is_blocked().unwrap();
            self.give_time_to_sleep(result);
            return result;
        }
        let proc = self.running.unwrap();
        if proc.time_payload < self.min_time {
            proof {
                lemma_pushed_ok(self@.queues, readied(proc@), self@.timestamp);
            }
            self.enqueue_process(proc);
            proof {
                lemma_dequeued_ok(self@);
            }
            self.dequeue_process();
            let mut ready_proc = self.running.unwrap();
            ready_proc.set_running();
            ready_proc.load_payload(self.quanta);
            self.running = Some(ready_proc);
            return SchedulingDecision::Run { pid: ready_proc.pid, timeslice: self.quanta };
        }
        SchedulingDecision::Run { pid: proc.pid, timeslice: proc.time_payload }
    }

    fn list(&mut self) -> (r: Vec<PrioRoundRobinPCB>)
        ensures
            final(self)@ == old(self)@.aged_all(),
            pblocks(r@) == final(self)@.all(),
    {
        self.update_existence_time();
        let r = collect_all(self);
        proof {
            self.lemma_items_are_blocks();
        }
        r
    }
}

} // verus!
