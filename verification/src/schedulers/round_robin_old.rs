//! A simple round robin scheduler that counts the time each process
//! spends executing, on system calls and asleep, and handles forks and
//! expired timeslices.

use vstd::prelude::*;

use std::collections::VecDeque;

use crate::pids::{lemma_insert_second, lemma_running_in, lemma_unique_insert, unique_below};
use vstd::multiset::Multiset;

use crate::{Pid, Process, ProcessState, Scheduler, SchedulingDecision, StopReason, Syscall, SyscallResult};

verus! {

/// The contents of a process control block of this scheduler.
pub struct RrView {
    /// The pid of the process.
    pub pid: usize,
    /// The state of the process.
    pub state: ProcessState,
    /// The time spent executing.
    pub executed: usize,
    /// The number of system calls.
    pub syscalls: usize,
    /// The time spent asleep.
    pub slept: usize,
}

/// A process control block that counts execution, system call and sleeping
/// time; their sum never exceeds `usize::MAX`.
#[derive(Clone, Copy)]
pub struct RoundRobinPCB {
    pid: Pid,
    state: ProcessState,
    exec_time: usize,
    syscall_time: usize,
    sleep_time: usize,
}

impl View for RoundRobinPCB {
    type V = RrView;

    closed spec fn view(&self) -> RrView {
        RrView {
            pid: self.pid@,
            state: self.state,
            executed: self.exec_time,
            syscalls: self.syscall_time,
            slept: self.sleep_time,
        }
    }
}

impl RrView {
    /// The time of existence: execution, system calls and sleep together.
    pub open spec fn total(self) -> int {
        self.executed + self.syscalls + self.slept
    }
}

impl RoundRobinPCB {
    /// The time of existence fits in a usize.
    #[verifier::type_invariant]
    spec fn total_fits(self) -> bool {
        self.exec_time + self.syscall_time + self.sleep_time <= usize::MAX
    }

    /// A ready process with pid `pid` and no time counted.
    fn new(pid: Pid) -> (r: RoundRobinPCB)
        ensures
            r@ == (RrView { pid: pid@, state: ProcessState::Ready, executed: 0, syscalls: 0, slept: 0 }),
    {
        RoundRobinPCB { pid, state: ProcessState::Ready, exec_time: 0, syscall_time: 0, sleep_time: 0 }
    }

    /// Set the Process Control Block state to `new_state`
    fn set_state(&mut self, new_state: ProcessState)
        ensures
            final(self)@ == (RrView { state: new_state, ..old(self)@ }),
    {
        proof {
            use_type_invariant(&*self);
        }
        self.state = new_state;
    }

    /// Add the `time` to the total time that the process spent executing
    fn add_execution_time(&mut self, time: usize)
        requires
            old(self)@.total() + time <= usize::MAX,
        ensures
            final(self)@ == (RrView { executed: (old(self)@.executed + time) as usize, ..old(self)@ }),
    {
        proof {
            use_type_invariant(&*self);
        }
        self.exec_time = self.exec_time + time;
    }

    /// Add the `time` to the total time that the process spent sleeping
    fn add_sleeping_time(&mut self, time: usize)
        requires
            old(self)@.total() + time <= usize::MAX,
        ensures
            final(self)@ == (RrView { slept: (old(self)@.slept + time) as usize, ..old(self)@ }),
    {
        proof {
            use_type_invariant(&*self);
        }
        self.sleep_time = self.sleep_time + time;
    }

    /// Increase the number of syscalls sent by process
    fn add_syscall_time(&mut self)
        requires
            old(self)@.total() < usize::MAX,
        ensures
            final(self)@ == (RrView { syscalls: (old(self)@.syscalls + 1) as usize, ..old(self)@ }),
    {
        proof {
            use_type_invariant(&*self);
        }
        self.syscall_time = self.syscall_time + 1;
    }
}

impl Process for RoundRobinPCB {
    fn pid(&self) -> (r: Pid)
        ensures
            r@ == self@.pid,
    {
        self.pid
    }

    fn state(&self) -> (r: ProcessState)
        ensures
            r == self@.state,
    {
        self.state
    }

    /// The time of existence is the execution, system call and sleeping
    /// time together.
    fn timings(&self) -> (r: (usize, usize, usize))
        ensures
            r.0 == self@.total(),
            r.1 == self@.syscalls,
            r.2 == self@.executed,
    {
        proof {
            use_type_invariant(self);
        }
        let total = self.exec_time + self.syscall_time + self.sleep_time;
        (total, self.syscall_time, self.exec_time)
    }

    /// This scheduler ignores priorities.
    fn priority(&self) -> (r: i8)
        ensures
            r == 0,
    {
        0
    }

    /// This block keeps no extra information.
    fn extra(&self) -> (r: String)
        ensures
            r@ == Seq::<char>::empty(),
    {
        String::new()
    }
}

/// What this scheduler holds, as plain values.
pub struct RrModel {
    /// The ready processes, in the order they will run.
    pub ready: Seq<RrView>,
    /// The waiting processes.
    pub waiting: Seq<RrView>,
    /// The sleeping processes with their sleeping time.
    pub sleeping: Seq<(RrView, usize)>,
    /// The running process.
    pub running: Option<RrView>,
    /// The pid the next created process gets.
    pub next_pid: usize,
    /// The timeslice given to a launched process.
    pub quanta: usize,
    /// The least unused timeslice for which the running process runs on.
    pub min_slice: usize,
    /// The part of its timeslice the running process left unused.
    pub unused_time: usize,
}

/// The blocks of a sequence of processes.
pub open spec fn rr_views(s: Seq<RoundRobinPCB>) -> Seq<RrView> {
    s.map_values(|p: RoundRobinPCB| p@)
}

/// The least sleeping time over `s`, and `usize::MAX` when it is larger.
pub open spec fn least_sleep(s: Seq<(RrView, usize)>) -> int
    decreases s.len(),
{
    if s.len() == 0 {
        usize::MAX as int
    } else {
        let rest = least_sleep(s.drop_last());
        if s.last().1 < rest {
            s.last().1 as int
        } else {
            rest
        }
    }
}

impl RrModel {
    /// The state after the running process, if any, is made ready, gets
    /// `used` more units of execution time and goes to the end of the ready
    /// queue.
    pub open spec fn requeued(self, used: usize) -> RrModel {
        match self.running {
            Some(p) => RrModel {
                ready: self.ready.push(
                    RrView { state: ProcessState::Ready, executed: (p.executed + used) as usize, ..p },
                ),
                running: None,
                ..self
            },
            None => self,
        }
    }

    /// The state after the first ready process becomes the running one, in
    /// the running state, or nothing runs when none is ready.
    pub open spec fn dequeued(self) -> RrModel {
        if self.ready.len() > 0 {
            RrModel {
                running: Some(RrView { state: ProcessState::Running, ..self.ready[0] }),
                ready: self.ready.drop_first(),
                ..self
            }
        } else {
            RrModel { running: None, ..self }
        }
    }

    /// Whether every process left waits for a signal.
    pub open spec fn deadlocked(self) -> bool {
        &&& self.running is None
        &&& self.ready.len() == 0
        &&& self.sleeping.len() == 0
        &&& self.waiting.len() > 0
    }
}

/// The simple round robin scheduler.
pub struct RoundRobinScheduler {
    ready: VecDeque<RoundRobinPCB>,
    waiting: VecDeque<RoundRobinPCB>,
    sleeping: VecDeque<(RoundRobinPCB, usize)>,
    running: Option<RoundRobinPCB>,
    next_pid: Pid,
    quanta: usize,
    min_slice: usize,
    unused_time: usize,
}

impl View for RoundRobinScheduler {
    type V = RrModel;

    closed spec fn view(&self) -> RrModel {
        RrModel {
            ready: rr_views(self.ready@),
            waiting: rr_views(self.waiting@),
            sleeping: self.sleeping@.map_values(|e: (RoundRobinPCB, usize)| (e.0@, e.1)),
            running: match self.running {
                Some(p) => Some(p@),
                None => None,
            },
            next_pid: self.next_pid@,
            quanta: self.quanta,
            min_slice: self.min_slice,
            unused_time: self.unused_time,
        }
    }
}

/// What `stop(reason)` does to this scheduler holding `m`: a fork records
/// the unused time, counts a system call of the running process, creates a
/// ready process with the next pid and returns it; an expiry puts the running process, with a whole timeslice more of
/// execution time, at the end of the ready queue.
pub open spec fn old_stop_outcome(m: RrModel, reason: StopReason, m2: RrModel, r: SyscallResult) -> bool {
    match reason {
        StopReason::Syscall { syscall: Syscall::Fork(_), remaining } => {
            &&& r matches SyscallResult::Pid(p) && p@ == m.next_pid
            &&& m2 == (RrModel {
                unused_time: remaining,
                next_pid: (m.next_pid + 1) as usize,
                ready: m.ready.push(
                    RrView { pid: m.next_pid, state: ProcessState::Ready, executed: 0, syscalls: 0, slept: 0 },
                ),
                running: match m.running {
                    Some(p) => Some(RrView { syscalls: (p.syscalls + 1) as usize, ..p }),
                    None => None,
                },
                ..m
            })
        },
        StopReason::Syscall { .. } => false,
        StopReason::Expired => match m.running {
            Some(p) => r == SyscallResult::Success && m2 == m.requeued(m.quanta),
            None => r == SyscallResult::NoRunningProcess && m2 == m,
        },
    }
}

/// What `next()` does to this scheduler holding `m`. When the running
/// process left less than the minimum unused, it goes back to the ready
/// queue with the time it used and the first ready process runs for a whole
/// timeslice; with none ready, the scheduler sleeps for the least sleeping
/// time, or reports a deadlock, or is done. Otherwise the running process
/// runs on for its unused time.
pub open spec fn old_next_outcome(m: RrModel, m2: RrModel, r: SchedulingDecision) -> bool {
    if m.unused_time < m.min_slice {
        let d = m.requeued((m.quanta - m.unused_time) as usize).dequeued();
        &&& m2 == d
        &&& match d.running {
            Some(p) => r matches SchedulingDecision::Run { pid, timeslice } && pid@ == p.pid
                && timeslice == m.quanta,
            None => if d.sleeping.len() > 0 {
                r == SchedulingDecision::Sleep(least_sleep(d.sleeping) as usize)
            } else if d.deadlocked() {
                r == SchedulingDecision::Deadlock
            } else {
                r == SchedulingDecision::Done
            },
        }
    } else {
        &&& m2 == m
        &&& r matches SchedulingDecision::Run { pid, timeslice } && pid@ == m.running.unwrap().pid
            && timeslice == m.unused_time
    }
}

/// The pids of a sequence of blocks of this scheduler.
pub open spec fn rr_pids(s: Seq<RrView>) -> Multiset<usize>
    decreases s.len(),
{
    if s.len() == 0 {
        Multiset::empty()
    } else {
        rr_pids(s.drop_last()).insert(s.last().pid)
    }
}

impl RrModel {
    /// The pids of every process the scheduler holds.
    pub open spec fn pids(self) -> Multiset<usize> {
        let running = match self.running {
            Some(p) => Multiset::singleton(p.pid),
            None => Multiset::empty(),
        };
        running.add(rr_pids(self.ready)).add(rr_pids(self.waiting)).add(
            rr_pids(self.sleeping.map_values(|e: (RrView, usize)| e.0)),
        )
    }

    /// Every process has its own pid, below the next one to be given.
    pub open spec fn pids_unique(self) -> bool {
        unique_below(self.pids(), self.next_pid)
    }
}

/// Pushing a block adds its pid.
proof fn lemma_rr_pids_push(s: Seq<RrView>, b: RrView)
    ensures
        rr_pids(s.push(b)) =~= rr_pids(s).insert(b.pid),
{
    assert(s.push(b).drop_last() =~= s);
}

/// Taking the first block out removes its pid.
proof fn lemma_rr_pids_drop_first(s: Seq<RrView>)
    requires
        s.len() > 0,
    ensures
        rr_pids(s) =~= rr_pids(s.drop_first()).insert(s[0].pid),
    decreases s.len(),
{
    if s.len() > 1 {
        lemma_rr_pids_drop_first(s.drop_last());
        assert(s.drop_last().drop_first() =~= s.drop_first().drop_last());
        assert(s.drop_first().last() == s.last());
    } else {
        assert(s.drop_first() =~= Seq::<RrView>::empty());
        assert(s.drop_last() =~= Seq::<RrView>::empty());
    }
}

/// Putting the running process back in the ready queue and launching the
/// first ready process keeps the pids.
proof fn lemma_requeued_dequeued_pids(m: RrModel, used: usize)
    ensures
        m.requeued(used).dequeued().pids() =~= m.pids(),
{
    let a = m.requeued(used);
    let w = rr_pids(m.waiting);
    let sl = rr_pids(m.sleeping.map_values(|e: (RrView, usize)| e.0));
    if let Some(p) = m.running {
        lemma_rr_pids_push(m.ready, a.ready.last());
        assert(a.ready =~= m.ready.push(a.ready.last()));
        lemma_running_in(p.pid, rr_pids(m.ready), w, sl);
    }
    if a.ready.len() > 0 {
        lemma_rr_pids_drop_first(a.ready);
        lemma_running_in(a.ready[0].pid, rr_pids(a.ready.drop_first()), w, sl);
    }
}

/// Each process of this scheduler has its own pid: a fork adds the next pid,
/// held by none before, and moves the next pid forward; an expiry keeps
/// the pids; so when every process has its own pid below the next one to
/// be given, this still holds after the stop.
pub proof fn lemma_old_stop_keeps_pids_unique(m: RrModel, reason: StopReason, m2: RrModel, r: SyscallResult)
    requires
        old_stop_outcome(m, reason, m2, r),
        m.next_pid < usize::MAX,
        m.pids_unique(),
    ensures
        m2.pids() =~= (if reason is Syscall { m.pids().insert(m.next_pid) } else { m.pids() }),
        m2.next_pid >= m.next_pid,
        m2.pids_unique(),
{
    if reason is Syscall {
        lemma_rr_pids_push(m.ready, m2.ready.last());
        assert(m2.ready =~= m.ready.push(m2.ready.last()));
        let running = match m.running {
            Some(p) => Multiset::singleton(p.pid),
            None => Multiset::empty(),
        };
        lemma_insert_second(
            running,
            rr_pids(m.ready),
            rr_pids(m.waiting),
            rr_pids(m.sleeping.map_values(|e: (RrView, usize)| e.0)),
            m.next_pid,
        );
        lemma_unique_insert(m.pids(), m.next_pid);
    } else if let Some(p) = m.running {
        lemma_rr_pids_push(m.ready, m2.ready.last());
        assert(m2.ready =~= m.ready.push(m2.ready.last()));
    }
}

/// `next()` of this scheduler keeps the pids and the next pid, so each
/// process keeps its own pid.
pub proof fn lemma_old_next_keeps_pids(m: RrModel, m2: RrModel, r: SchedulingDecision)
    requires
        old_next_outcome(m, m2, r),
    ensures
        m2.pids() =~= m.pids(),
        m2.next_pid == m.next_pid,
        m.pids_unique() ==> m2.pids_unique(),
{
    if m.unused_time < m.min_slice {
        lemma_requeued_dequeued_pids(m, (m.quanta - m.unused_time) as usize);
    }
}

impl RoundRobinScheduler {
    /// Creates a scheduler with no process, that gives each launched process
    /// `timeslice` time units and lets the running process run on when at
    /// least `minimum_remaining_timeslice` units are left unused.
    pub fn new(timeslice: usize, minimum_remaining_timeslice: usize) -> (r: RoundRobinScheduler)
        requires
            timeslice > 0,
        ensures
            r@ == (RrModel {
                ready: Seq::empty(),
                waiting: Seq::empty(),
                sleeping: Seq::empty(),
                running: None,
                next_pid: 1,
                quanta: timeslice,
                min_slice: minimum_remaining_timeslice,
                unused_time: 0,
            }),
    {
        let r = RoundRobinScheduler {
            ready: VecDeque::new(),
            waiting: VecDeque::new(),
            sleeping: VecDeque::new(),
            running: None,
            next_pid: Pid::new(1),
            quanta: timeslice,
            min_slice: minimum_remaining_timeslice,
            unused_time: 0,
        };
        assert(r@.ready =~= Seq::empty());
        assert(r@.waiting =~= Seq::empty());
        assert(r@.sleeping =~= Seq::empty());
        r
    }

    /// Returns the pid of the running process, if there is one, or None otherwise
    fn get_running_pid(&mut self) -> (r: Option<Pid>)
        ensures
            *final(self) == *old(self),
            match old(self)@.running {
                Some(p) => r matches Some(q) && q@ == p.pid,
                None => r is None,
            },
    {
        if let Some(pcb) = self.running {
            return Some(pcb.pid);
        } else {
            return None;
        }
    }

    /// Makes the scheduler know about the time that the running process wasn't
    /// able to use from it's allocated quanta, because it was stopped by a
    /// syscall
    fn set_unused_time(&mut self, unused_time: usize)
        ensures
            final(self)@ == (RrModel { unused_time, ..old(self)@ }),
    {
        self.unused_time = unused_time;
    }

    /// Increase the `next_pid` field of the RoundRobinScheduler
    ///
    /// Method is called after a new process is spawned, so every process
    /// has it's unique pid
    fn inc_pid(&mut self)
        requires
            old(self)@.next_pid < usize::MAX,
        ensures
            final(self)@ == (RrModel { next_pid: (old(self)@.next_pid + 1) as usize, ..old(self)@ }),
    {
        self.next_pid = self.next_pid.add(1);
    }

    /// Crates a new Process Control Block for the scheduler, using the `next_pid`,
    /// and update the `next_pid` field of the scheduler, to mark as used the new spawned
    /// process pid
    fn spawn_process(&mut self) -> (r: RoundRobinPCB)
        requires
            old(self)@.next_pid < usize::MAX,
        ensures
            r@ == (RrView {
                pid: old(self)@.next_pid,
                state: ProcessState::Ready,
                executed: 0,
                syscalls: 0,
                slept: 0,
            }),
            final(self)@ == (RrModel { next_pid: (old(self)@.next_pid + 1) as usize, ..old(self)@ }),
    {
        let new_proc = RoundRobinPCB::new(self.next_pid);
        self.inc_pid();
        new_proc
    }

    /// Returns a new process, forked from the running process: records the
    /// time the parent left unused, spawns the process and adds it to the
    /// ready queue.
    ///
    /// * `remaining_time` - the number of units of time that the parent process didn't
    ///                    used from it's allocated time quanta
    fn fork(&mut self, remaining_time: usize) -> (r: RoundRobinPCB)
        requires
            old(self)@.next_pid < usize::MAX,
        ensures
            r@ == (RrView {
                pid: old(self)@.next_pid,
                state: ProcessState::Ready,
                executed: 0,
                syscalls: 0,
                slept: 0,
            }),
            final(self)@ == (RrModel {
                unused_time: remaining_time,
                next_pid: (old(self)@.next_pid + 1) as usize,
                ready: old(self)@.ready.push(r@),
                ..old(self)@
            }),
    {
        self.set_unused_time(remaining_time);
        let new_proc = self.spawn_process();
        self.ready.push_back(new_proc);
        assert(self@.ready =~= old(self)@.ready.push(new_proc@));
        new_proc
    }

    /// Enqueues the running process, if it exists, and returns Ok, otherwise does
    /// nothing and return an Err
    ///
    /// The method add to total execution time the `used_time` send as parameter
    ///
    /// * `used_time` - the units of time that the running process used from it's
    ///               quanta for execution
    fn enqueue_running_process(&mut self, used_time: usize) -> (r: Result<(), ()>)
        requires
            old(self)@.running matches Some(p) ==> p.total() + used_time <= usize::MAX,
        ensures
            final(self)@ == old(self)@.requeued(used_time),
            r is Ok <==> old(self)@.running is Some,
    {
        return if let Some(mut pcb) = self.running {
            pcb.set_state(ProcessState::Ready);
            pcb.add_execution_time(used_time);
            self.ready.push_back(pcb);
            self.running = None;
            assert(self@.ready =~= old(self)@.requeued(used_time).ready);
            Ok(())
        } else {
            Err(())
        };
    }

    /// Makes running the next process waiting in the `ready` queue,
    /// or it sets the `running` process to None, if there isn't a single
    /// process in the `ready` queue
    fn dequeue_process(&mut self)
        ensures
            final(self)@ == old(self)@.dequeued(),
    {
        let proc = self.ready.pop_front();
        self.running = proc;
        if let Some(mut pcb) = self.running {
            pcb.set_state(ProcessState::Running);
            self.running = Some(pcb);
        }
        proof {
            if old(self)@.ready.len() > 0 {
                assert(self@.ready =~= old(self)@.ready.drop_first());
            }
        }
    }

    /// Returns the minimum time when a process will exit from sleep
    /// state, if there are processes in sleep, or None otherwise
    fn get_sleep_time(&mut self) -> (r: Option<usize>)
        ensures
            *final(self) == *old(self),
            old(self)@.sleeping.len() == 0 ==> r is None,
            old(self)@.sleeping.len() > 0 ==> r == Some(least_sleep(old(self)@.sleeping) as usize),
    {
        if self.sleeping.len() == 0 {
            return None;
        }
        let ghost s = self@.sleeping;
        let mut minimum_time = usize::MAX;
        let n = self.sleeping.len();
        let mut i: usize = 0;
        assert(s.take(0) =~= Seq::<(RrView, usize)>::empty());
        while i < n
            invariant
                0 <= i <= n,
                n == self.sleeping@.len(),
                s == self@.sleeping,
                minimum_time == least_sleep(s.take(i as int)),
            decreases n - i,
        {
            assert(s.take(i + 1).drop_last() =~= s.take(i as int));
            assert(s[i as int].1 == self.sleeping@[i as int].1);
            if self.sleeping[i].1 < minimum_time {
                minimum_time = self.sleeping[i].1;
            }
            i = i + 1;
        }
        assert(s.take(n as int) =~= s);
        Some(minimum_time)
    }

    /// Updates the sleeping time for all processes in sleep state
    fn update_sleeping_time(&mut self, elapsed_time: usize)
        requires
            forall|i: int| 0 <= i < old(self)@.sleeping.len() ==> #[trigger] old(self)@.sleeping[i].1
                >= elapsed_time,
        ensures
            final(self)@ == (RrModel {
                sleeping: old(self)@.sleeping.map_values(
                    |e: (RrView, usize)| (e.0, (e.1 - elapsed_time) as usize),
                ),
                ..old(self)@
            }),
    {
        let n = self.sleeping.len();
        let mut i: usize = 0;
        assert forall|k: int| 0 <= k < n implies #[trigger] old(self).sleeping@[k].1 >= elapsed_time by {
            assert(old(self)@.sleeping[k].1 == old(self).sleeping@[k].1);
        }
        while i < n
            invariant
                0 <= i <= n,
                n == self.sleeping@.len(),
                n == old(self).sleeping@.len(),
                self.ready == old(self).ready,
                self.waiting == old(self).waiting,
                self.running == old(self).running,
                self.next_pid == old(self).next_pid,
                self.quanta == old(self).quanta,
                self.min_slice == old(self).min_slice,
                self.unused_time == old(self).unused_time,
                forall|k: int| 0 <= k < n ==> #[trigger] old(self).sleeping@[k].1 >= elapsed_time,
                forall|k: int|
                    0 <= k < n ==> #[trigger] self.sleeping@[k] == if k < i {
                        (old(self).sleeping@[k].0, (old(self).sleeping@[k].1 - elapsed_time) as usize)
                    } else {
                        old(self).sleeping@[k]
                    },
            decreases n - i,
        {
            assert(old(self)@.sleeping[i as int].1 == old(self).sleeping@[i as int].1);
            let (pcb, time) = self.sleeping.remove(i).unwrap();
            self.sleeping.insert(i, (pcb, time - elapsed_time));
            i = i + 1;
        }
        assert(self@.sleeping =~= old(self)@.sleeping.map_values(
            |e: (RrView, usize)| (e.0, (e.1 - elapsed_time) as usize),
        ));
    }

    /// Wakes the processes whose sleeping time is over; this scheduler does
    /// not put processes to sleep, so nothing is done.
    fn dequeue_sleeping(&mut self)
        ensures
            *final(self) == *old(self),
    {
    }

    /// Returns true if all the processes are waiting for a signal, or false
    /// otherwise
    fn is_deadlocked(&self) -> (r: bool)
        ensures
            r == self@.deadlocked(),
    {
        if let Some(_) = self.running {
            return false;
        }
        if self.ready.len() != 0 {
            return false;
        }
        if self.sleeping.len() != 0 {
            return false;
        }
        if self.waiting.len() == 0 {
            return false;
        }
        return true;
    }
}

impl Scheduler for RoundRobinScheduler {
    type Proc = RoundRobinPCB;

    /// This scheduler handles forks and expired timeslices; it gives up on
    /// the other system calls.
    open spec fn stop_allowed(&self, reason: StopReason) -> bool {
        match reason {
            StopReason::Syscall { syscall: Syscall::Fork(_), .. } => {
                &&& self@.next_pid < usize::MAX
                &&& (self@.running matches Some(p) ==> p.total() < usize::MAX)
            },
            StopReason::Syscall { .. } => false,
            StopReason::Expired => self@.running matches Some(p) ==> p.total() + self@.quanta
                <= usize::MAX,
        }
    }

    open spec fn next_allowed(&self) -> bool {
        &&& self@.unused_time <= self@.quanta
        &&& self@.unused_time < self@.min_slice ==> {
            &&& (self@.running matches Some(p) ==> p.total() + (self@.quanta - self@.unused_time)
                <= usize::MAX)
            &&& forall|i: int| 0 <= i < self@.sleeping.len() ==> #[trigger] self@.sleeping[i].1 > 0
        }
        &&& self@.unused_time >= self@.min_slice ==> self@.running is Some && self@.unused_time > 0
    }

    open spec fn list_allowed(&self) -> bool {
        true
    }

    fn stop(&mut self, reason: StopReason) -> (r: SyscallResult)
        ensures
            old_stop_outcome(old(self)@, reason, final(self)@, r),
    {
        if let StopReason::Syscall { syscall, remaining } = reason {
            if let Syscall::Fork(_) = syscall {
                let new_proc = self.fork(remaining);
                if let Some(mut pcb) = self.running {
                    pcb.add_syscall_time();
                    self.running = Some(pcb);
                }
                return SyscallResult::Pid(new_proc.pid);
            }
        }
        if let Ok(_) = self.enqueue_running_process(self.quanta) {
            return SyscallResult::Success;
        }
        SyscallResult::NoRunningProcess
    }

    fn next(&mut self) -> (r: SchedulingDecision)
        ensures
            old_next_outcome(old(self)@, final(self)@, r),
    {
        let used_time = self.quanta - self.unused_time;
        if self.unused_time < self.min_slice {
            let _ = self.enqueue_running_process(used_time);
            self.dequeue_process();
            if let Some(pcb) = self.running {
                return SchedulingDecision::Run { pid: pcb.pid, timeslice: self.quanta };
            } else {
                if let Some(time) = self.get_sleep_time() {
                    proof {
                        lemma_least_sleep_positive(self@.sleeping);
                    }
                    return SchedulingDecision::Sleep(time);
                }
                if self.is_deadlocked() {
                    return SchedulingDecision::Deadlock;
                }
                return SchedulingDecision::Done;
            }
        } else {
            let pid = self.get_running_pid().unwrap();
            return SchedulingDecision::Run { pid, timeslice: self.unused_time };
        }
    }

    /// Lists the running, the ready, the waiting and the sleeping processes,
    /// in this order.
    fn list(&mut self) -> (r: Vec<RoundRobinPCB>)
        ensures
            *final(self) == *old(self),
            rr_views(r@) == (match old(self)@.running {
                Some(p) => seq![p],
                None => Seq::empty(),
            }) + old(self)@.ready + old(self)@.waiting + old(self)@.sleeping.map_values(
                |e: (RrView, usize)| e.0,
            ),
    {
        let mut list: Vec<RoundRobinPCB> = Vec::new();
        match &self.running {
            None => (),
            Some(pcb) => list.push(*pcb),
        };
        let ghost head = rr_views(list@);
        let nr = self.ready.len();
        let mut i: usize = 0;
        while i < nr
            invariant
                0 <= i <= nr,
                nr == self.ready@.len(),
                rr_views(list@) == head + old(self)@.ready.take(i as int),
                *self == *old(self),
            decreases nr - i,
        {
            assert(old(self)@.ready.take(i + 1) =~= old(self)@.ready.take(i as int).push(self.ready@[i as int]@));
            let ghost before = list@;
            let x = self.ready[i];
            assert(x == self.ready@[i as int]);
            list.push(x);
            assert(rr_views(list@) =~= rr_views(before).push(x@));
            i = i + 1;
            assert(rr_views(list@) =~= head + old(self)@.ready.take(i as int));
        }
        assert(old(self)@.ready.take(nr as int) =~= old(self)@.ready);
        let ghost head2 = rr_views(list@);
        let nw = self.waiting.len();
        let mut j: usize = 0;
        while j < nw
            invariant
                0 <= j <= nw,
                nw == self.waiting@.len(),
                rr_views(list@) == head2 + old(self)@.waiting.take(j as int),
                *self == *old(self),
            decreases nw - j,
        {
            assert(old(self)@.waiting.take(j + 1) =~= old(self)@.waiting.take(j as int).push(self.waiting@[j as int]@));
            let ghost before = list@;
            let x = self.waiting[j];
            assert(x == self.waiting@[j as int]);
            list.push(x);
            assert(rr_views(list@) =~= rr_views(before).push(x@));
            j = j + 1;
            assert(rr_views(list@) =~= head2 + old(self)@.waiting.take(j as int));
        }
        assert(old(self)@.waiting.take(nw as int) =~= old(self)@.waiting);
        let ghost head3 = rr_views(list@);
        let ghost sl = old(self)@.sleeping.map_values(|e: (RrView, usize)| e.0);
        let ns = self.sleeping.len();
        let mut k: usize = 0;
        while k < ns
            invariant
                0 <= k <= ns,
                ns == self.sleeping@.len(),
                sl == old(self)@.sleeping.map_values(|e: (RrView, usize)| e.0),
                rr_views(list@) == head3 + sl.take(k as int),
                *self == *old(self),
            decreases ns - k,
        {
            assert(sl.take(k + 1) =~= sl.take(k as int).push(self.sleeping@[k as int].0@));
            let ghost before = list@;
            let x = self.sleeping[k].0;
            assert(x == self.sleeping@[k as int].0);
            list.push(x);
            assert(rr_views(list@) =~= rr_views(before).push(x@));
            k = k + 1;
            assert(rr_views(list@) =~= head3 + sl.take(k as int));
        }
        assert(sl.take(ns as int) =~= sl);
        assert(rr_views(list@) =~= (match old(self)@.running {
            Some(p) => seq![p],
            None => Seq::empty(),
        }) + old(self)@.ready + old(self)@.waiting + sl);
        return list;
    }
}

/// The least sleeping time: no entry of `s` sleeps for less, and one sleeps
/// for exactly that long, unless `s` is empty.
pub proof fn lemma_least_sleep_is_least(s: Seq<(RrView, usize)>)
    ensures
        forall|i: int| 0 <= i < s.len() ==> least_sleep(s) <= #[trigger] s[i].1,
        s.len() > 0 ==> exists|i: int| 0 <= i < s.len() && least_sleep(s) == #[trigger] s[i].1,
    decreases s.len(),
{
    if s.len() > 0 {
        let t = s.drop_last();
        lemma_least_sleep_is_least(t);
        assert forall|i: int| 0 <= i < s.len() implies least_sleep(s) <= #[trigger] s[i].1 by {
            if i < s.len() - 1 {
                assert(s[i] == t[i]);
            }
        }
        if s.last().1 < least_sleep(t) || t.len() == 0 {
            assert(least_sleep(s) == s[s.len() - 1].1);
        } else {
            let i = choose|i: int| 0 <= i < t.len() && least_sleep(t) == #[trigger] t[i].1;
            assert(s[i] == t[i]);
        }
    }
}

/// When this scheduler sleeps, it sleeps for the least sleeping time: some
/// process sleeps, none sleeps for less, and one sleeps for exactly that.
pub proof fn lemma_old_sleeps_least(m: RrModel, m2: RrModel, r: SchedulingDecision)
    requires
        old_next_outcome(m, m2, r),
    ensures
        r matches SchedulingDecision::Sleep(t) ==> {
            &&& m2.sleeping.len() > 0
            &&& forall|i: int| 0 <= i < m2.sleeping.len() ==> t <= #[trigger] m2.sleeping[i].1
            &&& exists|i: int| 0 <= i < m2.sleeping.len() && t == #[trigger] m2.sleeping[i].1
        },
{
    lemma_least_sleep_is_least(m2.sleeping);
}

/// When every sleeping time is positive, so is the least one.
proof fn lemma_least_sleep_positive(s: Seq<(RrView, usize)>)
    requires
        forall|i: int| 0 <= i < s.len() ==> #[trigger] s[i].1 > 0,
    ensures
        0 < least_sleep(s) <= usize::MAX,
    decreases s.len(),
{
    if s.len() > 0 {
        let t = s.drop_last();
        assert forall|i: int| 0 <= i < t.len() implies #[trigger] t[i].1 > 0 by {
            assert(t[i] == s[i]);
        }
        lemma_least_sleep_positive(t);
        assert(s.last() == s[s.len() - 1]);
    }
}

} // verus!
