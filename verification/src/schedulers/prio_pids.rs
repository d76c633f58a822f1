//! The pids the priority schedulers hold, and how their operations keep
//! them: every process keeps its own pid.

use vstd::prelude::*;
use vstd::multiset::Multiset;

use crate::pids::{
    lemma_add_assoc, lemma_add_reverse, lemma_cancel_insert, lemma_cancel_shift,
    lemma_pids_of_add, lemma_pids_of_drop_first, lemma_pids_of_push, lemma_pids_of_same,
    lemma_running_in, lemma_running_out, lemma_sleeper_pids_push, lemma_sleeper_pids_same,
    lemma_sleepers_split, lemma_unique_insert, lemma_unique_remove, lemma_waiter_pids_push,
    lemma_waiter_pids_same, lemma_waiters_split, pids_of, running_pids, sleeper_pids, unique_below,
    waiter_pids,
};
use crate::process_control_block::PcbView;
use crate::scheduler_info::{awoken, readied, released, time_to_wake};
use crate::schedulers::priority_queue::{
    lemma_prio_wakeup_keeps_invariant, lemma_search_ready_found, pq_next_outcome, prio_invariant, pq_stop_accepted, pq_stop_outcome,
    prio_after_wakeup, pushed, pushed_all, PrioModel,
};
use crate::schedulers::priority_round_robin::{
    prr_next_outcome, prr_stop_accepted, prr_stop_outcome,
};
use crate::common_types::{MAX_PRIO, MIN_PRIO};
use crate::schedulers::priority_queue::prio_launched;
use crate::schedulers::ready_queues::{
    aged_queues, highest_ready, listed_views, listed_views_from, queue_at, search_ready,
};
use crate::{SchedulingDecision, StopReason, Syscall, SyscallResult};

verus! {

/// The pids of the processes in the ready queues.
pub open spec fn queues_pids(q: Map<i8, Seq<PcbView>>) -> Multiset<usize> {
    pids_of(listed_views(q))
}

impl PrioModel {
    /// The pids of every process the scheduler holds.
    pub open spec fn pids(self) -> Multiset<usize> {
        running_pids(self.running).add(queues_pids(self.queues)).add(sleeper_pids(self.sleeping)).add(
            waiter_pids(self.waiting),
        )
    }

    /// Every process has its own pid, below the next one to be given.
    pub open spec fn pids_unique(self) -> bool {
        unique_below(self.pids(), self.next_pid)
    }
}

/// Replacing the queue of priority `k0` by `s2` changes the pids listed from
/// priority `k` down by the difference between the two queues, when `k0` is
/// among those priorities.
proof fn lemma_listed_replace(q: Map<i8, Seq<PcbView>>, k0: i8, s2: Seq<PcbView>, k: int)
    ensures
        k < k0 ==> pids_of(listed_views_from(q.insert(k0, s2), k)) == pids_of(listed_views_from(q, k)),
        k0 <= k <= 127 ==> pids_of(listed_views_from(q.insert(k0, s2), k)).add(pids_of(queue_at(q, k0)))
            =~= pids_of(listed_views_from(q, k)).add(pids_of(s2)),
    decreases k + 129,
{
    let q2 = q.insert(k0, s2);
    if -128 <= k <= 127 {
        assert((k as i8) as int == k);
        lemma_listed_replace(q, k0, s2, k - 1);
        let c2 = queue_at(q2, k as i8);
        let c = queue_at(q, k as i8);
        assert(listed_views_from(q2, k) == c2 + listed_views_from(q2, k - 1));
        assert(listed_views_from(q, k) == c + listed_views_from(q, k - 1));
        lemma_pids_of_add(c2, listed_views_from(q2, k - 1));
        lemma_pids_of_add(c, listed_views_from(q, k - 1));
        let r2 = pids_of(listed_views_from(q2, k - 1));
        let r = pids_of(listed_views_from(q, k - 1));
        if k == k0 {
            assert(c2 == s2);
            assert(c == queue_at(q, k0));
            assert(r2 == r);
            assert(pids_of(listed_views_from(q2, k)) =~= pids_of(s2).add(r));
            assert(pids_of(listed_views_from(q, k)) =~= pids_of(queue_at(q, k0)).add(r));
            lemma_add_reverse(pids_of(s2), r, pids_of(queue_at(q, k0)));
            assert(pids_of(listed_views_from(q2, k)).add(pids_of(queue_at(q, k0))) =~= pids_of(
                listed_views_from(q, k),
            ).add(pids_of(s2)));
        } else {
            assert((k as i8) != k0);
            assert(c2 == c);
            if k > k0 {
                assert(r2.add(pids_of(queue_at(q, k0))) =~= r.add(pids_of(s2)));
                lemma_add_assoc(pids_of(c), r2, pids_of(queue_at(q, k0)));
                lemma_add_assoc(pids_of(c), r, pids_of(s2));
                assert(pids_of(listed_views_from(q2, k)).add(pids_of(queue_at(q, k0))) =~= pids_of(
                    listed_views_from(q, k),
                ).add(pids_of(s2)));
            }
        }
    }
}

/// Putting a block at the end of the queue of its priority adds its pid.
pub proof fn lemma_pushed_pids(q: Map<i8, Seq<PcbView>>, b: PcbView)
    ensures
        queues_pids(pushed(q, b)) =~= queues_pids(q).insert(b.pid),
{
    let s2 = queue_at(q, b.priority).push(b);
    lemma_listed_replace(q, b.priority, s2, 127);
    lemma_pids_of_push(queue_at(q, b.priority), b);
    lemma_cancel_insert(queues_pids(pushed(q, b)), queues_pids(q), pids_of(queue_at(q, b.priority)), b.pid);
}

/// Putting blocks at the end of the queues of their priorities adds their
/// pids.
pub proof fn lemma_pushed_all_pids(q: Map<i8, Seq<PcbView>>, s: Seq<PcbView>)
    ensures
        queues_pids(pushed_all(q, s)) =~= queues_pids(q).add(pids_of(s)),
    decreases s.len(),
{
    if s.len() > 0 {
        lemma_pushed_all_pids(q, s.drop_last());
        lemma_pushed_pids(pushed_all(q, s.drop_last()), s.last());
    }
}

/// Computing the time of existence in the queues keeps the pids.
proof fn lemma_aged_queues_pids(q: Map<i8, Seq<PcbView>>, now: usize, k: int)
    ensures
        pids_of(listed_views_from(aged_queues(q, now), k)) == pids_of(listed_views_from(q, k)),
    decreases k + 129,
{
    if -128 <= k <= 127 {
        lemma_aged_queues_pids(q, now, k - 1);
        let a = aged_queues(q, now);
        let s = queue_at(q, k as i8);
        let t = queue_at(a, k as i8);
        assert(t.len() == s.len());
        assert forall|i: int| 0 <= i < s.len() implies #[trigger] s[i].pid == t[i].pid by {}
        lemma_pids_of_same(s, t);
        lemma_pids_of_add(t, listed_views_from(a, k - 1));
        lemma_pids_of_add(s, listed_views_from(q, k - 1));
    }
}

/// Launching the first process of the highest served queue moves its pid
/// from the queue to the running process, dropping that of the process that
/// ran before.
proof fn lemma_prio_dequeued_pids(m: PrioModel)
    ensures
        m.has_ready() ==> m.dequeued().pids() =~= (PrioModel { running: None, ..m }).pids(),
        !m.has_ready() ==> m.dequeued() == m,
{
    if let Some(p) = highest_ready(m.queues) {
        lemma_search_ready_found(m.queues, crate::common_types::MAX_PRIO as int);
        let s = queue_at(m.queues, p);
        lemma_listed_replace(m.queues, p, s.drop_first(), 127);
        lemma_pids_of_drop_first(s);
        lemma_cancel_shift(queues_pids(m.dequeued().queues), queues_pids(m.queues), pids_of(s.drop_first()), s[0].pid);
    }
}

/// Waking keeps the pids.
proof fn lemma_prio_wakeup_pids(m: PrioModel)
    ensures
        prio_after_wakeup(m).pids() =~= m.pids(),
        prio_after_wakeup(m).next_pid == m.next_pid,
{
    let a = m.slept_out();
    let b = a.woken();
    lemma_sleeper_pids_same(b.sleeping, a.sleeping);
    lemma_pushed_all_pids(b.queues, awoken(b.sleeping));
    lemma_sleepers_split(b.sleeping);
}

/// Releasing the processes waiting for `event` keeps the pids.
proof fn lemma_prio_unblocked_pids(m: PrioModel, event: usize)
    ensures
        m.unblocked(event).pids() =~= m.pids(),
{
    lemma_pushed_all_pids(m.queues, released(m.waiting, event));
    lemma_waiters_split(m.waiting, event);
}

/// Creating a process adds the next pid.
proof fn lemma_prio_forked_pids(m: PrioModel, prio: i8)
    ensures
        m.forked(prio).pids() =~= m.pids().insert(m.next_pid),
{
    lemma_pushed_pids(m.queues, crate::schedulers::process_block::fresh_block(m.next_pid, prio, m.timestamp, None));
}

/// Listing the processes keeps the pids a priority scheduler holds.
pub proof fn lemma_prio_list_keeps_pids(m: PrioModel)
    ensures
        m.aged_all().pids() == m.pids(),
        m.aged_all().next_pid == m.next_pid,
{
    let a = m.aged_all();
    lemma_aged_queues_pids(m.queues, m.timestamp, 127);
    lemma_sleeper_pids_same(a.sleeping, m.sleeping);
    lemma_waiter_pids_same(a.waiting, m.waiting);
}

/// The pids a priority scheduler holding `m` holds after `stop(reason)`: a
/// fork adds the pid of the new process, an exit takes out that of the
/// running process, and every other stop keeps them.
pub open spec fn prio_stop_pids(m: PrioModel, reason: StopReason) -> Multiset<usize> {
    match reason {
        StopReason::Syscall { syscall: Syscall::Fork(_), .. } => m.pids().insert(m.next_pid),
        StopReason::Syscall { syscall: Syscall::Exit, .. } => match m.running {
            Some(p) => m.pids().remove(p.pid),
            None => m.pids(),
        },
        _ => m.pids(),
    }
}

/// An exit of the running process takes its pid out and keeps the others
/// unique.
proof fn lemma_prio_exit_pids(m: PrioModel, m2: PrioModel)
    requires
        m.running is Some,
        m2.running is None,
        m2.queues == m.queues,
        m2.sleeping == m.sleeping,
        m2.waiting == m.waiting,
        m2.next_pid == m.next_pid,
        m.pids_unique(),
    ensures
        m2.pids() =~= m.pids().remove(m.running.unwrap().pid),
        m2.pids_unique(),
{
    let p = m.running.unwrap();
    lemma_running_out(p.pid, queues_pids(m.queues), sleeper_pids(m.sleeping), waiter_pids(m.waiting));
    lemma_unique_remove(m.pids(), m.next_pid, p.pid);
}

/// Each process has its own pid in the priority queue scheduler: a stop
/// adds no pid but that of a forked process, which is the next pid and held
/// by none before, takes out none but that of an exiting process and keeps
/// the others, and the next pid never decreases; so when every process has
/// its own pid below the next one to be given, this still holds after the
/// stop.
pub proof fn lemma_pq_stop_keeps_pids_unique(m: PrioModel, reason: StopReason, m2: PrioModel, r: SyscallResult)
    requires
        pq_stop_accepted(m, reason),
        pq_stop_outcome(m, reason, m2, r),
        m.pids_unique(),
    ensures
        m2.pids() =~= prio_stop_pids(m, reason),
        m2.next_pid >= m.next_pid,
        m2.pids_unique(),
{
    match reason {
        StopReason::Syscall { syscall, remaining } => {
            let mid = m.stopped(remaining, reason);
            assert(mid.pids() =~= m.pids());
            match syscall {
                Syscall::Fork(prio) => {
                    lemma_prio_forked_pids(mid, prio);
                    lemma_unique_insert(m.pids(), m.next_pid);
                    assert(m2.pids() =~= m.pids().insert(m.next_pid));
                },
                Syscall::Exit => {
                    if m.running is Some {
                        lemma_prio_exit_pids(m, m2);
                    }
                },
                Syscall::Sleep(time) => {
                    if m.running is Some {
                        lemma_sleeper_pids_push(mid.sleeping, m2.sleeping.last());
                        assert(m2.sleeping =~= mid.sleeping.push(m2.sleeping.last()));
                    }
                    assert(m2.pids() =~= m.pids());
                },
                Syscall::Wait(event) => {
                    if m.running is Some {
                        lemma_waiter_pids_push(mid.waiting, m2.waiting.last());
                        assert(m2.waiting =~= mid.waiting.push(m2.waiting.last()));
                    }
                    assert(m2.pids() =~= m.pids());
                },
                Syscall::Signal(event) => {
                    if m.running is Some {
                        lemma_prio_unblocked_pids(mid, event);
                    }
                    assert(m2.pids() =~= m.pids());
                },
            }
        },
        StopReason::Expired => {
            assert(m2.pids() =~= m.pids());
        },
    }
}

/// `next()` keeps the pids the priority queue scheduler holds and the next
/// pid, so each process keeps its own pid.
pub proof fn lemma_pq_next_keeps_pids(m: PrioModel, m2: PrioModel, r: SchedulingDecision)
    requires
        pq_next_outcome(m, m2, r),
        requeue_finds_ready(prio_after_wakeup(m)),
    ensures
        m2.pids() =~= m.pids(),
        m2.next_pid == m.next_pid,
        m.pids_unique() ==> m2.pids_unique(),
{
    let w = prio_after_wakeup(m);
    lemma_prio_wakeup_pids(m);
    match w.running {
        None => {
            if !w.panics() && w.has_ready() {
                lemma_prio_dequeued_pids(w);
            }
            assert(m2.pids() =~= w.pids());
        },
        Some(p) => {
            if p.payload < w.min_time {
                lemma_prio_pushed_dequeued_pids(w, p);
            }
            assert(m2.pids() =~= w.pids());
        },
    }
}

/// The highest served priority with a process is a served priority whose
/// queue is not empty.
proof fn lemma_search_ready_range(q: Map<i8, Seq<PcbView>>, p: int)
    ensures
        search_ready(q, p) matches Some(k) ==> MIN_PRIO <= k <= p && queue_at(q, k).len() > 0,
    decreases p + 1 - MIN_PRIO,
{
    if MIN_PRIO <= p <= MAX_PRIO && queue_at(q, p as i8).len() == 0 {
        lemma_search_ready_range(q, p - 1);
    }
}

/// When the queue of a served priority `k` holds a process, some process of
/// a served priority is found from any served priority `p` above it.
proof fn lemma_search_ready_some(q: Map<i8, Seq<PcbView>>, p: int, k: int)
    requires
        MIN_PRIO <= k <= p <= MAX_PRIO,
        queue_at(q, k as i8).len() > 0,
    ensures
        search_ready(q, p) is Some,
    decreases p - k,
{
    if p > k && queue_at(q, p as i8).len() == 0 {
        lemma_search_ready_some(q, p - 1, k);
    }
}

/// Whether the running process of `m`, put back in the queue of its
/// priority, is sure to find a process to launch: its priority is served,
/// or a process of a served priority is ready.
pub open spec fn requeue_finds_ready(m: PrioModel) -> bool {
    m.running matches Some(p) ==> (MIN_PRIO <= p.priority <= MAX_PRIO || m.has_ready())
}

/// Putting the running process `p` back in its queue and launching the
/// first process of the highest served queue keeps the pids, when that
/// finds a process.
proof fn lemma_prio_pushed_dequeued_pids(w: PrioModel, p: PcbView)
    requires
        w.running == Some(p),
        requeue_finds_ready(w),
    ensures
        ({
            let d = (PrioModel { queues: pushed(w.queues, readied(p)), ..w }).dequeued();
            let e = PrioModel { running: Some(prio_launched(d.running.unwrap(), w.quanta)), ..d };
            e.pids() =~= w.pids()
        }),
{
    let e = PrioModel { queues: pushed(w.queues, readied(p)), ..w };
    lemma_pushed_pids(w.queues, readied(p));
    if MIN_PRIO <= p.priority <= MAX_PRIO {
        assert(queue_at(e.queues, p.priority).len() > 0);
        lemma_search_ready_some(e.queues, MAX_PRIO as int, p.priority as int);
    } else {
        lemma_search_ready_range(w.queues, MAX_PRIO as int);
        let k = highest_ready(w.queues).unwrap();
        assert(queue_at(e.queues, k).len() > 0);
        lemma_search_ready_some(e.queues, MAX_PRIO as int, k as int);
    }
    lemma_prio_dequeued_pids(e);
    lemma_running_in(p.pid, queues_pids(w.queues), sleeper_pids(w.sleeping), waiter_pids(w.waiting));
}

/// Each process has its own pid in the priority round robin scheduler: a
/// stop adds no pid but that of a forked process, which is the next pid and
/// held by none before, takes out none but that of an exiting process and
/// keeps the others, and the next pid never decreases.
pub proof fn lemma_prr_stop_keeps_pids_unique(m: PrioModel, reason: StopReason, m2: PrioModel, r: SyscallResult)
    requires
        prr_stop_accepted(m, reason),
        prr_stop_outcome(m, reason, m2, r),
        m.pids_unique(),
    ensures
        m2.pids() =~= prio_stop_pids(m, reason),
        m2.next_pid >= m.next_pid,
        m2.pids_unique(),
{
    match reason {
        StopReason::Syscall { syscall, remaining } => {
            let mid = m.accounted_stop(remaining, reason);
            assert(mid.pids() =~= m.pids());
            match syscall {
                Syscall::Fork(prio) => {
                    lemma_prio_forked_pids(mid, prio);
                    lemma_unique_insert(m.pids(), m.next_pid);
                    assert(m2.pids() =~= m.pids().insert(m.next_pid));
                },
                Syscall::Exit => {
                    if m.running is Some {
                        lemma_prio_exit_pids(m, m2);
                    }
                },
                Syscall::Sleep(time) => {
                    if m.running is Some {
                        lemma_sleeper_pids_push(mid.sleeping, m2.sleeping.last());
                        assert(m2.sleeping =~= mid.sleeping.push(m2.sleeping.last()));
                    }
                    assert(m2.pids() =~= m.pids());
                },
                Syscall::Wait(event) => {
                    if m.running is Some {
                        lemma_waiter_pids_push(mid.waiting, m2.waiting.last());
                        assert(m2.waiting =~= mid.waiting.push(m2.waiting.last()));
                    }
                    assert(m2.pids() =~= m.pids());
                },
                Syscall::Signal(event) => {
                    if m.running is Some {
                        lemma_prio_unblocked_pids(mid, event);
                    }
                    assert(m2.pids() =~= m.pids());
                },
            }
        },
        StopReason::Expired => {
            assert(m2.pids() =~= m.pids());
        },
    }
}

/// `next()` keeps the pids the priority round robin scheduler holds and the
/// next pid, so each process keeps its own pid.
pub proof fn lemma_prr_next_keeps_pids(m: PrioModel, m2: PrioModel, r: SchedulingDecision)
    requires
        prr_next_outcome(m, m2, r),
        requeue_finds_ready(prio_after_wakeup(m)),
    ensures
        m2.pids() =~= m.pids(),
        m2.next_pid == m.next_pid,
        m.pids_unique() ==> m2.pids_unique(),
{
    lemma_pq_next_keeps_pids(m, m2, r);
}

/// The clock of the priority queue scheduler never goes back on a stop: it
/// moves forward by the time the running process executed, and by one unit
/// for a system call that it handled.
pub proof fn lemma_pq_stop_clock_forward(m: PrioModel, reason: StopReason, m2: PrioModel, r: SyscallResult)
    requires
        pq_stop_accepted(m, reason),
        pq_stop_outcome(m, reason, m2, r),
    ensures
        m2.timestamp >= m.timestamp,
{
}

/// `next()` of the priority queue scheduler moves the clock forward by the
/// time the scheduler slept.
pub proof fn lemma_pq_next_clock_forward(m: PrioModel, m2: PrioModel, r: SchedulingDecision)
    requires
        m.timestamp + m.slept_time <= usize::MAX,
        pq_next_outcome(m, m2, r),
    ensures
        m2.timestamp == m.timestamp + m.slept_time,
{
}

/// The clock of the priority round robin scheduler never goes back on a
/// stop: it moves forward by the time the running process executed, and by
/// one unit for a system call that it handled.
pub proof fn lemma_prr_stop_clock_forward(m: PrioModel, reason: StopReason, m2: PrioModel, r: SyscallResult)
    requires
        prr_stop_accepted(m, reason),
        prr_stop_outcome(m, reason, m2, r),
    ensures
        m2.timestamp >= m.timestamp,
{
}

/// `next()` of the priority round robin scheduler moves the clock forward
/// by the time the scheduler slept.
pub proof fn lemma_prr_next_clock_forward(m: PrioModel, m2: PrioModel, r: SchedulingDecision)
    requires
        m.timestamp + m.slept_time <= usize::MAX,
        prr_next_outcome(m, m2, r),
    ensures
        m2.timestamp == m.timestamp + m.slept_time,
{
}

/// When no process can run and the priority queue scheduler sleeps, it
/// sleeps until the first sleeper wakes: some process sleeps, none wakes
/// sooner, and one wakes then.
pub proof fn lemma_pq_sleeps_until_first_wake(m: PrioModel, m2: PrioModel, r: SchedulingDecision)
    requires
        prio_invariant(m),
        m.timestamp + m.slept_time <= usize::MAX,
        pq_next_outcome(m, m2, r),
    ensures
        r matches SchedulingDecision::Sleep(t) ==> {
            let w = prio_after_wakeup(m);
            &&& w.sleeping.len() > 0
            &&& forall|i: int|
                0 <= i < w.sleeping.len() ==> t <= #[trigger] time_to_wake(w.sleeping[i], w.timestamp)
            &&& exists|i: int|
                0 <= i < w.sleeping.len() && t == #[trigger] time_to_wake(w.sleeping[i], w.timestamp)
        },
{
    lemma_prio_wakeup_keeps_invariant(m);
    let w = prio_after_wakeup(m);
    if w.sleeping.len() > 0 {
        assert forall|i: int| 0 <= i < w.sleeping.len() implies #[trigger] time_to_wake(
            w.sleeping[i],
            w.timestamp,
        ) <= usize::MAX by {
            let e = w.sleeping[i];
        }
        crate::scheduler_info::lemma_first_wake_is_a_wake(w.sleeping, w.timestamp);
    }
}

/// The priority queue scheduler reports a panic exactly when, once woken,
/// no process runs, the process with pid 1 has ended and some process is
/// left: one of a served priority ready, or one sleeping or waiting.
pub proof fn lemma_pq_next_panics_iff(m: PrioModel, m2: PrioModel, r: SchedulingDecision)
    requires
        pq_next_outcome(m, m2, r),
    ensures
        r == SchedulingDecision::Panic <==> {
            let w = prio_after_wakeup(m);
            &&& w.running is None
            &&& w.panicd
            &&& (w.has_ready() || w.sleeping.len() > 0 || w.waiting.len() > 0)
        },
{
}

/// When no process can run and the priority round robin scheduler sleeps,
/// it sleeps until the first sleeper wakes: some process sleeps, none wakes
/// sooner, and one wakes then.
pub proof fn lemma_prr_sleeps_until_first_wake(m: PrioModel, m2: PrioModel, r: SchedulingDecision)
    requires
        prio_invariant(m),
        m.timestamp + m.slept_time <= usize::MAX,
        prr_next_outcome(m, m2, r),
    ensures
        r matches SchedulingDecision::Sleep(t) ==> {
            let w = prio_after_wakeup(m);
            &&& w.sleeping.len() > 0
            &&& forall|i: int|
                0 <= i < w.sleeping.len() ==> t <= #[trigger] time_to_wake(w.sleeping[i], w.timestamp)
            &&& exists|i: int|
                0 <= i < w.sleeping.len() && t == #[trigger] time_to_wake(w.sleeping[i], w.timestamp)
        },
{
    lemma_pq_sleeps_until_first_wake(m, m2, r);
}

/// The priority round robin scheduler reports a panic exactly when, once
/// woken, no process runs, the process with pid 1 has ended and some
/// process is left: one of a served priority ready, or one sleeping or
/// waiting.
pub proof fn lemma_prr_next_panics_iff(m: PrioModel, m2: PrioModel, r: SchedulingDecision)
    requires
        prr_next_outcome(m, m2, r),
    ensures
        r == SchedulingDecision::Panic <==> {
            let w = prio_after_wakeup(m);
            &&& w.running is None
            &&& w.panicd
            &&& (w.has_ready() || w.sleeping.len() > 0 || w.waiting.len() > 0)
        },
{
    lemma_pq_next_panics_iff(m, m2, r);
}

} // verus!
