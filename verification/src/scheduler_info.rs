//! The building blocks of a scheduler that keeps its ready processes in
//! arrival order: what it knows (`SchedulerInfo`), how it moves processes
//! between its queues (`ProcessManager`) and how it decides when no process
//! runs (`SchedulerActions`).

use vstd::prelude::*;

use crate::process_control_block::PcbView;
use crate::schedulers::process_block::fresh_block;
use crate::{
    Event, GeneralProcess, Pid, ProcessControlBlock, ProcessState, SchedulingDecision, StopReason,
    SyscallResult, Timestamp, Vruntime,
};

verus! {

/// What a scheduler holds, as plain values.
pub struct SchedModel {
    /// The ready processes, in the order they will run.
    pub ready: Seq<PcbView>,
    /// The sleeping processes, each with the moment it fell asleep and the
    /// time it sleeps (0 once that time has passed).
    pub sleeping: Seq<(PcbView, usize, usize)>,
    /// The processes waiting for an event, each with its event.
    pub waiting: Seq<(PcbView, usize)>,
    /// The running process.
    pub running: Option<PcbView>,
    /// The timeslice given to a process that is launched.
    pub quanta: usize,
    /// The least remaining timeslice for which a process that made a system
    /// call runs on.
    pub min_time: usize,
    /// The pid the next created process gets.
    pub next_pid: usize,
    /// The current moment.
    pub timestamp: usize,
    /// Whether the process with pid 1 has ended.
    pub panicd: bool,
    /// The time the scheduler decided to sleep, to be added when it wakes.
    pub slept_time: usize,
}

/// The block of an optional process.
pub open spec fn opt_block(p: Option<GeneralProcess>) -> Option<PcbView> {
    match p {
        Some(q) => Some(q@),
        None => None,
    }
}

/// The value of an optional virtual runtime.
pub open spec fn vruntime_value(v: Option<Vruntime>) -> Option<usize> {
    match v {
        Some(x) => Some(x@),
        None => None,
    }
}

/// The block of a process that was put in a ready queue.
pub open spec fn readied(b: PcbView) -> PcbView {
    PcbView { state: ProcessState::Ready, ..b }
}

/// The block with its time of existence computed at moment `now`.
pub open spec fn aged(b: PcbView, now: usize) -> PcbView {
    PcbView { total: (now - b.arrival - 1) as usize, ..b }
}

/// A sleeping entry after the check at moment `now`: its sleeping time
/// drops to 0 once more than that time has passed since it fell asleep.
pub open spec fn woken_entry(e: (PcbView, usize, usize), now: usize) -> (PcbView, usize, usize) {
    if now - e.1 > e.2 {
        (e.0, e.1, 0)
    } else {
        e
    }
}

/// The sleeping entries whose sleeping time is not over, in order.
pub open spec fn still_asleep(s: Seq<(PcbView, usize, usize)>) -> Seq<(PcbView, usize, usize)>
    decreases s.len(),
{
    if s.len() == 0 {
        s
    } else if s.last().2 != 0 {
        still_asleep(s.drop_last()).push(s.last())
    } else {
        still_asleep(s.drop_last())
    }
}

/// The sleeping processes whose sleeping time is over, in order, made ready.
pub open spec fn awoken(s: Seq<(PcbView, usize, usize)>) -> Seq<PcbView>
    decreases s.len(),
{
    if s.len() == 0 {
        Seq::empty()
    } else if s.last().2 == 0 {
        awoken(s.drop_last()).push(readied(s.last().0))
    } else {
        awoken(s.drop_last())
    }
}

/// The waiting entries for an event other than `event`, in order.
pub open spec fn still_waiting(s: Seq<(PcbView, usize)>, event: usize) -> Seq<(PcbView, usize)>
    decreases s.len(),
{
    if s.len() == 0 {
        s
    } else if s.last().1 != event {
        still_waiting(s.drop_last(), event).push(s.last())
    } else {
        still_waiting(s.drop_last(), event)
    }
}

/// The processes waiting for `event`, in order, made ready.
pub open spec fn released(s: Seq<(PcbView, usize)>, event: usize) -> Seq<PcbView>
    decreases s.len(),
{
    if s.len() == 0 {
        Seq::empty()
    } else if s.last().1 == event {
        released(s.drop_last(), event).push(readied(s.last().0))
    } else {
        released(s.drop_last(), event)
    }
}

/// The time units from `now` until the sleeping entry `e` wakes up.
pub open spec fn time_to_wake(e: (PcbView, usize, usize), now: usize) -> int {
    e.1 + e.2 - now + 1
}

/// The least time to wake over the entries of `s`, or `usize::MAX` when
/// there are none.
pub open spec fn least_time_to_wake(s: Seq<(PcbView, usize, usize)>, now: usize) -> int
    decreases s.len(),
{
    if s.len() == 0 {
        usize::MAX as int
    } else {
        let rest = least_time_to_wake(s.drop_last(), now);
        let t = time_to_wake(s.last(), now);
        if t < rest {
            t
        } else {
            rest
        }
    }
}

impl SchedModel {
    /// Every sleeping process fell asleep no later than now.
    pub open spec fn sleep_starts_past(self) -> bool {
        forall|i: int| 0 <= i < self.sleeping.len() ==> #[trigger] self.sleeping[i].1 <= self.timestamp
    }

    /// The moment each sleeping process wakes fits in a usize, is not past,
    /// and the time until then plus one fits in a usize.
    pub open spec fn sleep_ends_ahead(self) -> bool {
        forall|i: int|
            0 <= i < self.sleeping.len() ==> {
                let e = #[trigger] self.sleeping[i];
                &&& e.1 + e.2 <= usize::MAX
                &&& self.timestamp <= e.1 + e.2
                &&& e.1 + e.2 - self.timestamp < usize::MAX
            }
    }

    /// Every process was created before now.
    pub open spec fn arrivals_past(self) -> bool {
        &&& (self.running matches Some(p) ==> p.arrival < self.timestamp)
        &&& forall|i: int| 0 <= i < self.ready.len() ==> #[trigger] self.ready[i].arrival < self.timestamp
        &&& forall|i: int| 0 <= i < self.sleeping.len() ==> #[trigger] self.sleeping[i].0.arrival < self.timestamp
        &&& forall|i: int| 0 <= i < self.waiting.len() ==> #[trigger] self.waiting[i].0.arrival < self.timestamp
    }

    /// The state after the sleeping times are checked at the current moment.
    pub open spec fn woken(self) -> SchedModel {
        SchedModel {
            sleeping: self.sleeping.map_values(|e: (PcbView, usize, usize)| woken_entry(e, self.timestamp)),
            ..self
        }
    }

    /// The state after the processes whose sleeping time is over are made
    /// ready, at the end of the ready queue.
    pub open spec fn awakened(self) -> SchedModel {
        SchedModel {
            ready: self.ready + awoken(self.sleeping),
            sleeping: still_asleep(self.sleeping),
            ..self
        }
    }

    /// The state after the processes waiting for `event` are made ready, at
    /// the end of the ready queue.
    pub open spec fn unblocked(self, event: usize) -> SchedModel {
        SchedModel {
            ready: self.ready + released(self.waiting, event),
            waiting: still_waiting(self.waiting, event),
            ..self
        }
    }

    /// The state after the time of existence of every process is computed.
    pub open spec fn aged_all(self) -> SchedModel {
        SchedModel {
            running: match self.running {
                Some(p) => Some(aged(p, self.timestamp)),
                None => None,
            },
            ready: self.ready.map_values(|b: PcbView| aged(b, self.timestamp)),
            sleeping: self.sleeping.map_values(
                |e: (PcbView, usize, usize)| (aged(e.0, self.timestamp), e.1, e.2),
            ),
            waiting: self.waiting.map_values(|e: (PcbView, usize)| (aged(e.0, self.timestamp), e.1)),
            ..self
        }
    }

    /// The time until the first sleeping process wakes, or 0 when none
    /// sleeps.
    pub open spec fn time_for_sleep(self) -> int {
        if self.sleeping.len() == 0 {
            0
        } else {
            least_time_to_wake(self.sleeping, self.timestamp)
        }
    }

    /// The state after the scheduler wakes from the sleep it decided: the
    /// slept time is added to the clock.
    pub open spec fn slept_out(self) -> SchedModel {
        if self.slept_time != 0 {
            SchedModel {
                timestamp: (self.timestamp + self.slept_time) as usize,
                slept_time: 0,
                ..self
            }
        } else {
            self
        }
    }

    /// The decision when no process can run: `None` when one can.
    pub open spec fn blocked_decision(self) -> Option<SchedulingDecision> {
        if self.running is Some || self.ready.len() > 0 {
            None
        } else if self.sleeping.len() == 0 && self.waiting.len() == 0 {
            Some(SchedulingDecision::Done)
        } else if self.sleeping.len() == 0 {
            Some(SchedulingDecision::Deadlock)
        } else {
            Some(SchedulingDecision::Sleep(self.time_for_sleep() as usize))
        }
    }

    /// The state after a process with the next pid, priority `prio` and
    /// virtual runtime `vruntime` is created now and put at the end of the
    /// ready queue.
    pub open spec fn forked(self, prio: i8, vruntime: Option<usize>) -> SchedModel {
        SchedModel {
            next_pid: (self.next_pid + 1) as usize,
            ready: self.ready.push(fresh_block(self.next_pid, prio, self.timestamp, vruntime)),
            ..self
        }
    }

    /// The state after the clock moves `time` units forward.
    pub open spec fn skipped(self, time: int) -> SchedModel {
        SchedModel { timestamp: (self.timestamp + time) as usize, ..self }
    }

    /// Whether the running process, if any, may stop for `reason` with
    /// `remaining` units left, and the clock can then move forward by the
    /// time it executed.
    pub open spec fn can_stop_running(self, remaining: usize, reason: StopReason) -> bool {
        self.running matches Some(p) ==> {
            &&& p.can_interrupt(remaining, reason)
            &&& self.timestamp + p.executed(remaining, reason) <= usize::MAX
        }
    }

    /// The state after the running process, if any, accounts for its stop
    /// for `reason` with `remaining` units left, and the clock moves forward
    /// by the time it executed.
    pub open spec fn stopped(self, remaining: usize, reason: StopReason) -> SchedModel {
        match self.running {
            Some(p) => SchedModel {
                running: Some(p.interrupted(remaining, reason)),
                timestamp: (self.timestamp + p.executed(remaining, reason)) as usize,
                ..self
            },
            None => self,
        }
    }

    /// Whether the process with pid 1 ended while processes are left.
    pub open spec fn panics(self) -> bool {
        &&& self.panicd
        &&& (self.ready.len() > 0 || self.sleeping.len() > 0 || self.waiting.len() > 0
            || self.running is Some)
    }
}

/// Every entry that still sleeps is an entry of `s` whose sleeping time is
/// not over.
pub proof fn lemma_still_asleep_members(s: Seq<(PcbView, usize, usize)>)
    ensures
        forall|j: int|
            #![trigger still_asleep(s)[j]]
            0 <= j < still_asleep(s).len() ==> exists|i: int|
                #![trigger s[i]]
                0 <= i < s.len() && still_asleep(s)[j] == s[i] && s[i].2 != 0,
    decreases s.len(),
{
    if s.len() > 0 {
        let t = s.drop_last();
        lemma_still_asleep_members(t);
        assert forall|j: int| #![trigger still_asleep(s)[j]] 0 <= j < still_asleep(s).len() implies exists|i: int|
            #![trigger s[i]]
            0 <= i < s.len() && still_asleep(s)[j] == s[i] && s[i].2 != 0 by {
            if s.last().2 != 0 && j == still_asleep(s).len() - 1 {
                assert(s[s.len() - 1] == s.last());
            } else {
                let i = choose|i: int|
                    #![trigger t[i]]
                    0 <= i < t.len() && still_asleep(t)[j] == t[i] && t[i].2 != 0;
                assert(t[i] == s[i]);
            }
        }
    }
}

/// Every awoken process is a readied process of an entry of `s` whose
/// sleeping time is over.
pub proof fn lemma_awoken_members(s: Seq<(PcbView, usize, usize)>)
    ensures
        forall|j: int|
            #![trigger awoken(s)[j]]
            0 <= j < awoken(s).len() ==> exists|i: int|
                #![trigger s[i]]
                0 <= i < s.len() && awoken(s)[j] == readied(s[i].0) && s[i].2 == 0,
    decreases s.len(),
{
    if s.len() > 0 {
        let t = s.drop_last();
        lemma_awoken_members(t);
        assert forall|j: int| #![trigger awoken(s)[j]] 0 <= j < awoken(s).len() implies exists|i: int|
            #![trigger s[i]]
            0 <= i < s.len() && awoken(s)[j] == readied(s[i].0) && s[i].2 == 0 by {
            if s.last().2 == 0 && j == awoken(s).len() - 1 {
                assert(s[s.len() - 1] == s.last());
            } else {
                let i = choose|i: int|
                    #![trigger t[i]]
                    0 <= i < t.len() && awoken(t)[j] == readied(t[i].0) && t[i].2 == 0;
                assert(t[i] == s[i]);
            }
        }
    }
}

/// Every entry still waiting is an entry of `s` for another event than
/// `event`.
pub proof fn lemma_still_waiting_members(s: Seq<(PcbView, usize)>, event: usize)
    ensures
        forall|j: int|
            #![trigger still_waiting(s, event)[j]]
            0 <= j < still_waiting(s, event).len() ==> exists|i: int|
                #![trigger s[i]]
                0 <= i < s.len() && still_waiting(s, event)[j] == s[i] && s[i].1 != event,
    decreases s.len(),
{
    if s.len() > 0 {
        let t = s.drop_last();
        lemma_still_waiting_members(t, event);
        assert forall|j: int| #![trigger still_waiting(s, event)[j]] 0 <= j < still_waiting(s, event).len() implies exists|i: int|
            #![trigger s[i]]
            0 <= i < s.len() && still_waiting(s, event)[j] == s[i] && s[i].1 != event by {
            if s.last().1 != event && j == still_waiting(s, event).len() - 1 {
                assert(s[s.len() - 1] == s.last());
            } else {
                let i = choose|i: int|
                    #![trigger t[i]]
                    0 <= i < t.len() && still_waiting(t, event)[j] == t[i] && t[i].1 != event;
                assert(t[i] == s[i]);
            }
        }
    }
}

/// Every released process is a readied process of an entry of `s` waiting
/// for `event`.
pub proof fn lemma_released_members(s: Seq<(PcbView, usize)>, event: usize)
    ensures
        forall|j: int|
            #![trigger released(s, event)[j]]
            0 <= j < released(s, event).len() ==> exists|i: int|
                #![trigger s[i]]
                0 <= i < s.len() && released(s, event)[j] == readied(s[i].0) && s[i].1 == event,
    decreases s.len(),
{
    if s.len() > 0 {
        let t = s.drop_last();
        lemma_released_members(t, event);
        assert forall|j: int| #![trigger released(s, event)[j]] 0 <= j < released(s, event).len() implies exists|i: int|
            #![trigger s[i]]
            0 <= i < s.len() && released(s, event)[j] == readied(s[i].0) && s[i].1 == event by {
            if s.last().1 == event && j == released(s, event).len() - 1 {
                assert(s[s.len() - 1] == s.last());
            } else {
                let i = choose|i: int|
                    #![trigger t[i]]
                    0 <= i < t.len() && released(t, event)[j] == readied(t[i].0) && t[i].1 == event;
                assert(t[i] == s[i]);
            }
        }
    }
}

/// The time until the first sleeper wakes: no sleeping entry of `s` wakes
/// sooner, and, unless it is `usize::MAX`, one of them wakes exactly then.
pub proof fn lemma_least_time_to_wake_is_least(s: Seq<(PcbView, usize, usize)>, now: usize)
    ensures
        forall|i: int| 0 <= i < s.len() ==> least_time_to_wake(s, now) <= #[trigger] time_to_wake(s[i], now),
        least_time_to_wake(s, now) <= usize::MAX,
        least_time_to_wake(s, now) == usize::MAX || exists|i: int|
            0 <= i < s.len() && least_time_to_wake(s, now) == #[trigger] time_to_wake(s[i], now),
    decreases s.len(),
{
    if s.len() > 0 {
        let t = s.drop_last();
        lemma_least_time_to_wake_is_least(t, now);
        assert forall|i: int| 0 <= i < s.len() implies least_time_to_wake(s, now) <= #[trigger] time_to_wake(
            s[i],
            now,
        ) by {
            if i < s.len() - 1 {
                assert(s[i] == t[i]);
                assert(least_time_to_wake(t, now) <= time_to_wake(t[i], now));
            }
        }
        if least_time_to_wake(s, now) != usize::MAX {
            if time_to_wake(s.last(), now) < least_time_to_wake(t, now) {
                assert(least_time_to_wake(s, now) == time_to_wake(s[s.len() - 1], now));
            } else {
                let i = choose|i: int|
                    0 <= i < t.len() && least_time_to_wake(t, now) == #[trigger] time_to_wake(t[i], now);
                assert(s[i] == t[i]);
                assert(least_time_to_wake(s, now) == time_to_wake(s[i], now));
            }
        }
    }
}

/// When every sleeper wakes no later than `usize::MAX` from `now`, the time
/// until the first one wakes is that of one of them, and none wakes sooner.
pub proof fn lemma_first_wake_is_a_wake(s: Seq<(PcbView, usize, usize)>, now: usize)
    requires
        s.len() > 0,
        forall|i: int| 0 <= i < s.len() ==> #[trigger] time_to_wake(s[i], now) <= usize::MAX,
    ensures
        forall|i: int| 0 <= i < s.len() ==> least_time_to_wake(s, now) <= #[trigger] time_to_wake(s[i], now),
        exists|i: int| 0 <= i < s.len() && least_time_to_wake(s, now) == #[trigger] time_to_wake(s[i], now),
{
    lemma_least_time_to_wake_is_least(s, now);
    if least_time_to_wake(s, now) == usize::MAX {
        assert(time_to_wake(s[0], now) <= usize::MAX);
        assert(least_time_to_wake(s, now) == time_to_wake(s[0], now));
    }
}

/// The processes released by `event` are those of `s` waiting for it, in
/// the order they began to wait, made ready; those still waiting are the
/// others, in order.
pub proof fn lemma_released_in_order(s: Seq<(PcbView, usize)>, event: usize)
    ensures
        released(s, event) == s.filter(|e: (PcbView, usize)| e.1 == event).map_values(
            |e: (PcbView, usize)| readied(e.0),
        ),
        still_waiting(s, event) == s.filter(|e: (PcbView, usize)| e.1 != event),
    decreases s.len(),
{
    reveal(Seq::filter);
    if s.len() > 0 {
        let t = s.drop_last();
        lemma_released_in_order(t, event);
        assert(s.filter(|e: (PcbView, usize)| e.1 == event) == if s.last().1 == event {
            t.filter(|e: (PcbView, usize)| e.1 == event).push(s.last())
        } else {
            t.filter(|e: (PcbView, usize)| e.1 == event)
        });
        assert(released(s, event) =~= s.filter(|e: (PcbView, usize)| e.1 == event).map_values(
            |e: (PcbView, usize)| readied(e.0),
        ));
        assert(still_waiting(s, event) =~= s.filter(|e: (PcbView, usize)| e.1 != event));
    } else {
        assert(released(s, event) =~= s.filter(|e: (PcbView, usize)| e.1 == event).map_values(
            |e: (PcbView, usize)| readied(e.0),
        ));
    }
}

/// The processes that wake are the sleeping entries of `s` whose sleeping
/// time is over, in the order they fell asleep, made ready; those still
/// asleep are the others, in order.
pub proof fn lemma_awoken_in_order(s: Seq<(PcbView, usize, usize)>)
    ensures
        awoken(s) == s.filter(|e: (PcbView, usize, usize)| e.2 == 0).map_values(
            |e: (PcbView, usize, usize)| readied(e.0),
        ),
        still_asleep(s) == s.filter(|e: (PcbView, usize, usize)| e.2 != 0),
    decreases s.len(),
{
    reveal(Seq::filter);
    if s.len() > 0 {
        let t = s.drop_last();
        lemma_awoken_in_order(t);
        assert(s.filter(|e: (PcbView, usize, usize)| e.2 == 0) == if s.last().2 == 0 {
            t.filter(|e: (PcbView, usize, usize)| e.2 == 0).push(s.last())
        } else {
            t.filter(|e: (PcbView, usize, usize)| e.2 == 0)
        });
        assert(awoken(s) =~= s.filter(|e: (PcbView, usize, usize)| e.2 == 0).map_values(
            |e: (PcbView, usize, usize)| readied(e.0),
        ));
        assert(still_asleep(s) =~= s.filter(|e: (PcbView, usize, usize)| e.2 != 0));
    } else {
        assert(awoken(s) =~= s.filter(|e: (PcbView, usize, usize)| e.2 == 0).map_values(
            |e: (PcbView, usize, usize)| readied(e.0),
        ));
    }
}

/// A signal of `event` puts at the end of the ready queue the processes
/// waiting for it, in the order they began to wait, and leaves the others
/// waiting in order.
pub proof fn lemma_unblocked_in_order(m: SchedModel, event: usize)
    ensures
        m.unblocked(event).ready == m.ready + m.waiting.filter(|e: (PcbView, usize)| e.1 == event).map_values(
            |e: (PcbView, usize)| readied(e.0),
        ),
        m.unblocked(event).waiting == m.waiting.filter(|e: (PcbView, usize)| e.1 != event),
{
    lemma_released_in_order(m.waiting, event);
}

/// Waking puts at the end of the ready queue the sleeping processes whose
/// sleeping time is over, in the order they fell asleep, and leaves the
/// others asleep in order.
pub proof fn lemma_awakened_in_order(m: SchedModel)
    ensures
        m.awakened().ready == m.ready + m.sleeping.filter(|e: (PcbView, usize, usize)| e.2 == 0).map_values(
            |e: (PcbView, usize, usize)| readied(e.0),
        ),
        m.awakened().sleeping == m.sleeping.filter(|e: (PcbView, usize, usize)| e.2 != 0),
{
    lemma_awoken_in_order(m.sleeping);
}

/// The sleepers split into those that wake and those that sleep on.
pub proof fn lemma_sleepers_count(s: Seq<(PcbView, usize, usize)>)
    ensures
        awoken(s).len() + still_asleep(s).len() == s.len(),
    decreases s.len(),
{
    if s.len() > 0 {
        lemma_sleepers_count(s.drop_last());
    }
}

/// The waiters split into those released by `event` and those that wait on.
pub proof fn lemma_waiters_count(s: Seq<(PcbView, usize)>, event: usize)
    ensures
        released(s, event).len() + still_waiting(s, event).len() == s.len(),
    decreases s.len(),
{
    if s.len() > 0 {
        lemma_waiters_count(s.drop_last(), event);
    }
}

/// When every entry wakes at a moment not yet past and its time to wake
/// fits in a usize, the least time to wake is positive and fits too.
pub proof fn lemma_least_time_to_wake_positive(s: Seq<(PcbView, usize, usize)>, now: usize)
    requires
        forall|i: int|
            0 <= i < s.len() ==> 1 <= #[trigger] time_to_wake(s[i], now) <= usize::MAX,
    ensures
        1 <= least_time_to_wake(s, now) <= usize::MAX,
    decreases s.len(),
{
    if s.len() > 0 {
        let t = s.drop_last();
        assert forall|i: int| 0 <= i < t.len() implies 1 <= #[trigger] time_to_wake(t[i], now)
            <= usize::MAX by {
            assert(t[i] == s[i]);
        }
        lemma_least_time_to_wake_positive(t, now);
        assert(time_to_wake(s[s.len() - 1], now) >= 1);
    }
}

/// What a scheduler knows and the elementary changes it makes.
pub trait SchedulerInfo {
    /// The contents of the scheduler.
    spec fn model(&self) -> SchedModel;

    /// The virtual runtime a new process starts with when the scheduler
    /// holds `model`, if the scheduler keeps virtual runtimes.
    spec fn start_vruntime(model: SchedModel) -> Option<usize>;

    /// The current moment.
    fn get_timestamp(&self) -> (r: Timestamp)
        ensures
            r@ == self.model().timestamp,
    ;

    /// Moves the clock `time` units forward.
    fn make_timeskip(&mut self, time: usize)
        requires
            old(self).model().timestamp + time <= usize::MAX,
        ensures
            final(self).model() == (SchedModel {
                timestamp: (old(self).model().timestamp + time) as usize,
                ..old(self).model()
            }),
    ;

    /// The pid the next created process gets.
    fn get_next_pid(&self) -> (r: Pid)
        ensures
            r@ == self.model().next_pid,
    ;

    /// Marks the next pid as used.
    fn inc_next_pid(&mut self)
        requires
            old(self).model().next_pid < usize::MAX,
        ensures
            final(self).model() == (SchedModel {
                next_pid: (old(self).model().next_pid + 1) as usize,
                ..old(self).model()
            }),
    ;

    /// The running process.
    fn get_running(&self) -> (r: Option<GeneralProcess>)
        ensures
            opt_block(r) == self.model().running,
    ;

    /// Sets the running process.
    fn set_running(&mut self, proc: Option<GeneralProcess>)
        ensures
            final(self).model() == (SchedModel { running: opt_block(proc), ..old(self).model() }),
    ;

    /// Whether the process with pid 1 has ended.
    fn get_panicd(&self) -> (r: bool)
        ensures
            r == self.model().panicd,
    ;

    /// Records that the process with pid 1 has ended.
    fn set_panicd(&mut self)
        ensures
            final(self).model() == (SchedModel { panicd: true, ..old(self).model() }),
    ;

    /// Clears the record of the end of the process with pid 1.
    fn reset_panicd(&mut self)
        ensures
            final(self).model() == (SchedModel { panicd: false, ..old(self).model() }),
    ;

    /// The time the scheduler decided to sleep.
    fn get_slept_time(&self) -> (r: usize)
        ensures
            r == self.model().slept_time,
    ;

    /// Records the time the scheduler decided to sleep.
    fn set_slept_time(&mut self, time: usize)
        ensures
            final(self).model() == (SchedModel { slept_time: time, ..old(self).model() }),
    ;

    /// The timeslice given to a launched process.
    fn get_quanta(&self) -> (r: usize)
        ensures
            r == self.model().quanta,
    ;

    /// Takes the first ready process out of the ready queue.
    fn get_next_process(&mut self) -> (r: Option<GeneralProcess>)
        ensures
            old(self).model().ready.len() == 0 ==> r is None && final(self).model() == old(
                self,
            ).model(),
            old(self).model().ready.len() > 0 ==> opt_block(r) == Some(old(self).model().ready[0])
                && final(self).model() == (SchedModel {
                ready: old(self).model().ready.drop_first(),
                ..old(self).model()
            }),
    ;

    /// Puts `proc` to sleep for `time` units, from now.
    fn push_to_sleeping_queue(&mut self, proc: GeneralProcess, time: usize)
        ensures
            final(self).model() == (SchedModel {
                sleeping: old(self).model().sleeping.push((proc@, old(self).model().timestamp, time)),
                ..old(self).model()
            }),
    ;

    /// Makes `proc` wait for `event`.
    fn push_to_waiting_queue(&mut self, proc: GeneralProcess, event: Event)
        ensures
            final(self).model() == (SchedModel {
                waiting: old(self).model().waiting.push((proc@, event@)),
                ..old(self).model()
            }),
    ;

    /// Marks the sleeping processes whose sleeping time has passed.
    fn compute_sleeping_times(&mut self)
        requires
            old(self).model().sleep_starts_past(),
        ensures
            final(self).model() == old(self).model().woken(),
    ;

    /// Computes the time of existence of every process.
    fn compute_total_time(&mut self)
        requires
            old(self).model().arrivals_past(),
        ensures
            final(self).model() == old(self).model().aged_all(),
    ;

    /// Whether a process runs.
    fn has_running_process(&self) -> (r: bool)
        ensures
            r == self.model().running is Some,
    ;

    /// Whether a process is ready.
    fn has_ready_processes(&self) -> (r: bool)
        ensures
            r == (self.model().ready.len() > 0),
    ;

    /// Whether a process sleeps.
    fn has_sleeping_processes(&self) -> (r: bool)
        ensures
            r == (self.model().sleeping.len() > 0),
    ;

    /// Whether a process waits for an event.
    fn has_waiting_processes(&self) -> (r: bool)
        ensures
            r == (self.model().waiting.len() > 0),
    ;

    /// The time until the first sleeping process wakes, or 0 when none
    /// sleeps.
    fn get_time_for_sleep(&self) -> (r: usize)
        requires
            self.model().sleep_ends_ahead(),
        ensures
            r == self.model().time_for_sleep(),
    ;

    /// The virtual runtime a new process starts with.
    fn get_min_vruntime(&self) -> (r: Option<Vruntime>)
        ensures
            vruntime_value(r) == Self::start_vruntime(self.model()),
    ;

    /// Counts one more process, for schedulers whose timeslice depends on
    /// the number of processes; the contents stay as they are.
    fn inc_number(&mut self)
        ensures
            final(self).model() == old(self).model(),
    ;

    /// Counts one process less; the contents stay as they are.
    fn dec_number(&mut self)
        ensures
            final(self).model() == old(self).model(),
    ;

    /// Recomputes the timeslice from the number of processes; the contents
    /// stay as they are.
    fn recompute_quanta(&mut self)
        ensures
            final(self).model() == old(self).model(),
    ;
}

/// How a scheduler creates processes and moves them between its queues.
pub trait ProcessManager: SchedulerInfo {
    /// Creates a process with the next pid, priority `prio`, created now,
    /// with the virtual runtime `opt_vruntime` if given.
    fn spawn_process(&mut self, prio: i8, opt_vruntime: Option<Vruntime>) -> (r: GeneralProcess)
        requires
            old(self).model().next_pid < usize::MAX,
        ensures
            r@ == fresh_block(
                old(self).model().next_pid,
                prio,
                old(self).model().timestamp,
                vruntime_value(opt_vruntime),
            ),
            final(self).model() == (SchedModel {
                next_pid: (old(self).model().next_pid + 1) as usize,
                ..old(self).model()
            }),
    {
        let pid = self.get_next_pid();
        let arrival_time = self.get_timestamp();
        let new_proc: GeneralProcess;
        match opt_vruntime {
            Some(vruntime) => new_proc = GeneralProcess::with_vruntime(pid, prio, arrival_time, vruntime),
            None => new_proc = GeneralProcess::new(pid, prio, arrival_time),
        }
        self.inc_next_pid();
        new_proc
    }

    /// Creates a process with the next pid and priority `prio` and puts it at
    /// the end of the ready queue; returns its pid.
    fn fork(&mut self, prio: i8) -> (r: Pid)
        requires
            old(self).model().next_pid < usize::MAX,
        ensures
            r@ == old(self).model().next_pid,
            final(self).model() == old(self).model().forked(
                prio,
                Self::start_vruntime(old(self).model()),
            ),
    {
        let vruntime = self.get_min_vruntime();
        let mut new_proc = self.spawn_process(prio, vruntime);
        self.inc_number();
        self.recompute_quanta();
        self.enqueue_process(&mut new_proc);
        new_proc.get_pid()
    }

    /// Makes `proc` ready and puts it at the end of the ready queue.
    fn enqueue_process(&mut self, proc: &mut GeneralProcess)
        ensures
            final(proc)@ == readied(old(proc)@),
            final(self).model() == (SchedModel {
                ready: old(self).model().ready.push(readied(old(proc)@)),
                ..old(self).model()
            }),
    ;

    /// Makes the first ready process the running one; no process runs when
    /// none is ready.
    fn dequeue_process(&mut self)
        ensures
            old(self).model().ready.len() == 0 ==> final(self).model() == (SchedModel {
                running: None,
                ..old(self).model()
            }),
            old(self).model().ready.len() > 0 ==> final(self).model() == (SchedModel {
                running: Some(old(self).model().ready[0]),
                ready: old(self).model().ready.drop_first(),
                ..old(self).model()
            }),
    {
        let process = self.get_next_process();
        self.set_running(process);
    }

    /// Puts `proc` to sleep for `time` units.
    fn send_process_to_sleep(&mut self, proc: &mut GeneralProcess, time: usize)
        ensures
            final(proc)@ == (PcbView {
                state: ProcessState::Waiting { event: None },
                ..old(proc)@
            }),
            final(self).model() == (SchedModel {
                sleeping: old(self).model().sleeping.push(
                    (final(proc)@, old(self).model().timestamp, time),
                ),
                ..old(self).model()
            }),
    {
        proc.set_sleeping();
        self.push_to_sleeping_queue(*proc, time);
        self.dec_number();
        self.recompute_quanta();
    }

    /// Moves back to the ready queue the processes whose sleeping time is
    /// over.
    fn awake_processes(&mut self)
        ensures
            final(self).model() == old(self).model().awakened(),
    ;

    /// Makes `proc` wait for `event`.
    fn block_process(&mut self, proc: &mut GeneralProcess, event: Event)
        ensures
            final(proc)@ == (PcbView {
                state: ProcessState::Waiting { event: Some(event@) },
                ..old(proc)@
            }),
            final(self).model() == (SchedModel {
                waiting: old(self).model().waiting.push((final(proc)@, event@)),
                ..old(self).model()
            }),
    {
        proc.wait_for_event(event);
        self.push_to_waiting_queue(*proc, event);
        self.dec_number();
        self.recompute_quanta();
    }

    /// Moves back to the ready queue the processes waiting for `event`.
    fn unblock_processes(&mut self, event: Event)
        ensures
            final(self).model() == old(self).model().unblocked(event@),
    ;

    /// Ends the running process; ending the process with pid 1 is recorded.
    fn kill_running(&mut self) -> (r: SyscallResult)
        ensures
            old(self).model().running is None ==> r == SyscallResult::NoRunningProcess
                && final(self).model() == old(self).model(),
            old(self).model().running matches Some(p) ==> r == SyscallResult::Success
                && final(self).model() == (SchedModel {
                running: None,
                panicd: old(self).model().panicd || p.pid == 1,
                ..old(self).model()
            }),
    {
        if let Some(proc) = self.get_running() {
            if proc.get_pid().get() == 1 {
                self.set_panicd();
            }
            self.dec_number();
            self.recompute_quanta();
            self.set_running(None);
            SyscallResult::Success
        } else {
            SyscallResult::NoRunningProcess
        }
    }
}

/// The decisions a scheduler takes around its own sleep and when no process
/// can run.
pub trait SchedulerActions: ProcessManager {
    /// Records the time to sleep when `decision` is to sleep, 0 otherwise.
    fn decide_sleep(&mut self, decision: SchedulingDecision)
        ensures
            final(self).model() == (SchedModel {
                slept_time: match decision {
                    SchedulingDecision::Sleep(time) => time,
                    _ => 0,
                },
                ..old(self).model()
            }),
    {
        if let SchedulingDecision::Sleep(time) = decision {
            self.set_slept_time(time);
        } else {
            self.set_slept_time(0);
        }
    }

    /// Adds the time the scheduler slept to the clock, then makes ready the
    /// processes whose sleeping time is over.
    fn wakeup_myself(&mut self)
        requires
            old(self).model().timestamp + old(self).model().slept_time <= usize::MAX,
            forall|i: int|
                0 <= i < old(self).model().sleeping.len() ==> #[trigger] old(self).model().sleeping[i].1
                    <= old(self).model().timestamp + old(self).model().slept_time,
        ensures
            final(self).model() == old(self).model().slept_out().woken().awakened(),
    {
        let time = self.get_slept_time();
        if time != 0 {
            self.make_timeskip(time);
            self.set_slept_time(0);
        }
        self.compute_sleeping_times();
        self.awake_processes();
    }

    /// Whether the process with pid 1 ended while processes are left.
    fn is_panicd(&self) -> (r: bool)
        ensures
            r == self.model().panics(),
    {
        if !self.get_panicd() {
            return false;
        }
        if self.has_ready_processes() || self.has_sleeping_processes()
            || self.has_waiting_processes() {
            return true;
        }
        if self.get_running().is_some() {
            return true;
        }
        return false;
    }

    /// The decision when no process runs and none is ready: done when no
    /// process is left, deadlock when all wait for events, otherwise sleep
    /// until the first sleeping process wakes. `None` when a process runs or
    /// is ready.
    fn is_blocked(&self) -> (r: Option<SchedulingDecision>)
        requires
            self.model().running is None && self.model().ready.len() == 0 ==> {
                &&& self.model().sleep_ends_ahead()
                &&& self.model().sleeping.len() > 0 ==> self.model().time_for_sleep() > 0
            },
        ensures
            r == self.model().blocked_decision(),
    {
        if self.get_running().is_some() {
            return None;
        }
        if self.has_ready_processes() {
            return None;
        }
        if !self.has_sleeping_processes() && !self.has_waiting_processes() {
            return Some(SchedulingDecision::Done);
        }
        if !self.has_sleeping_processes() && self.has_waiting_processes() {
            return Some(SchedulingDecision::Deadlock);
        }
        if self.has_sleeping_processes() {
            let time = self.get_time_for_sleep();
            return Some(SchedulingDecision::Sleep(time));
        }
        return None;
    }
}

} // verus!
