//! The process control block: what a scheduler keeps about each process.

use vstd::prelude::*;

use crate::{Event, Pid, ProcessState, StopReason, Timestamp};

verus! {

/// The contents of a process control block, as plain values.
pub struct PcbView {
    /// The pid of the process.
    pub pid: usize,
    /// The current priority.
    pub priority: i8,
    /// The priority the process was created with.
    pub born: i8,
    /// The state of the process.
    pub state: ProcessState,
    /// The moment the process was created.
    pub arrival: usize,
    /// The time spent executing instructions.
    pub execution: usize,
    /// The number of system calls made (each costs one time unit).
    pub syscalls: usize,
    /// The time of existence, as last computed.
    pub total: usize,
    /// The time the process may run when it is launched.
    pub payload: usize,
    /// The virtual runtime, for processes that keep one.
    pub vruntime: Option<usize>,
}

impl PcbView {
    /// The priority never exceeds the priority at creation, and never falls
    /// below 0 when the process was created with a non-negative priority.
    pub open spec fn priority_in_range(self) -> bool {
        &&& self.priority <= self.born
        &&& self.born >= 0 ==> self.priority >= 0
    }

    /// The priority after a reward: one more, but not above the priority at
    /// creation.
    pub open spec fn raised_priority(self) -> i8 {
        if self.priority + 1 > self.born {
            self.born
        } else {
            (self.priority + 1) as i8
        }
    }

    /// The priority after a penalty: one less, unless it is already 0.
    pub open spec fn lowered_priority(self) -> i8 {
        if self.priority == 0 {
            0
        } else {
            (self.priority - 1) as i8
        }
    }

    /// The virtual runtime after `time` more time units of running.
    pub open spec fn vruntime_after(self, time: int) -> Option<usize> {
        match self.vruntime {
            Some(v) => Some((v + time) as usize),
            None => None,
        }
    }

    /// The time a process executed before it stopped for `reason` with
    /// `remaining` time units of its payload unused: a system call itself
    /// takes one of the used units.
    pub open spec fn executed(self, remaining: usize, reason: StopReason) -> int {
        match reason {
            StopReason::Syscall { .. } => self.payload - remaining - 1,
            StopReason::Expired => self.payload - remaining,
        }
    }

    /// Whether the process may account for a stop for `reason` with
    /// `remaining` units left: no more than its payload is left (less for a
    /// system call, which takes a unit), and no counter leaves its range.
    pub open spec fn can_account(self, remaining: usize, reason: StopReason) -> bool {
        &&& match reason {
            StopReason::Syscall { .. } => {
                &&& remaining < self.payload
                &&& self.syscalls < usize::MAX
            },
            StopReason::Expired => remaining <= self.payload,
        }
        &&& self.execution + self.executed(remaining, reason) <= usize::MAX
        &&& (self.vruntime matches Some(v) ==> v + (self.payload - remaining) <= usize::MAX)
    }

    /// The block after the process accounted for a stop for `reason` with
    /// `remaining` units left: a system call is counted, the executed time is
    /// added, the virtual runtime grows by the whole used time, and the
    /// remaining units become the payload.
    pub open spec fn accounted(self, remaining: usize, reason: StopReason) -> PcbView {
        PcbView {
            syscalls: if reason is Syscall { (self.syscalls + 1) as usize } else { self.syscalls },
            execution: (self.execution + self.executed(remaining, reason)) as usize,
            vruntime: self.vruntime_after(self.payload - remaining),
            payload: remaining,
            ..self
        }
    }

    /// Whether the process may be stopped for `reason` with `remaining`
    /// units left and have its priority changed: it may account for the
    /// stop, and its priority can move by one.
    pub open spec fn can_interrupt(self, remaining: usize, reason: StopReason) -> bool {
        &&& self.can_account(remaining, reason)
        &&& match reason {
            StopReason::Syscall { .. } => self.priority < i8::MAX,
            StopReason::Expired => self.priority > i8::MIN,
        }
    }

    /// The block after the process stopped for `reason` with `remaining`
    /// units left: it accounts for the stop, and a system call is rewarded
    /// with a higher priority, an expiry penalised with a lower one.
    pub open spec fn interrupted(self, remaining: usize, reason: StopReason) -> PcbView {
        PcbView {
            priority: if reason is Syscall { self.raised_priority() } else { self.lowered_priority() },
            ..self.accounted(remaining, reason)
        }
    }
}

/// Changing the priority after a stop keeps it in range: never above the
/// priority at creation, never below 0 for a process created with a
/// non-negative priority.
pub proof fn lemma_interrupted_priority_in_range(b: PcbView, remaining: usize, reason: StopReason)
    requires
        b.priority_in_range(),
        b.can_interrupt(remaining, reason),
    ensures
        b.interrupted(remaining, reason).priority_in_range(),
{
}

/// The operations of a process control block.
pub trait ProcessControlBlock {
    /// The contents of the block.
    spec fn block(&self) -> PcbView;

    /// The pid of the process.
    fn get_pid(&self) -> (r: Pid)
        ensures
            r@ == self.block().pid,
    ;

    /// The current priority.
    fn get_priority(&self) -> (r: i8)
        ensures
            r == self.block().priority,
    ;

    /// Raises the priority by one, up to the priority at creation.
    fn inc_priority(&mut self)
        requires
            old(self).block().priority < i8::MAX,
        ensures
            final(self).block() == (PcbView {
                priority: old(self).block().raised_priority(),
                ..old(self).block()
            }),
    ;

    /// Lowers the priority by one, unless it is 0.
    fn dec_priority(&mut self)
        requires
            old(self).block().priority > i8::MIN,
        ensures
            final(self).block() == (PcbView {
                priority: old(self).block().lowered_priority(),
                ..old(self).block()
            }),
    ;

    /// The state of the process.
    fn get_state(&self) -> (r: ProcessState)
        ensures
            r == self.block().state,
    ;

    /// Sets the state of the process.
    fn set_state(&mut self, state: ProcessState)
        ensures
            final(self).block() == (PcbView { state, ..old(self).block() }),
    ;

    /// Marks the process as running.
    fn set_running(&mut self)
        ensures
            final(self).block() == (PcbView { state: ProcessState::Running, ..old(self).block() }),
    ;

    /// Marks the process as sleeping.
    fn set_sleeping(&mut self)
        ensures
            final(self).block() == (PcbView {
                state: ProcessState::Waiting { event: None },
                ..old(self).block()
            }),
    ;

    /// Marks the process as waiting for `event`.
    fn wait_for_event(&mut self, event: Event)
        ensures
            final(self).block() == (PcbView {
                state: ProcessState::Waiting { event: Some(event@) },
                ..old(self).block()
            }),
    ;

    /// The moment the process was created.
    fn get_arrival_time(&self) -> (r: Timestamp)
        ensures
            r@ == self.block().arrival,
    ;

    /// Sets the time of existence.
    fn set_total_time(&mut self, time: usize)
        ensures
            final(self).block() == (PcbView { total: time, ..old(self).block() }),
    ;

    /// Adds `time` to the time spent executing.
    fn execute(&mut self, time: usize)
        requires
            old(self).block().execution + time <= usize::MAX,
        ensures
            final(self).block() == (PcbView {
                execution: (old(self).block().execution + time) as usize,
                ..old(self).block()
            }),
    ;

    /// Counts one system call.
    fn syscall(&mut self)
        requires
            old(self).block().syscalls < usize::MAX,
        ensures
            final(self).block() == (PcbView {
                syscalls: (old(self).block().syscalls + 1) as usize,
                ..old(self).block()
            }),
    ;

    /// Adds `time` to the virtual runtime, for processes that keep one.
    fn add_viruntime(&mut self, time: usize)
        requires
            old(self).block().vruntime matches Some(v) ==> v + time <= usize::MAX,
        ensures
            final(self).block() == (PcbView {
                vruntime: old(self).block().vruntime_after(time as int),
                ..old(self).block()
            }),
    ;

    /// The time the process may run when it is launched.
    fn get_payload(&self) -> (r: usize)
        ensures
            r == self.block().payload,
    ;

    /// Sets the time the process may run when it is launched.
    fn load_payload(&mut self, payload: usize)
        ensures
            final(self).block() == (PcbView { payload, ..old(self).block() }),
    ;

    /// Accounts for the stop of the process for `reason`, with `remaining`
    /// units of its payload unused, and returns the time it executed.
    fn get_interrupted(&mut self, remaining: usize, reason: StopReason) -> (r: usize)
        requires
            old(self).block().can_interrupt(remaining, reason),
        ensures
            r == old(self).block().executed(remaining, reason),
            final(self).block() == old(self).block().interrupted(remaining, reason),
    ;
}

} // verus!
