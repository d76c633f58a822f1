//! The process control block of the fair scheduler: every process keeps a
//! virtual runtime.

use vstd::prelude::*;

use crate::common_types::{vruntime_text, vruntime_text_spec};
use crate::process_control_block::PcbView;
use crate::{Event, Pid, Process, ProcessState, Timestamp, Vruntime};

verus! {

/// The process control block of the fair scheduler.
#[derive(Clone, Copy)]
pub struct FairPCB {
    /// The pid of the process.
    pub pid: Pid,
    /// The priority of the process.
    pub priority: i8,
    /// The state of the process.
    pub state: ProcessState,
    /// The virtual runtime of the process.
    pub vruntime: Vruntime,
    /// The moment the process was created.
    pub arrival_time: Timestamp,
    /// The time of existence, as last computed.
    pub total_time: usize,
    /// The time spent executing instructions.
    pub exec_time: usize,
    /// The number of system calls made.
    pub syscall_time: usize,
    /// The time the process may run when it is launched.
    pub time_payload: usize,
}

impl View for FairPCB {
    type V = PcbView;

    open spec fn view(&self) -> PcbView {
        PcbView {
            pid: self.pid@,
            priority: self.priority,
            born: self.priority,
            state: self.state,
            arrival: self.arrival_time@,
            execution: self.exec_time,
            syscalls: self.syscall_time,
            total: self.total_time,
            payload: self.time_payload,
            vruntime: Some(self.vruntime@),
        }
    }
}

impl FairPCB {
    /// Creates a ready process with pid `pid`, priority `priority`, created at
    /// `arrival_time`, with virtual runtime `vruntime`.
    pub fn new(pid: Pid, priority: i8, arrival_time: Timestamp, vruntime: Vruntime) -> (r: FairPCB)
        ensures
            r@ == crate::schedulers::process_block::fresh_block(
                pid@,
                priority,
                arrival_time@,
                Some(vruntime@),
            ),
    {
        FairPCB {
            pid,
            priority,
            state: ProcessState::Ready,
            vruntime,
            arrival_time,
            total_time: 0,
            exec_time: 0,
            syscall_time: 0,
            time_payload: 0,
        }
    }

    /// The fair scheduler does not reward system calls with priority.
    pub fn inc_priority(&mut self)
        ensures
            *final(self) == *old(self),
    {
    }

    /// The fair scheduler does not penalise expiry with priority.
    pub fn dec_priority(&mut self)
        ensures
            *final(self) == *old(self),
    {
    }

    /// Sets the state of the process.
    pub fn set_state(&mut self, new_state: ProcessState)
        ensures
            final(self)@ == (PcbView { state: new_state, ..old(self)@ }),
    {
        self.state = new_state;
    }

    /// Marks the process as running.
    pub fn set_running(&mut self)
        ensures
            final(self)@ == (PcbView { state: ProcessState::Running, ..old(self)@ }),
    {
        self.state = ProcessState::Running;
    }

    /// Marks the process as sleeping.
    pub fn set_sleeping(&mut self)
        ensures
            final(self)@ == (PcbView { state: ProcessState::Waiting { event: None }, ..old(self)@ }),
    {
        self.state = ProcessState::Waiting { event: None };
    }

    /// Marks the process as waiting for `e`.
    pub fn wait_for_event(&mut self, e: Event)
        ensures
            final(self)@ == (PcbView { state: ProcessState::Waiting { event: Some(e@) }, ..old(self)@ }),
    {
        self.state = ProcessState::Waiting { event: Some(e.get()) };
    }

    /// Counts one system call.
    pub fn syscall(&mut self)
        requires
            old(self).syscall_time < usize::MAX,
        ensures
            final(self)@ == (PcbView { syscalls: (old(self)@.syscalls + 1) as usize, ..old(self)@ }),
    {
        self.syscall_time = self.syscall_time + 1;
    }

    /// Adds `time` to the time spent executing.
    pub fn execute(&mut self, time: usize)
        requires
            old(self).exec_time + time <= usize::MAX,
        ensures
            final(self)@ == (PcbView { execution: (old(self)@.execution + time) as usize, ..old(self)@ }),
    {
        self.exec_time = self.exec_time + time;
    }

    /// The time the process may run when it is launched.
    pub fn get_payload(&self) -> (r: usize)
        ensures
            r == self.time_payload,
    {
        self.time_payload
    }

    /// Sets the time the process may run when it is launched.
    pub fn load_payload(&mut self, payload: usize)
        ensures
            final(self)@ == (PcbView { payload, ..old(self)@ }),
    {
        self.time_payload = payload;
    }
}

impl Process for FairPCB {
    fn pid(&self) -> (r: Pid)
        ensures
            r == self.pid,
    {
        self.pid
    }

    fn state(&self) -> (r: ProcessState)
        ensures
            r == self.state,
    {
        self.state
    }

    fn timings(&self) -> (r: (usize, usize, usize))
        ensures
            r == (self.total_time, self.syscall_time, self.exec_time),
    {
        (self.total_time, self.syscall_time, self.exec_time)
    }

    fn priority(&self) -> (r: i8)
        ensures
            r == self.priority,
    {
        self.priority
    }

    /// `vruntime=` and the virtual runtime.
    fn extra(&self) -> (r: String)
        ensures
            r@ == vruntime_text_spec(self.vruntime@ as nat),
    {
        vruntime_text(self.vruntime.get())
    }
}

} // verus!
