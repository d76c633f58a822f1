//! A process control block with public fields, for a round robin policy.

use vstd::prelude::*;

use crate::process_control_block::PcbView;
use crate::{Pid, Process, ProcessState};

verus! {

/// The Round Robin Scheduler process control block
#[derive(Clone, Copy)]
pub struct RoundRobinPCB {
    /// The pid of the process
    pub pid: Pid,
    /// The priority of the process
    ///
    /// The Round Robin Algorithm ignores the priorities
    pub priority: i8,
    /// The state of the process
    pub state: ProcessState,
    /// The time when process spawned
    pub arrival_time: usize,
    /// The process time of existence
    pub total_time: usize,
    /// The time that process spent in execution
    pub exec_time: usize,
    /// The time that process spent on syscalls
    pub syscall_time: usize,
    /// The maximum time that the process can be in
    /// `running` state, when it is launched
    ///
    /// The payload is set before running the process
    pub time_payload: usize,
}

impl View for RoundRobinPCB {
    type V = PcbView;

    open spec fn view(&self) -> PcbView {
        PcbView {
            pid: self.pid@,
            priority: self.priority,
            born: self.priority,
            state: self.state,
            arrival: self.arrival_time,
            execution: self.exec_time,
            syscalls: self.syscall_time,
            total: self.total_time,
            payload: self.time_payload,
            vruntime: None,
        }
    }
}

impl RoundRobinPCB {
    /// Creates a new Process Control Block
    ///
    /// * `pid` - pid of the new process
    /// * `priority` - priority of the new process
    /// * `arrival` - the timestamp when process was spawned
    pub fn new(pid: Pid, priority: i8, arrival: usize) -> (r: RoundRobinPCB)
        ensures
            r@ == (PcbView {
                pid: pid@,
                priority,
                born: priority,
                state: ProcessState::Ready,
                arrival,
                execution: 0,
                syscalls: 0,
                total: 0,
                payload: 0,
                vruntime: None,
            }),
    {
        RoundRobinPCB {
            pid,
            priority,
            state: ProcessState::Ready,
            arrival_time: arrival,
            total_time: 0,
            exec_time: 0,
            syscall_time: 0,
            time_payload: 0,
        }
    }

    /// Set the Process Control Block state to `new_state`
    ///
    /// * `new_state` - new state of the process
    pub fn set_state(&mut self, new_state: ProcessState)
        ensures
            final(self)@ == (PcbView { state: new_state, ..old(self)@ }),
    {
        self.state = new_state;
    }

    /// Set the process state to `Running`
    pub fn set_run(&mut self)
        ensures
            final(self)@ == (PcbView { state: ProcessState::Running, ..old(self)@ }),
    {
        self.state = ProcessState::Running;
    }

    /// Set the process state to `Waiting(None)`, which indicates that a process
    /// is in sleep state
    pub fn set_sleep(&mut self)
        ensures
            final(self)@ == (PcbView { state: ProcessState::Waiting { event: None }, ..old(self)@ }),
    {
        self.state = ProcessState::Waiting { event: None };
    }

    /// Set the process state to `Waiting(event)`, which indicates the process is
    /// waiting for `event` to happen
    pub fn wait_for_event(&mut self, event: usize)
        ensures
            final(self)@ == (PcbView {
                state: ProcessState::Waiting { event: Some(event) },
                ..old(self)@
            }),
    {
        self.state = ProcessState::Waiting { event: Some(event) };
    }

    /// Add the `time` to the total time that the process spent executing
    ///
    /// * `time` - time that process spent doing instructions
    pub fn execute(&mut self, time: usize)
        requires
            old(self).exec_time + time <= usize::MAX,
        ensures
            final(self)@ == (PcbView { execution: (old(self)@.execution + time) as usize, ..old(self)@ }),
    {
        self.exec_time = self.exec_time + time;
    }

    /// Increase the time that the process spent sending syscalls
    ///
    /// Counts a new syscall
    pub fn syscall(&mut self)
        requires
            old(self).syscall_time < usize::MAX,
        ensures
            final(self)@ == (PcbView { syscalls: (old(self)@.syscalls + 1) as usize, ..old(self)@ }),
    {
        self.syscall_time = self.syscall_time + 1;
    }

    /// Sets the time the process may run when it is launched.
    pub fn load_payload(&mut self, payload: usize)
        ensures
            final(self)@ == (PcbView { payload, ..old(self)@ }),
    {
        self.time_payload = payload;
    }
}

impl Process for RoundRobinPCB {
    fn pid(&self) -> (r: Pid)
        ensures
            r == self.pid,
    {
        self.pid
    }

    fn state(&self) -> (r: ProcessState)
        ensures
            r == self.state,
    {
        self.state
    }

    fn timings(&self) -> (r: (usize, usize, usize))
        ensures
            r == (self.total_time, self.syscall_time, self.exec_time),
    {
        (self.total_time, self.syscall_time, self.exec_time)
    }

    fn priority(&self) -> (r: i8)
        ensures
            r == self.priority,
    {
        self.priority
    }

    /// This block keeps no extra information.
    fn extra(&self) -> (r: String)
        ensures
            r@ == Seq::<char>::empty(),
    {
        String::new()
    }
}

} // verus!
