//! The process control block of the priority schedulers.

use vstd::prelude::*;

use crate::process_control_block::PcbView;
use crate::{Event, Pid, Process, ProcessState, Timestamp};

verus! {

/// The Priority Round Robin process control block
#[derive(Clone, Copy)]
pub struct PrioRoundRobinPCB {
    /// The PID of the process
    pub pid: Pid,
    /// The priority that process had when it was created
    ///
    /// The priority of the process will never exceed this priority
    /// It cannot be greater than 5
    pub priority_at_born: i8,
    /// The priority of the process
    ///
    /// The priority can't be smaller than 0, or greater than `priority_at_born`
    pub priority: i8,
    /// The state of the process
    pub state: ProcessState,
    /// The timestamp when process was spawned
    pub arrival_time: Timestamp,
    /// The total time of existence
    pub total_time: usize,
    /// The time that process spent executing instructions
    pub exec_time: usize,
    /// The time that process consumed on syscalls, or the
    /// number of syscalls that interrupted the process in all of
    /// his existence
    pub syscall_time: usize,
    /// The maximum time that process can execute instructions, before being
    /// preempted
    pub time_payload: usize,
}

impl View for PrioRoundRobinPCB {
    type V = PcbView;

    open spec fn view(&self) -> PcbView {
        PcbView {
            pid: self.pid@,
            priority: self.priority,
            born: self.priority_at_born,
            state: self.state,
            arrival: self.arrival_time@,
            execution: self.exec_time,
            syscalls: self.syscall_time,
            total: self.total_time,
            payload: self.time_payload,
            vruntime: None,
        }
    }
}

impl PrioRoundRobinPCB {
    /// Creates a new Process Control Block
    ///
    /// * `pid` - PID of the new process
    /// * `priority` - priority of the new process
    /// * `arrival` - timestamp when process is created
    pub fn new(pid: Pid, priority: i8, arrival: Timestamp) -> (r: PrioRoundRobinPCB)
        ensures
            r@ == crate::schedulers::process_block::fresh_block(pid@, priority, arrival@, None),
    {
        PrioRoundRobinPCB {
            pid,
            priority,
            priority_at_born: priority,
            state: ProcessState::Ready,
            arrival_time: arrival,
            total_time: 0,
            exec_time: 0,
            syscall_time: 0,
            time_payload: 0,
        }
    }

    /// Raises the priority by one, up to the priority at creation.
    pub fn inc_priority(&mut self)
        requires
            old(self).priority < i8::MAX,
        ensures
            final(self)@ == (PcbView { priority: old(self)@.raised_priority(), ..old(self)@ }),
    {
        self.priority = self.priority + 1;
        if self.priority > self.priority_at_born {
            self.priority = self.priority_at_born;
        }
    }

    /// Lowers the priority by one, unless it is 0.
    pub fn dec_priority(&mut self)
        requires
            old(self).priority > i8::MIN,
        ensures
            final(self)@ == (PcbView { priority: old(self)@.lowered_priority(), ..old(self)@ }),
    {
        if self.priority == 0 {
            return ;
        }
        self.priority = self.priority - 1;
    }

    /// Sets the state of the process.
    pub fn set_state(&mut self, new_state: ProcessState)
        ensures
            final(self)@ == (PcbView { state: new_state, ..old(self)@ }),
    {
        self.state = new_state;
    }

    /// Marks the process as running.
    pub fn set_running(&mut self)
        ensures
            final(self)@ == (PcbView { state: ProcessState::Running, ..old(self)@ }),
    {
        self.set_state(ProcessState::Running);
    }

    /// Marks the process as sleeping.
    pub fn set_sleeping(&mut self)
        ensures
            final(self)@ == (PcbView { state: ProcessState::Waiting { event: None }, ..old(self)@ }),
    {
        self.set_state(ProcessState::Waiting { event: None });
    }

    /// Marks the process as waiting for `e`.
    pub fn wait_for_event(&mut self, e: Event)
        ensures
            final(self)@ == (PcbView { state: ProcessState::Waiting { event: Some(e@) }, ..old(self)@ }),
    {
        self.set_state(ProcessState::Waiting { event: Some(e.get()) });
    }

    /// Adds `time` to the time spent executing.
    pub fn execute(&mut self, time: usize)
        requires
            old(self).exec_time + time <= usize::MAX,
        ensures
            final(self)@ == (PcbView { execution: (old(self)@.execution + time) as usize, ..old(self)@ }),
    {
        self.exec_time = self.exec_time + time;
    }

    /// Counts one system call.
    pub fn syscall(&mut self)
        requires
            old(self).syscall_time < usize::MAX,
        ensures
            final(self)@ == (PcbView { syscalls: (old(self)@.syscalls + 1) as usize, ..old(self)@ }),
    {
        self.syscall_time = self.syscall_time + 1;
    }

    /// The time the process may run when it is launched.
    pub fn get_payload(&self) -> (r: usize)
        ensures
            r == self.time_payload,
    {
        self.time_payload
    }

    /// Sets the time the process may run when it is launched.
    pub fn load_payload(&mut self, payload: usize)
        ensures
            final(self)@ == (PcbView { payload, ..old(self)@ }),
    {
        self.time_payload = payload;
    }
}

impl Process for PrioRoundRobinPCB {
    fn pid(&self) -> (r: Pid)
        ensures
            r == self.pid,
    {
        self.pid
    }

    fn state(&self) -> (r: ProcessState)
        ensures
            r == self.state,
    {
        self.state
    }

    fn timings(&self) -> (r: (usize, usize, usize))
        ensures
            r == (self.total_time, self.syscall_time, self.exec_time),
    {
        (self.total_time, self.syscall_time, self.exec_time)
    }

    /// The current priority.
    fn priority(&self) -> (r: i8)
        ensures
            r == self.priority,
    {
        self.priority
    }

    /// This block keeps no extra information.
    fn extra(&self) -> (r: String)
        ensures
            r@ == Seq::<char>::empty(),
    {
        String::new()
    }
}

} // verus!
