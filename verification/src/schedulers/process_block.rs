//! The process control block shared by the round robin scheduler and the
//! scheduler traits.

use vstd::prelude::*;

use crate::common_types::{vruntime_text, vruntime_text_spec};
use crate::process_control_block::PcbView;
use crate::{Event, Pid, Process, ProcessControlBlock, ProcessState, StopReason, Timestamp, Vruntime};

verus! {

/// A process control block that may keep a virtual runtime.
#[derive(Clone, Copy)]
pub struct GeneralProcess {
    pid: Pid,
    priority: i8,
    priority_at_born: i8,
    state: ProcessState,
    arrival_time: Timestamp,
    execution_time: usize,
    syscall_time: usize,
    total_time: usize,
    time_payload: usize,
    vruntime: Option<Vruntime>,
}

impl View for GeneralProcess {
    type V = PcbView;

    closed spec fn view(&self) -> PcbView {
        PcbView {
            pid: self.pid@,
            priority: self.priority,
            born: self.priority_at_born,
            state: self.state,
            arrival: self.arrival_time@,
            execution: self.execution_time,
            syscalls: self.syscall_time,
            total: self.total_time,
            payload: self.time_payload,
            vruntime: match self.vruntime {
                Some(v) => Some(v@),
                None => None,
            },
        }
    }
}

/// The block of a process just created with pid `pid`, priority `prio`, at
/// moment `arrival`, with virtual runtime `vruntime` if it keeps one.
pub open spec fn fresh_block(pid: usize, prio: i8, arrival: usize, vruntime: Option<usize>) -> PcbView {
    PcbView {
        pid,
        priority: prio,
        born: prio,
        state: ProcessState::Ready,
        arrival,
        execution: 0,
        syscalls: 0,
        total: 0,
        payload: 0,
        vruntime,
    }
}

impl GeneralProcess {
    /// Creates a ready process without a virtual runtime.
    pub fn new(pid: Pid, prio: i8, timestamp: Timestamp) -> (r: Self)
        ensures
            r@ == fresh_block(pid@, prio, timestamp@, None),
    {
        GeneralProcess {
            pid,
            priority: prio,
            priority_at_born: prio,
            state: ProcessState::Ready,
            arrival_time: timestamp,
            execution_time: 0,
            syscall_time: 0,
            total_time: 0,
            time_payload: 0,
            vruntime: None,
        }
    }

    /// Creates a ready process with the virtual runtime `vruntime`.
    pub fn with_vruntime(pid: Pid, prio: i8, timestamp: Timestamp, vruntime: Vruntime) -> (r: Self)
        ensures
            r@ == fresh_block(pid@, prio, timestamp@, Some(vruntime@)),
    {
        GeneralProcess {
            pid,
            priority: prio,
            priority_at_born: prio,
            state: ProcessState::Ready,
            arrival_time: timestamp,
            execution_time: 0,
            syscall_time: 0,
            total_time: 0,
            time_payload: 0,
            vruntime: Some(vruntime),
        }
    }
}

impl Process for GeneralProcess {
    fn pid(&self) -> (r: Pid)
        ensures
            r@ == self@.pid,
    {
        self.pid
    }

    fn state(&self) -> (r: ProcessState)
        ensures
            r == self@.state,
    {
        self.state
    }

    fn timings(&self) -> (r: (usize, usize, usize))
        ensures
            r == (self@.total, self@.syscalls, self@.execution),
    {
        (self.total_time, self.syscall_time, self.execution_time)
    }

    /// The priority the process was created with.
    fn priority(&self) -> (r: i8)
        ensures
            r == self@.born,
    {
        self.priority_at_born
    }

    /// `vruntime=` and the virtual runtime, or nothing when the process keeps
    /// none.
    fn extra(&self) -> (r: String)
        ensures
            self@.vruntime matches Some(v) ==> r@ == vruntime_text_spec(v as nat),
            self@.vruntime is None ==> r@ == Seq::<char>::empty(),
    {
        if let Some(vruntime) = self.vruntime {
            vruntime_text(vruntime.get())
        } else {
            String::new()
        }
    }
}

impl ProcessControlBlock for GeneralProcess {
    open spec fn block(&self) -> PcbView {
        self@
    }

    fn get_pid(&self) -> (r: Pid) {
        let r = self.pid;
        assert(r@ == self@.pid);
        assert(r@ == self.block().pid);
        r
    }

    fn get_priority(&self) -> (r: i8) {
        self.priority
    }

    fn inc_priority(&mut self) {
        self.priority = self.priority + 1;
        if self.priority > self.priority_at_born {
            self.priority = self.priority_at_born;
        }
    }

    fn dec_priority(&mut self) {
        if self.priority == 0 {
            return ;
        }
        self.priority = self.priority - 1;
    }

    fn get_state(&self) -> (r: ProcessState) {
        self.state
    }

    fn set_state(&mut self, state: ProcessState) {
        self.state = state;
    }

    fn set_running(&mut self) {
        self.set_state(ProcessState::Running);
    }

    fn set_sleeping(&mut self) {
        self.set_state(ProcessState::Waiting { event: None });
    }

    fn wait_for_event(&mut self, event: Event) {
        self.set_state(ProcessState::Waiting { event: Some(event.get()) });
    }

    fn get_arrival_time(&self) -> (r: Timestamp) {
        self.arrival_time
    }

    fn set_total_time(&mut self, time: usize) {
        self.total_time = time;
    }

    fn syscall(&mut self) {
        self.syscall_time = self.syscall_time + 1;
    }

    fn execute(&mut self, time: usize) {
        self.execution_time = self.execution_time + time;
    }

    fn add_viruntime(&mut self, time: usize) {
        if self.vruntime.is_none() {
            return ;
        }
        if let Some(runtime) = self.vruntime {
            self.vruntime = Some(runtime.add(time));
        }
    }

    fn get_payload(&self) -> (r: usize) {
        self.time_payload
    }

    fn load_payload(&mut self, payload: usize) {
        self.time_payload = payload;
    }

    fn get_interrupted(&mut self, remaining: usize, reason: StopReason) -> (r: usize) {
        let exec_time: usize;
        if let StopReason::Syscall { .. } = reason {
            self.syscall();
            self.inc_priority();
            exec_time = self.get_payload() - remaining - 1;
            self.add_viruntime(exec_time + 1);
        } else {
            self.dec_priority();
            exec_time = self.get_payload() - remaining;
            self.add_viruntime(exec_time);
        }
        self.execute(exec_time);
        self.load_payload(remaining);
        exec_time
    }
}

} // verus!
