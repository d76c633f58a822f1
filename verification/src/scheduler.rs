//! The vocabulary shared by every scheduler: process identifiers, process
//! states, the system calls a process can make, the reasons a process stops
//! and the decisions a scheduler takes.

use vstd::prelude::*;

verus! {

/// The identifier of a process.
#[derive(Clone, Copy, Debug, PartialEq, Eq, Structural)]
pub struct Pid(usize);

impl View for Pid {
    type V = usize;

    closed spec fn view(&self) -> usize {
        self.0
    }
}

/// Two identifiers are equal exactly when their numbers are.
pub proof fn lemma_pid_view_injective(a: Pid, b: Pid)
    ensures
        (a@ == b@) <==> a == b,
{
}

impl Pid {
    /// Builds the identifier with number `pid`.
    pub fn new(pid: usize) -> (r: Pid)
        ensures
            r@ == pid,
    {
        Pid(pid)
    }

    /// The number of this identifier.
    pub fn get(&self) -> (r: usize)
        ensures
            r == self@,
    {
        self.0
    }

    /// The identifier that follows this one by `n`.
    pub fn add(self, n: usize) -> (r: Pid)
        requires
            self@ + n <= usize::MAX,
        ensures
            r@ == self@ + n,
    {
        Pid(self.0 + n)
    }
}

/// The state of a process.
#[derive(Clone, Copy, Debug, PartialEq, Eq, Structural)]
pub enum ProcessState {
    /// The process waits in a ready queue.
    Ready,
    /// The process owns the processor.
    Running,
    /// The process sleeps (`event` is `None`) or waits for `event`.
    Waiting { event: Option<usize> },
}

/// A system call made by the running process.
#[derive(Clone, Copy, Debug, PartialEq, Eq, Structural)]
pub enum Syscall {
    /// Creates a new process with the given priority.
    Fork(i8),
    /// Puts the process to sleep for the given number of time units.
    Sleep(usize),
    /// Blocks the process until the given event is signaled.
    Wait(usize),
    /// Signals the given event.
    Signal(usize),
    /// Ends the process.
    Exit,
}

/// Why the running process stopped.
#[derive(Clone, Copy, Debug, PartialEq, Eq, Structural)]
pub enum StopReason {
    /// The process made a system call; `remaining` time units of its
    /// timeslice were left unused.
    Syscall { syscall: Syscall, remaining: usize },
    /// The timeslice of the process ran out.
    Expired,
}

/// What the processor does next.
///
/// `timeslice` and the sleeping time are never zero.
#[derive(Clone, Copy, Debug, PartialEq, Eq, Structural)]
pub enum SchedulingDecision {
    /// Run process `pid` for at most `timeslice` time units.
    Run { pid: Pid, timeslice: usize },
    /// Sleep for the given number of time units.
    Sleep(usize),
    /// Every process left waits for an event that nobody can signal.
    Deadlock,
    /// The process with pid 1 ended while other processes were still alive.
    Panic,
    /// No process is left.
    Done,
}

/// The answer of the scheduler to a stopped process.
#[derive(Clone, Copy, Debug, PartialEq, Eq, Structural)]
pub enum SyscallResult {
    /// The pid of the process created by a fork.
    Pid(Pid),
    /// The call was handled.
    Success,
    /// There was no running process.
    NoRunningProcess,
}

/// What a scheduler reports about one of its processes.
pub trait Process {
    /// The pid of the process.
    fn pid(&self) -> Pid;

    /// The state of the process.
    fn state(&self) -> ProcessState;

    /// The total time of existence, the time spent on system calls and the
    /// time spent executing, in this order.
    fn timings(&self) -> (usize, usize, usize);

    /// The priority of the process.
    fn priority(&self) -> i8;

    /// Extra information about the process, as text.
    fn extra(&self) -> String;
}

/// A process scheduler.
///
/// Each scheduler states in its own contracts what the three operations do;
/// `stop_allowed`, `next_allowed` and `list_allowed` say which calls it
/// accepts.
pub trait Scheduler {
    /// The process control block kept by the scheduler.
    type Proc: Process;

    /// Whether `stop(reason)` may be called in this state.
    spec fn stop_allowed(&self, reason: StopReason) -> bool;

    /// Whether `next()` may be called in this state.
    spec fn next_allowed(&self) -> bool;

    /// Whether `list()` may be called in this state.
    spec fn list_allowed(&self) -> bool;

    /// Handles the stop of the running process.
    fn stop(&mut self, reason: StopReason) -> SyscallResult
        requires
            old(self).stop_allowed(reason),
    ;

    /// Decides what the processor does next.
    fn next(&mut self) -> SchedulingDecision
        requires
            old(self).next_allowed(),
    ;

    /// Lists every process of the scheduler.
    fn list(&mut self) -> Vec<Self::Proc>
        requires
            old(self).list_allowed(),
    ;
}

} // verus!
