//! Listing the processes of a scheduler, grouped by state.

use vstd::prelude::*;

use crate::scheduler::Process;

verus! {

/// A scheduler that can list its processes, grouped by state.
pub trait Collector {
    /// The process control block kept by the scheduler.
    type Item: Process;

    /// The running process, if any, as a sequence.
    spec fn running_items(&self) -> Seq<Self::Item>;

    /// The ready processes.
    spec fn ready_items(&self) -> Seq<Self::Item>;

    /// The sleeping processes.
    spec fn sleeping_items(&self) -> Seq<Self::Item>;

    /// The processes waiting for an event.
    spec fn waiting_items(&self) -> Seq<Self::Item>;

    /// Returns a list of running processes
    fn collect_running(&self) -> (r: Vec<Self::Item>)
        ensures
            r@ == self.running_items(),
    ;

    /// Returns a list of ready processes
    fn collect_ready(&self) -> (r: Vec<Self::Item>)
        ensures
            r@ == self.ready_items(),
    ;

    /// Returns a list of sleeping processes
    fn collect_sleeping(&self) -> (r: Vec<Self::Item>)
        ensures
            r@ == self.sleeping_items(),
    ;

    /// Returns a list of waiting processes
    fn collect_waiting(&self) -> (r: Vec<Self::Item>)
        ensures
            r@ == self.waiting_items(),
    ;
}

/// Every process of the scheduler: the running one, then the ready, the
/// sleeping and the waiting ones.
pub open spec fn all_items<C: Collector>(scheduler: &C) -> Seq<C::Item> {
    scheduler.running_items() + scheduler.ready_items() + scheduler.sleeping_items()
        + scheduler.waiting_items()
}

/// Lists every process of `scheduler`: the running one, then the ready, the
/// sleeping and the waiting ones.
pub fn collect_all<C: Collector>(scheduler: &C) -> (r: Vec<C::Item>)
    ensures
        r@ == all_items(scheduler),
{
    let mut procs: Vec<C::Item> = Vec::new();
    let mut running = scheduler.collect_running();
    procs.append(&mut running);
    let mut ready = scheduler.collect_ready();
    procs.append(&mut ready);
    let mut sleeping = scheduler.collect_sleeping();
    procs.append(&mut sleeping);
    let mut waiting = scheduler.collect_waiting();
    procs.append(&mut waiting);
    assert(procs@ =~= all_items(scheduler));
    procs
}

} // verus!
