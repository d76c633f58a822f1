//! The schedulers and their process control blocks.

pub mod process_block;
pub use process_block::GeneralProcess;

pub mod round_robin;
pub use round_robin::RoundRobinScheduler;

pub mod round_robin_pcb;
pub use round_robin_pcb::RoundRobinPCB;

pub mod cfs_pcb;
pub use cfs_pcb::FairPCB;

pub mod cfs;
pub use cfs::FairScheduler;

pub mod priority_rr_pcb;
pub use priority_rr_pcb::PrioRoundRobinPCB;

pub mod ready_queues;

pub mod queue_ops;

pub mod priority_queue;
pub use priority_queue::PriorityQueueScheduler;

pub mod priority_round_robin;
pub use priority_round_robin::PriorityRRScheduler;

pub mod round_robin_old;

pub mod prio_pids;
