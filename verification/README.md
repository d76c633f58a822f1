# scheduler

A library of verified process schedulers: round robin, priority queue,
priority round robin and a simplified completely fair scheduler. Each
scheduler answers `stop` (a system call or an expired timeslice of the
running process), `next` (what the processor does next) and `list` (every
process it holds), and states in its contracts, over a model of plain
values, what each call returns and how it changes the scheduler.

- `src/scheduler.rs`: pids, process states, system calls, decisions and the
  `Scheduler` and `Process` traits.
- `src/common_types.rs`, `src/process_control_block.rs`: timestamps, events,
  virtual runtimes and the model of a process control block.
- `src/scheduler_info.rs`, `src/common_funcs.rs`, `src/collector.rs`: the
  model shared by the schedulers built on `SchedulerActions`, and the
  handling of forks, exits and expiries they share.
- `src/schedulers/`: the schedulers and their process control blocks.
- `src/pids.rs`, `src/schedulers/prio_pids.rs`: the pids a scheduler holds,
  and the proofs that every process keeps its own pid.
