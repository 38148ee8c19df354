# lib

The bookkeeping and decision logic of a small x86_64 kernel, written in Verus and
verified against its contracts: error numbers, signal state and delivery, signal frames,
the process manager and its scheduling decisions, clone, interval timers, memory
mappings, timer files, System V shared memory, event files, pidfds, poll and select,
pseudo-terminals, inotify, netlink and unix sockets, mount namespaces, sysfs and procfs
contents.

The crate holds no hardware, memory or device access, and this repository holds no code
that performs any. Where an operation needs such access, the library decides and hands
back a plan; carrying it out is left to whatever kernel embeds the library, which is
expected to do as follows:

- `arch::x86_64::signal::deliver_signal_to_user` returns the bytes to write to the user
  stack, the handler's register context and the new blocked mask; the caller writes the
  bytes, installs the context and passes the mask to `SignalState::set_blocked_mask`.
- `process::manager::ProcessManager::take_for_dispatch`, `settle_dispatch` and
  `settle_run` take a task off a CPU's run queue and decide what it does next; the caller
  runs it, queues the signals handed back into its `SignalState`, and feeds the pairs
  pushed to `runnable` to the run queues.
- `prepare_clone` returns a `ClonePlan`; the caller copies the address space, files and
  signal handlers, performs the tid writes, and registers the child with
  `insert_cloned_process`.
- `fs::shm::SysvShmRegistry::shmat_request` returns what to map; the caller maps it and
  records it with `record_attach`.
- `fs::timerfd::wake_expired_class` returns the timer files whose readers are to be woken;
  `net::netlink::NetlinkSockets::publish_kobject_uevent` returns the sockets whose readers
  are to be woken.
- `process::robust::RobustListWalk` asks for each robust-list word to read and hands back
  the futex words to release.

Tests are under `tests/`, one file per area.
