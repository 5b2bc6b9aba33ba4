# async_os

The verified core of an asynchronous, coroutine-based kernel: the data
structures and decision procedures of its memory, file-system, task, process
and network layers, each stated by a contract and proved with Verus.

## Layout

- `src/` — the library, verified by Verus.
  - `mm_area.rs`, `mm_set.rs`: memory areas (lazy pages, file backing,
    splitting, cloning) and the address space (`mmap`, `munmap`,
    `mprotect`, `msync`, page faults, shared and private memory segments).
    Moving a mapping (`mremap`) takes two steps, `mremap_prepare` and
    `mremap_finish`, with the copy of the present pages between them done
    by the caller (`app/mm.rs` does the whole move). Page-table edits come
    back as `PtOp` values for the caller to apply.
  - `vfs.rs`, `ramfs.rs`, `devfs.rs`, `mounts.rs`: file-system nodes and
    paths, the in-memory file system, the device file system (`null`,
    `zero`, `random`), and the root directory's mount table and path checks.
  - `task.rs`, `sync.rs`, `stream.rs`: wait queues, task handles, join
    results, the cooperative mutex, and the minimum of a stream.
  - `process.rs`, `proc_table.rs`, `stdio.rs`, `console.rs`, `apps.rs`:
    descriptor tables, waiting for children, exit and clone decisions, the
    process record, the process and task tables with the exit of a task as
    one change, the standard files, line editing, and the user programs'
    argument handling.
  - `listen.rs`, `tcp.rs`, `udp.rs`: the listen table, and the state machines
    of TCP and UDP sockets; the socket engine is driven by the caller, which
    hands its answers in as plain values.
  - `shm.rs`: shared-memory ids and segment tables.
  - `taic_pac.rs`, `taic_queue.rs`, `taic_sched.rs`: the register model of the
    task-aware interrupt controller, its capability tables, and the scheduler
    requests issued to it.
  - `dev.rs`: the random device, seeded from the `rand` crate.
- `tests/` — tests run against the compiled library.
- `app/` — plain Rust around the library: error codes, conversions to and
  from the network engine (`smoltcp`), standard input, the echo server, the
  boot helpers, and the drivers of moving a mapping and of a task's exit.
