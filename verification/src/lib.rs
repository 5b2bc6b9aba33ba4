//! Verified core of an asynchronous kernel: the TAIC interrupt-controller
//! register model and capability tables, an in-memory file system, process
//! address-space bookkeeping, and the small decision procedures of the task,
//! I/O and network layers.
use vstd::prelude::*;

pub mod taic_pac;
pub mod vfs;
pub mod ramfs;
pub mod mm_area;
pub mod mm_set;
pub mod taic_queue;
pub mod taic_sched;
pub mod task;
pub mod dev;
pub mod devfs;
pub mod apps;
pub mod process;
pub mod console;
pub mod listen;
pub mod mounts;
pub mod stream;
pub mod tcp;
pub mod udp;
pub mod sync;
pub mod shm;
pub mod stdio;
pub mod vdso;
pub mod proc_table;

verus! {

} // verus!
