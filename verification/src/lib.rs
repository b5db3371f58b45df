//! System-call handling of a small teaching kernel: per-task system-call
//! statistics, the dispatcher, and the process and memory calls (`mmap`,
//! `munmap`, `trace`, `get_time`, `sbrk`, `yield`, `exit`), over a model of the
//! current task's page table, the frame allocator and physical memory.
use vstd::prelude::*;

pub mod config;
pub mod laws;
pub mod mm;
pub mod syscall;

verus! {

} // verus!
