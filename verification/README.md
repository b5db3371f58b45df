# os_syscall

The system-call layer of a small RISC-V teaching kernel, verified with Verus.

- `src/syscall/mod.rs`: the system-call numbers, per-task call counts
  (`SyscallStats`), and the dispatcher `syscall`, which counts a call and
  carries it out, or says what is left to the scheduler, the file system or
  the heap (`SyscallOutcome`).
- `src/syscall/process.rs`: `sys_mmap`, `sys_munmap`, `sys_trace`,
  `sys_get_time`, `sys_sbrk`, `sys_yield`, `sys_exit`, each with a contract
  given by a spec function (`mmap_outcome`, `munmap_outcome`, ...).
- `src/mm/`: the memory these calls work on: page-table entries and the
  current task's page table, a stack allocator of physical frames, and
  physical memory byte by byte.
- `src/laws.rs`: properties across calls, such as `munmap` undoing `mmap`, a
  `trace` write reading back, and fresh mappings reading as zero.
