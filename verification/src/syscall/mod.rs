//! The single entry point to all system calls, [`syscall`], and the per-task
//! statistics of how often each system call was made.
//!
//! Each system call is implemented as its own function, named `sys_` then the
//! name of the call, in the submodule [`process`].
use vstd::prelude::*;

pub mod process;

use crate::mm::UserMemory;
use process::{
    get_time_outcome, mmap_outcome, munmap_outcome, sys_exit, sys_get_time, sys_mmap, sys_munmap,
    sys_trace, sys_yield, trace_outcome,
};

verus! {

/// write syscall
pub const SYSCALL_WRITE: usize = 64;
/// exit syscall
pub const SYSCALL_EXIT: usize = 93;
/// yield syscall
pub const SYSCALL_YIELD: usize = 124;
/// gettime syscall
pub const SYSCALL_GET_TIME: usize = 169;
/// trace syscall
pub const SYSCALL_TRACE: usize = 410;
/// mmap syscall
pub const SYSCALL_MMAP: usize = 222;
/// munmap syscall
pub const SYSCALL_MUNMAP: usize = 215;
/// sbrk syscall
pub const SYSCALL_SBRK: usize = 214;

/// Number of system calls whose invocations are counted.
pub const NUM_TRACKED: usize = 6;

/// The system calls whose invocations are counted, in the order in which a
/// [`SyscallStats`] keeps them. `mmap` and `munmap` are not among them.
pub open spec fn tracked_key(i: int) -> usize {
    if i == 0 {
        SYSCALL_WRITE
    } else if i == 1 {
        SYSCALL_EXIT
    } else if i == 2 {
        SYSCALL_YIELD
    } else if i == 3 {
        SYSCALL_GET_TIME
    } else if i == 4 {
        SYSCALL_TRACE
    } else {
        SYSCALL_SBRK
    }
}

/// Whether invocations of the system call `id` are counted.
pub open spec fn is_tracked(id: usize) -> bool {
    exists|i: int| 0 <= i < NUM_TRACKED && tracked_key(i) == id
}

/// Position of a counted system call in a [`SyscallStats`].
pub open spec fn tracked_index(id: usize) -> int {
    choose|i: int| 0 <= i < NUM_TRACKED && tracked_key(i) == id
}

/// The counted system call at position `i`, as an executable function.
fn tracked_key_at(i: usize) -> (id: usize)
    requires
        i < NUM_TRACKED,
    ensures
        id == tracked_key(i as int),
{
    if i == 0 {
        SYSCALL_WRITE
    } else if i == 1 {
        SYSCALL_EXIT
    } else if i == 2 {
        SYSCALL_YIELD
    } else if i == 3 {
        SYSCALL_GET_TIME
    } else if i == 4 {
        SYSCALL_TRACE
    } else {
        SYSCALL_SBRK
    }
}

/// What is left to do once the verified part of a system call has run.
#[derive(Debug, Clone, Copy, PartialEq, Eq, Structural)]
pub enum SyscallOutcome {
    /// The call is done; the value goes back to the task.
    Return(isize),
    /// Suspend the current task and run the next; the value goes back to the
    /// task when it runs again.
    Suspend(isize),
    /// Exit the current task and run the next; nothing goes back.
    Exit,
    /// `write(fd, buf, len)`, which the file system carries out.
    Write { fd: usize, buf: usize, len: usize },
    /// Change the program break by `size` bytes; what that returns goes back
    /// through [`process::sys_sbrk`].
    ChangeBrk(i32),
}

/// How often one system call was made.
#[derive(Debug, Clone, Copy)]
struct SingleSyscallTimes {
    id: usize,
    times: usize,
}

impl SingleSyscallTimes {
    /// Counts one more invocation.
    fn increase(&mut self)
        requires
            old(self).times < usize::MAX,
        ensures
            final(self).id == old(self).id,
            final(self).times == old(self).times + 1,
    {
        self.times += 1;
    }
}

/// One counter for each counted system call.
#[derive(Debug, Clone)]
pub struct SyscallTimes {
    syscall_times: Vec<SingleSyscallTimes>,
}

impl SyscallTimes {
    /// One counter for each counted system call, in the order of `tracked_key`.
    pub closed spec fn wf(&self) -> bool {
        &&& self.syscall_times@.len() == NUM_TRACKED
        &&& forall|i: int| 0 <= i < NUM_TRACKED ==> #[trigger] self.syscall_times@[i].id == tracked_key(i)
    }

    /// How often each counted system call was made: a map whose keys are
    /// exactly the counted system calls.
    pub closed spec fn view(&self) -> Map<usize, usize> {
        Map::new(|id: usize| is_tracked(id), |id: usize| self.syscall_times@[tracked_index(id)].times)
    }

    /// The counters cover exactly the counted system calls.
    pub proof fn lemma_counted_calls(&self)
        ensures
            self@.dom() == Set::new(|id: usize| is_tracked(id)),
    {
        assert(self@.dom() =~= Set::new(|id: usize| is_tracked(id)));
    }

    /// Every counter at zero.
    pub fn new() -> (stats: Self)
        ensures
            stats.wf(),
            stats@ == initial_counts(),
    {
        let mut syscall_times: Vec<SingleSyscallTimes> = Vec::new();
        let mut i: usize = 0;
        while i < NUM_TRACKED
            invariant
                i <= NUM_TRACKED,
                syscall_times@.len() == i,
                forall|j: int| 0 <= j < i ==> #[trigger] syscall_times@[j].id == tracked_key(j)
                    && syscall_times@[j].times == 0,
            decreases NUM_TRACKED - i,
        {
            let id: usize = tracked_key_at(i);
            syscall_times.push(SingleSyscallTimes { id, times: 0 });
            i += 1;
        }
        let stats = SyscallTimes { syscall_times };
        proof {
            assert forall|id: usize| is_tracked(id) implies stats@[id] == 0 by {
                let k = tracked_index(id);
                assert(0 <= k < NUM_TRACKED && tracked_key(k) == id);
                assert(stats.syscall_times@[k].id == tracked_key(k));
            }
            assert(stats@ =~= initial_counts());
        }
        stats
    }

    /// Counts one more invocation of the system call `id`; does nothing where
    /// `id` is not counted.
    pub fn increase(&mut self, id: usize)
        requires
            old(self).wf(),
            is_tracked(id) ==> old(self)@[id] < usize::MAX,
        ensures
            final(self).wf(),
            final(self)@ == counted(old(self)@, id),
    {
        let mut i: usize = 0;
        while i < self.syscall_times.len()
            invariant
                self.wf(),
                *self == *old(self),
                i <= NUM_TRACKED,
                forall|j: int| 0 <= j < i ==> tracked_key(j) != id,
                is_tracked(id) ==> old(self)@[id] < usize::MAX,
            decreases NUM_TRACKED - i,
        {
            if self.syscall_times[i].id == id {
                let mut item = self.syscall_times[i];
                proof {
                    assert(tracked_key(i as int) == id);
                    assert(is_tracked(id));
                    let k = tracked_index(id);
                    assert(k == i) by {
                        if k != i {
                            distinct_keys(k, i as int);
                        }
                    }
                }
                item.increase();
                self.syscall_times.set(i, item);
                proof {
                    assert(self@ =~= old(self)@.insert(id, (old(self)@[id] + 1) as usize)) by {
                        assert forall|x: usize| #[trigger] is_tracked(x) && x != id implies tracked_index(x) != i by {
                            let k = tracked_index(x);
                        }
                    }
                }
                return;
            }
            i += 1;
        }
        proof {
            assert(!is_tracked(id));
        }
    }

    /// How often the system call `id` was made.
    pub fn get_syscall_times(&self, id: usize) -> (times: usize)
        requires
            self.wf(),
            is_tracked(id),
        ensures
            times == self@[id],
    {
        let mut i: usize = 0;
        while i < self.syscall_times.len()
            invariant
                self.wf(),
                i <= NUM_TRACKED,
                forall|j: int| 0 <= j < i ==> tracked_key(j) != id,
                is_tracked(id),
            decreases NUM_TRACKED - i,
        {
            if self.syscall_times[i].id == id {
                proof {
                    let k = tracked_index(id);
                    if k != i {
                        distinct_keys(k, i as int);
                    }
                }
                return self.syscall_times[i].times;
            }
            i += 1;
        }
        proof {
            let k = tracked_index(id);
            assert(tracked_key(k) == id);
        }
        0
    }
}

/// The system-call statistics of one task.
#[derive(Debug, Clone)]
pub struct SyscallStats {
    /// The task's id.
    pub task_id: usize,
    /// How often the task made each counted system call.
    pub syscall_times: SyscallTimes,
}

impl SyscallStats {
    /// The counters keep their invariant.
    pub open spec fn wf(&self) -> bool {
        self.syscall_times.wf()
    }

    /// How often each counted system call was made: a map whose keys are
    /// exactly the counted system calls (`SyscallTimes::lemma_counted_calls`).
    pub open spec fn view(&self) -> Map<usize, usize> {
        self.syscall_times@
    }

    /// Creates the statistics of task `task_id`, with every counter at zero.
    pub fn new(task_id: usize) -> (stats: Self)
        ensures
            stats.wf(),
            stats.task_id == task_id,
            stats@ == initial_counts(),
    {
        SyscallStats { task_id, syscall_times: SyscallTimes::new() }
    }

    /// Counts one more invocation of the system call `id`; does nothing where
    /// `id` is not counted.
    pub fn increase(&mut self, id: usize)
        requires
            old(self).wf(),
            is_tracked(id) ==> old(self)@[id] < usize::MAX,
        ensures
            final(self).wf(),
            final(self).task_id == old(self).task_id,
            final(self)@ == counted(old(self)@, id),
    {
        self.syscall_times.increase(id);
    }

    /// How often the system call `id` was made.
    pub fn get_syscall_times(&self, id: usize) -> (times: usize)
        requires
            self.wf(),
            is_tracked(id),
        ensures
            times == self@[id],
    {
        self.syscall_times.get_syscall_times(id)
    }
}

/// Every counted system call, counted zero times.
pub open spec fn initial_counts() -> Map<usize, usize> {
    Map::new(|id: usize| is_tracked(id), |id: usize| 0usize)
}

/// How often `k` occurs in `ids`.
pub open spec fn occurrences(ids: Seq<usize>, k: usize) -> nat
    decreases ids.len(),
{
    if ids.len() == 0 {
        0
    } else {
        occurrences(ids.drop_last(), k) + (if ids.last() == k { 1nat } else { 0nat })
    }
}

/// The counted system calls are distinct.
proof fn distinct_keys(i: int, j: int)
    requires
        0 <= i < NUM_TRACKED,
        0 <= j < NUM_TRACKED,
        i != j,
    ensures
        tracked_key(i) != tracked_key(j),
{
}

/// Whether the dispatcher handles the system call `id`.
pub open spec fn is_supported(id: usize) -> bool {
    id == SYSCALL_WRITE || id == SYSCALL_EXIT || id == SYSCALL_YIELD || id == SYSCALL_GET_TIME
        || id == SYSCALL_TRACE || id == SYSCALL_MMAP || id == SYSCALL_MUNMAP || id == SYSCALL_SBRK
}

/// The call counts `counts` after one more invocation of system call `id`.
pub open spec fn counted(counts: Map<usize, usize>, id: usize) -> Map<usize, usize> {
    if is_tracked(id) {
        counts.insert(id, (counts[id] + 1) as usize)
    } else {
        counts
    }
}

/// What system call `syscall_id` with `args` leaves to do, and does to
/// memory `m0`, giving `m1`, for a task whose call counts are `counts` once
/// this call is counted, when the clock reads `now_us` microseconds.
pub open spec fn syscall_outcome(
    m0: UserMemory,
    m1: UserMemory,
    counts: Map<usize, usize>,
    syscall_id: usize,
    args: Seq<usize>,
    now_us: usize,
    out: SyscallOutcome,
) -> bool {
    if syscall_id == SYSCALL_GET_TIME {
        exists|r: isize| out == SyscallOutcome::Return(r) && get_time_outcome(m0, m1, args[0], now_us, r)
    } else if syscall_id == SYSCALL_TRACE {
        exists|r: isize| out == SyscallOutcome::Return(r) && trace_outcome(m0, m1, counts, args[0], args[1], args[2], r)
    } else if syscall_id == SYSCALL_MMAP {
        exists|r: isize| out == SyscallOutcome::Return(r) && mmap_outcome(m0, m1, args[0], args[1], args[2], r)
    } else if syscall_id == SYSCALL_MUNMAP {
        exists|r: isize| out == SyscallOutcome::Return(r) && munmap_outcome(m0, m1, args[0], args[1], r)
    } else {
        &&& process::memory_unchanged(m0, m1)
        &&& out == (if syscall_id == SYSCALL_WRITE {
            SyscallOutcome::Write { fd: args[0], buf: args[1], len: args[2] }
        } else if syscall_id == SYSCALL_EXIT {
            SyscallOutcome::Exit
        } else if syscall_id == SYSCALL_YIELD {
            SyscallOutcome::Suspend(0)
        } else {
            SyscallOutcome::ChangeBrk(args[0] as i32)
        })
    }
}

/// handle syscall exception with `syscall_id` and other arguments
///
/// Counts the call in the current task's statistics `stats`, then carries
/// it out on the task's memory `mem`; `now_us` is the clock's reading in
/// microseconds. Exiting, yielding, writing and changing the program break
/// are left to the caller, as the outcome says.
pub fn syscall(
    stats: &mut SyscallStats,
    mem: &mut UserMemory,
    syscall_id: usize,
    args: [usize; 3],
    now_us: usize,
) -> (out: SyscallOutcome)
    requires
        old(stats).wf(),
        old(mem).wf(),
        is_supported(syscall_id),
        is_tracked(syscall_id) ==> old(stats)@[syscall_id] < usize::MAX,
        syscall_id == SYSCALL_TRACE && args@[0] == 2 ==> is_tracked(args@[1]),
    ensures
        final(stats).wf(),
        final(stats).task_id == old(stats).task_id,
        final(stats)@ == counted(old(stats)@, syscall_id),
        final(mem).wf(),
        syscall_outcome(*old(mem), *final(mem), final(stats)@, syscall_id, args@, now_us, out),
{
    stats.increase(syscall_id);
    if syscall_id == SYSCALL_WRITE {
        SyscallOutcome::Write { fd: args[0], buf: args[1], len: args[2] }
    } else if syscall_id == SYSCALL_EXIT {
        sys_exit(#[verifier::truncate] (args[0] as i32))
    } else if syscall_id == SYSCALL_YIELD {
        sys_yield()
    } else if syscall_id == SYSCALL_GET_TIME {
        SyscallOutcome::Return(sys_get_time(mem, args[0], args[1], now_us))
    } else if syscall_id == SYSCALL_TRACE {
        SyscallOutcome::Return(sys_trace(mem, stats, args[0], args[1], args[2]))
    } else if syscall_id == SYSCALL_MMAP {
        SyscallOutcome::Return(sys_mmap(mem, args[0], args[1], args[2]))
    } else if syscall_id == SYSCALL_MUNMAP {
        SyscallOutcome::Return(sys_munmap(mem, args[0], args[1]))
    } else {
        SyscallOutcome::ChangeBrk(#[verifier::truncate] (args[0] as i32))
    }
}

} // verus!
