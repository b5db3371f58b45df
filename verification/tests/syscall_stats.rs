use os_syscall::syscall::{
    SyscallStats, SYSCALL_EXIT, SYSCALL_GET_TIME, SYSCALL_MMAP, SYSCALL_MUNMAP, SYSCALL_SBRK,
    SYSCALL_TRACE, SYSCALL_WRITE, SYSCALL_YIELD,
};

const TRACKED: [usize; 6] = [
    SYSCALL_WRITE,
    SYSCALL_EXIT,
    SYSCALL_YIELD,
    SYSCALL_GET_TIME,
    SYSCALL_TRACE,
    SYSCALL_SBRK,
];

#[test]
fn new_stats_start_at_zero() {
    let stats = SyscallStats::new(7);
    assert_eq!(stats.task_id, 7);
    for id in TRACKED {
        assert_eq!(stats.get_syscall_times(id), 0);
    }
}

#[test]
fn increase_counts_only_its_call() {
    let mut stats = SyscallStats::new(0);
    stats.increase(SYSCALL_TRACE);
    stats.increase(SYSCALL_TRACE);
    stats.increase(SYSCALL_YIELD);
    assert_eq!(stats.get_syscall_times(SYSCALL_TRACE), 2);
    assert_eq!(stats.get_syscall_times(SYSCALL_YIELD), 1);
    assert_eq!(stats.get_syscall_times(SYSCALL_WRITE), 0);
    assert_eq!(stats.get_syscall_times(SYSCALL_SBRK), 0);
}

#[test]
fn increase_ignores_uncounted_calls() {
    let mut stats = SyscallStats::new(1);
    stats.increase(SYSCALL_MMAP);
    stats.increase(SYSCALL_MUNMAP);
    stats.increase(12345);
    for id in TRACKED {
        assert_eq!(stats.get_syscall_times(id), 0);
    }
}

#[test]
fn syscall_numbers() {
    assert_eq!(SYSCALL_WRITE, 64);
    assert_eq!(SYSCALL_EXIT, 93);
    assert_eq!(SYSCALL_YIELD, 124);
    assert_eq!(SYSCALL_GET_TIME, 169);
    assert_eq!(SYSCALL_TRACE, 410);
    assert_eq!(SYSCALL_MMAP, 222);
    assert_eq!(SYSCALL_MUNMAP, 215);
    assert_eq!(SYSCALL_SBRK, 214);
}

#[test]
fn counts_equal_occurrences() {
    let ids = [
        SYSCALL_TRACE, SYSCALL_WRITE, SYSCALL_MMAP, SYSCALL_TRACE, SYSCALL_SBRK, SYSCALL_TRACE,
        SYSCALL_WRITE, 9999,
    ];
    let mut stats = SyscallStats::new(4);
    for id in ids {
        stats.increase(id);
    }
    assert_eq!(stats.task_id, 4);
    for k in TRACKED {
        assert_eq!(stats.get_syscall_times(k), ids.iter().filter(|&&x| x == k).count());
    }
}
