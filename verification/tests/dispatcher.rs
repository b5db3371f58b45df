use os_syscall::mm::frame_allocator::FrameAllocator;
use os_syscall::mm::page_table::PageTable;
use os_syscall::mm::phys_memory::PhysMemory;
use os_syscall::mm::UserMemory;
use os_syscall::syscall::{
    syscall, SyscallOutcome, SyscallStats, SYSCALL_EXIT, SYSCALL_GET_TIME, SYSCALL_MMAP,
    SYSCALL_MUNMAP, SYSCALL_SBRK, SYSCALL_TRACE, SYSCALL_WRITE, SYSCALL_YIELD,
};

fn memory() -> UserMemory {
    UserMemory {
        page_table: PageTable::new(),
        frames: FrameAllocator::new(100, 108),
        phys: PhysMemory::new(),
    }
}

#[test]
fn dispatch_leaves_scheduling_and_io_to_the_caller() {
    let mut stats = SyscallStats::new(1);
    let mut mem = memory();
    assert_eq!(
        syscall(&mut stats, &mut mem, SYSCALL_WRITE, [1, 0x1000, 5], 0),
        SyscallOutcome::Write { fd: 1, buf: 0x1000, len: 5 }
    );
    assert_eq!(syscall(&mut stats, &mut mem, SYSCALL_EXIT, [0, 0, 0], 0), SyscallOutcome::Exit);
    assert_eq!(syscall(&mut stats, &mut mem, SYSCALL_YIELD, [0, 0, 0], 0), SyscallOutcome::Suspend(0));
    assert_eq!(
        syscall(&mut stats, &mut mem, SYSCALL_SBRK, [(-4096i32) as u32 as usize, 0, 0], 0),
        SyscallOutcome::ChangeBrk(-4096)
    );
    assert_eq!(stats.get_syscall_times(SYSCALL_WRITE), 1);
    assert_eq!(stats.get_syscall_times(SYSCALL_EXIT), 1);
    assert_eq!(stats.get_syscall_times(SYSCALL_YIELD), 1);
    assert_eq!(stats.get_syscall_times(SYSCALL_SBRK), 1);
}

#[test]
fn dispatch_memory_calls() {
    let mut stats = SyscallStats::new(1);
    let mut mem = memory();
    assert_eq!(syscall(&mut stats, &mut mem, SYSCALL_MMAP, [0x10000, 4096, 3], 0), SyscallOutcome::Return(0));
    assert_eq!(syscall(&mut stats, &mut mem, SYSCALL_MMAP, [0x10000, 4096, 3], 0), SyscallOutcome::Return(-1));
    assert_eq!(syscall(&mut stats, &mut mem, SYSCALL_TRACE, [1, 0x10004, 42], 0), SyscallOutcome::Return(0));
    assert_eq!(syscall(&mut stats, &mut mem, SYSCALL_TRACE, [0, 0x10004, 0], 0), SyscallOutcome::Return(42));
    assert_eq!(syscall(&mut stats, &mut mem, SYSCALL_GET_TIME, [0x10008, 0, 0], 2_500_000), SyscallOutcome::Return(0));
    assert_eq!(syscall(&mut stats, &mut mem, SYSCALL_TRACE, [0, 0x10008, 0], 0), SyscallOutcome::Return(2));
    assert_eq!(syscall(&mut stats, &mut mem, SYSCALL_TRACE, [0, 0x10010, 0], 0), SyscallOutcome::Return(0x20));
    assert_eq!(syscall(&mut stats, &mut mem, SYSCALL_TRACE, [0, 0x10011, 0], 0), SyscallOutcome::Return(0xa1));
    assert_eq!(syscall(&mut stats, &mut mem, SYSCALL_TRACE, [0, 0x10012, 0], 0), SyscallOutcome::Return(0x07));
    assert_eq!(syscall(&mut stats, &mut mem, SYSCALL_MUNMAP, [0x10000, 4096, 0], 0), SyscallOutcome::Return(0));
    assert_eq!(syscall(&mut stats, &mut mem, SYSCALL_MUNMAP, [0x10000, 4096, 0], 0), SyscallOutcome::Return(-1));
    assert_eq!(syscall(&mut stats, &mut mem, SYSCALL_TRACE, [0, 0x10004, 0], 0), SyscallOutcome::Return(-1));
}

#[test]
fn trace_counts_itself() {
    let mut stats = SyscallStats::new(1);
    let mut mem = memory();
    assert_eq!(
        syscall(&mut stats, &mut mem, SYSCALL_TRACE, [2, SYSCALL_TRACE, 0], 0),
        SyscallOutcome::Return(1)
    );
    assert_eq!(
        syscall(&mut stats, &mut mem, SYSCALL_TRACE, [2, SYSCALL_TRACE, 0], 0),
        SyscallOutcome::Return(2)
    );
    assert_eq!(
        syscall(&mut stats, &mut mem, SYSCALL_TRACE, [2, SYSCALL_GET_TIME, 0], 0),
        SyscallOutcome::Return(0)
    );
}

#[test]
fn mmap_and_munmap_are_not_counted() {
    let mut stats = SyscallStats::new(1);
    let mut mem = memory();
    syscall(&mut stats, &mut mem, SYSCALL_MMAP, [0, 4096, 1], 0);
    syscall(&mut stats, &mut mem, SYSCALL_MUNMAP, [0, 4096, 0], 0);
    for id in [SYSCALL_WRITE, SYSCALL_EXIT, SYSCALL_YIELD, SYSCALL_GET_TIME, SYSCALL_TRACE, SYSCALL_SBRK] {
        assert_eq!(stats.get_syscall_times(id), 0);
    }
}
