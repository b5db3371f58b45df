use os_syscall::mm::frame_allocator::FrameAllocator;
use os_syscall::mm::page_table::{PageTable, PageTableEntry, PTE_R, PTE_U, PTE_V, PTE_W, PTE_X};
use os_syscall::mm::phys_memory::PhysMemory;
use os_syscall::mm::UserMemory;
use os_syscall::syscall::process::{
    sys_exit, sys_get_time, sys_mmap, sys_munmap, sys_sbrk, sys_trace, sys_yield, TimeVal,
};
use os_syscall::syscall::{SyscallOutcome, SyscallStats, SYSCALL_EXIT, SYSCALL_TRACE};

const PAGE: usize = 4096;

fn memory(first_frame: usize, frames: usize) -> UserMemory {
    UserMemory {
        page_table: PageTable::new(),
        frames: FrameAllocator::new(first_frame, first_frame + frames),
        phys: PhysMemory::new(),
    }
}

fn valid_pages(mem: &UserMemory, from: usize, to: usize) -> usize {
    (from..to)
        .filter(|&v| mem.page_table.translate(v).map_or(false, |p| p.is_valid()))
        .count()
}

#[test]
fn mmap_rejects_unaligned_start() {
    let mut mem = memory(100, 4);
    assert_eq!(sys_mmap(&mut mem, 0x1001, PAGE, 3), -1);
    assert_eq!(valid_pages(&mem, 0, 4), 0);
}

#[test]
fn mmap_rejects_bad_prot() {
    let mut mem = memory(100, 4);
    assert_eq!(sys_mmap(&mut mem, 0x1000, PAGE, 0), -1);
    assert_eq!(sys_mmap(&mut mem, 0x1000, PAGE, 8), -1);
    assert_eq!(sys_mmap(&mut mem, 0x1000, PAGE, 9), -1);
    assert_eq!(mem.page_table.translate(1), None);
    assert_eq!(mem.frames.allocate(), Some(100));
}

#[test]
fn mmap_maps_with_prot_flags() {
    let mut mem = memory(100, 4);
    assert_eq!(sys_mmap(&mut mem, 0x10000, 2 * PAGE, 3), 0);
    let a = mem.page_table.translate(0x10).unwrap();
    let b = mem.page_table.translate(0x11).unwrap();
    assert_eq!(a.flags(), PTE_V | PTE_U | PTE_R | PTE_W);
    assert_eq!(b.flags(), PTE_V | PTE_U | PTE_R | PTE_W);
    assert_eq!((a.ppn(), b.ppn()), (100, 101));
    assert_eq!(mem.page_table.translate(0x12), None);
    assert_eq!(mem.page_table.translate(0xf), None);
}

#[test]
fn mmap_exec_only() {
    let mut mem = memory(0, 1);
    assert_eq!(sys_mmap(&mut mem, 0, 1, 4), 0);
    let p = mem.page_table.translate(0).unwrap();
    assert_eq!(p.flags(), PTE_V | PTE_U | PTE_X);
    assert!(!p.readable());
}

#[test]
fn mmap_rounds_length_up_to_pages() {
    let mut mem = memory(100, 4);
    assert_eq!(sys_mmap(&mut mem, 0, PAGE + 1, 1), 0);
    assert_eq!(valid_pages(&mem, 0, 4), 2);
}

#[test]
fn mmap_of_zero_length_maps_nothing() {
    let mut mem = memory(100, 4);
    assert_eq!(sys_mmap(&mut mem, 0, 0, 1), 0);
    assert_eq!(valid_pages(&mem, 0, 4), 0);
    assert_eq!(mem.frames.allocate(), Some(100));
}

#[test]
fn mmap_refuses_overlap() {
    let mut mem = memory(100, 8);
    assert_eq!(sys_mmap(&mut mem, 2 * PAGE, 2 * PAGE, 3), 0);
    assert_eq!(sys_mmap(&mut mem, 0, 3 * PAGE, 3), -1);
    assert_eq!(sys_mmap(&mut mem, 3 * PAGE, PAGE, 1), -1);
    assert_eq!(valid_pages(&mem, 0, 8), 2);
    assert_eq!(sys_mmap(&mut mem, 4 * PAGE, PAGE, 1), 0);
    assert_eq!(valid_pages(&mem, 0, 8), 3);
}

#[test]
fn mmap_out_of_frames_rolls_back() {
    let mut mem = memory(100, 2);
    mem.phys.write_byte(100 * PAGE + 5, 7);
    assert_eq!(sys_mmap(&mut mem, 0, 3 * PAGE, 3), -1);
    // the pages that got a frame are left cleared, the others untouched
    assert_eq!(mem.page_table.translate(0), Some(PageTableEntry::empty()));
    assert_eq!(mem.page_table.translate(1), Some(PageTableEntry::empty()));
    assert_eq!(mem.page_table.translate(2), None);
    // the frames are free again, last given back first, and were cleared
    assert_eq!(mem.frames.allocate(), Some(101));
    assert_eq!(mem.frames.allocate(), Some(100));
    assert_eq!(mem.frames.allocate(), None);
    assert_eq!(mem.phys.read_byte(100 * PAGE + 5), 0);
}

#[test]
fn mmap_after_failed_mmap_can_use_the_range() {
    let mut mem = memory(100, 2);
    assert_eq!(sys_mmap(&mut mem, 0, 3 * PAGE, 3), -1);
    assert_eq!(sys_mmap(&mut mem, 0, 2 * PAGE, 3), 0);
    assert_eq!(valid_pages(&mem, 0, 3), 2);
}

#[test]
fn munmap_argument_errors() {
    let mut mem = memory(100, 4);
    assert_eq!(sys_mmap(&mut mem, 0, 2 * PAGE, 3), 0);
    assert_eq!(sys_munmap(&mut mem, 1, PAGE), -1);
    assert_eq!(sys_munmap(&mut mem, 0, 0), -1);
    // the range reaches one page past the mapping
    assert_eq!(sys_munmap(&mut mem, 0, 2 * PAGE + 1), -1);
    assert_eq!(sys_munmap(&mut mem, 2 * PAGE, PAGE), -1);
    assert_eq!(valid_pages(&mem, 0, 4), 2);
}

#[test]
fn munmap_undoes_mmap() {
    let mut mem = memory(100, 4);
    assert_eq!(sys_mmap(&mut mem, PAGE, 2 * PAGE, 3), 0);
    assert_eq!(sys_munmap(&mut mem, PAGE, 2 * PAGE), 0);
    assert_eq!(valid_pages(&mem, 0, 4), 0);
    assert_eq!(mem.page_table.translate(1), Some(PageTableEntry::empty()));
    assert_eq!(sys_munmap(&mut mem, PAGE, PAGE), -1);
    // munmap does not free frames: two are left
    assert!(mem.frames.allocate().is_some());
    assert!(mem.frames.allocate().is_some());
    assert_eq!(mem.frames.allocate(), None);
}

#[test]
fn munmap_of_part_of_a_mapping() {
    let mut mem = memory(100, 4);
    assert_eq!(sys_mmap(&mut mem, 0, 3 * PAGE, 3), 0);
    assert_eq!(sys_munmap(&mut mem, PAGE, 1), 0);
    assert_eq!(valid_pages(&mem, 0, 1), 1);
    assert_eq!(valid_pages(&mem, 1, 2), 0);
    assert_eq!(valid_pages(&mem, 2, 3), 1);
}

#[test]
fn trace_write_then_read() {
    let mut mem = memory(100, 4);
    let stats = SyscallStats::new(0);
    assert_eq!(sys_mmap(&mut mem, 0x4000, PAGE, 3), 0);
    assert_eq!(sys_trace(&mut mem, &stats, 1, 0x4010, 127), 0);
    assert_eq!(sys_trace(&mut mem, &stats, 0, 0x4010, 0), 127);
    // only the low byte of data is written
    assert_eq!(sys_trace(&mut mem, &stats, 1, 0x4011, 0x1ff), 0);
    assert_eq!(sys_trace(&mut mem, &stats, 0, 0x4011, 0), 0xff);
    let ppn = mem.page_table.translate(4).unwrap().ppn();
    assert_eq!(mem.phys.read_byte(ppn * PAGE + 0x10), 127);
}

#[test]
fn fresh_mmap_reads_zero() {
    let mut mem = memory(100, 1);
    let stats = SyscallStats::new(0);
    mem.phys.write_byte(100 * PAGE + 3, 55);
    assert_eq!(sys_mmap(&mut mem, 0, PAGE, 1), 0);
    assert_eq!(sys_trace(&mut mem, &stats, 0, 3, 0), 0);
}

#[test]
fn trace_respects_permissions() {
    let mut mem = memory(100, 4);
    let stats = SyscallStats::new(0);
    assert_eq!(sys_mmap(&mut mem, 0, PAGE, 1), 0);
    assert_eq!(sys_mmap(&mut mem, PAGE, PAGE, 2), 0);
    // read-only page: no write
    assert_eq!(sys_trace(&mut mem, &stats, 1, 8, 1), -1);
    assert_eq!(sys_trace(&mut mem, &stats, 0, 8, 0), 0);
    // write-only page: write, no read
    assert_eq!(sys_trace(&mut mem, &stats, 1, PAGE + 8, 1), 0);
    assert_eq!(sys_trace(&mut mem, &stats, 0, PAGE + 8, 0), -1);
    // unmapped page
    assert_eq!(sys_trace(&mut mem, &stats, 0, 5 * PAGE, 0), -1);
    assert_eq!(sys_trace(&mut mem, &stats, 1, 5 * PAGE, 0), -1);
}

#[test]
fn trace_rejects_addresses_beyond_user_space() {
    let mut mem = memory(100, 1);
    let stats = SyscallStats::new(0);
    let top: usize = 1 << 39;
    mem.page_table.map(top / PAGE, 100, PTE_R | PTE_W | PTE_U);
    assert_eq!(sys_trace(&mut mem, &stats, 0, top, 0), -1);
    assert_eq!(sys_trace(&mut mem, &stats, 1, top, 3), -1);
    mem.page_table.map(top / PAGE - 1, 101, PTE_R | PTE_W | PTE_U);
    assert_eq!(sys_trace(&mut mem, &stats, 1, top - 1, 3), 0);
    assert_eq!(sys_trace(&mut mem, &stats, 0, top - 1, 0), 3);
}

#[test]
fn trace_reads_after_munmap_fail() {
    let mut mem = memory(100, 1);
    let stats = SyscallStats::new(0);
    assert_eq!(sys_mmap(&mut mem, 0, PAGE, 3), 0);
    assert_eq!(sys_munmap(&mut mem, 0, PAGE), 0);
    assert_eq!(sys_trace(&mut mem, &stats, 0, 0, 0), -1);
    assert_eq!(sys_trace(&mut mem, &stats, 1, 0, 0), -1);
}

#[test]
fn trace_counts_and_unknown_requests() {
    let mut mem = memory(100, 1);
    let mut stats = SyscallStats::new(0);
    stats.increase(SYSCALL_EXIT);
    stats.increase(SYSCALL_EXIT);
    assert_eq!(sys_trace(&mut mem, &stats, 2, SYSCALL_EXIT, 0), 2);
    assert_eq!(sys_trace(&mut mem, &stats, 2, SYSCALL_TRACE, 0), 0);
    assert_eq!(sys_trace(&mut mem, &stats, 3, 0, 0), -1);
    assert_eq!(sys_trace(&mut mem, &stats, usize::MAX, 0, 0), -1);
}

#[test]
fn get_time_writes_seconds_and_microseconds() {
    let mut mem = memory(100, 1);
    assert_eq!(sys_mmap(&mut mem, 0x3000, PAGE, 3), 0);
    let ppn = mem.page_table.translate(3).unwrap().ppn();
    let us: usize = 12_345_678_901;
    assert_eq!(sys_get_time(&mut mem, 0x3020, 0, us), 0);
    let tv = TimeVal { sec: 12_345, usec: 678_901 };
    let base = ppn * PAGE + 0x20;
    assert_eq!(read_word(&mem, base), tv.sec);
    assert_eq!(read_word(&mem, base + 8), tv.usec);
}

#[test]
fn get_time_needs_a_readable_writable_page() {
    let mut mem = memory(100, 2);
    assert_eq!(sys_mmap(&mut mem, 0, PAGE, 1), 0);
    assert_eq!(sys_get_time(&mut mem, 0, 0, 5_000_000), 0);
    let ppn = mem.page_table.translate(0).unwrap().ppn();
    assert_eq!(mem.phys.read_byte(ppn * PAGE), 0);
    assert_eq!(sys_get_time(&mut mem, 9 * PAGE, 0, 5_000_000), 0);
}

#[test]
fn sbrk_answers() {
    assert_eq!(sys_sbrk(Some(0x1_0000)), 0x1_0000);
    assert_eq!(sys_sbrk(None), -1);
}

#[test]
fn exit_and_yield() {
    assert_eq!(sys_exit(3), SyscallOutcome::Exit);
    assert_eq!(sys_yield(), SyscallOutcome::Suspend(0));
}

fn read_word(mem: &UserMemory, at: usize) -> usize {
    (0..8).map(|i| (mem.phys.read_byte(at + i) as usize) << (8 * i)).sum()
}

#[test]
fn get_time_straddling_two_pages_writes_through_both_entries() {
    let mut mem = memory(100, 1);
    mem.page_table.map(0, 10, PTE_R | PTE_W | PTE_U);
    mem.page_table.map(1, 20, PTE_R | PTE_W | PTE_U);
    let us: usize = 7_000_123;
    assert_eq!(sys_get_time(&mut mem, 4088, 0, us), 0);
    // seconds in the last eight bytes of frame 10, microseconds at the start of frame 20
    assert_eq!(read_word(&mem, 10 * PAGE + 4088), 7);
    assert_eq!(read_word(&mem, 20 * PAGE), 123);
    // the frame after frame 10 is not touched
    assert_eq!(read_word(&mem, 11 * PAGE), 0);
    // trace reads the bytes back at their user addresses
    let stats = SyscallStats::new(0);
    assert_eq!(sys_trace(&mut mem, &stats, 0, 4088, 0), 7);
    assert_eq!(sys_trace(&mut mem, &stats, 0, 4096, 0), 123);
}

#[test]
fn get_time_straddling_into_an_unwritable_page_writes_nothing() {
    let mut mem = memory(100, 1);
    mem.page_table.map(0, 10, PTE_R | PTE_W | PTE_U);
    mem.page_table.map(1, 20, PTE_R | PTE_U);
    assert_eq!(sys_get_time(&mut mem, 4090, 0, 3_000_000), 0);
    assert_eq!(read_word(&mem, 10 * PAGE + 4088), 0);
    assert_eq!(read_word(&mem, 20 * PAGE), 0);
    // a TimeVal that fits in page 0 is written
    assert_eq!(sys_get_time(&mut mem, 4080, 0, 3_000_000), 0);
    assert_eq!(read_word(&mem, 10 * PAGE + 4080), 3);
    assert_eq!(read_word(&mem, 10 * PAGE + 4088), 0);
}

#[test]
fn get_time_straddling_into_an_unmapped_page_writes_nothing() {
    let mut mem = memory(100, 1);
    mem.page_table.map(0, 10, PTE_R | PTE_W | PTE_U);
    assert_eq!(sys_get_time(&mut mem, 4095, 0, 3_000_000), 0);
    assert_eq!(mem.phys.read_byte(10 * PAGE + 4095), 0);
}

#[test]
fn get_time_at_the_top_of_the_address_space_writes_nothing() {
    let mut mem = memory(100, 1);
    let top_page = usize::MAX / PAGE;
    mem.page_table.map(top_page, 10, PTE_R | PTE_W | PTE_U);
    assert_eq!(sys_get_time(&mut mem, usize::MAX - 7, 0, 3_000_000), 0);
    assert_eq!(mem.phys.read_byte(10 * PAGE + 4088), 0);
}
