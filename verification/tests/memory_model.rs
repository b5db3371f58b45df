use os_syscall::mm::frame_allocator::FrameAllocator;
use os_syscall::mm::page_table::{PageTable, PageTableEntry, PTE_R, PTE_U, PTE_V, PTE_W, PTE_X};
use os_syscall::mm::phys_memory::PhysMemory;
use os_syscall::mm::{frame_alloc, frame_dealloc};

#[test]
fn entry_flags() {
    let pte = PageTableEntry::new(5, PTE_V | PTE_R | PTE_U);
    assert_eq!(pte.ppn(), 5);
    assert_eq!(pte.flags(), 0x13);
    assert!(pte.is_valid());
    assert!(pte.readable());
    assert!(!pte.writable());
    assert!(!pte.executable());
    let e = PageTableEntry::empty();
    assert!(!e.is_valid());
    assert_eq!(e, PageTableEntry::new(0, 0));
    assert_eq!((PTE_V, PTE_R, PTE_W, PTE_X, PTE_U), (1, 2, 4, 8, 16));
}

#[test]
fn page_table_map_translate_unmap() {
    let mut pt = PageTable::new();
    assert_eq!(pt.translate(3), None);
    pt.map(3, 42, PTE_R | PTE_W);
    assert_eq!(pt.translate(3), Some(PageTableEntry::new(42, PTE_R | PTE_W | PTE_V)));
    pt.unmap(3);
    assert_eq!(pt.translate(3), Some(PageTableEntry::empty()));
    pt.set_entry(9, PageTableEntry::new(1, PTE_V));
    assert_eq!(pt.translate(9), Some(PageTableEntry::new(1, PTE_V)));
}

#[test]
fn frame_allocator_is_a_stack() {
    let mut fa = FrameAllocator::new(10, 12);
    assert_eq!(fa.allocate(), Some(10));
    assert_eq!(fa.allocate(), Some(11));
    assert_eq!(fa.allocate(), None);
    fa.deallocate(10);
    assert_eq!(fa.allocate(), Some(10));
    assert_eq!(fa.allocate(), None);
}

#[test]
fn frame_allocator_reuses_last_freed_first() {
    let mut fa = FrameAllocator::new(0, 3);
    let a = fa.allocate().unwrap();
    let b = fa.allocate().unwrap();
    fa.deallocate(a);
    fa.deallocate(b);
    assert_eq!(fa.allocate(), Some(b));
    assert_eq!(fa.allocate(), Some(a));
    assert_eq!(fa.allocate(), Some(2));
    assert_eq!(fa.allocate(), None);
}

#[test]
fn phys_memory_reads_zero_until_written() {
    let mut m = PhysMemory::new();
    assert_eq!(m.read_byte(0x1234), 0);
    m.write_byte(0x1234, 0xab);
    assert_eq!(m.read_byte(0x1234), 0xab);
    assert_eq!(m.read_byte(0x1235), 0);
}

#[test]
fn zero_frame_clears_only_its_frame() {
    let mut m = PhysMemory::new();
    m.write_byte(2 * 4096, 1);
    m.write_byte(2 * 4096 + 4095, 2);
    m.write_byte(3 * 4096, 3);
    m.write_byte(2 * 4096 - 1, 4);
    m.zero_frame(2);
    assert_eq!(m.read_byte(2 * 4096), 0);
    assert_eq!(m.read_byte(2 * 4096 + 4095), 0);
    assert_eq!(m.read_byte(3 * 4096), 3);
    assert_eq!(m.read_byte(2 * 4096 - 1), 4);
}

#[test]
fn frame_alloc_clears_the_frame() {
    let mut fa = FrameAllocator::new(5, 6);
    let mut m = PhysMemory::new();
    m.write_byte(5 * 4096 + 7, 9);
    assert_eq!(frame_alloc(&mut fa, &mut m), Some(5));
    assert_eq!(m.read_byte(5 * 4096 + 7), 0);
    assert_eq!(frame_alloc(&mut fa, &mut m), None);
    frame_dealloc(&mut fa, 5);
    assert_eq!(fa.allocate(), Some(5));
}
