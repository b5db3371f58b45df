//! The memory the system calls work on: the current task's page table, the
//! frame allocator and physical memory.
use vstd::prelude::*;

pub mod frame_allocator;
pub mod page_table;
pub mod phys_memory;

use frame_allocator::FrameAllocator;
use page_table::PageTable;
use phys_memory::{frame_addrs, PhysMemory};

verus! {

/// What a system call of the current task can see of memory: the task's
/// page table, the frame allocator and physical memory.
pub struct UserMemory {
    /// The current task's page table.
    pub page_table: PageTable,
    /// The allocator of physical frames.
    pub frames: FrameAllocator,
    /// Physical memory.
    pub phys: PhysMemory,
}

impl UserMemory {
    /// The page table and the frame allocator keep their invariants.
    pub open spec fn wf(&self) -> bool {
        &&& self.page_table.wf()
        &&& self.frames.wf()
    }
}

/// Takes the first free frame and clears it, as a new frame tracker does;
/// `None` when no frame is free.
pub fn frame_alloc(frames: &mut FrameAllocator, phys: &mut PhysMemory) -> (ppn: Option<usize>)
    requires
        old(frames).wf(),
    ensures
        final(frames).wf(),
        final(frames).limit() == old(frames).limit(),
        match ppn {
            Some(p) => {
                &&& old(frames)@.len() > 0
                &&& p == old(frames)@[0]
                &&& p < old(frames).limit()
                &&& final(frames)@ == old(frames)@.drop_first()
                &&& final(phys)@ == old(phys)@.remove_keys(frame_addrs(set![p]))
            },
            None => {
                &&& old(frames)@.len() == 0
                &&& final(frames)@ == old(frames)@
                &&& final(phys)@ == old(phys)@
            },
        },
{
    proof {
        frames.lemma_free_frames();
    }
    match frames.allocate() {
        Some(p) => {
            phys.zero_frame(p);
            Some(p)
        },
        None => None,
    }
}

/// Returns frame `ppn` to the free frames, as dropping its tracker does.
pub fn frame_dealloc(frames: &mut FrameAllocator, ppn: usize)
    requires
        old(frames).wf(),
        ppn < old(frames).limit(),
        !old(frames)@.contains(ppn),
    ensures
        final(frames).wf(),
        final(frames).limit() == old(frames).limit(),
        final(frames)@ == seq![ppn] + old(frames)@,
{
    frames.deallocate(ppn);
}

} // verus!
