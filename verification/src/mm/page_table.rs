//! Page-table entries and the current task's page table, as a map from
//! virtual page number to leaf entry.
use std::collections::HashMap;
use vstd::prelude::*;
use crate::config::max_ppn;

verus! {

broadcast use vstd::std_specs::hash::group_hash_axioms;

/// Valid.
pub const PTE_V: u8 = 1;
/// Readable.
pub const PTE_R: u8 = 2;
/// Writable.
pub const PTE_W: u8 = 4;
/// Executable.
pub const PTE_X: u8 = 8;
/// Accessible from user mode.
pub const PTE_U: u8 = 16;

/// Whether frame `ppn`, and the bytes just past it, have addresses within `usize`.
pub open spec fn frame_fits(ppn: usize) -> bool {
    ppn <= max_ppn()
}

/// A leaf page-table entry: a physical page number and its flag bits.
#[derive(Clone, Copy, Debug, PartialEq, Eq, Structural)]
pub struct PageTableEntry {
    /// The physical page number the entry points to.
    pub ppn: usize,
    /// The flag bits (`PTE_V`, `PTE_R`, ...).
    pub flags: u8,
}

impl PageTableEntry {
    /// Whether the valid bit is set.
    pub open spec fn valid(self) -> bool {
        self.flags & PTE_V != 0
    }

    /// Whether the readable bit is set.
    pub open spec fn can_read(self) -> bool {
        self.flags & PTE_R != 0
    }

    /// Whether the writable bit is set.
    pub open spec fn can_write(self) -> bool {
        self.flags & PTE_W != 0
    }

    /// Whether the executable bit is set.
    pub open spec fn can_exec(self) -> bool {
        self.flags & PTE_X != 0
    }

    /// Whether the user bit is set.
    pub open spec fn user(self) -> bool {
        self.flags & PTE_U != 0
    }

    /// The entry with no flag set and frame zero.
    pub open spec fn spec_empty() -> Self {
        PageTableEntry { ppn: 0, flags: 0 }
    }

    /// An entry for frame `ppn` with the flags `flags`.
    pub fn new(ppn: usize, flags: u8) -> (pte: Self)
        ensures
            pte == (PageTableEntry { ppn, flags }),
    {
        PageTableEntry { ppn, flags }
    }

    /// The entry with no flag set.
    pub fn empty() -> (pte: Self)
        ensures
            pte == Self::spec_empty(),
            !pte.valid(),
            !pte.can_read(),
            !pte.can_write(),
    {
        let pte = PageTableEntry { ppn: 0, flags: 0 };
        assert(0u8 & PTE_V == 0 && 0u8 & PTE_R == 0 && 0u8 & PTE_W == 0) by (bit_vector);
        pte
    }

    /// The physical page number.
    pub fn ppn(&self) -> (ppn: usize)
        ensures
            ppn == self.ppn,
    {
        self.ppn
    }

    /// The flag bits.
    pub fn flags(&self) -> (flags: u8)
        ensures
            flags == self.flags,
    {
        self.flags
    }

    /// Whether the valid bit is set.
    pub fn is_valid(&self) -> (b: bool)
        ensures
            b == self.valid(),
    {
        self.flags & PTE_V != 0
    }

    /// Whether the readable bit is set.
    pub fn readable(&self) -> (b: bool)
        ensures
            b == self.can_read(),
    {
        self.flags & PTE_R != 0
    }

    /// Whether the writable bit is set.
    pub fn writable(&self) -> (b: bool)
        ensures
            b == self.can_write(),
    {
        self.flags & PTE_W != 0
    }

    /// Whether the executable bit is set.
    pub fn executable(&self) -> (b: bool)
        ensures
            b == self.can_exec(),
    {
        self.flags & PTE_X != 0
    }
}

/// A page table: the leaf entry of each virtual page number that has one.
/// A page number without an entry does not translate; an entry whose valid
/// bit is clear translates, but maps nothing.
pub struct PageTable {
    entries: HashMap<usize, PageTableEntry>,
}

impl View for PageTable {
    type V = Map<usize, PageTableEntry>;

    closed spec fn view(&self) -> Map<usize, PageTableEntry> {
        self.entries@
    }
}

impl PageTable {
    /// Every entry points to a frame that fits the address range.
    pub open spec fn wf(&self) -> bool {
        forall|vpn: usize| #[trigger] self@.contains_key(vpn) ==> frame_fits(self@[vpn].ppn)
    }

    /// A page table with no entry.
    pub fn new() -> (pt: Self)
        ensures
            pt.wf(),
            pt@ == Map::<usize, PageTableEntry>::empty(),
    {
        PageTable { entries: HashMap::new() }
    }

    /// The leaf entry of `vpn`, if it has one.
    pub fn translate(&self, vpn: usize) -> (pte: Option<PageTableEntry>)
        ensures
            pte == (if self@.contains_key(vpn) { Some(self@[vpn]) } else { None::<PageTableEntry> }),
    {
        match self.entries.get(&vpn) {
            Some(pte) => Some(*pte),
            None => None,
        }
    }

    /// Creates the leaf entry of `vpn` if it has none, and sets it to `pte`.
    pub fn set_entry(&mut self, vpn: usize, pte: PageTableEntry)
        requires
            old(self).wf(),
            frame_fits(pte.ppn),
        ensures
            final(self).wf(),
            final(self)@ == old(self)@.insert(vpn, pte),
    {
        self.entries.insert(vpn, pte);
    }

    /// Maps `vpn` to frame `ppn` with `flags` and the valid bit.
    pub fn map(&mut self, vpn: usize, ppn: usize, flags: u8)
        requires
            old(self).wf(),
            frame_fits(ppn),
            old(self)@.contains_key(vpn) ==> !old(self)@[vpn].valid(),
        ensures
            final(self).wf(),
            final(self)@ == old(self)@.insert(vpn, PageTableEntry { ppn, flags: flags | PTE_V }),
    {
        self.entries.insert(vpn, PageTableEntry { ppn, flags: flags | PTE_V });
    }

    /// Clears the entry of `vpn`, which must be valid.
    pub fn unmap(&mut self, vpn: usize)
        requires
            old(self).wf(),
            old(self)@.contains_key(vpn),
            old(self)@[vpn].valid(),
        ensures
            final(self).wf(),
            final(self)@ == old(self)@.insert(vpn, PageTableEntry::spec_empty()),
    {
        let empty: PageTableEntry = PageTableEntry::empty();
        self.entries.insert(vpn, empty);
    }
}

} // verus!
