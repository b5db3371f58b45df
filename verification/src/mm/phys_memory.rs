//! Physical memory, byte by byte. A byte that was never written, or whose
//! frame was cleared since, reads as zero.
use std::collections::HashMap;
use vstd::prelude::*;
use crate::config::PAGE_SIZE;
use crate::mm::page_table::frame_fits;

verus! {

broadcast use vstd::std_specs::hash::group_hash_axioms;

/// The byte at address `a` of a memory whose stored bytes are `m`.
pub open spec fn byte_at(m: Map<usize, u8>, a: usize) -> u8 {
    if m.contains_key(a) {
        m[a]
    } else {
        0
    }
}

/// The addresses that lie in one of the frames `ppns`.
pub open spec fn frame_addrs(ppns: Set<usize>) -> Set<usize> {
    Set::new(|a: usize| ppns.contains(a / PAGE_SIZE))
}

/// Byte `i` (counted from the least significant) of `x` as a 64-bit word.
pub open spec fn le_byte(x: usize, i: usize) -> u8 {
    (((x as u64) >> (8 * i) as u64) & 0xff) as u8
}

/// Physical memory.
pub struct PhysMemory {
    bytes: HashMap<usize, u8>,
}

impl View for PhysMemory {
    type V = Map<usize, u8>;

    /// The stored bytes; every other byte is zero.
    closed spec fn view(&self) -> Map<usize, u8> {
        self.bytes@
    }
}

impl PhysMemory {
    /// Memory in which every byte is zero.
    pub fn new() -> (mem: Self)
        ensures
            mem@ == Map::<usize, u8>::empty(),
    {
        PhysMemory { bytes: HashMap::new() }
    }

    /// The byte at address `a`.
    pub fn read_byte(&self, a: usize) -> (b: u8)
        ensures
            b == byte_at(self@, a),
    {
        match self.bytes.get(&a) {
            Some(b) => *b,
            None => 0,
        }
    }

    /// Stores `b` at address `a`.
    pub fn write_byte(&mut self, a: usize, b: u8)
        ensures
            final(self)@ == old(self)@.insert(a, b),
    {
        self.bytes.insert(a, b);
    }

    /// Clears frame `ppn`: every byte of it reads as zero.
    pub fn zero_frame(&mut self, ppn: usize)
        requires
            frame_fits(ppn),
        ensures
            final(self)@ == old(self)@.remove_keys(frame_addrs(set![ppn])),
    {
        proof {
            lemma_frame_bounds(ppn);
        }
        let base: usize = ppn * PAGE_SIZE;
        let mut k: usize = 0;
        while k < PAGE_SIZE
            invariant
                k <= PAGE_SIZE,
                base == ppn * PAGE_SIZE,
                base + PAGE_SIZE <= usize::MAX,
                self@ == old(self)@.remove_keys(Set::new(|a: usize| base <= a < base + k)),
            decreases PAGE_SIZE - k,
        {
            self.bytes.remove(&(base + k));
            k += 1;
            proof {
                assert(self@ =~= old(self)@.remove_keys(Set::new(|a: usize| base <= a < base + k)));
            }
        }
        proof {
            assert forall|a: usize|
                #[trigger] frame_addrs(set![ppn]).contains(a) == (base <= a < base + PAGE_SIZE) by {
                lemma_in_frame(a, ppn);
            }
            assert(Set::new(|a: usize| base <= a < base + PAGE_SIZE) =~= frame_addrs(set![ppn]));
        }
    }
}

/// A frame that fits has all its addresses, and sixteen more, within `usize`.
pub proof fn lemma_frame_bounds(ppn: usize)
    requires
        frame_fits(ppn),
    ensures
        ppn * PAGE_SIZE + 2 * PAGE_SIZE <= usize::MAX,
{
    let m = usize::MAX as int;
    assert((m / 4096 - 2) * 4096 + 8192 <= m) by (nonlinear_arith);
    assert(ppn * 4096 <= (m / 4096 - 2) * 4096) by (nonlinear_arith)
        requires ppn <= m / 4096 - 2;
}

/// Address `a` lies in frame `ppn` exactly when `a / PAGE_SIZE == ppn`.
pub proof fn lemma_in_frame(a: usize, ppn: usize)
    ensures
        (ppn * PAGE_SIZE <= a < ppn * PAGE_SIZE + PAGE_SIZE) == (a / PAGE_SIZE == ppn),
{
    assert((ppn * 4096 <= a < ppn * 4096 + 4096) == (a / 4096 == ppn)) by (nonlinear_arith);
}

} // verus!
