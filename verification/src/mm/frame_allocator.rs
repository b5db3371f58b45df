//! A stack allocator of physical frames: frames are handed out from a range,
//! and freed frames are handed out again first, the most recently freed one
//! first.
use vstd::prelude::*;
use crate::config::max_ppn;

verus! {

/// The frame allocator.
pub struct FrameAllocator {
    current: usize,
    end: usize,
    recycled: Vec<usize>,
}

impl View for FrameAllocator {
    type V = Seq<usize>;

    /// The free frames, in the order in which they will be handed out: the
    /// freed frames, most recently freed first, then those never handed out,
    /// lowest first.
    closed spec fn view(&self) -> Seq<usize> {
        let r = self.recycled@;
        Seq::new(
            (r.len() + (self.end - self.current)) as nat,
            |i: int| if i < r.len() { r[r.len() - 1 - i] } else { (self.current + (i - r.len())) as usize },
        )
    }
}

impl FrameAllocator {
    /// One past the largest frame this allocator manages.
    pub closed spec fn limit(&self) -> usize {
        self.end
    }

    /// The allocator's invariant.
    pub closed spec fn wf(&self) -> bool {
        &&& self.current <= self.end
        &&& self.end <= max_ppn() + 1
        &&& self.recycled@.no_duplicates()
        &&& forall|i: int| 0 <= i < self.recycled@.len() ==> #[trigger] self.recycled@[i] < self.current
    }

    /// No frame is free twice, and each free frame lies below the limit.
    pub proof fn lemma_free_frames(&self)
        requires
            self.wf(),
        ensures
            self@.no_duplicates(),
            self.limit() <= max_ppn() + 1,
            forall|i: int| 0 <= i < self@.len() ==> #[trigger] self@[i] < self.limit(),
    {
        let r = self.recycled@;
        assert forall|i: int, j: int| 0 <= i < j < self@.len() implies self@[i] != self@[j] by {
            if j < r.len() {
                assert(r[r.len() - 1 - i] != r[r.len() - 1 - j]);
            } else if i < r.len() {
                assert(r[r.len() - 1 - i] < self.current);
            }
        }
    }

    /// An allocator whose free frames are those from `start` up to, not
    /// including, `end`.
    pub fn new(start: usize, end: usize) -> (fa: Self)
        requires
            start <= end,
            end <= max_ppn() + 1,
        ensures
            fa.wf(),
            fa@ == Seq::new((end - start) as nat, |i: int| (start + i) as usize),
            fa.limit() == end,
    {
        let fa = FrameAllocator { current: start, end, recycled: Vec::new() };
        assert(fa@ =~= Seq::new((end - start) as nat, |i: int| (start + i) as usize));
        fa
    }

    /// Takes the first free frame; `None` when no frame is free.
    pub fn allocate(&mut self) -> (ppn: Option<usize>)
        requires
            old(self).wf(),
        ensures
            final(self).wf(),
            final(self).limit() == old(self).limit(),
            match ppn {
                Some(p) => old(self)@.len() > 0 && p == old(self)@[0] && final(self)@ == old(self)@.drop_first(),
                None => old(self)@.len() == 0 && final(self)@ == old(self)@,
            },
    {
        if let Some(p) = self.recycled.pop() {
            proof {
                let s = old(self).recycled@;
                assert(s == self.recycled@.push(p));
                assert(s[s.len() - 1] == p);
                assert(self@ =~= old(self)@.drop_first());
            }
            Some(p)
        } else if self.current == self.end {
            proof {
                assert(self@ =~= old(self)@);
            }
            None
        } else {
            let p: usize = self.current;
            self.current = self.current + 1;
            proof {
                assert(self@ =~= old(self)@.drop_first());
            }
            Some(p)
        }
    }

    /// Returns frame `ppn`, which must not be free, to the free frames: it is
    /// the next to be handed out.
    pub fn deallocate(&mut self, ppn: usize)
        requires
            old(self).wf(),
            ppn < old(self).limit(),
            !old(self)@.contains(ppn),
        ensures
            final(self).wf(),
            final(self).limit() == old(self).limit(),
            final(self)@ == seq![ppn] + old(self)@,
    {
        let ghost s = self.recycled@;
        proof {
            assert(ppn < self.current) by {
                if ppn >= self.current {
                    assert(old(self)@[s.len() + (ppn - self.current)] == ppn);
                }
            }
            assert(!s.contains(ppn)) by {
                if s.contains(ppn) {
                    let i = choose|i: int| 0 <= i < s.len() && s[i] == ppn;
                    assert(old(self)@[s.len() - 1 - i] == ppn);
                }
            }
        }
        self.recycled.push(ppn);
        proof {
            assert(self.recycled@ == s.push(ppn));
            assert forall|i: int| 0 <= i < self.recycled@.len() implies #[trigger] self.recycled@[i] < self.current by {
                if i < s.len() {
                    assert(self.recycled@[i] == s[i]);
                }
            }
            assert(self.recycled@.no_duplicates()) by {
                assert forall|i: int, j: int| 0 <= i < j < self.recycled@.len() implies self.recycled@[i] != self.recycled@[j] by {
                    if j == s.len() {
                        assert(self.recycled@[i] == s[i]);
                    } else {
                        assert(self.recycled@[i] == s[i] && self.recycled@[j] == s[j]);
                    }
                }
            }
            assert(self@ =~= seq![ppn] + old(self)@);
        }
    }
}

} // verus!
