//! Process management syscalls
use vstd::prelude::*;
use crate::config::{max_ppn, PAGE_SIZE, USER_SPACE_END};
use crate::mm::page_table::{PageTable, PageTableEntry, PTE_R, PTE_U, PTE_V, PTE_W, PTE_X};
use crate::mm::phys_memory::{byte_at, frame_addrs, le_byte, lemma_frame_bounds};
use crate::mm::{frame_alloc, frame_dealloc, UserMemory};
use crate::syscall::{SyscallOutcome, SyscallStats};

verus! {

/// A time of day, in seconds and microseconds.
#[derive(Debug, Clone, Copy, PartialEq, Eq, Structural)]
pub struct TimeVal {
    /// Seconds.
    pub sec: usize,
    /// Microseconds.
    pub usec: usize,
}

impl TimeVal {
    /// Sets both fields.
    fn set_time(&mut self, sec: usize, usec: usize)
        ensures
            final(self).sec == sec,
            final(self).usec == usec,
    {
        self.sec = sec;
        self.usec = usec;
    }
}

// ---------------------------------------------------------------------------
// The model of the memory calls.
// ---------------------------------------------------------------------------

/// Number of pages that `len` bytes take, rounded up.
pub open spec fn pages_in(len: usize) -> nat {
    (((len as int) + (PAGE_SIZE as int) - 1) / (PAGE_SIZE as int)) as nat
}

/// The page number of the first page of a range that starts at `start`.
pub open spec fn first_vpn(start: usize) -> nat {
    (start / PAGE_SIZE) as nat
}

/// Whether page `vpn` is one of the pages of the range of `len` bytes from `start`.
pub open spec fn in_pages(start: usize, len: usize, vpn: usize) -> bool {
    first_vpn(start) <= vpn < first_vpn(start) + pages_in(len)
}

/// Whether `pt` maps `vpn` with a valid entry.
pub open spec fn is_mapped(pt: Map<usize, PageTableEntry>, vpn: usize) -> bool {
    pt.contains_key(vpn) && pt[vpn].valid()
}

/// Whether some page of the range of `len` bytes from `start` is mapped in `pt`.
pub open spec fn range_has_mapped(pt: Map<usize, PageTableEntry>, start: usize, len: usize) -> bool {
    exists|vpn: usize| in_pages(start, len, vpn) && #[trigger] is_mapped(pt, vpn)
}

/// Whether every page of the range of `len` bytes from `start` is mapped in `pt`.
pub open spec fn range_all_mapped(pt: Map<usize, PageTableEntry>, start: usize, len: usize) -> bool {
    forall|vpn: usize| in_pages(start, len, vpn) ==> #[trigger] is_mapped(pt, vpn)
}

/// The valid entries of `pt`.
pub open spec fn mapped_part(pt: Map<usize, PageTableEntry>) -> Map<usize, PageTableEntry> {
    pt.restrict(Set::new(|vpn: usize| is_mapped(pt, vpn)))
}

/// Whether `mmap` accepts `start` and `prot`: a page-aligned start, and a
/// protection made of the read (1), write (2) and execute (4) bits and at
/// least one of them.
pub open spec fn mmap_args_ok(start: usize, prot: usize) -> bool {
    start % PAGE_SIZE == 0 && 1 <= prot <= 7
}

/// The flags `mmap` gives its pages for `prot`: valid and user, and readable,
/// writable, executable as bits 0, 1, 2 of `prot` ask.
pub open spec fn prot_flags(prot: usize) -> u8 {
    let f0 = PTE_V | PTE_U;
    let f1 = if prot & 1 != 0 { f0 | PTE_R } else { f0 };
    let f2 = if prot & 2 != 0 { f1 | PTE_W } else { f1 };
    if prot & 4 != 0 { f2 | PTE_X } else { f2 }
}

/// `pt` with the `ppns.len()` pages from `first` on mapped, in order, to the
/// frames `ppns` with `flags`.
pub open spec fn with_frames(
    pt: Map<usize, PageTableEntry>,
    first: nat,
    ppns: Seq<usize>,
    flags: u8,
) -> Map<usize, PageTableEntry> {
    Map::new(
        |vpn: usize| pt.contains_key(vpn) || (first <= vpn < first + ppns.len()),
        |vpn: usize|
            if first <= vpn < first + ppns.len() {
                PageTableEntry { ppn: ppns[vpn - first], flags }
            } else {
                pt[vpn]
            },
    )
}

/// `pt` with the entries of the `n` pages from `first` on cleared.
pub open spec fn with_cleared(pt: Map<usize, PageTableEntry>, first: nat, n: nat) -> Map<usize, PageTableEntry> {
    Map::new(
        |vpn: usize| pt.contains_key(vpn) || (first <= vpn < first + n),
        |vpn: usize| if first <= vpn < first + n { PageTableEntry::spec_empty() } else { pt[vpn] },
    )
}

/// `m1` is `m0` in every part.
pub open spec fn memory_unchanged(m0: UserMemory, m1: UserMemory) -> bool {
    &&& m1.page_table@ == m0.page_table@
    &&& m1.frames@ == m0.frames@
    &&& m1.phys@ == m0.phys@
    &&& m1.frames.limit() == m0.frames.limit()
}

/// The frames a successful `mmap` of `len` bytes takes from memory `m0`: the
/// first free ones, one per page.
pub open spec fn mmap_frames(m0: UserMemory, len: usize) -> Seq<usize> {
    m0.frames@.take(pages_in(len) as int)
}

/// A successful `mmap` of `len` bytes from `start` with `prot`: the pages are
/// mapped, in order, to the first free frames, which are taken from the free
/// frames and cleared.
pub open spec fn mmap_installs(m0: UserMemory, m1: UserMemory, start: usize, len: usize, prot: usize) -> bool {
    let ppns = mmap_frames(m0, len);
    &&& m1.frames@ == m0.frames@.skip(pages_in(len) as int)
    &&& m1.frames.limit() == m0.frames.limit()
    &&& m1.page_table@ == with_frames(m0.page_table@, first_vpn(start), ppns, prot_flags(prot))
    &&& m1.phys@ == m0.phys@.remove_keys(frame_addrs(ppns.to_set()))
}

/// An `mmap` that ran out of frames: every free frame was taken and cleared,
/// then given back one by one, so that they are now free in the reverse
/// order; the entries of as many pages from the start of the range as there
/// were free frames are left cleared.
pub open spec fn mmap_rolls_back(m0: UserMemory, m1: UserMemory, start: usize) -> bool {
    &&& m1.frames@ == m0.frames@.reverse()
    &&& m1.frames.limit() == m0.frames.limit()
    &&& m1.page_table@ == with_cleared(m0.page_table@, first_vpn(start), m0.frames@.len())
    &&& m1.phys@ == m0.phys@.remove_keys(frame_addrs(m0.frames@.to_set()))
}

/// What `mmap(start, len, prot)` returns and does to memory `m0`, giving `m1`.
pub open spec fn mmap_outcome(m0: UserMemory, m1: UserMemory, start: usize, len: usize, prot: usize, r: isize) -> bool {
    if !mmap_args_ok(start, prot) || range_has_mapped(m0.page_table@, start, len) {
        r == -1 && memory_unchanged(m0, m1)
    } else if pages_in(len) <= m0.frames@.len() {
        r == 0 && mmap_installs(m0, m1, start, len, prot)
    } else {
        r == -1 && mmap_rolls_back(m0, m1, start)
    }
}

/// What `munmap(start, len)` returns and does to memory `m0`, giving `m1`:
/// where `start` is page-aligned, `len` is not zero and every page of the
/// range is mapped, the entries of those pages are cleared and 0 is returned;
/// otherwise nothing changes and -1 is returned. Frames are not given back.
pub open spec fn munmap_outcome(m0: UserMemory, m1: UserMemory, start: usize, len: usize, r: isize) -> bool {
    if start % PAGE_SIZE != 0 || len == 0 || !range_all_mapped(m0.page_table@, start, len) {
        r == -1 && memory_unchanged(m0, m1)
    } else {
        &&& r == 0
        &&& m1.page_table@ == with_cleared(m0.page_table@, first_vpn(start), pages_in(len))
        &&& m1.frames@ == m0.frames@
        &&& m1.frames.limit() == m0.frames.limit()
        &&& m1.phys@ == m0.phys@
    }
}

/// The physical address that the user address `va` translates to in `pt`:
/// its page's frame, at the same offset.
pub open spec fn user_pa(pt: Map<usize, PageTableEntry>, va: usize) -> int {
    pt[va / PAGE_SIZE].ppn * PAGE_SIZE + va % PAGE_SIZE
}

/// Whether `trace` reads the byte at user address `id`: the address lies
/// below `1 << 39`, and its page has an entry with the readable bit.
pub open spec fn trace_can_read(pt: Map<usize, PageTableEntry>, id: usize) -> bool {
    &&& (id as u64) < USER_SPACE_END
    &&& pt.contains_key(id / PAGE_SIZE)
    &&& pt[id / PAGE_SIZE].can_read()
}

/// Whether `trace` writes the byte at user address `id`: the address lies
/// below `1 << 39`, and its page has an entry with the writable bit.
pub open spec fn trace_can_write(pt: Map<usize, PageTableEntry>, id: usize) -> bool {
    &&& (id as u64) < USER_SPACE_END
    &&& pt.contains_key(id / PAGE_SIZE)
    &&& pt[id / PAGE_SIZE].can_write()
}

/// What `trace(trace_request, id, data)` returns and does to memory `m0`,
/// giving `m1`, for a task whose call counts are `counts`: request 0 reads the
/// byte at user address `id`, request 1 writes the low byte of `data` there,
/// request 2 gives how often system call `id` was made; any other request,
/// and a read or write that is not allowed, gives -1.
pub open spec fn trace_outcome(
    m0: UserMemory,
    m1: UserMemory,
    counts: Map<usize, usize>,
    trace_request: usize,
    id: usize,
    data: usize,
    r: isize,
) -> bool {
    let pt = m0.page_table@;
    if trace_request == 1 && trace_can_write(pt, id) {
        &&& r == 0
        &&& m1.page_table@ == m0.page_table@
        &&& m1.frames@ == m0.frames@
        &&& m1.frames.limit() == m0.frames.limit()
        &&& m1.phys@ == m0.phys@.insert(user_pa(pt, id) as usize, data as u8)
    } else {
        &&& memory_unchanged(m0, m1)
        &&& r == (if trace_request == 0 && trace_can_read(pt, id) {
            byte_at(m0.phys@, user_pa(pt, id) as usize) as isize
        } else if trace_request == 2 {
            counts[id] as isize
        } else {
            -1isize
        })
    }
}

/// Whether `pt` maps page `vpn` readable and writable.
pub open spec fn page_read_write(pt: Map<usize, PageTableEntry>, vpn: usize) -> bool {
    &&& pt.contains_key(vpn)
    &&& pt[vpn].can_read()
    &&& pt[vpn].can_write()
}

/// Whether `get_time` writes the time to user address `ts`: the sixteen
/// bytes from `ts` on have addresses within `usize`, and the page of the
/// first and the page of the last (the same page, or the next one, where
/// they straddle a page boundary) are readable and writable.
pub open spec fn get_time_can_write(pt: Map<usize, PageTableEntry>, ts: usize) -> bool {
    &&& ts + 15 <= usize::MAX
    &&& page_read_write(pt, ts / PAGE_SIZE)
    &&& page_read_write(pt, ((ts + 15) as usize) / PAGE_SIZE)
}

/// The sixteen bytes of a [`TimeVal`]: the seconds, then the microseconds,
/// each a 64-bit word, least significant byte first.
pub open spec fn time_val_bytes(sec: usize, usec: usize) -> Seq<u8> {
    Seq::new(16, |k: int| if k < 8 { le_byte(sec, k as usize) } else { le_byte(usec, (k - 8) as usize) })
}

/// `m` with `bytes` stored, one after the other, at the physical addresses
/// of the user addresses `va`, `va + 1`, ..., each translated through its
/// own page's entry in `pt`.
pub open spec fn store_user_bytes(
    m: Map<usize, u8>,
    pt: Map<usize, PageTableEntry>,
    va: usize,
    bytes: Seq<u8>,
) -> Map<usize, u8>
    decreases bytes.len(),
{
    if bytes.len() == 0 {
        m
    } else {
        store_user_bytes(m, pt, va, bytes.drop_last()).insert(
            user_pa(pt, (va + bytes.len() - 1) as usize) as usize,
            bytes.last(),
        )
    }
}

/// What `get_time(ts, _tz)` returns and does to memory `m0`, giving `m1`,
/// when the clock reads `us` microseconds: where allowed, the seconds and
/// the remaining microseconds are stored as a `TimeVal` at user address
/// `ts`, each byte through the entry of its own page, so that a `TimeVal`
/// that straddles two pages goes partly into the frame of each; otherwise
/// memory is unchanged. It always returns 0.
pub open spec fn get_time_outcome(m0: UserMemory, m1: UserMemory, ts: usize, us: usize, r: isize) -> bool {
    let pt = m0.page_table@;
    &&& r == 0
    &&& m1.page_table@ == m0.page_table@
    &&& m1.frames@ == m0.frames@
    &&& m1.frames.limit() == m0.frames.limit()
    &&& m1.phys@ == (if get_time_can_write(pt, ts) {
        store_user_bytes(m0.phys@, pt, ts, time_val_bytes(us / 1_000_000, us % 1_000_000))
    } else {
        m0.phys@
    })
}

// ---------------------------------------------------------------------------
// Facts the memory calls use.
// ---------------------------------------------------------------------------

/// The pages of a range have page numbers within `usize`.
pub proof fn lemma_pages_fit(start: usize, len: usize)
    ensures
        first_vpn(start) + pages_in(len) <= usize::MAX,
{
    let m = usize::MAX as int;
    assert(start as int / 4096 <= m / 4096) by (nonlinear_arith)
        requires start <= m;
    assert(((len as int) + 4095) / 4096 <= m / 4096 + 1) by (nonlinear_arith)
        requires len <= m;
    assert(2 * (m / 4096) + 1 <= m) by (nonlinear_arith)
        requires m >= 0xffff_ffff;
}

/// Each of the sixteen bytes from `ts` on lies in the page of the first or
/// in the page of the last.
pub proof fn lemma_span_pages(ts: usize, k: int)
    requires
        0 <= k < 16,
        ts + 15 <= usize::MAX,
    ensures
        (ts + k) / (PAGE_SIZE as int) == (ts as int) / (PAGE_SIZE as int)
            || (ts + k) / (PAGE_SIZE as int) == (ts + 15) / (PAGE_SIZE as int),
{
    let t = ts as int;
    assert((t + k) / 4096 == t / 4096 || (t + k) / 4096 == (t + 15) / 4096) by (nonlinear_arith)
        requires 0 <= k < 16, t >= 0;
}

/// The flags of `mmap` are valid and user, and readable, writable,
/// executable exactly as `prot` asks.
pub proof fn lemma_prot_flags(prot: usize)
    ensures
        prot_flags(prot) & PTE_V != 0,
        prot_flags(prot) & PTE_U != 0,
        (prot_flags(prot) & PTE_R != 0) == (prot & 1 != 0),
        (prot_flags(prot) & PTE_W != 0) == (prot & 2 != 0),
        (prot_flags(prot) & PTE_X != 0) == (prot & 4 != 0),
{
    assert(forall|f: u8| #![auto] (f | 2u8) & 2u8 != 0 && ((f | 2u8) & 1u8) == (f & 1u8) && ((f | 2u8) & 16u8) == (f & 16u8)
        && ((f | 2u8) & 4u8) == (f & 4u8) && ((f | 2u8) & 8u8) == (f & 8u8)) by (bit_vector);
    assert(forall|f: u8| #![auto] (f | 4u8) & 4u8 != 0 && ((f | 4u8) & 1u8) == (f & 1u8) && ((f | 4u8) & 16u8) == (f & 16u8)
        && ((f | 4u8) & 2u8) == (f & 2u8) && ((f | 4u8) & 8u8) == (f & 8u8)) by (bit_vector);
    assert(forall|f: u8| #![auto] (f | 8u8) & 8u8 != 0 && ((f | 8u8) & 1u8) == (f & 1u8) && ((f | 8u8) & 16u8) == (f & 16u8)
        && ((f | 8u8) & 2u8) == (f & 2u8) && ((f | 8u8) & 4u8) == (f & 4u8)) by (bit_vector);
    assert((1u8 | 16u8) == 17u8 && 17u8 & 1u8 != 0 && 17u8 & 16u8 != 0 && 17u8 & 2u8 == 0 && 17u8 & 4u8 == 0
        && 17u8 & 8u8 == 0) by (bit_vector);
}

/// `mmap`'s checks on `prot`, as the bit tests it makes.
pub proof fn lemma_prot_checks(prot: usize)
    ensures
        ((prot & !0x7usize) == 0 && (prot & 0x7usize) != 0) == (1 <= prot <= 7),
{
    assert(((prot & !0x7usize) == 0 && (prot & 0x7usize) != 0) == (1 <= prot <= 7)) by (bit_vector);
}

/// `pages_in`, computed without overflow.
fn pages_of(len: usize) -> (n: usize)
    ensures
        n == pages_in(len),
{
    let q: usize = len / PAGE_SIZE;
    let r: usize = len % PAGE_SIZE;
    proof {
        assert(((len as int) + 4095) / 4096 == len as int / 4096 + (if len as int % 4096 != 0 { 1int } else { 0 }))
            by (nonlinear_arith);
        assert(q < usize::MAX) by (nonlinear_arith)
            requires q == len / 4096, len <= usize::MAX, usize::MAX >= 0xffff_ffff;
    }
    if r != 0 {
        q + 1
    } else {
        q
    }
}

// ---------------------------------------------------------------------------
// The system calls.
// ---------------------------------------------------------------------------

/// 系统调用：mmap
///
/// Maps the `len` bytes from `start` (rounded up to whole pages) to newly
/// allocated, cleared frames, readable, writable, executable as bits 0, 1, 2
/// of `prot` ask. Returns 0, or -1 where `start` is not page-aligned, `prot`
/// asks for no permission or for more than these three, a page of the range
/// is already mapped, or the frames run out (then the frames taken are given
/// back and the range is left unmapped).
pub fn sys_mmap(mem: &mut UserMemory, start: usize, len: usize, prot: usize) -> (r: isize)
    requires
        old(mem).wf(),
    ensures
        final(mem).wf(),
        mmap_outcome(*old(mem), *final(mem), start, len, prot, r),
{
    // 1. 检查起始地址是否按页对齐合法性
    if start % PAGE_SIZE != 0 {
        return -1;
    }
    // 2. 检查 prot 参数
    proof {
        lemma_prot_checks(prot);
    }
    if (prot & !0x7usize) != 0 {
        return -1;
    }
    if (prot & 0x7usize) == 0 {
        return -1;
    }
    // 3. 构建页表项标志
    let mut flags: u8 = PTE_V | PTE_U;
    if (prot & 0x1) != 0 {
        flags = flags | PTE_R;
    }
    if (prot & 0x2) != 0 {
        flags = flags | PTE_W;
    }
    if (prot & 0x4) != 0 {
        flags = flags | PTE_X;
    }
    assert(flags == prot_flags(prot));
    proof {
        lemma_prot_flags(prot);
        lemma_pages_fit(start, len);
    }
    // 4. 计算需要映射的页数（向上取整）
    let page_count: usize = pages_of(len);
    let first: usize = start / PAGE_SIZE;
    // 5. 检查目标虚存区间是否已被映射
    let mut i: usize = 0;
    while i < page_count
        invariant
            i <= page_count,
            page_count == pages_in(len),
            first == first_vpn(start),
            first + page_count <= usize::MAX,
            *mem == *old(mem),
            mem.wf(),
            forall|j: usize| first <= j < first + i ==> !#[trigger] is_mapped(mem.page_table@, j),
        decreases page_count - i,
    {
        if let Some(pte) = mem.page_table.translate(first + i) {
            if pte.is_valid() {
                proof {
                    assert(is_mapped(mem.page_table@, (first + i) as usize));
                }
                return -1;
            }
        }
        i += 1;
    }
    assert(!range_has_mapped(old(mem).page_table@, start, len));
    // 6. 分配物理页并建立映射
    let ghost m0 = *old(mem);
    let ghost free0 = m0.frames@;
    proof {
        m0.frames.lemma_free_frames();
    }
    let mut frames_allocated: Vec<usize> = Vec::new();
    let mut mapping_success: bool = true;
    let mut i: usize = 0;
    while i < page_count
        invariant_except_break
            mapping_success,
        invariant
            i <= page_count,
            i <= free0.len(),
            page_count == pages_in(len),
            first == first_vpn(start),
            first + page_count <= usize::MAX,
            mem.wf(),
            flags == prot_flags(prot),
            flags & PTE_V != 0,
            free0 == m0.frames@,
            m0.frames.limit() <= max_ppn() + 1,
            forall|k: int| 0 <= k < free0.len() ==> #[trigger] free0[k] < m0.frames.limit(),
            mem.frames.limit() == m0.frames.limit(),
            frames_allocated@ == free0.take(i as int),
            mem.frames@ == free0.skip(i as int),
            mem.page_table@ == with_frames(m0.page_table@, first as nat, frames_allocated@, flags),
            mem.phys@ == m0.phys@.remove_keys(frame_addrs(frames_allocated@.to_set())),
        ensures
            frames_allocated@ == free0.take(i as int),
            mapping_success ==> i == page_count,
            !mapping_success ==> i == free0.len() && i < page_count,
        decreases page_count - i,
    {
        let ghost fa0 = frames_allocated@;
        match frame_alloc(&mut mem.frames, &mut mem.phys) {
            Some(ppn) => {
                let vpn: usize = first + i;
                let pte: PageTableEntry = PageTableEntry::new(ppn, flags);
                mem.page_table.set_entry(vpn, pte);
                frames_allocated.push(ppn);
                proof {
                    let fa = frames_allocated@;
                    assert(ppn == free0[i as int]);
                    assert(fa =~= free0.take(i + 1));
                    assert(mem.frames@ =~= free0.skip(i + 1));
                    assert(fa.to_set() =~= fa0.to_set().insert(ppn)) by {
                        assert forall|x: usize| #[trigger] fa.contains(x) implies fa0.contains(x) || x == ppn by {
                            let k = choose|k: int| 0 <= k < fa.len() && fa[k] == x;
                            if k < fa0.len() {
                                assert(fa0[k] == x);
                            }
                        }
                        assert forall|x: usize| #[trigger] fa0.contains(x) implies fa.contains(x) by {
                            let k = choose|k: int| 0 <= k < fa0.len() && fa0[k] == x;
                            assert(fa[k] == x);
                        }
                        assert(fa[fa0.len() as int] == ppn);
                    }
                    assert(mem.page_table@ =~= with_frames(m0.page_table@, first as nat, fa, flags)) by {
                        assert forall|v: usize| #[trigger] mem.page_table@.contains_key(v) implies
                            mem.page_table@[v] == with_frames(m0.page_table@, first as nat, fa, flags)[v] by {
                            if v == vpn {
                                assert(fa[v - first] == ppn);
                            } else if first <= v < first + i {
                                assert(fa[v - first] == fa0[v - first]);
                            }
                        }
                    }
                    assert(mem.phys@ =~= m0.phys@.remove_keys(frame_addrs(fa.to_set())));
                }
            },
            None => {
                mapping_success = false;
                break;
            },
        }
        i += 1;
    }
    // 7. 如果映射失败，回滚之前分配的所有页面
    if !mapping_success {
        let ghost fa = frames_allocated@;
        let ghost pt1 = mem.page_table@;
        let ghost phys1 = mem.phys@;
        proof {
            assert(fa =~= free0);
            assert(mem.frames@ =~= Seq::<usize>::empty());
        }
        let mut j: usize = 0;
        while j < frames_allocated.len()
            invariant
                j <= fa.len(),
                frames_allocated@ == fa,
                fa.len() <= page_count,
                first + page_count <= usize::MAX,
                first == first_vpn(start),
                mem.wf(),
                flags & PTE_V != 0,
                pt1 == with_frames(m0.page_table@, first as nat, fa, flags),
                mem.frames@ == Seq::<usize>::empty(),
                mem.frames.limit() == m0.frames.limit(),
                mem.phys@ == phys1,
                mem.page_table@ == Map::new(
                    |v: usize| pt1.contains_key(v),
                    |v: usize| if first <= v < first + j { PageTableEntry::spec_empty() } else { pt1[v] },
                ),
            decreases fa.len() - j,
        {
            let vpn: usize = first + j;
            if let Some(pte) = mem.page_table.translate(vpn) {
                if pte.is_valid() {
                    let empty: PageTableEntry = PageTableEntry::empty();
                    mem.page_table.set_entry(vpn, empty);
                }
            }
            j += 1;
            proof {
                assert(mem.page_table@ =~= Map::new(
                    |v: usize| pt1.contains_key(v),
                    |v: usize| if first <= v < first + j { PageTableEntry::spec_empty() } else { pt1[v] },
                ));
            }
        }
        proof {
            assert(mem.page_table@ =~= with_cleared(m0.page_table@, first_vpn(start), free0.len()));
            assert(Seq::new(0, |k: int| fa[0 - 1 - k]) =~= Seq::<usize>::empty());
        }
        // 释放已分配的物理页
        let mut j: usize = 0;
        while j < frames_allocated.len()
            invariant
                j <= fa.len(),
                frames_allocated@ == fa,
                fa == free0,
                fa.no_duplicates(),
                forall|k: int| 0 <= k < free0.len() ==> #[trigger] free0[k] < m0.frames.limit(),
                mem.wf(),
                mem.frames.limit() == m0.frames.limit(),
                mem.frames@ == Seq::new(j as nat, |k: int| fa[j - 1 - k]),
                mem.phys@ == phys1,
                mem.page_table@ == with_cleared(m0.page_table@, first_vpn(start), free0.len()),
            decreases fa.len() - j,
        {
            let ppn: usize = frames_allocated[j];
            proof {
                assert(free0[j as int] == ppn);
                assert(!mem.frames@.contains(ppn)) by {
                    if mem.frames@.contains(ppn) {
                        let k = choose|k: int| 0 <= k < mem.frames@.len() && mem.frames@[k] == ppn;
                        assert(fa[j - 1 - k] == fa[j as int]);
                    }
                }
            }
            frame_dealloc(&mut mem.frames, ppn);
            j += 1;
            proof {
                assert(mem.frames@ =~= Seq::new(j as nat, |k: int| fa[j - 1 - k]));
            }
        }
        proof {
            assert(mem.frames@ =~= fa.reverse());
        }
        return -1;
    }
    proof {
        assert(frames_allocated@ == mmap_frames(m0, len));
        assert(mmap_installs(m0, *mem, start, len, prot));
    }
    0
}

/// The physical address of user address `va`, whose page has an entry in `pt`.
fn translate_va(pt: &PageTable, pte: PageTableEntry, va: usize) -> (pa: usize)
    requires
        pt.wf(),
        pt@.contains_key(va / PAGE_SIZE),
        pte == pt@[va / PAGE_SIZE],
    ensures
        pa == user_pa(pt@, va),
        pa + 16 <= usize::MAX,
{
    proof {
        lemma_frame_bounds(pte.ppn);
    }
    // 获取物理地址
    let pa: usize = pte.ppn() * PAGE_SIZE;
    // 计算在页面内的偏移量
    let offset: usize = va % PAGE_SIZE;
    // 计算最终的物理地址
    pa + offset
}

/// task exits and submit an exit code
///
/// The exit code is not used: the task exits and the next one runs.
pub fn sys_exit(_exit_code: i32) -> (out: SyscallOutcome)
    ensures
        out == SyscallOutcome::Exit,
{
    SyscallOutcome::Exit
}

/// current task gives up resources for other tasks
///
/// The task is suspended, and gets 0 back when it runs again.
pub fn sys_yield() -> (out: SyscallOutcome)
    ensures
        out == SyscallOutcome::Suspend(0),
{
    SyscallOutcome::Suspend(0)
}

/// get time with second and microsecond
///
/// Writes the time `us` (microseconds, as the clock reads it) as a
/// [`TimeVal`] to user address `ts`, byte by byte through the page table,
/// where the page of its first byte and the page of its last byte are both
/// readable and writable; returns 0 in any case.
pub fn sys_get_time(mem: &mut UserMemory, ts: usize, _tz: usize, us: usize) -> (r: isize)
    requires
        old(mem).wf(),
    ensures
        final(mem).wf(),
        get_time_outcome(*old(mem), *final(mem), ts, us, r),
{
    // 检查虚拟地址是否在当前用户空间可写
    let vpn: usize = ts / PAGE_SIZE;
    let pte: PageTableEntry = match mem.page_table.translate(vpn) {
        Some(pte) => pte,
        None => return 0,
    };
    // 检查页表项是否具有用户权限和写权限
    if !(pte.readable() && pte.writable()) {
        return 0;
    }
    // TimeVal 可能跨越两个页面：检查其最后一个字节所在的页面
    if ts > usize::MAX - 15 {
        return 0;
    }
    let last_vpn: usize = (ts + 15) / PAGE_SIZE;
    let last_pte: PageTableEntry = match mem.page_table.translate(last_vpn) {
        Some(pte) => pte,
        None => return 0,
    };
    if !(last_pte.readable() && last_pte.writable()) {
        return 0;
    }
    // 将时间写入TimeVal结构体中
    let sec: usize = us / 1_000_000;
    let usec: usize = us % 1_000_000;
    let mut time_val = TimeVal { sec: 0, usec: 0 };
    time_val.set_time(sec, usec);
    let ghost bytes = time_val_bytes(sec, usec);
    let ghost pt = mem.page_table@;
    let ghost phys0 = mem.phys@;
    // 逐字节写入，每个字节经由其所在页面的页表项翻译
    let mut k: usize = 0;
    while k < 16
        invariant
            k <= 16,
            ts + 15 <= usize::MAX,
            vpn == ts / PAGE_SIZE,
            last_vpn == ((ts + 15) as usize) / PAGE_SIZE,
            mem.wf(),
            mem.page_table@ == pt,
            pt.contains_key(vpn) && pte == pt[vpn],
            pt.contains_key(last_vpn) && last_pte == pt[last_vpn],
            time_val.sec == sec,
            time_val.usec == usec,
            bytes == time_val_bytes(sec, usec),
            mem.frames == old(mem).frames,
            mem.phys@ == store_user_bytes(phys0, pt, ts, bytes.take(k as int)),
        decreases 16 - k,
    {
        let va: usize = ts + k;
        proof {
            lemma_span_pages(ts, k as int);
        }
        let page_pte: PageTableEntry = if va / PAGE_SIZE == vpn {
            pte
        } else {
            last_pte
        };
        let pa: usize = translate_va(&mem.page_table, page_pte, va);
        let byte: u8 = if k < 8 {
            (((time_val.sec as u64) >> (8 * k) as u64) & 0xff) as u8
        } else {
            (((time_val.usec as u64) >> (8 * (k - 8)) as u64) & 0xff) as u8
        };
        assert(byte == bytes[k as int]);
        mem.phys.write_byte(pa, byte);
        proof {
            assert(bytes.take(k + 1).drop_last() =~= bytes.take(k as int));
        }
        k += 1;
    }
    proof {
        assert(bytes.take(16) =~= bytes);
    }
    0
}

/// Reads (request 0) or writes (request 1) one byte of the current task's
/// memory at user address `id`, or (request 2) gives how often the task made
/// system call `id`, as its statistics `stats` count.
pub fn sys_trace(mem: &mut UserMemory, stats: &SyscallStats, trace_request: usize, id: usize, data: usize) -> (r: isize)
    requires
        old(mem).wf(),
        stats.wf(),
        trace_request == 2 ==> crate::syscall::is_tracked(id),
    ensures
        final(mem).wf(),
        trace_outcome(*old(mem), *final(mem), stats@, trace_request, id, data, r),
{
    match trace_request {
        0 => {
            // 读取任务id地址处的值
            // 检查id地址是否在用户空间范围内
            if id as u64 >= USER_SPACE_END {
                return -1;
            }
            // 检查id地址是否有效
            let id_vpn: usize = id / PAGE_SIZE;
            if let Some(id_pte) = mem.page_table.translate(id_vpn) {
                if id_pte.readable() {
                    let id_pa: usize = translate_va(&mem.page_table, id_pte, id);
                    let byte: u8 = mem.phys.read_byte(id_pa);
                    return byte as isize;
                }
            }
            -1
        },
        1 => {
            // 写入任务id地址处的值
            // 检查id地址是否在用户空间范围内
            if id as u64 >= USER_SPACE_END {
                return -1;
            }
            // 检查id地址是否有效
            let id_vpn: usize = id / PAGE_SIZE;
            if let Some(id_pte) = mem.page_table.translate(id_vpn) {
                if id_pte.writable() {
                    let id_pa: usize = translate_va(&mem.page_table, id_pte, id);
                    mem.phys.write_byte(id_pa, #[verifier::truncate] (data as u8));
                    return 0;
                }
            }
            -1
        },
        2 => {
            let times: usize = stats.get_syscall_times(id);
            #[verifier::truncate]
            (times as isize)
        },
        _ => -1,
    }
}

/// 系统调用：munmap
///
/// Clears the entries of the pages of the `len` bytes from `start` (rounded
/// up to whole pages). Returns 0, or -1 where `start` is not page-aligned,
/// `len` is zero, or a page of the range is not mapped (then nothing
/// changes).
pub fn sys_munmap(mem: &mut UserMemory, start: usize, len: usize) -> (r: isize)
    requires
        old(mem).wf(),
    ensures
        final(mem).wf(),
        munmap_outcome(*old(mem), *final(mem), start, len, r),
{
    // 1. 检查基本参数合法性
    if start % PAGE_SIZE != 0 {
        return -1;
    }
    if len == 0 {
        return -1;
    }
    proof {
        lemma_pages_fit(start, len);
    }
    // 2. 计算页数（向上取整）
    let page_count: usize = pages_of(len);
    let first: usize = start / PAGE_SIZE;
    // 3. 预先检查所有页面是否都已映射并有效
    let mut i: usize = 0;
    while i < page_count
        invariant
            i <= page_count,
            page_count == pages_in(len),
            first == first_vpn(start),
            first + page_count <= usize::MAX,
            *mem == *old(mem),
            mem.wf(),
            forall|j: usize| first <= j < first + i ==> #[trigger] is_mapped(mem.page_table@, j),
        decreases page_count - i,
    {
        match mem.page_table.translate(first + i) {
            Some(pte) => {
                if !pte.is_valid() {
                    proof {
                        assert(!is_mapped(mem.page_table@, (first + i) as usize));
                    }
                    return -1;
                }
            },
            None => {
                proof {
                    assert(!is_mapped(mem.page_table@, (first + i) as usize));
                }
                return -1;
            },
        }
        i += 1;
    }
    assert(range_all_mapped(old(mem).page_table@, start, len));
    // 4. 解除映射
    let ghost pt0 = mem.page_table@;
    let mut i: usize = 0;
    while i < page_count
        invariant
            i <= page_count,
            page_count == pages_in(len),
            first == first_vpn(start),
            first + page_count <= usize::MAX,
            mem.wf(),
            mem.frames == old(mem).frames,
            mem.phys == old(mem).phys,
            pt0 == old(mem).page_table@,
            forall|j: usize| first <= j < first + page_count ==> #[trigger] is_mapped(pt0, j),
            mem.page_table@ == Map::new(
                |v: usize| pt0.contains_key(v),
                |v: usize| if first <= v < first + i { PageTableEntry::spec_empty() } else { pt0[v] },
            ),
        decreases page_count - i,
    {
        let vpn: usize = first + i;
        assert(is_mapped(pt0, vpn));
        mem.page_table.unmap(vpn);
        i += 1;
        proof {
            assert(mem.page_table@ =~= Map::new(
                |v: usize| pt0.contains_key(v),
                |v: usize| if first <= v < first + i { PageTableEntry::spec_empty() } else { pt0[v] },
            ));
        }
    }
    proof {
        assert(mem.page_table@ =~= with_cleared(pt0, first_vpn(start), pages_in(len))) by {
            assert forall|v: usize| first <= v < first + page_count implies #[trigger] pt0.contains_key(v) by {
                assert(is_mapped(pt0, v));
            }
        }
    }
    0
}

/// change data segment size
///
/// Takes what changing the program break returned: the old break, which is
/// returned, or nothing, for which -1 is returned.
pub fn sys_sbrk(old_brk: Option<usize>) -> (r: isize)
    ensures
        r == (match old_brk {
            Some(b) => b as isize,
            None => -1isize,
        }),
{
    if let Some(old_brk) = old_brk {
        #[verifier::truncate]
        (old_brk as isize)
    } else {
        -1
    }
}

} // verus!
