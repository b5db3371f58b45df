//! Properties that span several system calls.
use vstd::prelude::*;
use crate::config::{PAGE_SIZE, USER_SPACE_END};
use crate::mm::page_table::{frame_fits, PageTableEntry, PTE_R, PTE_V, PTE_W};
use crate::mm::phys_memory::{byte_at, frame_addrs, lemma_frame_bounds, lemma_in_frame};
use crate::mm::frame_allocator::FrameAllocator;
use crate::mm::UserMemory;
use crate::syscall::{
    tracked_key,
    counted, initial_counts, is_tracked, occurrences, syscall_outcome, SyscallOutcome, SyscallStats, SYSCALL_TRACE,
};
use crate::syscall::process::{
    first_vpn, in_pages, is_mapped, lemma_prot_flags, mapped_part, memory_unchanged, mmap_frames,
    mmap_outcome, munmap_outcome, pages_in, prot_flags, range_all_mapped, range_has_mapped, trace_can_read, trace_can_write,
    trace_outcome, user_pa, with_cleared, get_time_can_write, get_time_outcome, page_read_write,
    store_user_bytes, time_val_bytes, lemma_pages_fit, lemma_prot_checks, mmap_args_ok,
};

verus! {

/// A successful `mmap` maps every page of the range with the valid and user
/// bits, readable, writable and executable exactly as `prot` asks, each to
/// a frame that was free and no longer is, no two pages to the same frame.
pub proof fn lemma_mmap_maps_range(m0: UserMemory, m1: UserMemory, start: usize, len: usize, prot: usize)
    requires
        m0.wf(),
        mmap_outcome(m0, m1, start, len, prot, 0),
    ensures
        forall|vpn: usize| in_pages(start, len, vpn) ==> {
            &&& #[trigger] is_mapped(m1.page_table@, vpn)
            &&& m1.page_table@[vpn].user()
            &&& m1.page_table@[vpn].can_read() == (prot & 1 != 0)
            &&& m1.page_table@[vpn].can_write() == (prot & 2 != 0)
            &&& m1.page_table@[vpn].can_exec() == (prot & 4 != 0)
            &&& m0.frames@.contains(m1.page_table@[vpn].ppn)
            &&& !m1.frames@.contains(m1.page_table@[vpn].ppn)
        },
        forall|v: usize, w: usize|
            in_pages(start, len, v) && in_pages(start, len, w) && v != w ==> #[trigger] m1.page_table@[v].ppn
                != #[trigger] m1.page_table@[w].ppn,
{
    let ppns = mmap_frames(m0, len);
    let free0 = m0.frames@;
    let n = pages_in(len) as int;
    m0.frames.lemma_free_frames();
    lemma_prot_flags(prot);
    let first = first_vpn(start);
    assert forall|vpn: usize| in_pages(start, len, vpn) implies {
        &&& #[trigger] is_mapped(m1.page_table@, vpn)
        &&& m1.page_table@[vpn].user()
        &&& m1.page_table@[vpn].can_read() == (prot & 1 != 0)
        &&& m1.page_table@[vpn].can_write() == (prot & 2 != 0)
        &&& m1.page_table@[vpn].can_exec() == (prot & 4 != 0)
        &&& m0.frames@.contains(m1.page_table@[vpn].ppn)
        &&& !m1.frames@.contains(m1.page_table@[vpn].ppn)
    } by {
        let k = vpn - first;
        assert(m1.page_table@[vpn] == PageTableEntry { ppn: ppns[k], flags: prot_flags(prot) });
        assert(ppns[k] == free0[k]);
        assert(free0.contains(free0[k]));
        assert(!m1.frames@.contains(free0[k])) by {
            if m1.frames@.contains(free0[k]) {
                let x = choose|x: int| 0 <= x < m1.frames@.len() && m1.frames@[x] == free0[k];
                assert(m1.frames@[x] == free0[n + x]);
            }
        }
    }
    assert forall|v: usize, w: usize|
        in_pages(start, len, v) && in_pages(start, len, w) && v != w implies #[trigger] m1.page_table@[v].ppn
            != #[trigger] m1.page_table@[w].ppn by {
        assert(m1.page_table@[v].ppn == free0[v - first]);
        assert(m1.page_table@[w].ppn == free0[w - first]);
    }
}

/// A failed `mmap` leaves the valid mappings, and the set of free frames,
/// as they were.
pub proof fn lemma_failed_mmap_keeps_mappings(m0: UserMemory, m1: UserMemory, start: usize, len: usize, prot: usize)
    requires
        mmap_outcome(m0, m1, start, len, prot, -1isize),
    ensures
        mapped_part(m1.page_table@) == mapped_part(m0.page_table@),
        m1.frames@.to_set() == m0.frames@.to_set(),
{
    let f0 = m0.frames@;
    let f1 = m1.frames@;
    if f1 != f0 {
        assert(f1 == f0.reverse());
        assert(f1 =~= Seq::new(f0.len(), |i: int| f0[f0.len() - 1 - i]));
        assert forall|x: usize| #[trigger] f1.contains(x) implies f0.contains(x) by {
            let i = choose|i: int| 0 <= i < f1.len() && f1[i] == x;
            assert(f0[f0.len() - 1 - i] == x);
        }
        assert forall|x: usize| #[trigger] f0.contains(x) implies f1.contains(x) by {
            let i = choose|i: int| 0 <= i < f0.len() && f0[i] == x;
            assert(f1[f0.len() - 1 - i] == x);
        }
        assert(f1.to_set() =~= f0.to_set());
    }
    let pt0 = m0.page_table@;
    let pt1 = m1.page_table@;
    if pt1 != pt0 {
        assert(!range_has_mapped(pt0, start, len));
        let first = first_vpn(start);
        let n = m0.frames@.len();
        assert(pt1 == with_cleared(pt0, first, n));
        assert forall|v: usize| #[trigger] is_mapped(pt1, v) == is_mapped(pt0, v) by {
            if first <= v < first + n {
                assert(!PageTableEntry::spec_empty().valid()) by (bit_vector);
                assert(!is_mapped(pt0, v));
            }
        }
        assert(Set::new(|v: usize| is_mapped(pt1, v)) =~= Set::new(|v: usize| is_mapped(pt0, v)));
        assert(mapped_part(pt1) =~= mapped_part(pt0));
    }
}

/// A failed `munmap` changes nothing.
pub proof fn lemma_failed_munmap_changes_nothing(m0: UserMemory, m1: UserMemory, start: usize, len: usize)
    requires
        munmap_outcome(m0, m1, start, len, -1isize),
    ensures
        memory_unchanged(m0, m1),
{
}

/// `munmap` of the range a successful `mmap` mapped succeeds and brings the
/// valid mappings back to what they were before the `mmap`.
pub proof fn lemma_munmap_undoes_mmap(
    m0: UserMemory,
    m1: UserMemory,
    m2: UserMemory,
    start: usize,
    len: usize,
    prot: usize,
    r: isize,
)
    requires
        m0.wf(),
        mmap_outcome(m0, m1, start, len, prot, 0),
        len > 0,
        munmap_outcome(m1, m2, start, len, r),
    ensures
        r == 0,
        mapped_part(m2.page_table@) == mapped_part(m0.page_table@),
{
    lemma_mmap_maps_range(m0, m1, start, len, prot);
    let pt0 = m0.page_table@;
    let pt2 = m2.page_table@;
    let first = first_vpn(start);
    assert(!range_has_mapped(pt0, start, len));
    assert(r == 0);
    assert forall|v: usize| #[trigger] is_mapped(pt2, v) == is_mapped(pt0, v) by {
        if in_pages(start, len, v) {
            assert(!PageTableEntry::spec_empty().valid()) by (bit_vector);
            assert(!is_mapped(pt0, v));
        }
    }
    assert(Set::new(|v: usize| is_mapped(pt2, v)) =~= Set::new(|v: usize| is_mapped(pt0, v)));
    assert(mapped_part(pt2) =~= mapped_part(pt0));
}

/// Once `mmap` has mapped a range, another `mmap` that shares a page with it
/// fails and changes nothing.
pub proof fn lemma_mmap_refuses_overlap(
    m0: UserMemory,
    m1: UserMemory,
    m2: UserMemory,
    start: usize,
    len: usize,
    prot: usize,
    start2: usize,
    len2: usize,
    prot2: usize,
    vpn: usize,
    r: isize,
)
    requires
        m0.wf(),
        mmap_outcome(m0, m1, start, len, prot, 0),
        in_pages(start, len, vpn),
        in_pages(start2, len2, vpn),
        mmap_outcome(m1, m2, start2, len2, prot2, r),
    ensures
        r == -1,
        memory_unchanged(m1, m2),
{
    lemma_mmap_maps_range(m0, m1, start, len, prot);
    assert(is_mapped(m1.page_table@, vpn));
    assert(range_has_mapped(m1.page_table@, start2, len2));
}

/// Memory that a successful `mmap` maps readable reads as zero through
/// `trace`.
pub proof fn lemma_mmap_reads_zero(
    m0: UserMemory,
    m1: UserMemory,
    m2: UserMemory,
    start: usize,
    len: usize,
    prot: usize,
    counts: Map<usize, usize>,
    id: usize,
    data: usize,
    r: isize,
)
    requires
        m0.wf(),
        mmap_outcome(m0, m1, start, len, prot, 0),
        prot & 1 != 0,
        in_pages(start, len, id / PAGE_SIZE),
        (id as u64) < USER_SPACE_END,
        trace_outcome(m1, m2, counts, 0, id, data, r),
    ensures
        r == 0,
{
    lemma_mmap_maps_range(m0, m1, start, len, prot);
    let ppns = mmap_frames(m0, len);
    let first = first_vpn(start);
    let vpn = id / PAGE_SIZE;
    let ppn = ppns[vpn - first];
    assert(m1.page_table@[vpn].ppn == ppn);
    assert(is_mapped(m1.page_table@, vpn));
    assert(trace_can_read(m1.page_table@, id));
    let pa = user_pa(m1.page_table@, id);
    assert(pa == ppn * PAGE_SIZE + id % PAGE_SIZE);
    assert(0 <= pa <= usize::MAX) by {
        m0.frames.lemma_free_frames();
        assert(ppn == m0.frames@[vpn - first]);
        assert(crate::mm::page_table::frame_fits(ppn));
        crate::mm::phys_memory::lemma_frame_bounds(ppn);
    }
    lemma_in_frame(pa as usize, ppn);
    assert(ppns.to_set().contains(ppn));
    assert(frame_addrs(ppns.to_set()).contains(pa as usize));
    assert(!m1.phys@.contains_key(pa as usize));
    assert(byte_at(m1.phys@, pa as usize) == 0);
}

/// A byte that `trace` wrote reads back through `trace` as written (its low
/// eight bits), where the page is readable and writable.
pub proof fn lemma_trace_reads_back_write(
    m0: UserMemory,
    m1: UserMemory,
    m2: UserMemory,
    counts: Map<usize, usize>,
    id: usize,
    data: usize,
    w: isize,
    data2: usize,
    r: isize,
)
    requires
        trace_can_read(m0.page_table@, id),
        trace_can_write(m0.page_table@, id),
        trace_outcome(m0, m1, counts, 1, id, data, w),
        trace_outcome(m1, m2, counts, 0, id, data2, r),
    ensures
        w == 0,
        r == (data as u8) as isize,
        memory_unchanged(m1, m2),
{
}

/// After a successful `munmap`, `trace` can neither read nor write any
/// byte of the range.
pub proof fn lemma_munmap_blocks_trace(
    m0: UserMemory,
    m1: UserMemory,
    start: usize,
    len: usize,
    id: usize,
)
    requires
        munmap_outcome(m0, m1, start, len, 0),
        in_pages(start, len, id / PAGE_SIZE),
    ensures
        !trace_can_read(m1.page_table@, id),
        !trace_can_write(m1.page_table@, id),
        !is_mapped(m1.page_table@, id / PAGE_SIZE),
{
    assert(0u8 & PTE_R == 0 && 0u8 & PTE_W == 0 && 0u8 & PTE_V == 0) by (bit_vector);
}

/// A `trace` that asks how often `trace` was made counts itself: the
/// dispatcher counts the call before it carries it out.
pub proof fn lemma_trace_counts_itself(
    m0: UserMemory,
    m1: UserMemory,
    counts: Map<usize, usize>,
    args: Seq<usize>,
    now_us: usize,
    out: SyscallOutcome,
)
    requires
        is_tracked(SYSCALL_TRACE),
        args.len() == 3,
        args[0] == 2,
        args[1] == SYSCALL_TRACE,
        syscall_outcome(m0, m1, counted(counts, SYSCALL_TRACE), SYSCALL_TRACE, args, now_us, out),
    ensures
        out == SyscallOutcome::Return(((counts[SYSCALL_TRACE] + 1) as usize) as isize),
        memory_unchanged(m0, m1),
{
}

/// Taking the first free frame and giving it back leaves the free frames
/// as they were, in the same order.
pub proof fn lemma_frame_alloc_then_dealloc(
    fa0: FrameAllocator,
    fa1: FrameAllocator,
    fa2: FrameAllocator,
    ppn: usize,
)
    requires
        fa0@.len() > 0,
        ppn == fa0@[0],
        fa1@ == fa0@.drop_first(),
        fa2@ == seq![ppn] + fa1@,
    ensures
        fa2@ == fa0@,
{
    assert(fa2@ =~= fa0@);
}

/// `stats[j + 1]` is `stats[j]` after `increase(ids[j])`, as that call's
/// contract states it.
pub open spec fn increased_by(stats: Seq<SyscallStats>, ids: Seq<usize>, j: int) -> bool {
    &&& stats[j + 1].task_id == stats[j].task_id
    &&& stats[j + 1]@ == counted(stats[j]@, ids[j])
}

/// Statistics made by `SyscallStats::new(task_id)` and then given the
/// increments `ids`, one `increase` after another (`stats[j + 1]` is
/// `stats[j]` after `increase(ids[j])`), count for each counted system call
/// exactly how often it occurs in `ids`, and still belong to `task_id`.
pub proof fn lemma_counts_are_occurrences(stats: Seq<SyscallStats>, ids: Seq<usize>, task_id: usize)
    requires
        stats.len() == ids.len() + 1,
        stats[0].task_id == task_id,
        stats[0]@ == initial_counts(),
        forall|j: int| 0 <= j < ids.len() ==> #[trigger] increased_by(stats, ids, j),
        forall|k: usize| is_tracked(k) ==> occurrences(ids, k) <= usize::MAX,
    ensures
        stats.last().task_id == task_id,
        stats.last()@ == Map::new(|k: usize| is_tracked(k), |k: usize| occurrences(ids, k) as usize),
    decreases ids.len(),
{
    let n = ids.len();
    if n == 0 {
        assert(stats.last()@ =~= Map::new(|k: usize| is_tracked(k), |k: usize| occurrences(ids, k) as usize));
    } else {
        let front = stats.drop_last();
        let prefix = ids.drop_last();
        assert forall|j: int| 0 <= j < prefix.len() implies #[trigger] increased_by(front, prefix, j) by {
            assert(increased_by(stats, ids, j));
        }
        assert forall|k: usize| is_tracked(k) implies occurrences(prefix, k) <= usize::MAX by {
            assert(occurrences(ids, k) == occurrences(prefix, k) + (if ids.last() == k { 1nat } else { 0nat }));
        }
        lemma_counts_are_occurrences(front, prefix, task_id);
        assert(increased_by(stats, ids, n - 1));
        assert(front.last() == stats[n - 1]);
        let before = stats[n - 1]@;
        let id = ids[n - 1];
        assert(stats.last()@ == counted(before, id));
        assert(stats.last()@ =~= Map::new(|k: usize| is_tracked(k), |k: usize| occurrences(ids, k) as usize)) by {
            assert forall|k: usize| is_tracked(k) implies #[trigger] stats.last()@[k] == occurrences(ids, k) as usize by {
                assert(occurrences(ids, k) == occurrences(prefix, k) + (if id == k { 1nat } else { 0nat }));
            }
        }
    }
}

/// Every page that `pt` maps points to a frame that fits, and each of the
/// `n` bytes from `va` on has its page mapped.
pub open spec fn span_translates(pt: Map<usize, PageTableEntry>, va: usize, n: int) -> bool {
    &&& va + n <= usize::MAX + 1
    &&& forall|vpn: usize| #[trigger] pt.contains_key(vpn) ==> frame_fits(pt[vpn].ppn)
    &&& forall|j: int| 0 <= j < n ==> #[trigger] pt.contains_key(((va + j) as usize) / PAGE_SIZE)
}

/// Two of the sixteen bytes from `va` on have different physical addresses,
/// within `usize`.
proof fn lemma_span_addresses_distinct(pt: Map<usize, PageTableEntry>, va: usize, n: int, j: int, k: int)
    requires
        n <= 16,
        span_translates(pt, va, n),
        0 <= j < n,
        0 <= k < n,
        j != k,
    ensures
        0 <= user_pa(pt, (va + j) as usize) <= usize::MAX,
        user_pa(pt, (va + j) as usize) != user_pa(pt, (va + k) as usize),
{
    let a = (va + j) as usize;
    let b = (va + k) as usize;
    assert(pt.contains_key(a / PAGE_SIZE));
    assert(pt.contains_key(b / PAGE_SIZE));
    let p = pt[a / PAGE_SIZE].ppn as int;
    let q = pt[b / PAGE_SIZE].ppn as int;
    lemma_frame_bounds(pt[a / PAGE_SIZE].ppn);
    let oa = a as int % 4096;
    let ob = b as int % 4096;
    assert((p * 4096 + oa) % 4096 == oa) by (nonlinear_arith)
        requires 0 <= oa < 4096, p >= 0;
    assert((q * 4096 + ob) % 4096 == ob) by (nonlinear_arith)
        requires 0 <= ob < 4096, q >= 0;
    assert(oa != ob) by (nonlinear_arith)
        requires oa == (va as int + j) % 4096, ob == (va as int + k) % 4096, 0 <= j < 16, 0 <= k < 16, j != k;
}

/// The bytes that `store_user_bytes` stores read back, each at the physical
/// address of its own user address.
proof fn lemma_store_user_bytes_at(
    m: Map<usize, u8>,
    pt: Map<usize, PageTableEntry>,
    va: usize,
    bytes: Seq<u8>,
    k: int,
)
    requires
        bytes.len() <= 16,
        span_translates(pt, va, bytes.len() as int),
        0 <= k < bytes.len(),
    ensures
        store_user_bytes(m, pt, va, bytes).contains_key(user_pa(pt, (va + k) as usize) as usize),
        store_user_bytes(m, pt, va, bytes)[user_pa(pt, (va + k) as usize) as usize] == bytes[k],
    decreases bytes.len(),
{
    let n = bytes.len() as int;
    if k < n - 1 {
        let front = bytes.drop_last();
        assert forall|j: int| 0 <= j < n - 1 implies #[trigger] pt.contains_key(((va + j) as usize) / PAGE_SIZE) by {
            assert(pt.contains_key(((va + j) as usize) / PAGE_SIZE));
        }
        lemma_store_user_bytes_at(m, pt, va, front, k);
        lemma_span_addresses_distinct(pt, va, n, k, n - 1);
        lemma_span_addresses_distinct(pt, va, n, n - 1, k);
        assert(front[k] == bytes[k]);
    }
}

/// After `get_time(ts, _, us)` wrote the time, where the page of `ts` and
/// the page of `ts + 15` are both mapped with the readable (bit 1) and
/// writable (bit 2) bits, `trace` reads back, at each user address
/// `ts + k` for `k` below 16 (and below `1 << 39`), byte `k` of the
/// `TimeVal`: bytes 0 to 7 are the seconds `us / 1_000_000`, bytes 8 to 15
/// the microseconds `us % 1_000_000`, each least significant byte first.
/// This holds also where the `TimeVal` straddles two pages whose frames are
/// not adjacent.
pub proof fn lemma_get_time_reads_back(
    m0: UserMemory,
    m1: UserMemory,
    m2: UserMemory,
    counts: Map<usize, usize>,
    ts: usize,
    us: usize,
    r: isize,
    k: int,
    data: usize,
    r2: isize,
)
    requires
        m0.wf(),
        ts + 15 <= usize::MAX,
        m0.page_table@.contains_key(ts / 4096),
        m0.page_table@[ts / 4096].flags & 2u8 != 0,
        m0.page_table@[ts / 4096].flags & 4u8 != 0,
        m0.page_table@.contains_key(((ts + 15) as usize) / 4096),
        m0.page_table@[((ts + 15) as usize) / 4096].flags & 2u8 != 0,
        m0.page_table@[((ts + 15) as usize) / 4096].flags & 4u8 != 0,
        get_time_outcome(m0, m1, ts, us, r),
        0 <= k < 16,
        ((ts + k) as usize as u64) < 0x80_0000_0000u64,
        trace_outcome(m1, m2, counts, 0, (ts + k) as usize, data, r2),
    ensures
        r2 == (if k < 8 {
            (((us / 1_000_000) as u64) >> ((8 * k) as u64)) & 0xffu64
        } else {
            (((us % 1_000_000) as u64) >> ((8 * (k - 8)) as u64)) & 0xffu64
        }) as isize,
{
    let pt = m0.page_table@;
    let bytes = time_val_bytes(us / 1_000_000, us % 1_000_000);
    assert(get_time_can_write(pt, ts));
    assert forall|j: int| 0 <= j < 16 implies #[trigger] pt.contains_key(((ts + j) as usize) / PAGE_SIZE) by {
        crate::syscall::process::lemma_span_pages(ts, j);
    }
    crate::syscall::process::lemma_span_pages(ts, k);
    let va = (ts + k) as usize;
    assert(page_read_write(pt, va / PAGE_SIZE));
    assert(trace_can_read(m1.page_table@, va));
    lemma_store_user_bytes_at(m0.phys@, pt, ts, bytes, k);
    let word: u64 = if k < 8 { (us / 1_000_000) as u64 } else { (us % 1_000_000) as u64 };
    let shift: u64 = if k < 8 { (8 * k) as u64 } else { (8 * (k - 8)) as u64 };
    assert(bytes[k] == ((word >> shift) & 0xffu64) as u8);
    assert(((((word >> shift) & 0xffu64) as u8) as int) == (((word >> shift) & 0xffu64) as int)) by (bit_vector);
}

/// `get_time(ts, _, us)` returns 0 and never changes the page table or the
/// free frames; it changes physical memory only where `ts + 15` is within
/// `usize` and the page of `ts` and the page of `ts + 15` are both mapped
/// with the readable (bit 1) and writable (bit 2) bits.
pub proof fn lemma_get_time_result(m0: UserMemory, m1: UserMemory, ts: usize, us: usize, r: isize)
    requires
        get_time_outcome(m0, m1, ts, us, r),
    ensures
        r == 0,
        m1.page_table@ == m0.page_table@,
        m1.frames@ == m0.frames@,
        !(ts + 15 <= usize::MAX
            && m0.page_table@.contains_key(ts / 4096)
            && m0.page_table@[ts / 4096].flags & 2u8 != 0
            && m0.page_table@[ts / 4096].flags & 4u8 != 0
            && m0.page_table@.contains_key(((ts + 15) as usize) / 4096)
            && m0.page_table@[((ts + 15) as usize) / 4096].flags & 2u8 != 0
            && m0.page_table@[((ts + 15) as usize) / 4096].flags & 4u8 != 0) ==> m1.phys@ == m0.phys@,
{
}

// ---------------------------------------------------------------------------
// The calls in the terms of their arguments: page numbers, flag bits and
// addresses computed directly, as the kernel computes them.
// ---------------------------------------------------------------------------

/// Whether `pt` has an entry for page `v` whose valid bit (bit 0) is set.
pub open spec fn valid_entry_at(pt: Map<usize, PageTableEntry>, v: int) -> bool {
    &&& 0 <= v <= usize::MAX
    &&& pt.contains_key(v as usize)
    &&& pt[v as usize].flags & 1u8 != 0
}

/// Whether `pt` maps page `v` to frame `ppn` with the flag bits an `mmap`
/// with protection `prot` asks for: valid (bit 0) and user (bit 4) set,
/// readable (bit 1), writable (bit 2) and executable (bit 3) set exactly
/// where bits 0, 1 and 2 of `prot` are, and no other bit.
pub open spec fn maps_page_for_prot(pt: Map<usize, PageTableEntry>, v: int, ppn: usize, prot: usize) -> bool {
    &&& 0 <= v <= usize::MAX
    &&& pt.contains_key(v as usize)
    &&& pt[v as usize].ppn == ppn
    &&& pt[v as usize].flags & 1u8 != 0
    &&& pt[v as usize].flags & 16u8 != 0
    &&& (pt[v as usize].flags & 2u8 != 0) == (prot & 1 != 0)
    &&& (pt[v as usize].flags & 4u8 != 0) == (prot & 2 != 0)
    &&& (pt[v as usize].flags & 8u8 != 0) == (prot & 4 != 0)
    &&& pt[v as usize].flags & 0xe0u8 == 0
}

/// The flags `mmap` gives have no bit above the user bit.
proof fn lemma_prot_flags_high_bits(prot: usize)
    ensures
        prot_flags(prot) & 0xe0u8 == 0,
{
    assert(forall|f: u8| #![auto] ((f | 2u8) & 0xe0u8) == (f & 0xe0u8) && ((f | 4u8) & 0xe0u8) == (f & 0xe0u8)
        && ((f | 8u8) & 0xe0u8) == (f & 0xe0u8)) by (bit_vector);
    assert((1u8 | 16u8) & 0xe0u8 == 0) by (bit_vector);
}

/// `mmap(start, len, prot)` returns 0 exactly when `start` is a multiple of
/// 4096, `prot` has no bit above bit 2 and one of bits 0, 1, 2 set (every
/// `prot` from 1 to 7), no page `start / 4096 + i`, for `i` below
/// `ceil(len / 4096)`, has a valid entry, and there are that many free
/// frames; otherwise it returns -1. On success page `start / 4096 + i` is
/// mapped to the `i`-th free frame with the flags `prot` asks for, every
/// other page keeps its entry, and those frames are no longer free.
pub proof fn lemma_mmap_result(m0: UserMemory, m1: UserMemory, start: usize, len: usize, prot: usize, r: isize)
    requires
        mmap_outcome(m0, m1, start, len, prot, r),
    ensures
        r == 0 || r == -1,
        (r == 0) == {
            &&& start % 4096 == 0
            &&& prot & !0x7usize == 0
            &&& prot & 0x7usize != 0
            &&& forall|i: int| 0 <= i < (len as int + 4095) / 4096 ==> !#[trigger] valid_entry_at(m0.page_table@, start as int / 4096 + i)
            &&& (len as int + 4095) / 4096 <= m0.frames@.len()
        },
        r == 0 ==> forall|i: int| 0 <= i < (len as int + 4095) / 4096
            ==> #[trigger] maps_page_for_prot(m1.page_table@, start as int / 4096 + i, m0.frames@[i], prot),
        r == 0 ==> forall|v: usize| !(start as int / 4096 <= v < start as int / 4096 + (len as int + 4095) / 4096)
            ==> (#[trigger] m1.page_table@.contains_key(v) == m0.page_table@.contains_key(v)
                && (m0.page_table@.contains_key(v) ==> m1.page_table@[v] == m0.page_table@[v])),
        r == 0 ==> m1.frames@ == m0.frames@.skip((len as int + 4095) / 4096),
{
    let pt0 = m0.page_table@;
    let first = start as int / 4096;
    let n = (len as int + 4095) / 4096;
    lemma_prot_checks(prot);
    lemma_pages_fit(start, len);
    assert(first_vpn(start) == first && pages_in(len) == n);
    assert(range_has_mapped(pt0, start, len) == exists|i: int| 0 <= i < n && #[trigger] valid_entry_at(pt0, first + i)) by {
        if range_has_mapped(pt0, start, len) {
            let v = choose|v: usize| in_pages(start, len, v) && #[trigger] is_mapped(pt0, v);
            assert(valid_entry_at(pt0, first + (v - first)));
        }
        if exists|i: int| 0 <= i < n && #[trigger] valid_entry_at(pt0, first + i) {
            let i = choose|i: int| 0 <= i < n && #[trigger] valid_entry_at(pt0, first + i);
            let v = (first + i) as usize;
            assert(in_pages(start, len, v) && is_mapped(pt0, v));
        }
    }
    if r == 0 {
        lemma_prot_flags(prot);
        lemma_prot_flags_high_bits(prot);
        assert forall|i: int| 0 <= i < n implies #[trigger] maps_page_for_prot(m1.page_table@, first + i, m0.frames@[i], prot) by {
            let v = (first + i) as usize;
            assert(mmap_frames(m0, len)[v - first_vpn(start)] == m0.frames@[i]);
        }
        assert(mmap_frames(m0, len).len() == n);
    }
}

/// `trace(1, id, data)` writes the low byte of `data` (that is,
/// `data % 256`) to frame `ppn` of the entry of page `id / 4096`, at offset
/// `id % 4096`, and returns 0, exactly when `id` is below `1 << 39` and that
/// entry exists with the writable bit (bit 2) set, whatever its other bits;
/// otherwise it returns -1 and writes nothing. It never changes the page
/// table or the free frames.
pub proof fn lemma_trace_write_result(
    m0: UserMemory,
    m1: UserMemory,
    counts: Map<usize, usize>,
    id: usize,
    data: usize,
    r: isize,
)
    requires
        trace_outcome(m0, m1, counts, 1, id, data, r),
    ensures
        m1.page_table@ == m0.page_table@,
        m1.frames@ == m0.frames@,
        if (id as u64) < 0x80_0000_0000u64 && m0.page_table@.contains_key(id / 4096)
            && m0.page_table@[id / 4096].flags & 4u8 != 0 {
            &&& r == 0
            &&& m1.phys@ == m0.phys@.insert(
                (m0.page_table@[id / 4096].ppn * 4096 + id % 4096) as usize,
                (data % 256) as u8,
            )
        } else {
            r == -1 && m1.phys@ == m0.phys@
        },
{
    assert((data as u8) == ((data % 256) as u8)) by (bit_vector);
}

/// `trace(0, id, _)` returns the byte at offset `id % 4096` of frame `ppn`
/// of the entry of page `id / 4096` exactly when `id` is below `1 << 39` and
/// that entry exists with the readable bit (bit 1) set; otherwise -1. It
/// changes nothing.
pub proof fn lemma_trace_read_result(
    m0: UserMemory,
    m1: UserMemory,
    counts: Map<usize, usize>,
    id: usize,
    data: usize,
    r: isize,
)
    requires
        trace_outcome(m0, m1, counts, 0, id, data, r),
    ensures
        memory_unchanged(m0, m1),
        r == (if (id as u64) < 0x80_0000_0000u64 && m0.page_table@.contains_key(id / 4096)
            && m0.page_table@[id / 4096].flags & 2u8 != 0 {
            byte_at(m0.phys@, (m0.page_table@[id / 4096].ppn * 4096 + id % 4096) as usize) as isize
        } else {
            -1isize
        }),
{
}

/// After a successful `mmap(start, len, prot)` with the read bit in `prot`,
/// `trace` reads 0 at every user address from `start` up to `start + len`
/// that lies below `1 << 39`: the page of the address is mapped, readable,
/// to a cleared frame.
pub proof fn lemma_mmap_then_trace_reads_zero(
    m0: UserMemory,
    m1: UserMemory,
    m2: UserMemory,
    start: usize,
    len: usize,
    prot: usize,
    counts: Map<usize, usize>,
    id: usize,
    data: usize,
    r: isize,
)
    requires
        m0.wf(),
        mmap_outcome(m0, m1, start, len, prot, 0),
        prot & 1 != 0,
        start <= id < start + len,
        (id as u64) < 0x80_0000_0000u64,
        trace_outcome(m1, m2, counts, 0, id, data, r),
    ensures
        r == 0,
{
    assert(mmap_args_ok(start, prot));
    assert(start % 4096 == 0);
    let s = start as int;
    let d = id as int;
    let l = len as int;
    assert(s / 4096 <= d / 4096 < s / 4096 + (l + 4095) / 4096) by (nonlinear_arith)
        requires s % 4096 == 0, s <= d < s + l, s >= 0;
    assert(in_pages(start, len, id / PAGE_SIZE));
    lemma_mmap_reads_zero(m0, m1, m2, start, len, prot, counts, id, data, r);
}

/// The dispatcher hands an `sbrk` on with the size `args[0]` cut to its low
/// 32 bits, read as a signed number: `args[0] % 2^32`, less `2^32` where
/// that is at least `2^31`. It changes no memory.
pub proof fn lemma_syscall_sbrk_size(
    m0: UserMemory,
    m1: UserMemory,
    counts: Map<usize, usize>,
    args: Seq<usize>,
    now_us: usize,
    out: SyscallOutcome,
)
    requires
        args.len() == 3,
        syscall_outcome(m0, m1, counts, 214, args, now_us, out),
    ensures
        memory_unchanged(m0, m1),
        exists|size: i32| {
            &&& out == SyscallOutcome::ChangeBrk(size)
            &&& size as int == (if args[0] as int % 0x1_0000_0000 < 0x8000_0000 {
                args[0] as int % 0x1_0000_0000
            } else {
                args[0] as int % 0x1_0000_0000 - 0x1_0000_0000
            })
        },
{
    let x = args[0];
    let size = #[verifier::truncate] (x as i32);
    assert(out == SyscallOutcome::ChangeBrk(size));
    let w = x as u64;
    assert(w as int == x as int);
    assert((size as int) == (if (w & 0xffff_ffffu64) < 0x8000_0000u64 {
        (w & 0xffff_ffffu64) as int
    } else {
        (w & 0xffff_ffffu64) as int - 0x1_0000_0000
    })) by (bit_vector)
        requires size == #[verifier::truncate] (x as i32), w == x as u64;
    assert((w & 0xffff_ffffu64) == w % 0x1_0000_0000u64) by (bit_vector);
}

/// Whether `pt` has an entry for page `v` with no flag set and frame zero.
pub open spec fn cleared_entry_at(pt: Map<usize, PageTableEntry>, v: int) -> bool {
    &&& 0 <= v <= usize::MAX
    &&& pt.contains_key(v as usize)
    &&& pt[v as usize].flags == 0
    &&& pt[v as usize].ppn == 0
}

/// `munmap(start, len)` returns 0 exactly when `start` is a multiple of
/// 4096, `len` is not zero and every page `start / 4096 + i`, for `i` below
/// `ceil(len / 4096)`, has a valid entry; then those entries are cleared
/// and every other page keeps its entry. Otherwise it returns -1 and the
/// page table is unchanged. Frames and physical memory never change.
pub proof fn lemma_munmap_result(m0: UserMemory, m1: UserMemory, start: usize, len: usize, r: isize)
    requires
        munmap_outcome(m0, m1, start, len, r),
    ensures
        r == 0 || r == -1,
        (r == 0) == {
            &&& start % 4096 == 0
            &&& len > 0
            &&& forall|i: int| 0 <= i < (len as int + 4095) / 4096 ==> #[trigger] valid_entry_at(m0.page_table@, start as int / 4096 + i)
        },
        m1.frames@ == m0.frames@,
        m1.phys@ == m0.phys@,
        r == -1 ==> m1.page_table@ == m0.page_table@,
        r == 0 ==> forall|i: int| 0 <= i < (len as int + 4095) / 4096
            ==> #[trigger] cleared_entry_at(m1.page_table@, start as int / 4096 + i),
        r == 0 ==> forall|v: usize| !(start as int / 4096 <= v < start as int / 4096 + (len as int + 4095) / 4096)
            ==> (#[trigger] m1.page_table@.contains_key(v) == m0.page_table@.contains_key(v)
                && (m0.page_table@.contains_key(v) ==> m1.page_table@[v] == m0.page_table@[v])),
{
    let pt0 = m0.page_table@;
    let first = start as int / 4096;
    let n = (len as int + 4095) / 4096;
    lemma_pages_fit(start, len);
    assert(first_vpn(start) == first && pages_in(len) == n);
    assert(range_all_mapped(pt0, start, len) == forall|i: int| 0 <= i < n ==> #[trigger] valid_entry_at(pt0, first + i)) by {
        if range_all_mapped(pt0, start, len) {
            assert forall|i: int| 0 <= i < n implies #[trigger] valid_entry_at(pt0, first + i) by {
                assert(is_mapped(pt0, (first + i) as usize));
            }
        }
        if forall|i: int| 0 <= i < n ==> #[trigger] valid_entry_at(pt0, first + i) {
            assert forall|v: usize| in_pages(start, len, v) implies #[trigger] is_mapped(pt0, v) by {
                assert(valid_entry_at(pt0, first + (v - first)));
            }
        }
    }
}

/// `trace` with request 2 gives how often system call `id` was made, as
/// `counts` counts it; any request other than 0, 1 and 2 gives -1. Neither
/// changes anything.
pub proof fn lemma_trace_other_requests(
    m0: UserMemory,
    m1: UserMemory,
    counts: Map<usize, usize>,
    trace_request: usize,
    id: usize,
    data: usize,
    r: isize,
)
    requires
        trace_outcome(m0, m1, counts, trace_request, id, data, r),
        trace_request != 0,
        trace_request != 1,
    ensures
        memory_unchanged(m0, m1),
        r == (if trace_request == 2 { counts[id] as isize } else { -1isize }),
{
}

/// The calls that are counted are `write` (64), `exit` (93), `yield`
/// (124), `get_time` (169), `trace` (410) and `sbrk` (214): counting one of
/// them adds one to its count, counting any other call changes nothing, and
/// fresh statistics count each of those six at zero and nothing else.
pub proof fn lemma_counted_calls(counts: Map<usize, usize>, id: usize)
    ensures
        counted(counts, id) == (if id == 64 || id == 93 || id == 124 || id == 169 || id == 410 || id == 214 {
            counts.insert(id, (counts[id] + 1) as usize)
        } else {
            counts
        }),
        initial_counts() == Map::new(
            |k: usize| k == 64 || k == 93 || k == 124 || k == 169 || k == 410 || k == 214,
            |k: usize| 0usize,
        ),
{
    assert forall|k: usize| is_tracked(k) == (k == 64 || k == 93 || k == 124 || k == 169 || k == 410 || k == 214) by {
        if k == 64 { assert(tracked_key(0) == k); }
        if k == 93 { assert(tracked_key(1) == k); }
        if k == 124 { assert(tracked_key(2) == k); }
        if k == 169 { assert(tracked_key(3) == k); }
        if k == 410 { assert(tracked_key(4) == k); }
        if k == 214 { assert(tracked_key(5) == k); }
    }
    assert(initial_counts() =~= Map::new(
        |k: usize| k == 64 || k == 93 || k == 124 || k == 169 || k == 410 || k == 214,
        |k: usize| 0usize,
    ));
}

/// The dispatcher hands `write` (64) on with its three arguments, exits on
/// `exit` (93), suspends with answer 0 on `yield` (124), changing no memory
/// for any of them, and carries out `get_time` (169), `trace` (410), `mmap`
/// (222) and `munmap` (215) on the first arguments, in order, returning what
/// they return.
pub proof fn lemma_syscall_dispatch(
    m0: UserMemory,
    m1: UserMemory,
    counts: Map<usize, usize>,
    syscall_id: usize,
    args: Seq<usize>,
    now_us: usize,
    out: SyscallOutcome,
)
    requires
        args.len() == 3,
        syscall_outcome(m0, m1, counts, syscall_id, args, now_us, out),
    ensures
        syscall_id == 64 ==> out == (SyscallOutcome::Write { fd: args[0], buf: args[1], len: args[2] })
            && memory_unchanged(m0, m1),
        syscall_id == 93 ==> out == SyscallOutcome::Exit && memory_unchanged(m0, m1),
        syscall_id == 124 ==> out == SyscallOutcome::Suspend(0) && memory_unchanged(m0, m1),
        syscall_id == 169 ==> (exists|r: isize| out == SyscallOutcome::Return(r)
            && get_time_outcome(m0, m1, args[0], now_us, r)),
        syscall_id == 410 ==> (exists|r: isize| out == SyscallOutcome::Return(r)
            && trace_outcome(m0, m1, counts, args[0], args[1], args[2], r)),
        syscall_id == 222 ==> (exists|r: isize| out == SyscallOutcome::Return(r)
            && mmap_outcome(m0, m1, args[0], args[1], args[2], r)),
        syscall_id == 215 ==> (exists|r: isize| out == SyscallOutcome::Return(r)
            && munmap_outcome(m0, m1, args[0], args[1], r)),
{
}

} // verus!
