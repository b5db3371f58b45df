//! Machine constants.
use vstd::prelude::*;

verus! {

/// Size of a page and of a physical frame, in bytes.
pub const PAGE_SIZE: usize = 4096;

/// One past the largest user address that `trace` accepts (`1 << 39`, the top
/// of an SV39 address space's lower half).
pub const USER_SPACE_END: u64 = 0x80_0000_0000;

/// The largest physical page number whose frame, and the sixteen bytes after
/// it, lie within the address range of `usize`.
pub open spec fn max_ppn() -> int {
    (usize::MAX as int) / (PAGE_SIZE as int) - 2
}

} // verus!
