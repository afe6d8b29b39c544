use vstd::prelude::*;

verus! {

/// Size in bytes of one page of virtual or physical memory.
pub const PAGE_SIZE: usize = 4096;

/// Number of physical page frames that the machine provides.
pub const MEMORY_FRAMES: usize = 0x8000;

/// Number of syscall identifiers tracked per task; valid ids are `0..MAX_SYSCALL_NUM`.
pub const MAX_SYSCALL_NUM: usize = 500;

/// Number of the virtual page that holds byte address `addr`.
pub open spec fn page_index(addr: int) -> int {
    addr / PAGE_SIZE as int
}

/// Offset of byte address `addr` inside its page.
pub open spec fn page_offset(addr: int) -> int {
    addr % PAGE_SIZE as int
}

/// Number of whole pages needed to hold `len` bytes.
pub open spec fn pages_for(len: int) -> int {
    (len + PAGE_SIZE - 1) / PAGE_SIZE as int
}

/// Rounds a byte length up to a whole number of pages.
pub fn page_count(len: usize) -> (r: usize)
    ensures
        r == pages_for(len as int),
{
    len / PAGE_SIZE + if len % PAGE_SIZE == 0 { 0 } else { 1 }
}

} // verus!
