//! Physical and virtual memory bookkeeping.

pub mod address_space;
pub mod carve_out_shared;
pub mod fork_clone;
pub mod frame_allocator;
pub mod kernel_bootstrap;
pub mod layout;
pub mod ownership;
pub mod paging;
pub mod region;
pub mod translation;
pub mod user_mapping;
pub mod x86;

use vstd::prelude::*;

verus! {

pub const PAGE_SIZE: u64 = 4096;

pub const TWO_MIB: u64 = 0x20_0000;

pub const ONE_GIB: u64 = 0x4000_0000;

/// Exclusive top of the user half of the address space.
pub const USER_CANONICAL_TOP_EXCLUSIVE: u64 = 0x8000_0000_0000;

/// A power of two.
pub open spec fn is_alignment(align: u64) -> bool {
    align > 0 && (align & ((align - 1) as u64)) == 0
}

/// The page sizes are alignments.
pub proof fn lemma_page_alignments()
    ensures
        is_alignment(PAGE_SIZE),
        is_alignment(TWO_MIB),
        is_alignment(ONE_GIB),
{
    assert(4096u64 & 4095u64 == 0) by (bit_vector);
    assert(0x20_0000u64 & 0x1f_ffffu64 == 0) by (bit_vector);
    assert(0x4000_0000u64 & 0x3fff_ffffu64 == 0) by (bit_vector);
}

/// The greatest multiple of `align` at or below `value`.
pub open spec fn floor_to(value: int, align: int) -> int {
    value - value % align
}

/// The page of an address: a multiple of the page size, no more than one page below the address, and
/// no lower than the page of a lower address.
pub proof fn lemma_page_of(low: int, value: int)
    requires
        0 <= low <= value,
    ensures
        floor_to(value, PAGE_SIZE as int) % PAGE_SIZE as int == 0,
        0 <= floor_to(value, PAGE_SIZE as int) <= value,
        value - floor_to(value, PAGE_SIZE as int) < PAGE_SIZE,
        floor_to(low, PAGE_SIZE as int) <= floor_to(value, PAGE_SIZE as int),
{
    assert((value - value % 4096) % 4096 == 0);
    assert(low - low % 4096 <= value - value % 4096);
}

/// The least multiple of `align` at or above `value`.
pub open spec fn ceil_to(value: int, align: int) -> int {
    if value % align == 0 {
        value
    } else {
        value - value % align + align
    }
}

/// The greatest multiple of a power of two at or below `value`.
pub fn align_down(value: u64, align: u64) -> (r: u64)
    requires
        is_alignment(align),
    ensures
        r == floor_to(value as int, align as int),
        r <= value,
{
    proof {
        vstd::arithmetic::div_mod::lemma_mod_bound(value as int, align as int);
        vstd::arithmetic::div_mod::lemma_mod_decreases(value as nat, align as nat);
    }
    value - value % align
}

/// The least multiple of a power of two at or above `value`.
pub fn align_up(value: u64, align: u64) -> (r: u64)
    requires
        is_alignment(align),
        value % align == 0 || value + align - 1 <= u64::MAX,
    ensures
        r == ceil_to(value as int, align as int),
        r >= value,
{
    proof {
        vstd::arithmetic::div_mod::lemma_mod_bound(value as int, align as int);
    }
    let rest: u64 = value % align;
    if rest == 0 {
        value
    } else {
        value + (align - rest)
    }
}

} // verus!
