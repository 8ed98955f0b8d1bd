//! Page-table entries and virtual-address indices, computed by the `x86_64` crate.

use vstd::prelude::*;
use x86_64::structures::paging::page_table::{FrameError, PageTableEntry};
use x86_64::structures::paging::PageTableFlags;
use x86_64::VirtAddr;

verus! {

pub const FLAG_PRESENT: u64 = 0x1;
pub const FLAG_WRITABLE: u64 = 0x2;
pub const FLAG_USER_ACCESSIBLE: u64 = 0x4;
pub const FLAG_HUGE_PAGE: u64 = 0x80;
pub const FLAG_NO_EXECUTE: u64 = 0x8000_0000_0000_0000;

/// The bits of a page-table entry that hold a physical address.
pub const ADDRESS_MASK: u64 = 0x000f_ffff_ffff_f000;

/// Whether bits 48 to 63 of a virtual address repeat bit 47.
pub open spec fn is_canonical(address: u64) -> bool {
    address < 0x8000_0000_0000 || address >= 0xffff_8000_0000_0000
}

/// Whether a set of flags has all bits of another.
pub open spec fn has_flags(flags: u64, wanted: u64) -> bool {
    flags & wanted == wanted
}

/// The flags of an entry: all bits but the address.
pub open spec fn flags_of(raw: u64) -> u64 {
    raw & !ADDRESS_MASK
}

/// The physical address in an entry.
pub open spec fn address_of(raw: u64) -> u64 {
    raw & ADDRESS_MASK
}

/// Why an entry does not lead to a page table.
#[derive(Clone, Copy, Debug, PartialEq, Eq, Structural)]
pub enum EntryFrameError {
    NotPresent,
    HugePage,
}

/// The page-table frame that an entry leads to.
pub open spec fn frame_of(raw: u64) -> Result<u64, EntryFrameError> {
    if !has_flags(flags_of(raw), FLAG_PRESENT) {
        Err(EntryFrameError::NotPresent)
    } else if has_flags(flags_of(raw), FLAG_HUGE_PAGE) {
        Err(EntryFrameError::HugePage)
    } else {
        Ok(address_of(raw))
    }
}

/// `VirtAddr::p4_index`: bits 39 to 47 of a canonical address.
#[verifier::external_body]
pub(crate) fn p4_index(address: u64) -> (r: usize)
    requires
        is_canonical(address),
    ensures
        r == (address as int / 0x80_0000_0000) % 512,
{
    VirtAddr::new(address).p4_index().into()
}

/// `VirtAddr::p3_index`: bits 30 to 38 of a canonical address.
#[verifier::external_body]
pub(crate) fn p3_index(address: u64) -> (r: usize)
    requires
        is_canonical(address),
    ensures
        r == (address as int / 0x4000_0000) % 512,
{
    VirtAddr::new(address).p3_index().into()
}

/// `VirtAddr::p2_index`: bits 21 to 29 of a canonical address.
#[verifier::external_body]
pub(crate) fn p2_index(address: u64) -> (r: usize)
    requires
        is_canonical(address),
    ensures
        r == (address as int / 0x20_0000) % 512,
{
    VirtAddr::new(address).p2_index().into()
}

/// `VirtAddr::p1_index`: bits 12 to 20 of a canonical address.
#[verifier::external_body]
pub(crate) fn p1_index(address: u64) -> (r: usize)
    requires
        is_canonical(address),
    ensures
        r == (address as int / 0x1000) % 512,
{
    VirtAddr::new(address).p1_index().into()
}

/// `PageTableEntry::flags`: the bits of the entry outside its address.
#[verifier::external_body]
pub(crate) fn entry_flags(raw: u64) -> (r: u64)
    ensures
        r == flags_of(raw),
{
    let mut entry = PageTableEntry::new();
    entry.set_flags(PageTableFlags::from_bits_retain(raw));
    entry.flags().bits()
}

/// `PageTableEntry::addr`: the address bits of the entry.
#[verifier::external_body]
pub(crate) fn entry_address(raw: u64) -> (r: u64)
    ensures
        r == address_of(raw),
{
    let mut entry = PageTableEntry::new();
    entry.set_flags(PageTableFlags::from_bits_retain(raw));
    entry.addr().as_u64()
}

/// `PageTableEntry::frame`: an entry that is not present, or that maps a huge page, leads to no page
/// table; any other leads to the table at its address.
#[verifier::external_body]
pub(crate) fn entry_frame(raw: u64) -> (r: Result<u64, EntryFrameError>)
    ensures
        r == frame_of(raw),
{
    let mut entry = PageTableEntry::new();
    entry.set_flags(PageTableFlags::from_bits_retain(raw));
    match entry.frame() {
        Ok(frame) => Ok(frame.start_address().as_u64()),
        Err(FrameError::FrameNotPresent) => Err(EntryFrameError::NotPresent),
        Err(FrameError::HugeFrame) => Err(EntryFrameError::HugePage),
    }
}

/// `PageTableFlags::contains`: whether all bits of `wanted` are set.
#[verifier::external_body]
pub(crate) fn flags_contain(flags: u64, wanted: u64) -> (r: bool)
    ensures
        r == has_flags(flags, wanted),
{
    PageTableFlags::from_bits_retain(flags).contains(PageTableFlags::from_bits_retain(wanted))
}

/// An address from an entry fits in 52 bits and is page-aligned.
pub proof fn lemma_address_of(raw: u64)
    ensures
        address_of(raw) <= 0x000f_ffff_ffff_f000,
        address_of(raw) % 4096 == 0,
{
    assert(raw & 0x000f_ffff_ffff_f000 <= 0x000f_ffff_ffff_f000) by (bit_vector);
    assert((raw & 0x000f_ffff_ffff_f000) % 4096 == 0) by (bit_vector);
}

} // verus!
