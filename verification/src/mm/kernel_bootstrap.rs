//! The kernel's own root table, with a direct map of physical memory.

use super::address_space::{lemma_supervisor_entry, make_supervisor_entry, supervisor_entry};
use super::x86::{
    flags_of, has_flags, FLAG_HUGE_PAGE, FLAG_NO_EXECUTE, FLAG_PRESENT, FLAG_USER_ACCESSIBLE,
    FLAG_WRITABLE,
};
use super::{PAGE_SIZE, TWO_MIB};
use vstd::prelude::*;

verus! {

pub const LOCAL_APIC_MMIO_BASE: u64 = 0xFEE0_0000;

/// Physical memory that the direct map covers at first.
pub const BRINGUP_PHYSMAP_BYTES: u64 = 0x2000_0000;

/// The flags of a page of the direct map.
pub const PHYSMAP_FLAGS: u64 = FLAG_PRESENT | FLAG_WRITABLE | FLAG_NO_EXECUTE;

/// The kernel's root table: that of the firmware without user access.
pub fn kernel_owned_root(firmware_root: &[u64; 512]) -> (r: [u64; 512])
    ensures
        forall|i: int| 0 <= i < 512 ==> #[trigger] r@[i] == supervisor_entry(firmware_root@[i]),
{
    let mut root: [u64; 512] = *firmware_root;
    let mut index: usize = 0;
    while index < 512
        invariant
            0 <= index <= 512,
            forall|i: int|
                0 <= i < index ==> #[trigger] root@[i] == supervisor_entry(firmware_root@[i]),
            forall|i: int| index <= i < 512 ==> #[trigger] root@[i] == firmware_root@[i],
        decreases 512 - index,
    {
        root[index] = make_supervisor_entry(root[index]);
        index += 1;
    }
    root
}

/// A page that the direct map gets.
#[derive(Clone, Copy, Debug, PartialEq, Eq, Structural)]
pub enum PhysmapPage {
    /// 2 MiB of memory.
    Large(u64),
    /// One page of memory.
    Small(u64),
    /// The page of the local interrupt controller, at its physical address.
    Mmio(u64),
}

/// The page after `page`, in the order in which they are mapped: large pages from 2 MiB on, then the
/// small pages below but for page zero, then the interrupt controller.
pub open spec fn physmap_after(page: Option<PhysmapPage>) -> Option<PhysmapPage> {
    match page {
        None => Some(PhysmapPage::Large(TWO_MIB)),
        Some(PhysmapPage::Large(phys)) => if phys + TWO_MIB < BRINGUP_PHYSMAP_BYTES {
            Some(PhysmapPage::Large((phys + TWO_MIB) as u64))
        } else {
            Some(PhysmapPage::Small(PAGE_SIZE))
        },
        Some(PhysmapPage::Small(phys)) => if phys + PAGE_SIZE < TWO_MIB {
            Some(PhysmapPage::Small((phys + PAGE_SIZE) as u64))
        } else {
            Some(PhysmapPage::Mmio(LOCAL_APIC_MMIO_BASE))
        },
        Some(PhysmapPage::Mmio(_)) => None,
    }
}

/// The next page of the direct map. A page that is mapped already is left as it is.
pub fn next_physmap_page(page: Option<PhysmapPage>) -> (r: Option<PhysmapPage>)
    ensures
        r == physmap_after(page),
{
    match page {
        None => Some(PhysmapPage::Large(TWO_MIB)),
        Some(PhysmapPage::Large(phys)) => match phys.checked_add(TWO_MIB) {
            Some(next) => {
                if next < BRINGUP_PHYSMAP_BYTES {
                    Some(PhysmapPage::Large(next))
                } else {
                    Some(PhysmapPage::Small(PAGE_SIZE))
                }
            },
            None => Some(PhysmapPage::Small(PAGE_SIZE)),
        },
        Some(PhysmapPage::Small(phys)) => match phys.checked_add(PAGE_SIZE) {
            Some(next) => {
                if next < TWO_MIB {
                    Some(PhysmapPage::Small(next))
                } else {
                    Some(PhysmapPage::Mmio(LOCAL_APIC_MMIO_BASE))
                }
            },
            None => Some(PhysmapPage::Mmio(LOCAL_APIC_MMIO_BASE)),
        },
        Some(PhysmapPage::Mmio(_)) => None,
    }
}

/// The flags with which a page of the direct map is mapped.
pub fn physmap_flags(page: PhysmapPage) -> (r: u64)
    ensures
        r == (if page is Large {
            PHYSMAP_FLAGS | FLAG_HUGE_PAGE
        } else {
            PHYSMAP_FLAGS
        }),
{
    match page {
        PhysmapPage::Large(_) => PHYSMAP_FLAGS | FLAG_HUGE_PAGE,
        _ => PHYSMAP_FLAGS,
    }
}

/// Why a page of the direct map could not be mapped.
pub fn physmap_error(page: PhysmapPage) -> (r: &'static str)
    ensures
        r == match page {
            PhysmapPage::Large(_) => "physmap 2MiB map failed for usable RAM",
            PhysmapPage::Small(_) => "physmap map failed for usable RAM",
            PhysmapPage::Mmio(_) => "MMIO physmap map failed",
        },
{
    match page {
        PhysmapPage::Large(_) => "physmap 2MiB map failed for usable RAM",
        PhysmapPage::Small(_) => "physmap map failed for usable RAM",
        PhysmapPage::Mmio(_) => "MMIO physmap map failed",
    }
}

/// No entry of the kernel's root table can be reached from user mode, and no page of the direct map.
pub proof fn law_kernel_root_is_supervisor_only(raw: u64)
    ensures
        !has_flags(flags_of(supervisor_entry(raw)), FLAG_USER_ACCESSIBLE),
        !has_flags(PHYSMAP_FLAGS, FLAG_USER_ACCESSIBLE),
        !has_flags(PHYSMAP_FLAGS | FLAG_HUGE_PAGE, FLAG_USER_ACCESSIBLE),
{
    lemma_supervisor_entry(raw);
    assert((0x1u64 | 0x2 | 0x8000_0000_0000_0000) & 0x4 != 0x4 && (0x1u64 | 0x2
        | 0x8000_0000_0000_0000 | 0x80) & 0x4 != 0x4) by (bit_vector);
}

/// The page that is mapped at a step: the large pages first, then the small ones, then the interrupt
/// controller.
pub open spec fn physmap_step(n: int) -> Option<PhysmapPage> {
    if n < 0 {
        None
    } else if n < 255 {
        Some(PhysmapPage::Large(((n + 1) * TWO_MIB) as u64))
    } else if n < 255 + 511 {
        Some(PhysmapPage::Small(((n - 254) * PAGE_SIZE) as u64))
    } else if n == 255 + 511 {
        Some(PhysmapPage::Mmio(LOCAL_APIC_MMIO_BASE))
    } else {
        None
    }
}

/// Mapping visits every page of the memory that is covered, but for page zero, and ends.
pub proof fn law_direct_map_is_complete(n: int)
    requires
        -1 <= n <= 255 + 511,
    ensures
        physmap_after(physmap_step(n)) == physmap_step(n + 1),
{
}

} // verus!
