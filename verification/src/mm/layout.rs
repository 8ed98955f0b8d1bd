//! Kernel virtual layout constants and physical to direct-map helpers.

use super::region::ReservedRange;
use vstd::prelude::*;

verus! {

/// Start of the supervisor-only direct physical map.
pub const PHYSMAP_BASE: u64 = 0xffff_8000_0000_0000;

/// 512 GiB.
pub const PHYSMAP_SPAN: u64 = 0x80_0000_0000;

pub const PHYSMAP_END: u64 = 0xffff_8080_0000_0000;

/// Exclusive PML4 index bound for the user canonical half.
pub const KERNEL_USER_PML4_SLOT_END: usize = 256;

pub const LINUX_CONVENTIONAL_USER_VA_LO: u64 = 0x10000;

/// Exclusive top of the window that must stay clear of carve-outs.
pub const LINUX_CONVENTIONAL_WINDOW_HI: u64 = 0x1000_0000;

/// Only the kernel page-table root stays on the firmware identity window.
pub const KERNEL_IDENTITY_PHYS_CUTOFF: u64 = 0x1000;

/// Physical page left unmapped in the direct map for fault probes.
pub const PHYSMAP_FAULT_TEST_PHYS: u64 = 0x1000;

pub const MAX_KERNEL_LOW_CARVE_OUTS: usize = 48;

#[derive(Clone, Copy, Debug, PartialEq, Eq, Structural)]
pub struct VaRange {
    pub start: u64,
    pub end: u64,
}

/// Whether two half-open ranges share an address, neither being empty.
pub open spec fn ranges_overlap(range: VaRange, start: u64, end: u64) -> bool {
    range.start < end && start < range.end
}

impl VaRange {
    pub fn new(start: u64, end: u64) -> (r: VaRange)
        ensures
            r == (VaRange { start, end }),
    {
        VaRange { start, end }
    }

    pub fn overlaps(self, start: u64, end: u64) -> (r: bool)
        ensures
            r == ranges_overlap(self, start, end),
    {
        self.start < end && start < self.end
    }
}

/// The low virtual ranges that the kernel keeps for itself.
#[derive(Debug)]
pub struct CarveOutTable {
    pub ranges: Vec<VaRange>,
}

/// The carve-outs after one more: an empty range is ignored.
pub open spec fn carve_out_pushed(ranges: Seq<VaRange>, range: VaRange) -> Option<Seq<VaRange>> {
    if range.start >= range.end {
        Some(ranges)
    } else if ranges.len() >= MAX_KERNEL_LOW_CARVE_OUTS {
        None
    } else {
        Some(ranges.push(range))
    }
}

/// The carve-outs after the reserved ranges from `from` on, up to the first that does not fit.
pub open spec fn carve_outs_from(
    ranges: Seq<VaRange>,
    reserved: Seq<ReservedRange>,
    from: int,
) -> (Seq<VaRange>, bool)
    decreases reserved.len() - from,
{
    if from < 0 || from >= reserved.len() {
        (ranges, true)
    } else {
        match carve_out_pushed(
            ranges,
            VaRange { start: reserved[from].start, end: reserved[from].end },
        ) {
            None => (ranges, false),
            Some(next) => carve_outs_from(next, reserved, from + 1),
        }
    }
}

/// Whether some carve-out shares an address with `[start, end)`.
pub open spec fn any_overlap(ranges: Seq<VaRange>, start: u64, end: u64) -> bool {
    exists|i: int| 0 <= i < ranges.len() && ranges_overlap(#[trigger] ranges[i], start, end)
}

/// Whether an address lies in some carve-out.
pub open spec fn in_carve_out(ranges: Seq<VaRange>, virt: u64) -> bool {
    exists|i: int| 0 <= i < ranges.len() && (#[trigger] ranges[i]).start <= virt < ranges[i].end
}

impl CarveOutTable {
    /// At most `MAX_KERNEL_LOW_CARVE_OUTS` ranges, none empty.
    pub open spec fn wf(&self) -> bool {
        &&& self.ranges@.len() <= MAX_KERNEL_LOW_CARVE_OUTS
        &&& forall|i: int|
            0 <= i < self.ranges@.len() ==> (#[trigger] self.ranges@[i]).start < self.ranges@[i].end
    }

    pub fn new() -> (r: CarveOutTable)
        ensures
            r.wf(),
            r.ranges@.len() == 0,
    {
        CarveOutTable { ranges: Vec::new() }
    }

    pub fn push_carve_out(&mut self, range: VaRange) -> (r: Result<(), &'static str>)
        requires
            old(self).wf(),
        ensures
            final(self).wf(),
            match carve_out_pushed(old(self).ranges@, range) {
                Some(ranges) => r is Ok && final(self).ranges@ == ranges,
                None => r == Err::<(), &'static str>(
                    "kernel low carve-out table capacity exceeded",
                ) && final(self).ranges@ == old(self).ranges@,
            },
    {
        if range.start >= range.end {
            return Ok(());
        }
        if self.ranges.len() >= MAX_KERNEL_LOW_CARVE_OUTS {
            return Err("kernel low carve-out table capacity exceeded");
        }
        self.ranges.push(range);
        Ok(())
    }

    pub fn kernel_low_reserved_ranges(&self) -> (r: &Vec<VaRange>)
        ensures
            r@ == self.ranges@,
    {
        &self.ranges
    }

    /// Whether some carve-out shares an address with `[start, end)`.
    pub fn va_overlaps_kernel_low_reserved(&self, start: u64, end: u64) -> (r: bool)
        ensures
            r == any_overlap(self.ranges@, start, end),
    {
        let mut i: usize = 0;
        while i < self.ranges.len()
            invariant
                0 <= i <= self.ranges@.len(),
                forall|j: int|
                    0 <= j < i ==> !ranges_overlap(#[trigger] self.ranges@[j], start, end),
            decreases self.ranges@.len() - i,
        {
            if self.ranges[i].overlaps(start, end) {
                return true;
            }
            i += 1;
        }
        false
    }

    /// The physical address behind a direct-map address or an identity-mapped carve-out.
    pub fn virt_to_phys(&self, virt: u64) -> (r: Option<u64>)
        ensures
            r == match direct_map_phys(virt) {
                Some(phys) => Some(phys),
                None => if in_carve_out(self.ranges@, virt) {
                    Some(virt)
                } else {
                    None
                },
            },
    {
        if let Some(phys) = virt_to_phys_direct_map(virt) {
            return Some(phys);
        }
        let mut i: usize = 0;
        while i < self.ranges.len()
            invariant
                0 <= i <= self.ranges@.len(),
                direct_map_phys(virt) is None,
                forall|j: int|
                    0 <= j < i ==> !((#[trigger] self.ranges@[j]).start <= virt
                        < self.ranges@[j].end),
            decreases self.ranges@.len() - i,
        {
            let range = self.ranges[i];
            if virt >= range.start && virt < range.end {
                return Some(virt);
            }
            i += 1;
        }
        None
    }

    /// Starts the table anew from the reserved ranges.
    pub fn init_kernel_low_carve_outs_from_reserved(&mut self, reserved: &[ReservedRange]) -> (r:
        Result<(), &'static str>)
        ensures
            final(self).wf(),
            ({
                let (ranges, fits) = carve_outs_from(seq![], reserved@, 0);
                &&& final(self).ranges@ == ranges
                &&& r == (if fits {
                    Ok::<(), &'static str>(())
                } else {
                    Err("kernel low carve-out table capacity exceeded")
                })
            }),
    {
        self.ranges = Vec::new();
        let mut i: usize = 0;
        while i < reserved.len()
            invariant
                0 <= i <= reserved@.len(),
                self.wf(),
                carve_outs_from(seq![], reserved@, 0) == carve_outs_from(
                    self.ranges@,
                    reserved@,
                    i as int,
                ),
            decreases reserved@.len() - i,
        {
            match self.push_carve_out(VaRange::new(reserved[i].start, reserved[i].end)) {
                Ok(()) => {},
                Err(e) => return Err(e),
            }
            i += 1;
        }
        Ok(())
    }

    /// Adds one carve-out.
    pub fn register_kernel_low_carve_out(&mut self, start: u64, end: u64) -> (r: Result<
        (),
        &'static str,
    >)
        requires
            old(self).wf(),
        ensures
            final(self).wf(),
            match carve_out_pushed(old(self).ranges@, (VaRange { start, end })) {
                Some(ranges) => r is Ok && final(self).ranges@ == ranges,
                None => r == Err::<(), &'static str>(
                    "kernel low carve-out table capacity exceeded",
                ) && final(self).ranges@ == old(self).ranges@,
            },
    {
        self.push_carve_out(VaRange::new(start, end))
    }

    /// Fails if the conventional Linux low window intersects a carve-out.
    pub fn assert_conventional_linux_window_clear(&self) -> (r: Result<(), &'static str>)
        ensures
            r == (if any_overlap(
                self.ranges@,
                LINUX_CONVENTIONAL_USER_VA_LO,
                LINUX_CONVENTIONAL_WINDOW_HI,
            ) {
                Err::<(), &'static str>(
                    "conventional Linux user window overlaps kernel low carve-out",
                )
            } else {
                Ok(())
            }),
    {
        if self.va_overlaps_kernel_low_reserved(
            LINUX_CONVENTIONAL_USER_VA_LO,
            LINUX_CONVENTIONAL_WINDOW_HI,
        ) {
            return Err("conventional Linux user window overlaps kernel low carve-out");
        }
        Ok(())
    }
}

/// Whether a physmap mapping may be installed at `virt` for `phys`.
pub fn physmap_mapping_allowed(phys: u64, virt: u64) -> (r: bool)
    ensures
        r == (phys != 0 && virt == PHYSMAP_BASE.wrapping_add(phys) && phys
            != PHYSMAP_FAULT_TEST_PHYS),
{
    if phys == 0 {
        return false;
    }
    if virt != PHYSMAP_BASE.wrapping_add(phys) {
        return false;
    }
    phys != PHYSMAP_FAULT_TEST_PHYS
}

/// The virtual address of a physical frame.
pub open spec fn mapped_at(phys: u64) -> u64 {
    if phys <= KERNEL_IDENTITY_PHYS_CUTOFF {
        phys
    } else {
        PHYSMAP_BASE.wrapping_add(phys)
    }
}

/// Virtual address used to inspect or mutate a physical frame from kernel mode.
pub fn kernel_map_ptr(phys: u64) -> (r: u64)
    ensures
        r == mapped_at(phys),
{
    if phys <= KERNEL_IDENTITY_PHYS_CUTOFF {
        phys
    } else {
        PHYSMAP_BASE.wrapping_add(phys)
    }
}

pub fn phys_to_virt(phys: u64) -> (r: u64)
    ensures
        r == mapped_at(phys),
{
    kernel_map_ptr(phys)
}

/// The physical address behind a direct-map address.
pub open spec fn direct_map_phys(virt: u64) -> Option<u64> {
    if PHYSMAP_BASE <= virt < PHYSMAP_END {
        Some((virt - PHYSMAP_BASE) as u64)
    } else {
        None
    }
}

pub fn virt_to_phys_direct_map(virt: u64) -> (r: Option<u64>)
    ensures
        r == direct_map_phys(virt),
{
    if virt >= PHYSMAP_BASE && virt < PHYSMAP_END {
        Some(virt - PHYSMAP_BASE)
    } else {
        None
    }
}

/// A frame inside the direct map, above the identity page, is found again at its virtual address.
pub proof fn law_direct_map_round_trip(phys: u64)
    requires
        KERNEL_IDENTITY_PHYS_CUTOFF < phys < PHYSMAP_SPAN,
    ensures
        direct_map_phys(mapped_at(phys)) == Some(phys),
{
}

} // verus!
