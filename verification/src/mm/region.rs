//! Physical memory regions and the normalized memory map.

use super::{align_down, align_up, ceil_to, floor_to, lemma_page_alignments, PAGE_SIZE};
use vstd::prelude::*;

verus! {

pub const MAX_MEMORY_REGIONS: usize = 256;

pub const MAX_RESERVED_RANGES: usize = 257;

#[derive(Clone, Copy, Debug, PartialEq, Eq, Structural)]
pub enum MemoryRegionKind {
    Usable,
    Reserved,
}

#[derive(Clone, Copy, Debug, PartialEq, Eq, Structural)]
pub struct MemoryRegion {
    pub start: u64,
    pub end: u64,
    pub kind: MemoryRegionKind,
}

impl MemoryRegion {
    pub open spec fn bytes(self) -> int {
        if self.end >= self.start {
            self.end - self.start
        } else {
            0
        }
    }

    pub fn len(self) -> (r: u64)
        ensures
            r == self.bytes(),
    {
        self.end.saturating_sub(self.start)
    }
}

#[derive(Clone, Copy, Debug, PartialEq, Eq, Structural)]
pub struct ReservedRange {
    pub start: u64,
    pub end: u64,
}

impl ReservedRange {
    pub fn new(start: u64, end: u64) -> (r: ReservedRange)
        ensures
            r == (ReservedRange { start, end }),
    {
        ReservedRange { start, end }
    }

    /// Where a range of bytes ends, at most at the top of the address space.
    pub open spec fn range_end(base: u64, size: u64) -> int {
        if base + size > u64::MAX {
            u64::MAX as int
        } else {
            base + size
        }
    }

    /// The pages that a range of bytes touches.
    pub fn from_base_and_size(base: u64, size: u64) -> (r: ReservedRange)
        requires
            ReservedRange::range_end(base, size) + PAGE_SIZE - 1 <= u64::MAX,
        ensures
            r.start == floor_to(base as int, PAGE_SIZE as int),
            r.end == ceil_to(ReservedRange::range_end(base, size), PAGE_SIZE as int),
    {
        proof {
            lemma_page_alignments();
        }
        ReservedRange {
            start: align_down(base, PAGE_SIZE),
            end: align_up(base.saturating_add(size), PAGE_SIZE),
        }
    }

    pub fn is_empty(self) -> (r: bool)
        ensures
            r == (self.start >= self.end),
    {
        self.start >= self.end
    }
}

/// Regions in the order in which they were pushed, and the bytes of each kind.
#[derive(Debug)]
pub struct NormalizedMemoryMap {
    pub regions: Vec<MemoryRegion>,
    pub usable_bytes: u64,
    pub reserved_bytes: u64,
}

/// The bytes of the regions of one kind.
pub open spec fn kind_bytes(regions: Seq<MemoryRegion>, kind: MemoryRegionKind) -> int
    decreases regions.len(),
{
    if regions.len() == 0 {
        0
    } else {
        kind_bytes(regions.drop_last(), kind) + (if regions.last().kind == kind {
            regions.last().bytes()
        } else {
            0
        })
    }
}

/// The regions after one more: an empty one is ignored, one that continues the last is merged into
/// it.
pub open spec fn region_pushed(regions: Seq<MemoryRegion>, region: MemoryRegion) -> Option<
    Seq<MemoryRegion>,
> {
    if region.bytes() == 0 {
        Some(regions)
    } else if regions.len() > 0 && regions.last().kind == region.kind && regions.last().end
        == region.start {
        Some(
            regions.update(
                regions.len() - 1,
                MemoryRegion { end: region.end, ..regions.last() },
            ),
        )
    } else if regions.len() >= MAX_MEMORY_REGIONS {
        None
    } else {
        Some(regions.push(region))
    }
}

impl NormalizedMemoryMap {
    /// No region is empty, there are at most `MAX_MEMORY_REGIONS`, and the totals are those of the
    /// regions.
    pub open spec fn wf(&self) -> bool {
        &&& self.regions@.len() <= MAX_MEMORY_REGIONS
        &&& forall|i: int|
            0 <= i < self.regions@.len() ==> (#[trigger] self.regions@[i]).start
                < self.regions@[i].end
        &&& self.usable_bytes == kind_bytes(self.regions@, MemoryRegionKind::Usable)
        &&& self.reserved_bytes == kind_bytes(self.regions@, MemoryRegionKind::Reserved)
    }

    pub fn regions(&self) -> (r: &Vec<MemoryRegion>)
        ensures
            r@ == self.regions@,
    {
        &self.regions
    }

    pub fn usable_bytes(&self) -> (r: u64)
        requires
            self.wf(),
        ensures
            r == kind_bytes(self.regions@, MemoryRegionKind::Usable),
    {
        self.usable_bytes
    }

    pub fn reserved_bytes(&self) -> (r: u64)
        requires
            self.wf(),
        ensures
            r == kind_bytes(self.regions@, MemoryRegionKind::Reserved),
    {
        self.reserved_bytes
    }

    /// Appends a region.
    pub fn push_region(&mut self, region: MemoryRegion) -> (r: Result<(), &'static str>)
        requires
            old(self).wf(),
            old(self).usable_bytes + region.bytes() <= u64::MAX,
            old(self).reserved_bytes + region.bytes() <= u64::MAX,
        ensures
            final(self).wf(),
            match region_pushed(old(self).regions@, region) {
                Some(regions) => r is Ok && final(self).regions@ == regions,
                None => r == Err::<(), &'static str>(
                    "normalized memory map exceeded fixed region capacity",
                ) && *final(self) == *old(self),
            },
    {
        let ghost before = self.regions@;
        if region.len() == 0 {
            return Ok(());
        }
        let n: usize = self.regions.len();
        if n > 0 {
            let previous = self.regions[n - 1];
            if previous.kind == region.kind && previous.end == region.start {
                let merged = MemoryRegion { end: region.end, ..previous };
                self.regions.set(n - 1, merged);
                proof {
                    let after = self.regions@;
                    assert(after.drop_last() =~= before.drop_last());
                    assert(after.last() == merged);
                }
                self.bump_totals(region.kind, region.len());
                return Ok(());
            }
        }
        if n >= MAX_MEMORY_REGIONS {
            return Err("normalized memory map exceeded fixed region capacity");
        }
        self.regions.push(region);
        proof {
            assert(self.regions@.drop_last() =~= before);
        }
        self.bump_totals(region.kind, region.len());
        Ok(())
    }

    /// Adds bytes to the total of a kind.
    pub fn bump_totals(&mut self, kind: MemoryRegionKind, len: u64)
        requires
            old(self).usable_bytes + len <= u64::MAX,
            old(self).reserved_bytes + len <= u64::MAX,
        ensures
            final(self).regions == old(self).regions,
            final(self).usable_bytes == old(self).usable_bytes + (if kind
                == MemoryRegionKind::Usable {
                len as int
            } else {
                0
            }),
            final(self).reserved_bytes == old(self).reserved_bytes + (if kind
                == MemoryRegionKind::Reserved {
                len as int
            } else {
                0
            }),
    {
        match kind {
            MemoryRegionKind::Usable => self.usable_bytes = self.usable_bytes + len,
            MemoryRegionKind::Reserved => self.reserved_bytes = self.reserved_bytes + len,
        }
    }
}

impl Default for NormalizedMemoryMap {
    fn default() -> (r: NormalizedMemoryMap)
        ensures
            r.wf(),
            r.regions@.len() == 0,
    {
        NormalizedMemoryMap { regions: Vec::new(), usable_bytes: 0, reserved_bytes: 0 }
    }
}

/// Pushing a region adds its bytes to the total of its kind and leaves the other total alone.
pub proof fn law_push_adds_bytes(
    regions: Seq<MemoryRegion>,
    region: MemoryRegion,
    kind: MemoryRegionKind,
)
    requires
        region_pushed(regions, region) is Some,
        forall|i: int| 0 <= i < regions.len() ==> (#[trigger] regions[i]).start < regions[i].end,
    ensures
        kind_bytes(region_pushed(regions, region)->0, kind) == kind_bytes(regions, kind) + (
        if region.kind == kind {
            region.bytes()
        } else {
            0
        }),
{
    let after = region_pushed(regions, region)->0;
    if region.bytes() == 0 {
    } else if regions.len() > 0 && regions.last().kind == region.kind && regions.last().end
        == region.start {
        assert(after.drop_last() =~= regions.drop_last());
        assert(regions[regions.len() - 1].start < regions[regions.len() - 1].end);
    } else {
        assert(after.drop_last() =~= regions);
    }
}

} // verus!
