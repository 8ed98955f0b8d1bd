//! The physical page allocator: regions handed out in order, and a stack of freed pages.

use super::region::{MemoryRegion, MemoryRegionKind, NormalizedMemoryMap, MAX_MEMORY_REGIONS};
use super::PAGE_SIZE;
use vstd::prelude::*;

verus! {

#[derive(Debug)]
pub struct PageAllocator {
    pub usable_regions: Vec<MemoryRegion>,
    pub current_region: usize,
    pub next_page: u64,
    /// Freed pages, the last freed at the end.
    pub free_list: Vec<u64>,
    pub total_pages: u64,
    pub available_pages: u64,
}

#[derive(Clone, Copy, Debug, PartialEq, Eq, Structural)]
pub struct PageAllocatorStats {
    pub total_pages: u64,
    pub allocated_pages: u64,
    pub free_pages: u64,
}

pub open spec fn page_aligned(address: u64) -> bool {
    address % PAGE_SIZE == 0
}

/// The usable part of a region: page zero is never handed out.
pub open spec fn usable_part(region: MemoryRegion) -> MemoryRegion {
    MemoryRegion {
        start: if region.start < PAGE_SIZE {
            PAGE_SIZE
        } else {
            region.start
        },
        ..region
    }
}

/// The usable parts of the usable regions, in order.
pub open spec fn usable_parts(regions: Seq<MemoryRegion>) -> Seq<MemoryRegion>
    decreases regions.len(),
{
    if regions.len() == 0 {
        seq![]
    } else {
        let part = usable_part(regions.last());
        let before = usable_parts(regions.drop_last());
        if regions.last().kind == MemoryRegionKind::Usable && part.start < part.end {
            before.push(part)
        } else {
            before
        }
    }
}

/// Pages of the first `n` regions.
pub open spec fn pages_upto(regions: Seq<MemoryRegion>, n: int) -> int
    decreases n,
{
    if n <= 0 {
        0
    } else {
        pages_upto(regions, n - 1) + (regions[n - 1].end - regions[n - 1].start) / PAGE_SIZE as int
    }
}

/// Whether two regions have no address in common.
pub open spec fn apart(a: MemoryRegion, b: MemoryRegion) -> bool {
    a.end <= b.start || b.end <= a.start
}

/// Page-aligned, non-empty regions above page zero, without overlap.
pub open spec fn regions_wf(regions: Seq<MemoryRegion>) -> bool {
    &&& forall|i: int|
        0 <= i < regions.len() ==> PAGE_SIZE <= (#[trigger] regions[i]).start < regions[i].end
            && page_aligned(regions[i].start) && page_aligned(regions[i].end)
    &&& forall|i: int, j: int|
        0 <= i < j < regions.len() ==> apart(#[trigger] regions[i], #[trigger] regions[j])
}

/// Whether a frame lies in one of the regions.
pub open spec fn in_regions(regions: Seq<MemoryRegion>, frame: u64) -> bool {
    exists|i: int| 0 <= i < regions.len() && (#[trigger] regions[i]).start <= frame < regions[i].end
}

/// Whether a frame comes before another in the order of the regions.
pub open spec fn comes_before(regions: Seq<MemoryRegion>, frame: u64, other: u64) -> bool {
    exists|i: int, j: int|
        0 <= i <= j < regions.len() && (#[trigger] regions[i]).start <= frame < regions[i].end && (
        #[trigger] regions[j]).start <= other < regions[j].end && (i < j || frame < other)
}

/// What handing out a page comes to: the page freed last, else the next in the order of the regions,
/// and none only where all are allocated.
pub open spec fn page_taken(before: &PageAllocator, after: &PageAllocator, r: Option<u64>) -> bool {
    match r {
        Some(frame) => {
            &&& before.free(frame)
            &&& after.allocated(frame)
            &&& forall|other: u64|
                other != frame ==> #[trigger] after.allocated(other) == before.allocated(other)
            &&& after.available_pages == before.available_pages - 1
            &&& before.free_list@.len() > 0 ==> frame == before.free_list@.last()
                && after.free_list@ == before.free_list@.drop_last()
                && after.current_region == before.current_region && after.next_page == before.next_page
            &&& before.free_list@.len() == 0 ==> after.free_list@.len() == 0
                && forall|other: u64|
                page_aligned(other) && comes_before(before.regions(), other, frame)
                    ==> #[trigger] before.allocated(other)
        },
        None => {
            &&& forall|frame: u64|
                page_aligned(frame) && in_regions(before.regions(), frame)
                    ==> #[trigger] before.allocated(frame)
            &&& before.available_pages == 0
            &&& after.available_pages == 0
            &&& forall|frame: u64|
                #[trigger] after.allocated(frame) == before.allocated(frame)
            &&& after.free_list@ == before.free_list@
        },
    }
}

/// What taking these pages, one after the other, comes to.
#[verifier::opaque]
pub open spec fn pages_taken(before: PageAllocator, after: PageAllocator, frames: Seq<u64>) -> bool
    decreases frames.len(),
{
    if frames.len() == 0 {
        after == before
    } else {
        exists|mid: PageAllocator|
            pages_taken(before, mid, frames.drop_last()) && #[trigger] page_taken(
                &mid,
                &after,
                Some(frames.last()),
            )
    }
}

pub proof fn lemma_no_page_taken(allocator: PageAllocator)
    ensures
        pages_taken(allocator, allocator, seq![]),
{
    reveal(pages_taken);
}

pub proof fn lemma_page_taken_next(
    before: PageAllocator,
    mid: PageAllocator,
    after: PageAllocator,
    frames: Seq<u64>,
    frame: u64,
)
    requires
        pages_taken(before, mid, frames),
        page_taken(&mid, &after, Some(frame)),
    ensures
        pages_taken(before, after, frames.push(frame)),
{
    reveal(pages_taken);
    let more = frames.push(frame);
    assert(more.drop_last() =~= frames);
    assert(page_taken(&mid, &after, Some(more.last())));
}

/// What freeing a page comes to.
pub open spec fn page_returned(
    before: &PageAllocator,
    after: &PageAllocator,
    frame: u64,
    r: Result<(), &'static str>,
) -> bool {
    &&& r == before.free_result(frame)
    &&& r is Err ==> *after == *before
    &&& r is Ok ==> {
        &&& before.allocated(frame)
        &&& !after.allocated(frame)
        &&& forall|other: u64|
            other != frame ==> #[trigger] after.allocated(other) == before.allocated(other)
        &&& after.regions() == before.regions()
        &&& after.current_region == before.current_region
        &&& after.next_page == before.next_page
        &&& after.free_list@ == before.free_list@.push(frame)
        &&& after.available_pages == before.available_pages + 1
    }
}

impl PageAllocator {
    pub open spec fn regions(&self) -> Seq<MemoryRegion> {
        self.usable_regions@
    }

    /// Whether the frame lies in the part of the regions that was handed out in order.
    pub open spec fn passed(&self, frame: u64) -> bool {
        exists|i: int|
            0 <= i < self.regions().len() && (#[trigger] self.regions()[i]).start <= frame
                < self.regions()[i].end && (i < self.current_region || (i == self.current_region
                && frame < self.next_page))
    }

    /// Whether the frame is an allocated page: handed out, and not freed since.
    pub open spec fn allocated(&self, frame: u64) -> bool {
        page_aligned(frame) && self.passed(frame) && !self.free_list@.contains(frame)
    }

    /// Whether the frame is a page that could be allocated.
    pub open spec fn free(&self, frame: u64) -> bool {
        page_aligned(frame) && in_regions(self.regions(), frame) && !self.allocated(frame)
    }

    /// Pages handed out in order.
    pub open spec fn pages_passed(&self) -> int {
        if self.current_region < self.regions().len() {
            pages_upto(self.regions(), self.current_region as int) + (self.next_page
                - self.regions()[self.current_region as int].start) / PAGE_SIZE as int
        } else {
            pages_upto(self.regions(), self.regions().len() as int)
        }
    }

    pub open spec fn wf(&self) -> bool {
        &&& regions_wf(self.regions())
        &&& 0 < self.regions().len() <= MAX_MEMORY_REGIONS
        &&& self.current_region <= self.regions().len()
        &&& self.current_region < self.regions().len() ==> {
            let region = self.regions()[self.current_region as int];
            region.start <= self.next_page <= region.end && page_aligned(self.next_page)
        }
        &&& self.free_list@.no_duplicates()
        &&& forall|k: int|
            0 <= k < self.free_list@.len() ==> page_aligned(#[trigger] self.free_list@[k])
                && self.passed(self.free_list@[k])
        &&& self.total_pages == pages_upto(self.regions(), self.regions().len() as int)
        &&& self.available_pages == self.total_pages - self.pages_passed() + self.free_list@.len()
        &&& self.free_list@.len() <= self.pages_passed()
    }

    /// An allocator over the usable regions of a memory map. They must be page-aligned and must not
    /// overlap.
    pub fn new(memory_map: &NormalizedMemoryMap) -> (r: Result<PageAllocator, &'static str>)
        requires
            memory_map.wf(),
            regions_wf(usable_parts(memory_map.regions@)),
        ensures
            if usable_parts(memory_map.regions@).len() == 0 {
                r == Err::<PageAllocator, &'static str>(
                    "no usable physical memory regions available",
                )
            } else {
                &&& r is Ok
                &&& r->Ok_0.wf()
                &&& r->Ok_0.regions() == usable_parts(memory_map.regions@)
                &&& r->Ok_0.current_region == 0
                &&& r->Ok_0.next_page == usable_parts(memory_map.regions@)[0].start
                &&& r->Ok_0.free_list@.len() == 0
                &&& forall|frame: u64| !#[trigger] r->Ok_0.allocated(frame)
            },
    {
        let mut usable: Vec<MemoryRegion> = Vec::new();
        let mut total: u64 = 0;
        let mut index: usize = 0;
        let ghost all = memory_map.regions@;
        let ghost parts = usable_parts(all);
        assert(all.take(0) =~= Seq::<MemoryRegion>::empty());
        while index < memory_map.regions.len()
            invariant
                0 <= index <= all.len() <= MAX_MEMORY_REGIONS,
                all == memory_map.regions@,
                memory_map.wf(),
                parts == usable_parts(all),
                regions_wf(parts),
                usable@ == usable_parts(all.take(index as int)),
                usable@.len() <= index,
                total == pages_upto(usable@, usable@.len() as int),
            decreases all.len() - index,
        {
            let region = memory_map.regions[index];
            let ghost next = all.take(index + 1);
            proof {
                assert(next.drop_last() =~= all.take(index as int));
                assert(next.last() == region);
                lemma_parts_prefix(all, index + 1);
            }
            if region.kind == MemoryRegionKind::Usable {
                let start: u64 = if region.start < PAGE_SIZE {
                    PAGE_SIZE
                } else {
                    region.start
                };
                if start < region.end {
                    let ghost before = usable@;
                    usable.push(
                        MemoryRegion { start, end: region.end, kind: MemoryRegionKind::Usable },
                    );
                    proof {
                        assert(usable@ =~= usable_parts(next));
                        lemma_regions_prefix(parts, usable@);
                        lemma_pages_frame(before, usable@, before.len() as int);
                        lemma_pages_bound(usable@, usable@.len() as int);
                    }
                    total = total + (region.end - start) / PAGE_SIZE;
                }
            }
            index += 1;
        }
        assert(all.take(index as int) =~= all);
        if usable.len() == 0 {
            return Err("no usable physical memory regions available");
        }
        let next_page: u64 = usable[0].start;
        let r = PageAllocator {
            usable_regions: usable,
            current_region: 0,
            next_page,
            free_list: Vec::new(),
            total_pages: total,
            available_pages: total,
        };
        assert forall|frame: u64| !#[trigger] r.allocated(frame) by {}
        Ok(r)
    }

    /// Hands out a page: the one freed last, else the next in order.
    pub fn allocate_page(&mut self) -> (r: Option<u64>)
        requires
            old(self).wf(),
        ensures
            final(self).wf(),
            final(self).regions() == old(self).regions(),
            final(self).total_pages == old(self).total_pages,
            page_taken(old(self), final(self), r),
    {
        let ghost start = *self;
        proof {
            start.lemma_passed_bound();
        }
        if let Some(frame) = self.pop_free_page() {
            self.available_pages = self.available_pages - 1;
            proof {
                self.lemma_popped(&start);
            }
            return Some(frame);
        }
        while self.current_region < self.usable_regions.len()
            invariant
                self.wf(),
                self.free_list@.len() == 0,
                old(self).wf(),
                old(self).free_list@.len() == 0,
                self.regions() == old(self).regions(),
                self.total_pages == old(self).total_pages,
                self.available_pages == old(self).available_pages,
                self.pages_passed() == old(self).pages_passed(),
                forall|frame: u64| #[trigger]
                    self.passed(frame) == old(self).passed(frame),
            decreases self.usable_regions@.len() - self.current_region,
        {
            let region = self.usable_regions[self.current_region];
            if self.next_page < region.end {
                let frame: u64 = self.next_page;
                let ghost before = *self;
                proof {
                    self.lemma_next_unpassed();
                    lemma_pages_bound(self.regions(), self.regions().len() as int);
                    self.lemma_passed_bound();
                    assert(self.regions()[self.current_region as int] == region);
                    assert(in_regions(self.regions(), frame));
                }
                self.next_page = self.next_page + PAGE_SIZE;
                self.available_pages = self.available_pages - 1;
                proof {
                    self.lemma_advanced(&before);
                    assert forall|other: u64|
                        page_aligned(other) && comes_before(old(self).regions(), other, frame) implies #[trigger] old(self).allocated(other) by {
                        before.lemma_below_next(other);
                        assert(before.passed(other));
                    }
                    assert(!old(self).passed(frame)) by {
                        assert(!before.passed(frame));
                    }
                }
                return Some(frame);
            }
            let ghost before = *self;
            self.current_region = self.current_region + 1;
            if self.current_region < self.usable_regions.len() {
                self.next_page = self.usable_regions[self.current_region].start;
            }
            proof {
                self.lemma_next_region(&before);
            }
        }
        proof {
            assert forall|frame: u64|
                page_aligned(frame) && in_regions(old(self).regions(), frame) implies #[trigger] old(self).allocated(frame) by {
                let i = choose|i: int|
                    0 <= i < self.regions().len() && (#[trigger] self.regions()[i]).start <= frame
                        < self.regions()[i].end;
                assert(self.passed(frame));
            }
            assert forall|frame: u64| #[trigger] self.allocated(frame) == old(self).allocated(
                frame,
            ) by {
                assert(self.passed(frame) == old(self).passed(frame));
            }
            assert(self.free_list@ =~= old(self).free_list@);
        }
        None
    }

    /// Takes the page freed last.
    fn pop_free_page(&mut self) -> (r: Option<u64>)
        ensures
            final(self).usable_regions == old(self).usable_regions,
            final(self).current_region == old(self).current_region,
            final(self).next_page == old(self).next_page,
            final(self).total_pages == old(self).total_pages,
            final(self).available_pages == old(self).available_pages,
            old(self).free_list@.len() == 0 ==> r is None && final(self).free_list@ == old(self).free_list@,
            old(self).free_list@.len() > 0 ==> r == Some(old(self).free_list@.last()) && final(self).free_list@ == old(self).free_list@.drop_last(),
    {
        self.free_list.pop()
    }

    /// Takes a page back.
    pub fn free_page(&mut self, frame: u64) -> (r: Result<(), &'static str>)
        requires
            old(self).wf(),
        ensures
            final(self).wf(),
            final(self).regions() == old(self).regions(),
            final(self).total_pages == old(self).total_pages,
            final(self).current_region == old(self).current_region,
            final(self).next_page == old(self).next_page,
            page_returned(old(self), final(self), frame, r),
    {
        if frame % PAGE_SIZE != 0 {
            return Err("attempted to free a non-page-aligned frame");
        }
        if !self.contains_usable_frame(frame) {
            return Err("attempted to free a frame outside usable memory");
        }
        if !self.was_ever_allocated(frame) {
            return Err("attempted to free a frame that was never allocated");
        }
        if self.free_list_contains(frame) {
            return Err("attempted to free an already-free frame");
        }
        let ghost before = self.free_list@;
        proof {
            self.lemma_free_fits(frame);
            self.lemma_passed_bound();
        }
        self.free_list.push(frame);
        self.available_pages = self.available_pages + 1;
        proof {
            assert(self.free_list@ =~= before.push(frame));
            assert(self.free_list@[before.len() as int] == frame);
            assert forall|other: u64| other != frame implies #[trigger] self.allocated(other)
                == old(self).allocated(other) by {
                if before.contains(other) {
                    let k = before.index_of(other);
                    assert(self.free_list@[k] == other);
                }
            }
        }
        Ok(())
    }

    /// Why a frame cannot be freed, in the order in which the reasons are tried.
    pub open spec fn free_result(&self, frame: u64) -> Result<(), &'static str> {
        if !page_aligned(frame) {
            Err("attempted to free a non-page-aligned frame")
        } else if !in_regions(self.regions(), frame) {
            Err("attempted to free a frame outside usable memory")
        } else if !self.passed(frame) {
            Err("attempted to free a frame that was never allocated")
        } else if self.free_list@.contains(frame) {
            Err("attempted to free an already-free frame")
        } else {
            Ok(())
        }
    }

    pub fn stats(&self) -> (r: PageAllocatorStats)
        requires
            self.wf(),
        ensures
            r.total_pages == self.total_pages,
            r.free_pages == self.available_pages,
            r.allocated_pages == self.total_pages - self.available_pages,
            r.allocated_pages + r.free_pages == r.total_pages,
            r.allocated_pages == self.pages_passed() - self.free_list@.len(),
    {
        proof {
            self.lemma_passed_bound();
        }
        PageAllocatorStats {
            total_pages: self.total_pages,
            allocated_pages: self.total_pages - self.available_pages,
            free_pages: self.available_pages,
        }
    }

    pub fn contains_usable_frame(&self, frame: u64) -> (r: bool)
        ensures
            r == in_regions(self.regions(), frame),
    {
        self.region_index_containing(frame).is_some()
    }

    /// Whether the frame was handed out in order, whatever became of it.
    pub fn was_ever_allocated(&self, frame: u64) -> (r: bool)
        requires
            self.wf(),
        ensures
            r == self.passed(frame),
    {
        match self.region_index_containing(frame) {
            None => false,
            Some(index) => {
                assert(self.regions()[index as int].start <= frame < self.regions()[index as int].end);
                index < self.current_region || (index == self.current_region && frame
                    < self.next_page)
            },
        }
    }

    pub fn region_index_containing(&self, frame: u64) -> (r: Option<usize>)
        ensures
            match r {
                Some(i) => i < self.regions().len() && self.regions()[i as int].start <= frame
                    < self.regions()[i as int].end && forall|j: int|
                    0 <= j < i ==> !((#[trigger] self.regions()[j]).start <= frame
                        < self.regions()[j].end),
                None => !in_regions(self.regions(), frame),
            },
    {
        let mut index: usize = 0;
        while index < self.usable_regions.len()
            invariant
                0 <= index <= self.regions().len(),
                self.regions() == self.usable_regions@,
                forall|j: int|
                    0 <= j < index ==> !((#[trigger] self.regions()[j]).start <= frame
                        < self.regions()[j].end),
            decreases self.regions().len() - index,
        {
            let region = self.usable_regions[index];
            if frame >= region.start && frame < region.end {
                return Some(index);
            }
            index += 1;
        }
        None
    }

    fn free_list_contains(&self, frame: u64) -> (r: bool)
        ensures
            r == self.free_list@.contains(frame),
    {
        let mut index: usize = 0;
        while index < self.free_list.len()
            invariant
                0 <= index <= self.free_list@.len(),
                forall|j: int| 0 <= j < index ==> self.free_list@[j] != frame,
            decreases self.free_list@.len() - index,
        {
            if self.free_list[index] == frame {
                assert(self.free_list@[index as int] == frame);
                return true;
            }
            index += 1;
        }
        false
    }

    proof fn lemma_popped(&self, before: &PageAllocator)
        requires
            before.wf(),
            before.free_list@.len() > 0,
            self.usable_regions == before.usable_regions,
            self.current_region == before.current_region,
            self.next_page == before.next_page,
            self.free_list@ == before.free_list@.drop_last(),
            self.total_pages == before.total_pages,
            self.available_pages == before.available_pages - 1,
        ensures
            self.wf(),
            before.free(before.free_list@.last()),
            self.allocated(before.free_list@.last()),
            forall|other: u64|
                other != before.free_list@.last() ==> #[trigger] self.allocated(other)
                    == before.allocated(other),
    {
        let frame = before.free_list@.last();
        let last = before.free_list@.len() - 1;
        assert(before.free_list@[last] == frame);
        assert(page_aligned(frame) && before.passed(frame));
        assert(before.free_list@.contains(frame));
        assert forall|f: u64| #[trigger] self.passed(f) == before.passed(f) by {
            assert(self.regions() == before.regions());
        }
        assert forall|k: int| 0 <= k < self.free_list@.len() implies page_aligned(
            #[trigger] self.free_list@[k],
        ) && self.passed(self.free_list@[k]) by {
            assert(self.free_list@[k] == before.free_list@[k]);
        }
        assert(self.free_list@.no_duplicates());
        assert(!self.free_list@.contains(frame)) by {
            if self.free_list@.contains(frame) {
                let k = self.free_list@.index_of(frame);
                assert(before.free_list@[k] == before.free_list@[last]);
            }
        }
        assert(in_regions(before.regions(), frame)) by {
            let i = choose|i: int|
                0 <= i < before.regions().len() && (#[trigger] before.regions()[i]).start <= frame
                    < before.regions()[i].end && (i < before.current_region || (i
                    == before.current_region && frame < before.next_page));
            assert(before.regions()[i].start <= frame < before.regions()[i].end);
        }
        assert forall|other: u64| other != frame implies #[trigger] self.allocated(other)
            == before.allocated(other) by {
            if before.free_list@.contains(other) {
                let k = before.free_list@.index_of(other);
                assert(self.free_list@[k] == other);
            }
            if self.free_list@.contains(other) {
                let k = self.free_list@.index_of(other);
                assert(before.free_list@[k] == other);
            }
        }
    }

    proof fn lemma_next_unpassed(&self)
        requires
            self.wf(),
            self.current_region < self.regions().len(),
            self.next_page < self.regions()[self.current_region as int].end,
        ensures
            !self.passed(self.next_page),
            self.next_page + PAGE_SIZE <= self.regions()[self.current_region as int].end,
            self.pages_passed() < self.total_pages,
    {
        let c = self.current_region as int;
        let n = self.regions().len() as int;
        assert(self.regions()[c].start <= self.next_page);
        if self.passed(self.next_page) {
            let i = choose|i: int|
                0 <= i < self.regions().len() && (#[trigger] self.regions()[i]).start
                    <= self.next_page < self.regions()[i].end && (i < self.current_region || (i
                    == self.current_region && self.next_page < self.next_page));
            assert(i < c);
            assert(apart(self.regions()[i], self.regions()[c]));
        }
        lemma_pages_mono(self.regions(), c + 1, n);
    }

    proof fn lemma_passed_bound(&self)
        requires
            self.wf(),
        ensures
            0 <= self.pages_passed() <= self.total_pages,
    {
        let n = self.regions().len() as int;
        let c = self.current_region as int;
        if c < n {
            lemma_pages_mono(self.regions(), c + 1, n);
            lemma_pages_mono(self.regions(), 0, c);
            assert(self.regions()[c].start <= self.next_page <= self.regions()[c].end);
        } else {
            lemma_pages_mono(self.regions(), 0, n);
        }
    }

    #[verifier::spinoff_prover]
    #[verifier::rlimit(40)]
    proof fn lemma_advanced(&self, before: &PageAllocator)
        requires
            before.wf(),
            before.free_list@.len() == 0,
            before.current_region < before.regions().len(),
            before.next_page < before.regions()[before.current_region as int].end,
            self.usable_regions == before.usable_regions,
            self.current_region == before.current_region,
            self.next_page == before.next_page + PAGE_SIZE,
            self.free_list == before.free_list,
            self.total_pages == before.total_pages,
            self.available_pages == before.available_pages - 1,
        ensures
            self.wf(),
            self.allocated(before.next_page),
            forall|other: u64|
                other != before.next_page ==> #[trigger] self.allocated(other) == before.allocated(
                    other,
                ),
    {
        before.lemma_next_unpassed();
        let c = self.current_region as int;
        assert(self.regions()[c] == before.regions()[c]);
        assert(self.passed(before.next_page)) by {
            assert(self.regions()[c].start <= before.next_page < self.regions()[c].end);
        }
        lemma_page_step(before.regions()[c].start as int, before.next_page as int);
        assert forall|other: u64| other != before.next_page implies #[trigger] self.allocated(other)
            == before.allocated(other) by {
            if page_aligned(other) && self.passed(other) {
                let i = choose|i: int|
                    0 <= i < self.regions().len() && (#[trigger] self.regions()[i]).start <= other
                        < self.regions()[i].end && (i < self.current_region || (i
                        == self.current_region && other < self.next_page));
                assert(before.regions()[i].start <= other);
                if i == c {
                    lemma_page_below(other as int, before.next_page as int);
                }
                assert(before.passed(other));
            }
            if before.passed(other) {
                let i = choose|i: int|
                    0 <= i < before.regions().len() && (#[trigger] before.regions()[i]).start
                        <= other < before.regions()[i].end && (i < before.current_region || (i
                        == before.current_region && other < before.next_page));
                assert(self.regions()[i].start <= other);
                assert(self.passed(other));
            }
        }
    }

    proof fn lemma_next_region(&self, before: &PageAllocator)
        requires
            before.wf(),
            before.free_list@.len() == 0,
            before.current_region < before.regions().len(),
            before.next_page >= before.regions()[before.current_region as int].end,
            self.usable_regions == before.usable_regions,
            self.current_region == before.current_region + 1,
            self.current_region < before.regions().len() ==> self.next_page
                == before.regions()[self.current_region as int].start,
            self.free_list == before.free_list,
            self.total_pages == before.total_pages,
            self.available_pages == before.available_pages,
        ensures
            self.wf(),
            self.pages_passed() == before.pages_passed(),
            forall|frame: u64| #[trigger] self.passed(frame) == before.passed(frame),
    {
        let c = before.current_region as int;
        assert(before.next_page == before.regions()[c].end);
        assert forall|frame: u64| #[trigger] self.passed(frame) == before.passed(frame) by {
            if self.passed(frame) {
                let i = choose|i: int|
                    0 <= i < self.regions().len() && (#[trigger] self.regions()[i]).start <= frame
                        < self.regions()[i].end && (i < self.current_region || (i
                        == self.current_region && frame < self.next_page));
                assert(before.regions()[i].start <= frame);
                assert(i <= c);
                assert(before.passed(frame));
            }
            if before.passed(frame) {
                let i = choose|i: int|
                    0 <= i < before.regions().len() && (#[trigger] before.regions()[i]).start
                        <= frame < before.regions()[i].end && (i < before.current_region || (i
                        == before.current_region && frame < before.next_page));
                assert(self.regions()[i].start <= frame);
                assert(self.passed(frame));
            }
        }
    }

    /// Every page that comes before the next one was handed out.
    proof fn lemma_below_next(&self, frame: u64)
        requires
            self.wf(),
            self.current_region < self.regions().len(),
            comes_before(self.regions(), frame, self.next_page),
            self.next_page < self.regions()[self.current_region as int].end,
        ensures
            self.passed(frame),
    {
        let c = self.current_region as int;
        let regions = self.regions();
        let (i, j) = choose|i: int, j: int|
            0 <= i <= j < regions.len() && (#[trigger] regions[i]).start <= frame < regions[i].end
                && (#[trigger] regions[j]).start <= self.next_page < regions[j].end && (i < j
                || frame < self.next_page);
        assert(regions[c].start <= self.next_page);
        if j < c {
            assert(apart(regions[j], regions[c]));
        } else if c < j {
            assert(apart(regions[c], regions[j]));
        }
        assert(self.passed(frame));
    }

    /// There is room on the free list for an allocated page: fewer pages were freed than handed out.
    proof fn lemma_free_fits(&self, frame: u64)
        requires
            self.wf(),
            self.allocated(frame),
        ensures
            self.free_list@.len() < self.pages_passed(),
    {
        let pages = passed_pages(self.regions(), self.current_region as int, self.next_page as int);
        lemma_passed_pages(self.regions(), self.current_region as int, self.next_page as int);
        let freed = self.free_list@.push(frame);
        assert(freed.no_duplicates()) by {
            assert forall|i: int, j: int|
                0 <= i < freed.len() && 0 <= j < freed.len() && i != j implies freed[i]
                != freed[j] by {
                if i < self.free_list@.len() && j < self.free_list@.len() {
                    assert(self.free_list@[i] != self.free_list@[j]);
                } else if i < self.free_list@.len() {
                    assert(self.free_list@.contains(self.free_list@[i]));
                } else {
                    assert(self.free_list@.contains(self.free_list@[j]));
                }
            }
        }
        let set = freed.to_set();
        freed.unique_seq_to_set();
        assert(set.subset_of(pages)) by {
            assert forall|f: u64| set.contains(f) implies pages.contains(f) by {
                let k = freed.index_of(f);
                assert(freed[k] == f);
                assert(page_aligned(f) && self.passed(f)) by {
                    if k < self.free_list@.len() {
                        assert(self.free_list@[k] == f);
                    }
                }
                self.lemma_passed_in_set(f);
            }
        }
        vstd::set_lib::lemma_len_subset(set, pages);
        if self.current_region >= self.regions().len() {
            lemma_passed_pages_end(self.regions(), self.current_region as int, self.next_page as int);
        }
    }

    proof fn lemma_passed_in_set(&self, frame: u64)
        requires
            self.wf(),
            page_aligned(frame),
            self.passed(frame),
        ensures
            passed_pages(
                self.regions(),
                self.current_region as int,
                self.next_page as int,
            ).contains(frame),
    {
        let i = choose|i: int|
            0 <= i < self.regions().len() && (#[trigger] self.regions()[i]).start <= frame
                < self.regions()[i].end && (i < self.current_region || (i == self.current_region
                && frame < self.next_page));
        lemma_in_passed_pages(
            self.regions(),
            self.current_region as int,
            self.next_page as int,
            i,
            frame,
        );
    }
}

/// One page further is one page more.
proof fn lemma_page_step(start: int, page: int)
    requires
        0 <= start <= page,
        start % PAGE_SIZE as int == 0,
        page % PAGE_SIZE as int == 0,
    ensures
        (page + PAGE_SIZE) % PAGE_SIZE as int == 0,
        (page + PAGE_SIZE - start) / PAGE_SIZE as int == (page - start) / PAGE_SIZE as int + 1,
{
}

/// A page that starts below the end of another, and is not that page, lies below it.
proof fn lemma_page_below(other: int, page: int)
    requires
        other % PAGE_SIZE as int == 0,
        page % PAGE_SIZE as int == 0,
        other < page + PAGE_SIZE,
        other != page,
    ensures
        other < page,
{
}

/// The pages of `[start, end)`.
pub open spec fn pages_between(start: int, end: int) -> Set<u64>
    decreases
            (if start < end {
                end - start
            } else {
                0
            }),
{
    if start >= end || start < 0 || end > u64::MAX {
        Set::empty()
    } else {
        pages_between(start + PAGE_SIZE, end).insert(start as u64)
    }
}

proof fn lemma_pages_between(start: int, end: int)
    requires
        0 <= start <= end <= u64::MAX,
        start % PAGE_SIZE as int == 0,
        end % PAGE_SIZE as int == 0,
    ensures
        pages_between(start, end).finite(),
        pages_between(start, end).len() == (end - start) / PAGE_SIZE as int,
        forall|f: u64| #[trigger]
            pages_between(start, end).contains(f) <==> start <= f < end && f % PAGE_SIZE == 0,
    decreases end - start,
{
    if start < end {
        assert(start + PAGE_SIZE <= end);
        lemma_pages_between(start + PAGE_SIZE, end);
        assert forall|f: u64| #[trigger]
            pages_between(start, end).contains(f) <==> start <= f < end && f % PAGE_SIZE == 0 by {
            assert(pages_between(start + PAGE_SIZE, end).contains(f) <==> start + PAGE_SIZE <= f
                < end && f % PAGE_SIZE == 0);
        }
    }
}

/// The pages handed out in order: those of the regions before `current`, and of that region those
/// below `next`.
pub open spec fn passed_pages(regions: Seq<MemoryRegion>, current: int, next: int) -> Set<u64>
    decreases current,
{
    let here = if 0 <= current < regions.len() {
        pages_between(regions[current].start as int, next)
    } else {
        Set::empty()
    };
    if current <= 0 {
        here
    } else {
        passed_pages(
            regions,
            current - 1,
            if current - 1 < regions.len() {
                regions[current - 1].end as int
            } else {
                0
            },
        ).union(here)
    }
}

proof fn lemma_passed_pages(regions: Seq<MemoryRegion>, current: int, next: int)
    requires
        regions_wf(regions),
        0 <= current <= regions.len(),
        current < regions.len() ==> regions[current].start <= next <= regions[current].end && next
            % PAGE_SIZE as int == 0,
    ensures
        passed_pages(regions, current, next).finite(),
        passed_pages(regions, current, next).len() == pages_upto(regions, current) + (if current
            < regions.len() {
            (next - regions[current].start) / PAGE_SIZE as int
        } else {
            0
        }),
        forall|f: u64| #[trigger]
            passed_pages(regions, current, next).contains(f) ==> exists|i: int|
                0 <= i <= current && i < regions.len() && (#[trigger] regions[i]).start <= f
                    < regions[i].end,
    decreases current,
{
    let here = if current < regions.len() {
        lemma_pages_between(regions[current].start as int, next);
        pages_between(regions[current].start as int, next)
    } else {
        Set::empty()
    };
    if current > 0 {
        let end = regions[current - 1].end as int;
        lemma_passed_pages(regions, current - 1, end);
        let earlier = passed_pages(regions, current - 1, end);
        assert(earlier.disjoint(here)) by {
            assert forall|f: u64| !(earlier.contains(f) && here.contains(f)) by {
                if earlier.contains(f) && here.contains(f) {
                    let i = choose|i: int|
                        0 <= i <= current - 1 && i < regions.len() && (#[trigger] regions[i]).start
                            <= f < regions[i].end;
                    assert(apart(regions[i], regions[current]));
                }
            }
        }
        vstd::set_lib::lemma_set_disjoint_lens(earlier, here);
        assert forall|f: u64| #[trigger]
            passed_pages(regions, current, next).contains(f) implies exists|i: int|
            0 <= i <= current && i < regions.len() && (#[trigger] regions[i]).start <= f
                < regions[i].end by {
            if here.contains(f) {
                assert(regions[current].start <= f < regions[current].end);
            } else {
                assert(earlier.contains(f));
            }
        }
    } else {
        assert forall|f: u64| #[trigger]
            passed_pages(regions, current, next).contains(f) implies exists|i: int|
            0 <= i <= current && i < regions.len() && (#[trigger] regions[i]).start <= f
                < regions[i].end by {
            assert(here.contains(f));
            assert(regions[current].start <= f < regions[current].end);
        }
    }
}

proof fn lemma_passed_pages_end(regions: Seq<MemoryRegion>, current: int, next: int)
    requires
        regions_wf(regions),
        current == regions.len(),
    ensures
        passed_pages(regions, current, next).len() == pages_upto(regions, regions.len() as int),
{
    lemma_passed_pages(regions, current, next);
}

proof fn lemma_in_passed_pages(
    regions: Seq<MemoryRegion>,
    current: int,
    next: int,
    i: int,
    frame: u64,
)
    requires
        regions_wf(regions),
        0 <= current <= regions.len(),
        current < regions.len() ==> regions[current].start <= next <= regions[current].end && next
            % PAGE_SIZE as int == 0,
        0 <= i < regions.len(),
        regions[i].start <= frame < regions[i].end,
        i < current || (i == current && frame < next),
        frame % PAGE_SIZE == 0,
    ensures
        passed_pages(regions, current, next).contains(frame),
    decreases current,
{
    if i == current {
        lemma_pages_between(regions[current].start as int, next);
    } else {
        let end = regions[current - 1].end as int;
        lemma_in_passed_pages(regions, current - 1, end, i, frame);
    }
}

proof fn lemma_pages_mono(regions: Seq<MemoryRegion>, a: int, b: int)
    requires
        regions_wf(regions),
        0 <= a <= b <= regions.len(),
    ensures
        0 <= pages_upto(regions, a) <= pages_upto(regions, b),
    decreases b,
{
    if a < b {
        lemma_pages_mono(regions, a, b - 1);
        assert(regions[b - 1].start < regions[b - 1].end);
    } else if a > 0 {
        lemma_pages_mono(regions, a - 1, b - 1);
        assert(regions[b - 1].start < regions[b - 1].end);
    }
}

/// The regions have fewer pages than there are addresses.
proof fn lemma_pages_bound(regions: Seq<MemoryRegion>, n: int)
    requires
        regions_wf(regions),
        0 <= n <= regions.len(),
    ensures
        0 <= pages_upto(regions, n) <= u64::MAX,
{
    let first = regions.take(n);
    assert(regions_wf(first)) by {
        lemma_regions_prefix(regions, first);
    }
    lemma_pages_frame(regions, first, n);
    lemma_passed_pages_end(first, n, 0);
    lemma_passed_pages(first, n, 0);
    let last: u64 = 0xffff_ffff_ffff_f000;
    lemma_pages_between(0, last as int);
    let pages = passed_pages(first, n, 0);
    assert(pages.subset_of(pages_between(0, last as int))) by {
        assert forall|f: u64| pages.contains(f) implies pages_between(0, last as int).contains(f) by {
            lemma_passed_aligned(first, n, 0, f);
            let i = choose|i: int|
                0 <= i <= n && i < first.len() && (#[trigger] first[i]).start <= f < first[i].end;
            assert(first[i].end % PAGE_SIZE == 0);
        }
    }
    vstd::set_lib::lemma_len_subset(pages, pages_between(0, last as int));
}

proof fn lemma_passed_aligned(regions: Seq<MemoryRegion>, current: int, next: int, frame: u64)
    requires
        regions_wf(regions),
        0 <= current <= regions.len(),
        current < regions.len() ==> regions[current].start <= next <= regions[current].end && next
            % PAGE_SIZE as int == 0,
        passed_pages(regions, current, next).contains(frame),
    ensures
        frame % PAGE_SIZE == 0,
    decreases current,
{
    if current < regions.len() {
        lemma_pages_between(regions[current].start as int, next);
    }
    if current > 0 {
        let end = regions[current - 1].end as int;
        if passed_pages(regions, current - 1, end).contains(frame) {
            lemma_passed_aligned(regions, current - 1, end, frame);
        }
    }
}

proof fn lemma_pages_frame(a: Seq<MemoryRegion>, b: Seq<MemoryRegion>, n: int)
    requires
        0 <= n <= a.len(),
        n <= b.len(),
        forall|i: int| 0 <= i < n ==> a[i] == b[i],
    ensures
        pages_upto(a, n) == pages_upto(b, n),
    decreases n,
{
    if n > 0 {
        lemma_pages_frame(a, b, n - 1);
    }
}

proof fn lemma_parts_prefix(regions: Seq<MemoryRegion>, k: int)
    requires
        0 <= k <= regions.len(),
    ensures
        usable_parts(regions.take(k)).len() <= usable_parts(regions).len(),
        usable_parts(regions.take(k)) == usable_parts(regions).take(
            usable_parts(regions.take(k)).len() as int,
        ),
    decreases regions.len() - k,
{
    if k == regions.len() {
        assert(regions.take(k) =~= regions);
        assert(usable_parts(regions).take(usable_parts(regions).len() as int) =~= usable_parts(
            regions,
        ));
    } else {
        lemma_parts_prefix(regions, k + 1);
        let next = regions.take(k + 1);
        assert(next.drop_last() =~= regions.take(k));
        let whole = usable_parts(regions);
        let n = usable_parts(regions.take(k)).len() as int;
        assert(usable_parts(regions.take(k)) =~= whole.take(n)) by {
            assert forall|i: int| 0 <= i < n implies usable_parts(regions.take(k))[i]
                == whole[i] by {
                assert(usable_parts(next)[i] == whole.take(usable_parts(next).len() as int)[i]);
            }
        }
    }
}

proof fn lemma_regions_prefix(whole: Seq<MemoryRegion>, part: Seq<MemoryRegion>)
    requires
        regions_wf(whole),
        part.len() <= whole.len(),
        part == whole.take(part.len() as int),
    ensures
        regions_wf(part),
{
    assert forall|i: int| 0 <= i < part.len() implies PAGE_SIZE <= (#[trigger] part[i]).start
        < part[i].end && page_aligned(part[i].start) && page_aligned(part[i].end) by {
        assert(part[i] == whole[i]);
    }
    assert forall|i: int, j: int| 0 <= i < j < part.len() implies apart(
        #[trigger] part[i],
        #[trigger] part[j],
    ) by {
        assert(part[i] == whole[i] && part[j] == whole[j]);
    }
}

/// Two pages that are handed out one after the other differ, and neither is page zero.
pub proof fn law_pages_in_use_differ(
    a: &PageAllocator,
    b: &PageAllocator,
    c: &PageAllocator,
    first: u64,
    second: u64,
)
    requires
        a.wf(),
        page_taken(a, b, Some(first)),
        page_taken(b, c, Some(second)),
    ensures
        first != second,
        first >= PAGE_SIZE,
        c.allocated(first) && c.allocated(second),
{
}

/// A page that is freed is the next one handed out, and handing it out leaves the pages in use as they
/// were before it was freed.
pub proof fn law_freed_page_is_reused(
    a: &PageAllocator,
    b: &PageAllocator,
    c: &PageAllocator,
    frame: u64,
    next: Option<u64>,
)
    requires
        page_returned(a, b, frame, Ok(())),
        page_taken(b, c, next),
    ensures
        next == Some(frame),
        forall|other: u64| #[trigger] c.allocated(other) == a.allocated(other),
        c.available_pages == a.available_pages,
{
}

/// A page cannot be freed twice: the second attempt is refused and changes nothing.
pub proof fn law_double_free_is_refused(
    a: &PageAllocator,
    b: &PageAllocator,
    c: &PageAllocator,
    frame: u64,
    second: Result<(), &'static str>,
)
    requires
        page_returned(a, b, frame, Ok(())),
        page_returned(b, c, frame, second),
    ensures
        second == Err::<(), &'static str>("attempted to free an already-free frame"),
        *c == *b,
{
    assert(b.free_list@.last() == frame);
}

/// No two owners share a page: a page that is handed out is none of those that have an owner, and the
/// pages with an owner stay allocated until they are freed.
pub proof fn law_pages_have_one_owner(
    a: &PageAllocator,
    b: &PageAllocator,
    owned: Set<u64>,
    frame: u64,
)
    requires
        forall|f: u64| owned.contains(f) ==> #[trigger] a.allocated(f),
    ensures
        page_taken(a, b, Some(frame)) ==> !owned.contains(frame) && forall|f: u64|
            owned.insert(frame).contains(f) ==> #[trigger] b.allocated(f),
        page_returned(a, b, frame, Ok(())) ==> forall|f: u64|
            owned.remove(frame).contains(f) ==> #[trigger] b.allocated(f),
{
}

} // verus!
