//! What holds across the memory calls of a process.

use super::lifecycle::Process;
use super::linux_mem::{
    brk_completed, brk_decided, brk_planned, ensured, heap_range, heap_wf, image_set,
    lemma_mem_from, lemma_mem_kept, lemma_mem_placed, lemma_unused, mem_from, mem_of,
    mmap_completed, mmap_decided, mmap_place, mmap_planned, mmap_request, munmap_completed,
    munmap_decided, no_region, overlaps_region, page_flags, pages_ready, prctl_decided,
    region_recorded, regions_dropped, release_ranges, space_ready, step_down, step_up,
    utsname_byte, with_state, BrkPlan, MemModel, MemSlotModel, MmapPlan, PageStep, PrctlAction,
    UnmapRange, LINUX_BRK_MAX_BYTES, LINUX_MMAP_MAX_PAGES, LINUX_MMAP_MAX_REGIONS,
};
use super::InstanceGeneration;
use crate::abi::{
    LinuxErrno, ARCH_GET_FS, ARCH_SET_FS, EINVAL, ENOMEM, MAP_ANONYMOUS, MAP_FIXED, MAP_PRIVATE,
    PROT_EXEC, PROT_WRITE,
};
use crate::mm::x86::{FLAG_NO_EXECUTE, FLAG_PRESENT, FLAG_USER_ACCESSIBLE, FLAG_WRITABLE};
use crate::mm::{ceil_to, floor_to, lemma_page_of, PAGE_SIZE};
use vstd::prelude::*;

verus! {

/// A page of the heap that lies between `base` and `end`.
pub open spec fn heap_page(base: u64, end: u64, page: u64) -> bool {
    &&& page % PAGE_SIZE == 0
    &&& base <= page < end
}

/// The pages of the range between two page boundaries.
pub open spec fn in_pages(from: u64, to: u64, page: u64) -> bool {
    &&& page % PAGE_SIZE == 0
    &&& from <= page < to
}

proof fn lemma_ceil(value: int)
    requires
        0 <= value,
    ensures
        ceil_to(value, PAGE_SIZE as int) % PAGE_SIZE as int == 0,
        value <= ceil_to(value, PAGE_SIZE as int) < value + PAGE_SIZE,
{
    assert((value - value % 4096) % 4096 == 0);
    assert((value - value % 4096 + 4096) % 4096 == 0);
}

/// A growing `brk` maps exactly the pages of the new heap that are not pages of the old one, and a
/// shrinking one unmaps exactly the pages below its new end. Either ends the heap at the address asked
/// for.
pub proof fn law_brk_maps_the_new_pages(state: MemModel, addr: u64, page: u64)
    requires
        heap_wf(state),
    ensures
        match brk_planned(state, addr) {
            Ok(BrkPlan::Grow { from, to, new_end }) => {
                &&& state.brk_end < addr
                &&& new_end == addr
                &&& from % PAGE_SIZE == 0 && to % PAGE_SIZE == 0
                &&& state.brk_end <= from
                &&& in_pages(from, to, page) <==> heap_page(state.brk_base, addr, page)
                    && !heap_page(state.brk_base, state.brk_end, page)
            },
            Ok(BrkPlan::Shrink { bottom, top, new_end, result }) => {
                &&& state.brk_base <= addr < state.brk_end
                &&& new_end == addr
                &&& result == state.brk_end
                &&& bottom % PAGE_SIZE == 0 && top % PAGE_SIZE == 0
                &&& in_pages(bottom, top, page) <==> heap_page(state.brk_base, addr, page)
            },
            Ok(BrkPlan::Keep(end)) => {
                &&& end == state.brk_end
                &&& addr < state.brk_base || addr == state.brk_end || addr == 0
            },
            Err(e) => e == ENOMEM && addr > state.brk_base + LINUX_BRK_MAX_BYTES,
        },
{
    lemma_ceil(state.brk_base as int);
    lemma_ceil(state.brk_end as int);
    if addr <= state.brk_base + LINUX_BRK_MAX_BYTES {
        lemma_ceil(addr as int);
    }
}

/// Where exactly the pages of the heap are mapped, a growing `brk` maps none of them again, and once
/// it was completed exactly the pages of the heap are mapped. So over any sequence of growing calls
/// each page of the heap is mapped once.
pub proof fn law_heap_pages_are_mapped_once(
    slots: Seq<Option<MemSlotModel>>,
    pid: u64,
    generation: InstanceGeneration,
    addr: u64,
    mapped: Set<u64>,
)
    requires
        mem_of(slots, pid, generation) is Some,
        heap_wf(mem_of(slots, pid, generation)->0),
        brk_decided(slots, pid, generation, addr, Ok(())).1 is Ok,
        brk_decided(slots, pid, generation, addr, Ok(())).1->Ok_0 is Grow,
        forall|page: u64| #[trigger]
            mapped.contains(page) <==> heap_page(
                mem_of(slots, pid, generation)->0.brk_base,
                mem_of(slots, pid, generation)->0.brk_end,
                page,
            ),
    ensures
        ({
            let (held, plan) = brk_decided(slots, pid, generation, addr, Ok(()));
            let (after, result) = brk_completed(held, pid, generation, plan->Ok_0, Ok(()));
            let heap = mem_of(after, pid, generation)->0;
            let fresh = Set::new(
                |page: u64| in_pages(plan->Ok_0->from, plan->Ok_0->to, page),
            );
            &&& result == Ok::<u64, LinuxErrno>(addr)
            &&& mem_of(after, pid, generation) is Some
            &&& heap_wf(heap)
            &&& heap.brk_base == mem_of(slots, pid, generation)->0.brk_base
            &&& heap.brk_end == addr
            &&& mapped.disjoint(fresh)
            &&& forall|page: u64|
                mapped.union(fresh).contains(page) <==> #[trigger] heap_page(
                    heap.brk_base,
                    heap.brk_end,
                    page,
                )
        }),
{
    let state = mem_of(slots, pid, generation)->0;
    let (held, plan) = brk_decided(slots, pid, generation, addr, Ok(()));
    lemma_state_written(
        slots,
        pid,
        generation,
        MemModel { brk_end: addr, ..state },
    );
    let fresh = Set::new(|page: u64| in_pages(plan->Ok_0->from, plan->Ok_0->to, page));
    law_brk_maps_the_new_pages(state, addr, 0);
    assert forall|page: u64| !(mapped.contains(page) && fresh.contains(page)) by {
        law_brk_maps_the_new_pages(state, addr, page);
    }
    assert forall|page: u64|
        mapped.union(fresh).contains(page) <==> #[trigger] heap_page(state.brk_base, addr, page) by {
        law_brk_maps_the_new_pages(state, addr, page);
    }
}

/// A process whose state was changed is found with the changed state.
proof fn lemma_state_written(
    slots: Seq<Option<MemSlotModel>>,
    pid: u64,
    generation: InstanceGeneration,
    state: MemModel,
)
    requires
        mem_of(slots, pid, generation) is Some,
    ensures
        ({
            let i = mem_from(slots, pid, generation, 0)->0;
            &&& 0 <= i < slots.len()
            &&& ensured(slots, pid, generation) == Ok::<
                (Seq<Option<MemSlotModel>>, int),
                LinuxErrno,
            >((slots, i))
            &&& mem_of(with_state(slots, i, state), pid, generation) == Some(state)
            &&& mem_from(with_state(slots, i, state), pid, generation, 0) == Some(i)
        }),
{
    lemma_mem_from(slots, pid, generation, 0);
    let i = mem_from(slots, pid, generation, 0)->0;
    lemma_mem_placed(slots, with_state(slots, i, state), i, pid, generation, 0);
}

/// What `brk` returns: asked for nothing, below the heap or its end, the heap stays and its end is
/// returned; more than the heap may hold is refused; else, completed, the heap ends where it was asked
/// to, and the next query says so. A `brk` whose pages failed leaves the heap as it was.
pub proof fn law_brk_reads_back(
    slots: Seq<Option<MemSlotModel>>,
    pid: u64,
    generation: InstanceGeneration,
    addr: u64,
    done: Result<(), LinuxErrno>,
    ready: Result<(), LinuxErrno>,
)
    requires
        mem_of(slots, pid, generation) is Some,
        heap_wf(mem_of(slots, pid, generation)->0),
    ensures
        ({
            let heap = mem_of(slots, pid, generation)->0;
            let (held, decided) = brk_decided(slots, pid, generation, addr, Ok(()));
            let plan = decided->Ok_0;
            let (after, result) = brk_completed(held, pid, generation, plan, done);
            let queried = brk_decided(after, pid, generation, 0, ready).1;
            &&& held == slots
            &&& brk_decided(slots, pid, generation, 0, ready) == (
                slots,
                Ok::<BrkPlan, LinuxErrno>(BrkPlan::Keep(heap.brk_end)),
            )
            &&& addr > heap.brk_base + LINUX_BRK_MAX_BYTES <==> decided == Err::<
                BrkPlan,
                LinuxErrno,
            >(ENOMEM)
            &&& decided is Ok && done is Ok && heap.brk_base <= addr && addr != 0 ==> {
                &&& queried == Ok::<BrkPlan, LinuxErrno>(BrkPlan::Keep(addr))
                &&& result == Ok::<u64, LinuxErrno>(
                    if addr < heap.brk_end {
                        heap.brk_end
                    } else {
                        addr
                    },
                )
            }
            &&& decided is Ok && (done is Err || addr < heap.brk_base || addr == 0) ==> {
                &&& after == slots
                &&& queried == Ok::<BrkPlan, LinuxErrno>(BrkPlan::Keep(heap.brk_end))
                &&& plan is Keep ==> result == Ok::<u64, LinuxErrno>(heap.brk_end)
                &&& !(plan is Keep) ==> result == Err::<u64, LinuxErrno>(done->Err_0)
            }
        }),
{
    let state = mem_of(slots, pid, generation)->0;
    lemma_state_written(slots, pid, generation, state);
    lemma_state_written(slots, pid, generation, MemModel { brk_end: addr, ..state });
    let i = mem_from(slots, pid, generation, 0)->0;
    let after = with_state(slots, i, MemModel { brk_end: addr, ..state });
    lemma_state_written(after, pid, generation, MemModel { brk_end: addr, ..state });
}

/// An upward walk over a range of pages goes from page to page: each step gives the lowest page that
/// lies after the last one and within the range, and the walk ends where there is none.
pub proof fn law_walk_up_visits_every_page(start: u64, end: u64, after: Option<u64>, page: u64)
    requires
        start % PAGE_SIZE == 0,
        page % PAGE_SIZE == 0,
        after matches Some(va) ==> va % PAGE_SIZE == 0 && start <= va < end,
    ensures
        ({
            let later = start <= page < end && (after matches Some(va) ==> va < page);
            match step_up(start, end, after) {
                PageStep::At(next) => {
                    &&& next % PAGE_SIZE == 0
                    &&& start <= next < end
                    &&& after matches Some(va) ==> va < next
                    &&& later ==> next <= page
                },
                PageStep::Done => !later,
                PageStep::Fail(e) => e == EINVAL && !later,
            }
        }),
{
    lemma_page_of(start as int, start as int);
}

/// A downward walk over a range of pages gives the highest page that lies before the last one and
/// within the range, and ends where there is none.
pub proof fn law_walk_down_visits_every_page(bottom: u64, top: u64, after: Option<u64>, page: u64)
    requires
        bottom % PAGE_SIZE == 0,
        top % PAGE_SIZE == 0,
        page % PAGE_SIZE == 0,
        after matches Some(va) ==> va % PAGE_SIZE == 0 && bottom <= va < top,
    ensures
        ({
            let earlier = bottom <= page < top && (after matches Some(va) ==> page < va);
            match step_down(bottom, top, after) {
                PageStep::At(next) => {
                    &&& next % PAGE_SIZE == 0
                    &&& bottom <= next < top
                    &&& after matches Some(va) ==> next < va
                    &&& earlier ==> page <= next
                },
                PageStep::Done => !earlier,
                PageStep::Fail(_) => false,
            }
        }),
{
}

/// A page that the kernel maps for user code is present and open to users. It can be written exactly
/// where that was asked for, and executed exactly where that was.
pub proof fn law_page_flags_say_what_was_asked(writable: bool, executable: bool)
    ensures
        page_flags(writable, executable) & FLAG_PRESENT == FLAG_PRESENT,
        page_flags(writable, executable) & FLAG_USER_ACCESSIBLE == FLAG_USER_ACCESSIBLE,
        writable <==> page_flags(writable, executable) & FLAG_WRITABLE == FLAG_WRITABLE,
        executable <==> page_flags(writable, executable) & FLAG_NO_EXECUTE == 0,
{
    assert(0x1u64 | 0x4u64 == 5 && 5u64 | 0x2u64 == 7) by (bit_vector);
    assert(5u64 | 0x8000_0000_0000_0000u64 == 0x8000_0000_0000_0005u64 && 7u64
        | 0x8000_0000_0000_0000u64 == 0x8000_0000_0000_0007u64) by (bit_vector);
    assert(5u64 & 1 == 1 && 5u64 & 4 == 4 && 5u64 & 2 == 0 && 5u64 & 0x8000_0000_0000_0000u64 == 0
        && 7u64 & 1 == 1 && 7u64 & 4 == 4 && 7u64 & 2 == 2 && 7u64 & 0x8000_0000_0000_0000u64 == 0)
        by (bit_vector);
    assert(0x8000_0000_0000_0005u64 & 1 == 1 && 0x8000_0000_0000_0005u64 & 4 == 4
        && 0x8000_0000_0000_0005u64 & 2 == 0 && 0x8000_0000_0000_0005u64 & 0x8000_0000_0000_0000u64
        == 0x8000_0000_0000_0000u64 && 0x8000_0000_0000_0007u64 & 1 == 1 && 0x8000_0000_0000_0007u64
        & 4 == 4 && 0x8000_0000_0000_0007u64 & 2 == 2 && 0x8000_0000_0000_0007u64
        & 0x8000_0000_0000_0000u64 == 0x8000_0000_0000_0000u64) by (bit_vector);
}

/// A mapping that is made covers the length asked for and less than a page more, within the process's
/// window. It can be written and executed as asked, never both. Only private anonymous mappings are
/// made. Where the caller fixed the address it lies there; else it shares no address with a mapping
/// that is there, nor with the heap.
pub proof fn law_mapping_is_what_was_asked(
    slots: Seq<Option<MemSlotModel>>,
    pid: u64,
    generation: InstanceGeneration,
    addr: u64,
    len: u64,
    prot: u64,
    flags: u64,
    fd: i64,
    offset: u64,
    ready: Result<(), LinuxErrno>,
)
    requires
        mem_of(slots, pid, generation) is Some,
        mmap_decided(slots, pid, generation, addr, len, prot, flags, fd, offset, ready).1 is Ok,
    ensures
        ({
            let state = mem_of(slots, pid, generation)->0;
            let (held, decided) = mmap_decided(
                slots,
                pid,
                generation,
                addr,
                len,
                prot,
                flags,
                fd,
                offset,
                ready,
            );
            let plan = decided->Ok_0;
            let bytes = plan.map_end - plan.map_addr;
            &&& held == slots
            &&& ready is Ok
            &&& fd == -1 && offset == 0
            &&& flags & MAP_PRIVATE != 0 && flags & MAP_ANONYMOUS != 0
            &&& bytes == plan.page_count * PAGE_SIZE
            &&& len <= bytes < len + PAGE_SIZE
            &&& plan.map_addr as int % PAGE_SIZE as int == 0
            &&& state.lo <= plan.map_addr && plan.map_end <= state.hi
            &&& state.pages + plan.page_count <= LINUX_MMAP_MAX_PAGES
            &&& plan.flags & FLAG_PRESENT == FLAG_PRESENT
            &&& plan.flags & FLAG_USER_ACCESSIBLE == FLAG_USER_ACCESSIBLE
            &&& plan.flags & FLAG_WRITABLE == FLAG_WRITABLE <==> prot & PROT_WRITE != 0
            &&& plan.flags & FLAG_NO_EXECUTE == 0 <==> prot & PROT_EXEC != 0
            &&& !(prot & PROT_WRITE != 0 && prot & PROT_EXEC != 0)
            &&& if flags & MAP_FIXED != 0 {
                plan.map_addr == addr
            } else {
                &&& state.brk_end <= plan.map_addr
                &&& forall|i: int|
                    0 <= i < state.regions.len() && (#[trigger] state.regions[i]).page_count > 0
                        ==> state.regions[i].end <= plan.map_addr || plan.map_end
                        <= state.regions[i].start
            }
        }),
{
    let state = mem_of(slots, pid, generation)->0;
    lemma_state_written(slots, pid, generation, state);
    let page_count = mmap_request(len, prot, flags, fd, offset)->Ok_0;
    law_page_flags_say_what_was_asked(prot & PROT_WRITE != 0, prot & PROT_EXEC != 0);
    assert((len + 4095) / 4096 * 4096 <= len + 4095 < (len + 4095) / 4096 * 4096 + 4096);
    if flags & MAP_FIXED == 0 {
        super::linux_mem::law_chosen_place_is_free(state, page_count);
        let plan = mmap_planned(state, addr, page_count, prot, flags, ready)->Ok_0;
        assert forall|i: int|
            0 <= i < state.regions.len() && (#[trigger] state.regions[i]).page_count > 0 implies state.regions[i].end
            <= plan.map_addr || plan.map_end <= state.regions[i].start by {
            assert(!overlaps_region(state.regions, plan.map_addr as int, plan.map_end as int));
        }
    }
}

/// Where the top of the window is free and above the heap, a mapping without a fixed address goes
/// there.
pub proof fn law_mappings_are_placed_from_the_top(state: MemModel, page_count: u64)
    requires
        0 < page_count <= LINUX_MMAP_MAX_PAGES,
        state.hi % PAGE_SIZE == 0,
        state.lo + page_count * PAGE_SIZE <= state.hi,
        state.brk_end + page_count * PAGE_SIZE <= state.hi,
        forall|i: int|
            0 <= i < state.regions.len() && (#[trigger] state.regions[i]).page_count > 0
                ==> state.regions[i].end <= state.hi - page_count * PAGE_SIZE
                || state.regions[i].start >= state.hi,
    ensures
        mmap_place(state, page_count) == Some((state.hi - page_count * PAGE_SIZE) as u64),
{
    let bytes = page_count * PAGE_SIZE;
    let at = state.hi - bytes;
    assert(at % 4096 == 0);
    assert(floor_to(at, PAGE_SIZE as int) == at);
    assert(!overlaps_region(state.regions, at, at + bytes));
}

/// Two mappings made one after the other, the second without a fixed address, share no address, and
/// both are then counted.
pub proof fn law_mappings_share_no_page(
    state: MemModel,
    first: MmapPlan,
    addr: u64,
    page_count: u64,
    prot: u64,
    flags: u64,
)
    requires
        state.regions.len() == LINUX_MMAP_MAX_REGIONS,
        first.page_count > 0,
        0 < page_count <= LINUX_MMAP_MAX_PAGES,
        flags & MAP_FIXED == 0,
        region_recorded(state, first) is Ok,
        mmap_planned(
            region_recorded(state, first)->Ok_0,
            addr,
            page_count,
            prot,
            flags,
            Ok(()),
        ) is Ok,
    ensures
        ({
            let once = region_recorded(state, first)->Ok_0;
            let second = mmap_planned(once, addr, page_count, prot, flags, Ok(()))->Ok_0;
            &&& once.pages == state.pages + first.page_count
            &&& second.map_end <= first.map_addr || first.map_end <= second.map_addr
        }),
{
    let once = region_recorded(state, first)->Ok_0;
    super::linux_mem::law_chosen_place_is_free(once, page_count);
    let made = once.regions[state.region_count as int];
    assert(made.start == first.map_addr && made.end == first.map_end && made.page_count
        == first.page_count);
}

/// Unmapping just what was mapped undoes it: the process has as many pages mapped as before and the
/// same places are free. (The number of mappings ever made is not given back.)
pub proof fn law_unmap_undoes_map(state: MemModel, plan: MmapPlan, start: int, end: int)
    requires
        state.regions.len() == LINUX_MMAP_MAX_REGIONS,
        state.region_count < LINUX_MMAP_MAX_REGIONS,
        state.regions[state.region_count as int].page_count == 0,
        plan.page_count > 0,
        region_recorded(state, plan) is Ok,
        forall|i: int|
            0 <= i < state.regions.len() && (#[trigger] state.regions[i]).page_count > 0
                ==> state.regions[i].start < plan.map_addr || plan.map_end < state.regions[i].end,
    ensures
        ({
            let after = regions_dropped(
                region_recorded(state, plan)->Ok_0,
                plan.map_addr,
                plan.map_end,
                0,
            );
            &&& after.pages == state.pages
            &&& overlaps_region(after.regions, start, end) <==> overlaps_region(
                state.regions,
                start,
                end,
            )
            &&& after.brk_base == state.brk_base && after.brk_end == state.brk_end
            &&& after.lo == state.lo && after.hi == state.hi
        }),
{
    let made = region_recorded(state, plan)->Ok_0;
    let k = state.region_count as int;
    lemma_one_dropped(made, plan.map_addr, plan.map_end, 0, k);
    let after = regions_dropped(made, plan.map_addr, plan.map_end, 0);
    assert forall|i: int| 0 <= i < state.regions.len() && i != k implies #[trigger] after.regions[i]
        == state.regions[i] by {}
    if overlaps_region(after.regions, start, end) {
        let i = choose|i: int|
            0 <= i < after.regions.len() && (#[trigger] after.regions[i]).page_count > 0 && start
                < after.regions[i].end && end > after.regions[i].start;
        assert(i != k);
        assert(state.regions[i].page_count > 0);
    }
    if overlaps_region(state.regions, start, end) {
        let i = choose|i: int|
            0 <= i < state.regions.len() && (#[trigger] state.regions[i]).page_count > 0 && start
                < state.regions[i].end && end > state.regions[i].start;
        assert(after.regions[i].page_count > 0);
    }
}

proof fn lemma_one_dropped(state: MemModel, start: u64, end: u64, from: int, k: int)
    requires
        0 <= from <= state.regions.len(),
        0 <= k < state.regions.len(),
        forall|i: int|
            from <= i < state.regions.len() && i != k ==> !((#[trigger] state.regions[i]).page_count > 0
                && start <= state.regions[i].start && end >= state.regions[i].end),
        state.regions[k].page_count > 0 && start <= state.regions[k].start && end
            >= state.regions[k].end,
        state.pages >= state.regions[k].page_count,
    ensures
        regions_dropped(state, start, end, from) == (if from <= k {
            MemModel {
                regions: state.regions.update(k, no_region()),
                pages: (state.pages - state.regions[k].page_count) as u64,
                ..state
            }
        } else {
            state
        }),
    decreases state.regions.len() - from,
{
    if from < state.regions.len() {
        if from == k {
            let dropped = MemModel {
                regions: state.regions.update(k, no_region()),
                pages: (state.pages - state.regions[k].page_count) as u64,
                ..state
            };
            lemma_none_dropped(dropped, start, end, from + 1);
        } else {
            lemma_one_dropped(state, start, end, from + 1, k);
        }
    }
}

proof fn lemma_none_dropped(state: MemModel, start: u64, end: u64, from: int)
    requires
        0 <= from <= state.regions.len(),
        forall|i: int|
            from <= i < state.regions.len() ==> !((#[trigger] state.regions[i]).page_count > 0 && start
                <= state.regions[i].start && end >= state.regions[i].end),
    ensures
        regions_dropped(state, start, end, from) == state,
    decreases state.regions.len() - from,
{
    if from < state.regions.len() {
        lemma_none_dropped(state, start, end, from + 1);
    }
}

/// A `munmap` unmaps exactly the addresses asked for, from a page boundary on.
pub proof fn law_unmap_takes_the_range(
    slots: Seq<Option<MemSlotModel>>,
    pid: u64,
    generation: InstanceGeneration,
    addr: u64,
    len: u64,
    ready: Result<(), LinuxErrno>,
    address: u64,
)
    requires
        mem_of(slots, pid, generation) is Some,
    ensures
        ({
            let (held, decided) = munmap_decided(slots, pid, generation, addr, len, ready);
            &&& held == slots
            &&& decided is Ok <==> addr as int % PAGE_SIZE as int == 0 && len > 0 && addr + len
                <= u64::MAX && ready is Ok
            &&& decided is Ok ==> (decided->Ok_0.start <= address < decided->Ok_0.end <==> addr
                <= address < addr + len)
        }),
{
    lemma_state_written(slots, pid, generation, mem_of(slots, pid, generation)->0);
}

/// The memory calls of one process leave the heap and mappings of every other as they are, whatever
/// their outcome.
pub proof fn law_memory_is_private(
    slots: Seq<Option<MemSlotModel>>,
    pid: u64,
    generation: InstanceGeneration,
    plan: BrkPlan,
    mapping: MmapPlan,
    range: UnmapRange,
    done: Result<(), LinuxErrno>,
    other_pid: u64,
    other_generation: InstanceGeneration,
)
    requires
        mem_of(slots, pid, generation) is Some,
        (pid, generation) != (other_pid, other_generation),
    ensures
        mem_of(brk_completed(slots, pid, generation, plan, done).0, other_pid, other_generation)
            == mem_of(slots, other_pid, other_generation),
        mem_of(mmap_completed(slots, pid, generation, mapping, done).0, other_pid, other_generation)
            == mem_of(slots, other_pid, other_generation),
        mem_of(munmap_completed(slots, pid, generation, range, done).0, other_pid, other_generation)
            == mem_of(slots, other_pid, other_generation),
{
    lemma_mem_from(slots, pid, generation, 0);
    let i = mem_from(slots, pid, generation, 0)->0;
    let state = slots[i]->0.state;
    lemma_other_state(
        slots,
        i,
        MemModel { brk_end: super::linux_mem::brk_new_end(plan), ..state },
        other_pid,
        other_generation,
    );
    if region_recorded(state, mapping) is Ok {
        lemma_other_state(
            slots,
            i,
            region_recorded(state, mapping)->Ok_0,
            other_pid,
            other_generation,
        );
    }
    lemma_other_state(
        slots,
        i,
        regions_dropped(state, range.start, range.end, 0),
        other_pid,
        other_generation,
    );
}

proof fn lemma_other_state(
    slots: Seq<Option<MemSlotModel>>,
    i: int,
    state: MemModel,
    pid: u64,
    generation: InstanceGeneration,
)
    requires
        0 <= i < slots.len(),
        slots[i] is Some,
        (slots[i]->0.pid, slots[i]->0.generation) != (pid, generation),
    ensures
        mem_of(with_state(slots, i, state), pid, generation) == mem_of(slots, pid, generation),
{
    lemma_mem_kept(slots, with_state(slots, i, state), i, pid, generation, 0);
}

pub open spec fn within(range: UnmapRange, address: u64) -> bool {
    range.start <= address < range.end
}

/// Whether one of the ranges holds an address.
pub open spec fn any_within(ranges: Seq<UnmapRange>, address: u64) -> bool {
    exists|k: int| 0 <= k < ranges.len() && within(#[trigger] ranges[k], address)
}

/// Whether a mapping at or above `from` that is still there holds an address.
pub open spec fn any_mapped(state: MemModel, from: int, address: u64) -> bool {
    exists|i: int|
        from <= i < state.regions.len() && (#[trigger] state.regions[i]).page_count > 0
            && state.regions[i].start <= address < state.regions[i].end
}

/// When a process's memory is given up, every page of its heap and every address of its mappings is
/// unmapped, and nothing else.
pub proof fn law_release_covers_everything(state: MemModel, address: u64)
    requires
        heap_wf(state),
    ensures
        any_within(release_ranges(state, seq![heap_range(state)], 0), address) <==> heap_page(
            state.brk_base,
            state.brk_end,
            floor_to(address as int, PAGE_SIZE as int) as u64,
        ) || any_mapped(state, 0, address),
{
    lemma_ceil(state.brk_base as int);
    lemma_ceil(state.brk_end as int);
    lemma_page_of(address as int, address as int);
    let start = seq![heap_range(state)];
    lemma_released(state, start, 0, address);
    if any_within(start, address) {
        assert(within(start[0], address));
    }
    if within(heap_range(state), address) {
        assert(within(start[0], address));
    }
}

proof fn lemma_released(state: MemModel, ranges: Seq<UnmapRange>, from: int, address: u64)
    requires
        0 <= from <= state.regions.len(),
    ensures
        any_within(release_ranges(state, ranges, from), address) <==> any_within(ranges, address)
            || any_mapped(state, from, address),
    decreases state.regions.len() - from,
{
    if from < state.regions.len() {
        let region = state.regions[from];
        let added = UnmapRange { start: region.start, end: region.end };
        assert(any_mapped(state, from, address) <==> any_mapped(state, from + 1, address) || (
        region.page_count > 0 && within(added, address))) by {
            if region.page_count > 0 && within(added, address) {
                assert(state.regions[from].page_count > 0);
            }
        }
        if region.page_count > 0 {
            let more = ranges.push(added);
            lemma_released(state, more, from + 1, address);
            if any_within(ranges, address) {
                let k = choose|k: int| 0 <= k < ranges.len() && within(#[trigger] ranges[k], address);
                assert(within(more[k], address));
            }
            if within(added, address) {
                assert(within(more[ranges.len() as int], address));
            }
            if any_within(more, address) {
                let k = choose|k: int| 0 <= k < more.len() && within(#[trigger] more[k], address);
                if k < ranges.len() {
                    assert(within(ranges[k], address));
                }
            }
        } else {
            lemma_released(state, ranges, from + 1, address);
        }
    }
}

/// The thread-local base that was set is the one that is stored when it is asked for, and asking
/// changes nothing.
pub proof fn law_fs_base_reads_back(
    slots: Seq<Option<MemSlotModel>>,
    pid: u64,
    generation: InstanceGeneration,
    base: u64,
    addr: u64,
    writable: bool,
)
    requires
        mem_of(slots, pid, generation) is Some,
    ensures
        ({
            let (set, first) = prctl_decided(slots, pid, generation, ARCH_SET_FS, base, writable);
            let (same, second) = prctl_decided(set, pid, generation, ARCH_GET_FS, addr, true);
            &&& first == Ok::<PrctlAction, LinuxErrno>(PrctlAction::SetFsBase(base))
            &&& second == Ok::<PrctlAction, LinuxErrno>(
                PrctlAction::StoreFsBase { addr, fs_base: base },
            )
            &&& same == set
            &&& mem_of(set, pid, generation) == Some(
                MemModel { fs_base: base, ..mem_of(slots, pid, generation)->0 },
            )
        }),
{
    let state = mem_of(slots, pid, generation)->0;
    lemma_state_written(slots, pid, generation, MemModel { fs_base: base, ..state });
    let set = prctl_decided(slots, pid, generation, ARCH_SET_FS, base, writable).0;
    lemma_state_written(set, pid, generation, MemModel { fs_base: base, ..state });
}

/// A process whose image was just loaded has an empty heap at the place that the image gave: asking
/// for the heap's end gives its start.
pub proof fn law_image_starts_an_empty_heap(
    slots: Seq<Option<MemSlotModel>>,
    pid: u64,
    generation: InstanceGeneration,
    lo: u64,
    hi: u64,
    start: u64,
    ready: Result<(), LinuxErrno>,
    page: u64,
)
    requires
        image_set(slots, pid, generation, lo, hi, start).1 is Ok,
    ensures
        ({
            let after = image_set(slots, pid, generation, lo, hi, start).0;
            let state = mem_of(after, pid, generation)->0;
            &&& mem_of(after, pid, generation) is Some
            &&& !heap_page(state.brk_base, state.brk_end, page)
            &&& state.brk_base == start && state.lo == lo && state.hi == hi
            &&& brk_decided(after, pid, generation, 0, ready).1 == Ok::<BrkPlan, LinuxErrno>(
                BrkPlan::Keep(start),
            )
        }),
{
    lemma_mem_from(slots, pid, generation, 0);
    lemma_unused(slots, 0);
    let (held, i) = ensured(slots, pid, generation)->Ok_0;
    let after = image_set(slots, pid, generation, lo, hi, start).0;
    lemma_mem_placed(slots, after, i, pid, generation, 0);
}

/// Each field of what `uname` tells is the text that belongs there followed by zeros up to the next field,
/// so that it can be read as a string.
pub proof fn law_uname_fields_are_strings(fields: Seq<Seq<u8>>, field: int, at: int)
    requires
        0 <= field < fields.len(),
        0 <= at < 65,
    ensures
        at < fields[field].len() ==> utsname_byte(fields, field * 65 + at) == fields[field][at],
        at >= fields[field].len() ==> utsname_byte(fields, field * 65 + at) == 0,
{
    vstd::arithmetic::div_mod::lemma_fundamental_div_mod_converse(field * 65 + at, 65, field, at);
}

/// Pages can be mapped exactly where there is an allocator and an address space; the allocator is missed
/// first.
pub proof fn law_pages_need_memory_and_a_space(
    processes: Seq<Process>,
    pid: u64,
    generation: InstanceGeneration,
    allocator_ready: bool,
)
    ensures
        ({
            let r = pages_ready(processes, pid, generation, allocator_ready);
            &&& r is Ok <==> allocator_ready && space_ready(processes, pid, generation)
            &&& r == Err::<(), LinuxErrno>(ENOMEM) <==> !allocator_ready
        }),
{
}

/// Where the thread's base cannot be stored it is not told, and no other request of the kind is known; the
/// process's memory then stays as it was.
pub proof fn law_other_prctl_is_refused(
    slots: Seq<Option<MemSlotModel>>,
    pid: u64,
    generation: InstanceGeneration,
    code: u64,
    addr: u64,
    writable: bool,
)
    requires
        mem_of(slots, pid, generation) is Some,
        code != 0x1002,
        code != 0x1003 || !writable,
    ensures
        prctl_decided(slots, pid, generation, code, addr, writable) == (
            slots,
            Err::<PrctlAction, LinuxErrno>(EINVAL),
        ),
{
}

/// A mapping is recorded behind those that are there, wherever there is room: there is one more, it is the
/// one that was planned, and its pages are counted.
pub proof fn law_mapping_is_recorded_behind(state: MemModel, plan: MmapPlan, j: int)
    requires
        state.regions.len() == LINUX_MMAP_MAX_REGIONS,
        0 <= j < state.region_count,
    ensures
        ({
            let r = region_recorded(state, plan);
            let n = state.region_count as int;
            &&& r is Ok <==> n < LINUX_MMAP_MAX_REGIONS && state.pages + plan.page_count <= u64::MAX
            &&& r is Ok ==> {
                &&& r->Ok_0.region_count == n + 1
                &&& r->Ok_0.regions[n].start == plan.map_addr
                &&& r->Ok_0.regions[n].end == plan.map_end
                &&& r->Ok_0.regions[n].page_count == plan.page_count
                &&& r->Ok_0.regions[j] == state.regions[j]
                &&& r->Ok_0.pages == state.pages + plan.page_count
                &&& r->Ok_0.brk_end == state.brk_end && r->Ok_0.brk_base == state.brk_base
            }
        }),
{
}

} // verus!
