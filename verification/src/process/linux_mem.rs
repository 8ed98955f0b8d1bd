//! Per-process heap, anonymous mappings and thread-local base of the Linux personality.
//!
//! The functions here decide and record; what they return tells which pages are to be mapped or
//! unmapped, and the caller hands back how that went.

use super::lifecycle::{process_from, Process, ProcessRegistry};
use super::linux_image::layout::LinuxImageLayout;
use super::InstanceGeneration;
use crate::abi::{
    LinuxErrno, ARCH_GET_FS, ARCH_SET_FS, EACCES, EFAULT, EINVAL, ENOMEM, MAP_ANONYMOUS, MAP_FIXED,
    MAP_PRIVATE, PROT_EXEC, PROT_NONE, PROT_READ, PROT_WRITE, UTSNAME_FIELD, UTSNAME_SIZE,
};
use crate::mm::address_space::{
    map_process_page, page_mapped, OwnedUserMapping, ProcessAddressSpace,
};
use crate::mm::frame_allocator::{page_taken, PageAllocator};
use crate::mm::layout::CarveOutTable;
use crate::mm::x86::{FLAG_NO_EXECUTE, FLAG_PRESENT, FLAG_USER_ACCESSIBLE, FLAG_WRITABLE};
use crate::mm::{
    align_down, align_up, ceil_to, floor_to, lemma_page_alignments, lemma_page_of, PAGE_SIZE,
};
use crate::sched::wait::Deadline;
use crate::sched::TASK_COUNT;
use vstd::prelude::*;

verus! {

pub const LINUX_BRK_MAX_BYTES: u64 = 0x40_0000;

pub const LINUX_MMAP_MAX_REGIONS: usize = 16;

pub const LINUX_MMAP_MAX_PAGES: u64 = 512;

pub const LINUX_MEM_MAX_PROCESSES: usize = TASK_COUNT;

/// Window for anonymous mappings where no image set another: below the conventional stack.
pub const LINUX_MMAP_WINDOW_TOP: u64 = 0x60_0000;

pub const LINUX_MMAP_WINDOW_BASE: u64 = 0x20_0000;

#[derive(Clone, Copy, Debug, PartialEq, Eq, Structural)]
pub struct MmapRegion {
    pub start: u64,
    pub end: u64,
    pub page_count: u64,
}

pub open spec fn no_region() -> MmapRegion {
    MmapRegion { start: 0, end: 0, page_count: 0 }
}

#[derive(Clone, Copy, Debug)]
pub struct LinuxMemState {
    pub brk_base: u64,
    pub brk_end: u64,
    /// Lowest address of anonymous mappings.
    pub mmap_window_lo: u64,
    /// Exclusive top of anonymous mappings.
    pub mmap_window_hi: u64,
    pub mmap_regions: [MmapRegion; LINUX_MMAP_MAX_REGIONS],
    pub mmap_region_count: usize,
    pub mmap_pages: u64,
    pub fs_base: u64,
    pub tid_address: u64,
    pub pending_sleep_deadline: Option<Deadline>,
    pub pending_poll_deadline: Option<Deadline>,
}

#[derive(Clone, Copy, Debug)]
pub struct MemSlot {
    pub pid: u64,
    pub generation: InstanceGeneration,
    pub state: LinuxMemState,
}

#[derive(Clone, Copy, Debug)]
pub struct Registry {
    pub slots: [Option<MemSlot>; LINUX_MEM_MAX_PROCESSES],
}

#[verifier::ext_equal]
pub struct MemModel {
    pub brk_base: u64,
    pub brk_end: u64,
    pub lo: u64,
    pub hi: u64,
    pub regions: Seq<MmapRegion>,
    pub region_count: usize,
    pub pages: u64,
    pub fs_base: u64,
    pub tid_address: u64,
    pub sleep: Option<Deadline>,
    pub poll: Option<Deadline>,
}

#[verifier::ext_equal]
pub struct MemSlotModel {
    pub pid: u64,
    pub generation: InstanceGeneration,
    pub state: MemModel,
}

/// The state of a process that has mapped nothing.
pub open spec fn empty_state() -> MemModel {
    MemModel {
        brk_base: 0,
        brk_end: 0,
        lo: LINUX_MMAP_WINDOW_BASE,
        hi: LINUX_MMAP_WINDOW_TOP,
        regions: Seq::new(LINUX_MMAP_MAX_REGIONS as nat, |i: int| no_region()),
        region_count: 0,
        pages: 0,
        fs_base: 0,
        tid_address: 0,
        sleep: None,
        poll: None,
    }
}

/// The heap starts at its base, is no larger than allowed and lies well below the top of the address
/// space.
pub open spec fn heap_wf(state: MemModel) -> bool {
    &&& state.brk_base <= state.brk_end <= state.brk_base + LINUX_BRK_MAX_BYTES
    &&& state.brk_base + LINUX_BRK_MAX_BYTES + PAGE_SIZE <= u64::MAX
}

impl LinuxMemState {
    pub open spec fn model(&self) -> MemModel {
        MemModel {
            brk_base: self.brk_base,
            brk_end: self.brk_end,
            lo: self.mmap_window_lo,
            hi: self.mmap_window_hi,
            regions: self.mmap_regions@,
            region_count: self.mmap_region_count,
            pages: self.mmap_pages,
            fs_base: self.fs_base,
            tid_address: self.tid_address,
            sleep: self.pending_sleep_deadline,
            poll: self.pending_poll_deadline,
        }
    }

    pub fn empty() -> (r: LinuxMemState)
        ensures
            r.model() == empty_state(),
    {
        let r = LinuxMemState {
            brk_base: 0,
            brk_end: 0,
            mmap_window_lo: LINUX_MMAP_WINDOW_BASE,
            mmap_window_hi: LINUX_MMAP_WINDOW_TOP,
            mmap_regions: [MmapRegion { start: 0, end: 0, page_count: 0 }; LINUX_MMAP_MAX_REGIONS],
            mmap_region_count: 0,
            mmap_pages: 0,
            fs_base: 0,
            tid_address: 0,
            pending_sleep_deadline: None,
            pending_poll_deadline: None,
        };
        assert(r.model().regions =~= empty_state().regions);
        r
    }
}

pub open spec fn mem_slot(slot: Option<MemSlot>) -> Option<MemSlotModel> {
    match slot {
        Some(s) => Some(
            MemSlotModel { pid: s.pid, generation: s.generation, state: s.state.model() },
        ),
        None => None,
    }
}

/// The first slot at or above `from` of a process.
pub open spec fn mem_from(
    slots: Seq<Option<MemSlotModel>>,
    pid: u64,
    generation: InstanceGeneration,
    from: int,
) -> Option<int>
    decreases slots.len() - from,
{
    if from < 0 || from >= slots.len() {
        None
    } else if slots[from] is Some && slots[from]->0.pid == pid && slots[from]->0.generation
        == generation {
        Some(from)
    } else {
        mem_from(slots, pid, generation, from + 1)
    }
}

/// The first unused slot at or above `from`.
pub open spec fn unused_from(slots: Seq<Option<MemSlotModel>>, from: int) -> Option<int>
    decreases slots.len() - from,
{
    if from < 0 || from >= slots.len() {
        None
    } else if slots[from] is None {
        Some(from)
    } else {
        unused_from(slots, from + 1)
    }
}

/// The state of a process.
pub open spec fn mem_of(
    slots: Seq<Option<MemSlotModel>>,
    pid: u64,
    generation: InstanceGeneration,
) -> Option<MemModel> {
    match mem_from(slots, pid, generation, 0) {
        Some(i) => Some(slots[i]->0.state),
        None => None,
    }
}

/// The slots after a process gave its own up.
pub open spec fn mem_released(
    slots: Seq<Option<MemSlotModel>>,
    pid: u64,
    generation: InstanceGeneration,
) -> Seq<Option<MemSlotModel>> {
    match mem_from(slots, pid, generation, 0) {
        Some(i) => slots.update(i, None),
        None => slots,
    }
}

/// The slots after a process has one, and which it is.
pub open spec fn ensured(
    slots: Seq<Option<MemSlotModel>>,
    pid: u64,
    generation: InstanceGeneration,
) -> Result<(Seq<Option<MemSlotModel>>, int), LinuxErrno> {
    match mem_from(slots, pid, generation, 0) {
        Some(i) => Ok((slots, i)),
        None => match unused_from(slots, 0) {
            Some(i) => Ok(
                (
                    slots.update(
                        i,
                        Some(MemSlotModel { pid, generation, state: empty_state() }),
                    ),
                    i,
                ),
            ),
            None => Err(ENOMEM),
        },
    }
}

/// The slots with the state of one changed.
pub open spec fn with_state(slots: Seq<Option<MemSlotModel>>, i: int, state: MemModel) -> Seq<
    Option<MemSlotModel>,
> {
    slots.update(i, Some(MemSlotModel { state, ..slots[i]->0 }))
}

/// Whether the address space of a process can be worked on.
pub open spec fn space_ready(processes: Seq<Process>, pid: u64, generation: InstanceGeneration) -> bool {
    match process_from(processes, pid, 0) {
        Some(i) => processes[i].instance_generation == generation
            && processes[i].resource_domain.address_space is Some,
        None => false,
    }
}

/// Whether pages of a process can be mapped and unmapped: there has to be an allocator, and an address
/// space to work on.
pub open spec fn pages_ready(
    processes: Seq<Process>,
    pid: u64,
    generation: InstanceGeneration,
    allocator_ready: bool,
) -> Result<(), LinuxErrno> {
    if !allocator_ready {
        Err(ENOMEM)
    } else if !space_ready(processes, pid, generation) {
        Err(EINVAL)
    } else {
        Ok(())
    }
}

fn check_pages(
    processes: &ProcessRegistry,
    pid: u64,
    generation: InstanceGeneration,
    allocator_ready: bool,
) -> (r: Result<(), LinuxErrno>)
    ensures
        r == pages_ready(processes.processes@, pid, generation, allocator_ready),
{
    if !allocator_ready {
        return Err(ENOMEM);
    }
    match processes.get(pid) {
        Some(process) => {
            if process.instance_generation.0 != generation.0 {
                return Err(EINVAL);
            }
            if process.resource_domain.address_space().is_none() {
                return Err(EINVAL);
            }
            Ok(())
        },
        None => Err(EINVAL),
    }
}

/// The flags of a page that the kernel maps for user code.
pub open spec fn page_flags(writable: bool, executable: bool) -> u64 {
    let base = FLAG_PRESENT | FLAG_USER_ACCESSIBLE;
    let write = if writable {
        base | FLAG_WRITABLE
    } else {
        base
    };
    if executable {
        write
    } else {
        write | FLAG_NO_EXECUTE
    }
}

pub fn zero_page_flags(writable: bool, executable: bool) -> (r: u64)
    ensures
        r == page_flags(writable, executable),
{
    let base: u64 = FLAG_PRESENT | FLAG_USER_ACCESSIBLE;
    let write: u64 = if writable {
        base | FLAG_WRITABLE
    } else {
        base
    };
    if executable {
        write
    } else {
        write | FLAG_NO_EXECUTE
    }
}

/// What a `brk` does.
#[derive(Clone, Copy, Debug, PartialEq, Eq, Structural)]
pub enum BrkPlan {
    /// Returns the end of the heap, which stays.
    Keep(u64),
    /// The pages in `[bottom, top)` are unmapped, the highest first.
    Shrink { bottom: u64, top: u64, new_end: u64, result: u64 },
    /// The pages in `[from, to)` are mapped, writable and not executable.
    Grow { from: u64, to: u64, new_end: u64 },
}

/// What a `brk` to an address does to a heap.
pub open spec fn brk_planned(state: MemModel, addr: u64) -> Result<BrkPlan, LinuxErrno> {
    if addr == 0 || addr < state.brk_base {
        Ok(BrkPlan::Keep(state.brk_end))
    } else if addr - state.brk_base > LINUX_BRK_MAX_BYTES {
        Err(ENOMEM)
    } else if addr == state.brk_end {
        Ok(BrkPlan::Keep(state.brk_end))
    } else if addr < state.brk_end {
        Ok(
            BrkPlan::Shrink {
                bottom: ceil_to(state.brk_base as int, PAGE_SIZE as int) as u64,
                top: ceil_to(addr as int, PAGE_SIZE as int) as u64,
                new_end: addr,
                result: state.brk_end,
            },
        )
    } else {
        Ok(
            BrkPlan::Grow {
                from: ceil_to(state.brk_end as int, PAGE_SIZE as int) as u64,
                to: ceil_to(addr as int, PAGE_SIZE as int) as u64,
                new_end: addr,
            },
        )
    }
}

/// An anonymous mapping to be made.
#[derive(Clone, Copy, Debug, PartialEq, Eq, Structural)]
pub struct MmapPlan {
    pub map_addr: u64,
    pub map_end: u64,
    pub page_count: u64,
    /// Flags of each page.
    pub flags: u64,
}

/// Whether a range shares an address with a mapping that is still there.
pub open spec fn overlaps_region(regions: Seq<MmapRegion>, start: int, end: int) -> bool {
    exists|i: int|
        0 <= i < regions.len() && (#[trigger] regions[i]).page_count > 0 && start < regions[i].end
            && end > regions[i].start
}

/// The highest free place for a mapping that ends at or below `candidate`, in steps of its size.
pub open spec fn place_from(state: MemModel, bytes: int, candidate: int) -> Option<u64>
    decreases candidate,
{
    let at = floor_to(candidate - bytes, PAGE_SIZE as int);
    if bytes <= 0 || candidate < state.lo + bytes || candidate < bytes {
        None
    } else if !overlaps_region(state.regions, at, at + bytes) && at >= state.brk_end {
        Some(at as u64)
    } else if at <= state.lo || at >= candidate || at < 0 {
        None
    } else {
        place_from(state, bytes, at)
    }
}

/// Where a mapping of a number of pages goes.
pub open spec fn mmap_place(state: MemModel, page_count: u64) -> Option<u64> {
    let bytes = page_count * PAGE_SIZE;
    if state.hi <= state.lo || bytes > state.hi - state.lo {
        None
    } else {
        place_from(state, bytes, state.hi as int)
    }
}

/// What an `mmap` request is refused for before the process is looked at; else the pages it asks for.
pub open spec fn mmap_request(len: u64, prot: u64, flags: u64, fd: i64, offset: u64) -> Result<
    u64,
    LinuxErrno,
> {
    if fd != -1 || offset != 0 {
        Err(EINVAL)
    } else if flags & MAP_PRIVATE == 0 || flags & MAP_ANONYMOUS == 0 {
        Err(EINVAL)
    } else if prot & PROT_EXEC != 0 && prot & PROT_WRITE != 0 {
        Err(EACCES)
    } else if len == 0 || len + PAGE_SIZE - 1 > u64::MAX {
        Err(EINVAL)
    } else if (len + PAGE_SIZE - 1) / PAGE_SIZE as int > LINUX_MMAP_MAX_PAGES {
        Err(ENOMEM)
    } else {
        Ok(((len + PAGE_SIZE - 1) / PAGE_SIZE as int) as u64)
    }
}

/// What an `mmap` of a process does, once the request itself is in order.
pub open spec fn mmap_planned(
    state: MemModel,
    addr: u64,
    page_count: u64,
    prot: u64,
    flags: u64,
    ready: Result<(), LinuxErrno>,
) -> Result<MmapPlan, LinuxErrno> {
    let fixed = flags & MAP_FIXED != 0;
    let place = if fixed {
        Some(addr)
    } else {
        mmap_place(state, page_count)
    };
    if state.pages + page_count > LINUX_MMAP_MAX_PAGES {
        Err(ENOMEM)
    } else if fixed && addr % PAGE_SIZE != 0 {
        Err(EINVAL)
    } else if place is None {
        Err(ENOMEM)
    } else {
        let map_addr = place->0;
        let map_end = map_addr + page_count * PAGE_SIZE;
        if map_end > u64::MAX {
            Err(EINVAL)
        } else if map_addr < state.lo || map_end > state.hi {
            Err(ENOMEM)
        } else if ready is Err {
            Err(ready->Err_0)
        } else if prot & PROT_READ == 0 && prot & PROT_WRITE == 0 && prot & PROT_EXEC == 0 && prot
            != PROT_NONE {
            Err(EINVAL)
        } else {
            Ok(
                MmapPlan {
                    map_addr,
                    map_end: map_end as u64,
                    page_count,
                    flags: page_flags(prot & PROT_WRITE != 0, prot & PROT_EXEC != 0),
                },
            )
        }
    }
}

/// The state after a mapping was recorded, if there is room.
pub open spec fn region_recorded(state: MemModel, plan: MmapPlan) -> Result<MemModel, LinuxErrno> {
    if state.region_count >= LINUX_MMAP_MAX_REGIONS {
        Err(ENOMEM)
    } else if state.pages + plan.page_count > u64::MAX {
        Err(ENOMEM)
    } else {
        Ok(
            MemModel {
                regions: state.regions.update(
                    state.region_count as int,
                    MmapRegion {
                        start: plan.map_addr,
                        end: plan.map_end,
                        page_count: plan.page_count,
                    },
                ),
                region_count: (state.region_count + 1) as usize,
                pages: (state.pages + plan.page_count) as u64,
                ..state
            },
        )
    }
}

/// The state after the mappings from `from` on that lie within a range were forgotten.
pub open spec fn regions_dropped(state: MemModel, start: u64, end: u64, from: int) -> MemModel
    decreases state.regions.len() - from,
{
    if from < 0 || from >= state.regions.len() {
        state
    } else {
        let region = state.regions[from];
        if region.page_count > 0 && start <= region.start && end >= region.end {
            regions_dropped(
                MemModel {
                    regions: state.regions.update(from, no_region()),
                    pages: if state.pages >= region.page_count {
                        (state.pages - region.page_count) as u64
                    } else {
                        0
                    },
                    ..state
                },
                start,
                end,
                from + 1,
            )
        } else {
            regions_dropped(state, start, end, from + 1)
        }
    }
}

/// What an `arch_prctl` does.
#[derive(Clone, Copy, Debug, PartialEq, Eq, Structural)]
pub enum PrctlAction {
    /// The thread-local base becomes the address.
    SetFsBase(u64),
    /// The thread-local base is stored at the address.
    StoreFsBase { addr: u64, fs_base: u64 },
}

/// Pages to be unmapped.
#[derive(Clone, Copy, Debug, PartialEq, Eq, Structural)]
pub struct UnmapRange {
    pub start: u64,
    pub end: u64,
}

impl Registry {
    pub open spec fn model(&self) -> Seq<Option<MemSlotModel>> {
        Seq::new(LINUX_MEM_MAX_PROCESSES as nat, |i: int| mem_slot(self.slots@[i]))
    }

    /// Every process's heap is in order.
    pub open spec fn wf(&self) -> bool {
        forall|i: int|
            0 <= i < LINUX_MEM_MAX_PROCESSES && (#[trigger] self.model()[i]) is Some ==> heap_wf(
                self.model()[i]->0.state,
            ) && self.model()[i]->0.state.regions.len() == LINUX_MMAP_MAX_REGIONS
    }

    pub fn new() -> (r: Registry)
        ensures
            r.wf(),
            forall|i: int| 0 <= i < LINUX_MEM_MAX_PROCESSES ==> (#[trigger] r.model()[i]) is None,
    {
        Registry { slots: [None, None] }
    }

    pub fn find(&self, pid: u64, generation: InstanceGeneration) -> (r: Option<usize>)
        ensures
            match mem_from(self.model(), pid, generation, 0) {
                Some(i) => r is Some && r->0 == i && i < LINUX_MEM_MAX_PROCESSES
                    && self.model()[i] is Some,
                None => r is None,
            },
    {
        let mut i: usize = 0;
        while i < LINUX_MEM_MAX_PROCESSES
            invariant
                0 <= i <= LINUX_MEM_MAX_PROCESSES,
                mem_from(self.model(), pid, generation, 0) == mem_from(
                    self.model(),
                    pid,
                    generation,
                    i as int,
                ),
            decreases LINUX_MEM_MAX_PROCESSES - i,
        {
            match self.slots[i] {
                Some(slot) => {
                    if slot.pid == pid && slot.generation.0 == generation.0 {
                        return Some(i);
                    }
                },
                None => {},
            }
            i += 1;
        }
        None
    }

    pub fn ensure(&mut self, pid: u64, generation: InstanceGeneration) -> (r: Result<
        usize,
        LinuxErrno,
    >)
        requires
            old(self).wf(),
        ensures
            final(self).wf(),
            match ensured(old(self).model(), pid, generation) {
                Ok((slots, i)) => r is Ok && r->Ok_0 == i && i < LINUX_MEM_MAX_PROCESSES
                    && final(self).model() == slots && slots[i] is Some,
                Err(e) => r == Err::<usize, LinuxErrno>(e) && final(self).model() == old(self).model(),
            },
    {
        match self.find(pid, generation) {
            Some(i) => return Ok(i),
            None => {},
        }
        let mut i: usize = 0;
        while i < LINUX_MEM_MAX_PROCESSES
            invariant
                0 <= i <= LINUX_MEM_MAX_PROCESSES,
                self.wf(),
                *self == *old(self),
                mem_from(self.model(), pid, generation, 0) is None,
                unused_from(self.model(), 0) == unused_from(self.model(), i as int),
            decreases LINUX_MEM_MAX_PROCESSES - i,
        {
            if self.slots[i].is_none() {
                let state = LinuxMemState::empty();
                self.slots[i] = Some(MemSlot { pid, generation, state });
                assert(self.model() =~= old(self).model().update(
                    i as int,
                    Some(MemSlotModel { pid, generation, state: empty_state() }),
                ));
                return Ok(i);
            }
            i += 1;
        }
        Err(ENOMEM)
    }

    /// The state in a slot that is in use.
    fn state_at(&self, index: usize) -> (r: LinuxMemState)
        requires
            index < LINUX_MEM_MAX_PROCESSES,
            self.model()[index as int] is Some,
        ensures
            r.model() == self.model()[index as int]->0.state,
    {
        match self.slots[index] {
            Some(slot) => slot.state,
            None => LinuxMemState::empty(),
        }
    }

    fn put_state(&mut self, index: usize, state: LinuxMemState)
        requires
            old(self).wf(),
            index < LINUX_MEM_MAX_PROCESSES,
            old(self).model()[index as int] is Some,
            heap_wf(state.model()),
        ensures
            final(self).wf(),
            final(self).model() == with_state(old(self).model(), index as int, state.model()),
    {
        match self.slots[index] {
            Some(slot) => {
                self.slots[index] = Some(MemSlot { state, ..slot });
            },
            None => {},
        }
        assert(self.model() =~= with_state(old(self).model(), index as int, state.model()));
    }

    pub fn occupied_slots(&self) -> (r: usize)
        ensures
            r == crate::scan::count(self.model(), |slot: Option<MemSlotModel>| slot is Some),
    {
        let ghost used = |slot: Option<MemSlotModel>| slot is Some;
        let mut n: usize = 0;
        let mut i: usize = 0;
        while i < LINUX_MEM_MAX_PROCESSES
            invariant
                0 <= i <= LINUX_MEM_MAX_PROCESSES,
                n <= i,
                used == |slot: Option<MemSlotModel>| slot is Some,
                n == crate::scan::count(self.model().take(i as int), used),
            decreases LINUX_MEM_MAX_PROCESSES - i,
        {
            proof {
                crate::scan::lemma_count_step(self.model(), used, i as int);
            }
            if self.slots[i].is_some() {
                n += 1;
            }
            i += 1;
        }
        proof {
            crate::scan::lemma_count_whole(self.model(), used);
        }
        n
    }

    /// Sets the heap and the mapping window of a process whose image was loaded.
    pub fn init_for_image(
        &mut self,
        pid: u64,
        generation: InstanceGeneration,
        layout: &LinuxImageLayout,
        brk_initial: u64,
    ) -> (r: Result<(), LinuxErrno>)
        requires
            old(self).wf(),
            brk_initial + LINUX_BRK_MAX_BYTES + PAGE_SIZE <= u64::MAX,
        ensures
            final(self).wf(),
            (final(self).model(), r) == image_set(
                old(self).model(),
                pid,
                generation,
                layout.window_base,
                layout.stack_reservation_start,
                brk_initial,
            ),
    {
        let index: usize = match self.ensure(pid, generation) {
            Ok(index) => index,
            Err(e) => return Err(e),
        };
        let mut state = self.state_at(index);
        state.brk_base = brk_initial;
        state.brk_end = brk_initial;
        state.mmap_window_lo = layout.window_base;
        state.mmap_window_hi = layout.stack_reservation_start;
        self.put_state(index, state);
        Ok(())
    }

    /// Takes a process's state out. Its pages are then to be unmapped.
    pub fn take_for_process(&mut self, pid: u64, generation: InstanceGeneration) -> (r: Option<
        LinuxMemState,
    >)
        requires
            old(self).wf(),
        ensures
            final(self).wf(),
            final(self).model() == mem_released(old(self).model(), pid, generation),
            match mem_of(old(self).model(), pid, generation) {
                None => r is None,
                Some(state) => r is Some && r->0.model() == state && heap_wf(state),
            },
    {
        match self.find(pid, generation) {
            None => None,
            Some(index) => {
                let state = self.state_at(index);
                self.slots[index] = None;
                assert(self.model() =~= old(self).model().update(index as int, None));
                Some(state)
            },
        }
    }

    /// The thread-local base to be put in place before a process runs.
    pub fn fs_base_to_apply(&self, pid: u64, generation: InstanceGeneration) -> (r: Option<u64>)
        ensures
            r == match mem_of(self.model(), pid, generation) {
                Some(state) => if state.fs_base != 0 {
                    Some(state.fs_base)
                } else {
                    None
                },
                None => None,
            },
    {
        match self.find(pid, generation) {
            None => None,
            Some(index) => {
                let fs: u64 = self.state_at(index).fs_base;
                if fs != 0 {
                    Some(fs)
                } else {
                    None
                }
            },
        }
    }

    /// Decides an `arch_prctl`. `writable` says whether user memory at the address can be written.
    pub fn sys_arch_prctl(
        &mut self,
        code: u64,
        addr: u64,
        pid: u64,
        generation: InstanceGeneration,
        writable: bool,
    ) -> (r: Result<PrctlAction, LinuxErrno>)
        requires
            old(self).wf(),
        ensures
            final(self).wf(),
            (final(self).model(), r) == prctl_decided(
                old(self).model(),
                pid,
                generation,
                code,
                addr,
                writable,
            ),
    {
        let index: usize = match self.ensure(pid, generation) {
            Ok(index) => index,
            Err(e) => return Err(e),
        };
        let mut state = self.state_at(index);
        if code == ARCH_SET_FS {
            state.fs_base = addr;
            self.put_state(index, state);
            Ok(PrctlAction::SetFsBase(addr))
        } else if code == ARCH_GET_FS {
            if !writable {
                return Err(EINVAL);
            }
            Ok(PrctlAction::StoreFsBase { addr, fs_base: state.fs_base })
        } else {
            Err(EINVAL)
        }
    }

    pub fn sys_set_tid_address(&mut self, addr: u64, pid: u64, generation: InstanceGeneration) -> (r:
        Result<u64, LinuxErrno>)
        requires
            old(self).wf(),
        ensures
            final(self).wf(),
            match ensured(old(self).model(), pid, generation) {
                Err(e) => r == Err::<u64, LinuxErrno>(e) && final(self).model() == old(self).model(),
                Ok((slots, i)) => r == Ok::<u64, LinuxErrno>(pid) && final(self).model() == with_state(
                    slots,
                    i,
                    MemModel { tid_address: addr, ..slots[i]->0.state },
                ),
            },
    {
        let index: usize = match self.ensure(pid, generation) {
            Ok(index) => index,
            Err(e) => return Err(e),
        };
        let mut state = self.state_at(index);
        state.tid_address = addr;
        self.put_state(index, state);
        Ok(pid)
    }

    /// Decides a `brk`. A plan that changes the heap is carried out and then completed.
    pub fn sys_brk(
        &mut self,
        addr: u64,
        pid: u64,
        generation: InstanceGeneration,
        processes: &ProcessRegistry,
        allocator_ready: bool,
    ) -> (r: Result<BrkPlan, LinuxErrno>)
        requires
            old(self).wf(),
        ensures
            final(self).wf(),
            (final(self).model(), r) == brk_decided(
                old(self).model(),
                pid,
                generation,
                addr,
                pages_ready(processes.processes@, pid, generation, allocator_ready),
            ),
    {
        let index: usize = match self.ensure(pid, generation) {
            Ok(index) => index,
            Err(e) => return Err(e),
        };
        proof {
            lemma_page_alignments();
        }
        let state = self.state_at(index);
        assert(heap_wf(state.model()));
        if addr == 0 || addr < state.brk_base {
            return Ok(BrkPlan::Keep(state.brk_end));
        }
        if addr - state.brk_base > LINUX_BRK_MAX_BYTES {
            return Err(ENOMEM);
        }
        if addr == state.brk_end {
            return Ok(BrkPlan::Keep(state.brk_end));
        }
        match check_pages(processes, pid, generation, allocator_ready) {
            Ok(()) => {},
            Err(e) => return Err(e),
        }
        if addr < state.brk_end {
            return Ok(
                BrkPlan::Shrink {
                    bottom: align_up(state.brk_base, PAGE_SIZE),
                    top: align_up(addr, PAGE_SIZE),
                    new_end: addr,
                    result: state.brk_end,
                },
            );
        }
        Ok(
            BrkPlan::Grow {
                from: align_up(state.brk_end, PAGE_SIZE),
                to: align_up(addr, PAGE_SIZE),
                new_end: addr,
            },
        )
    }

    /// Ends a `brk` whose pages were mapped or unmapped with the given outcome.
    pub fn complete_brk(
        &mut self,
        pid: u64,
        generation: InstanceGeneration,
        plan: BrkPlan,
        done: Result<(), LinuxErrno>,
    ) -> (r: Result<u64, LinuxErrno>)
        requires
            old(self).wf(),
            mem_of(old(self).model(), pid, generation) is Some,
            ({
                let state = mem_of(old(self).model(), pid, generation)->0;
                match plan {
                    BrkPlan::Keep(_) => true,
                    BrkPlan::Shrink { new_end, .. } => state.brk_base <= new_end <= state.brk_base
                        + LINUX_BRK_MAX_BYTES,
                    BrkPlan::Grow { new_end, .. } => state.brk_base <= new_end <= state.brk_base
                        + LINUX_BRK_MAX_BYTES,
                }
            }),
        ensures
            final(self).wf(),
            (final(self).model(), r) == brk_completed(
                old(self).model(),
                pid,
                generation,
                plan,
                done,
            ),
    {
        let new_end: u64 = match plan {
            BrkPlan::Keep(end) => return Ok(end),
            BrkPlan::Shrink { new_end, .. } => new_end,
            BrkPlan::Grow { new_end, .. } => new_end,
        };
        match done {
            Ok(()) => {},
            Err(e) => return Err(e),
        }
        match self.find(pid, generation) {
            Some(index) => {
                let mut state = self.state_at(index);
                state.brk_end = new_end;
                self.put_state(index, state);
            },
            None => {},
        }
        match plan {
            BrkPlan::Shrink { result, .. } => Ok(result),
            _ => Ok(new_end),
        }
    }

    pub fn pending_sleep_deadline(&self, pid: u64, generation: InstanceGeneration) -> (r: Option<
        Deadline,
    >)
        ensures
            r == match mem_of(self.model(), pid, generation) {
                Some(state) => state.sleep,
                None => None,
            },
    {
        match self.find(pid, generation) {
            Some(index) => self.state_at(index).pending_sleep_deadline,
            None => None,
        }
    }

    pub fn set_pending_sleep_deadline(
        &mut self,
        pid: u64,
        generation: InstanceGeneration,
        deadline: Option<Deadline>,
    )
        requires
            old(self).wf(),
        ensures
            final(self).wf(),
            final(self).model() == match mem_from(old(self).model(), pid, generation, 0) {
                Some(i) => with_state(
                    old(self).model(),
                    i,
                    MemModel { sleep: deadline, ..old(self).model()[i]->0.state },
                ),
                None => old(self).model(),
            },
    {
        match self.find(pid, generation) {
            Some(index) => {
                let mut state = self.state_at(index);
                state.pending_sleep_deadline = deadline;
                self.put_state(index, state);
            },
            None => {},
        }
    }

    pub fn pending_poll_deadline(&self, pid: u64, generation: InstanceGeneration) -> (r: Option<
        Deadline,
    >)
        ensures
            r == match mem_of(self.model(), pid, generation) {
                Some(state) => state.poll,
                None => None,
            },
    {
        match self.find(pid, generation) {
            Some(index) => self.state_at(index).pending_poll_deadline,
            None => None,
        }
    }

    pub fn set_pending_poll_deadline(
        &mut self,
        pid: u64,
        generation: InstanceGeneration,
        deadline: Option<Deadline>,
    )
        requires
            old(self).wf(),
        ensures
            final(self).wf(),
            final(self).model() == match mem_from(old(self).model(), pid, generation, 0) {
                Some(i) => with_state(
                    old(self).model(),
                    i,
                    MemModel { poll: deadline, ..old(self).model()[i]->0.state },
                ),
                None => old(self).model(),
            },
    {
        match self.find(pid, generation) {
            Some(index) => {
                let mut state = self.state_at(index);
                state.pending_poll_deadline = deadline;
                self.put_state(index, state);
            },
            None => {},
        }
    }

    /// Decides an anonymous `mmap`. The plan is carried out, page by page, and then completed.
    pub fn sys_mmap(
        &mut self,
        addr: u64,
        len: u64,
        prot: u64,
        flags: u64,
        fd: i64,
        offset: u64,
        pid: u64,
        generation: InstanceGeneration,
        processes: &ProcessRegistry,
        allocator_ready: bool,
    ) -> (r: Result<MmapPlan, LinuxErrno>)
        requires
            old(self).wf(),
        ensures
            final(self).wf(),
            (final(self).model(), r) == mmap_decided(
                old(self).model(),
                pid,
                generation,
                addr,
                len,
                prot,
                flags,
                fd,
                offset,
                pages_ready(processes.processes@, pid, generation, allocator_ready),
            ),
    {
        if fd != -1 || offset != 0 {
            return Err(EINVAL);
        }
        if flags & MAP_PRIVATE == 0 || flags & MAP_ANONYMOUS == 0 {
            return Err(EINVAL);
        }
        if prot & PROT_EXEC != 0 && prot & PROT_WRITE != 0 {
            return Err(EACCES);
        }
        if len == 0 {
            return Err(EINVAL);
        }
        let rounded: u64 = match len.checked_add(PAGE_SIZE - 1) {
            Some(rounded) => rounded,
            None => return Err(EINVAL),
        };
        let page_count: u64 = rounded / PAGE_SIZE;
        if page_count > LINUX_MMAP_MAX_PAGES {
            return Err(ENOMEM);
        }
        let index: usize = match self.ensure(pid, generation) {
            Ok(index) => index,
            Err(e) => return Err(e),
        };
        let state = self.state_at(index);
        let total: u64 = match state.mmap_pages.checked_add(page_count) {
            Some(total) => total,
            None => return Err(ENOMEM),
        };
        if total > LINUX_MMAP_MAX_PAGES {
            return Err(ENOMEM);
        }
        let map_addr: u64 = if flags & MAP_FIXED != 0 {
            if addr % PAGE_SIZE != 0 {
                return Err(EINVAL);
            }
            addr
        } else {
            match alloc_mmap_addr(&state, page_count) {
                Some(place) => place,
                None => return Err(ENOMEM),
            }
        };
        let map_end: u64 = match map_addr.checked_add(page_count * PAGE_SIZE) {
            Some(end) => end,
            None => return Err(EINVAL),
        };
        if map_addr < state.mmap_window_lo || map_end > state.mmap_window_hi {
            return Err(ENOMEM);
        }
        match check_pages(processes, pid, generation, allocator_ready) {
            Ok(()) => {},
            Err(e) => return Err(e),
        }
        let readable: bool = prot & PROT_READ != 0;
        let writable: bool = prot & PROT_WRITE != 0;
        let executable: bool = prot & PROT_EXEC != 0;
        if !readable && !writable && !executable && prot != PROT_NONE {
            return Err(EINVAL);
        }
        Ok(
            MmapPlan {
                map_addr,
                map_end,
                page_count,
                flags: zero_page_flags(writable, executable),
            },
        )
    }

    /// Ends an `mmap` whose pages were mapped with the given outcome: the mapping is recorded.
    pub fn complete_mmap(
        &mut self,
        pid: u64,
        generation: InstanceGeneration,
        plan: MmapPlan,
        done: Result<(), LinuxErrno>,
    ) -> (r: Result<u64, LinuxErrno>)
        requires
            old(self).wf(),
            mem_of(old(self).model(), pid, generation) is Some,
        ensures
            final(self).wf(),
            (final(self).model(), r) == mmap_completed(
                old(self).model(),
                pid,
                generation,
                plan,
                done,
            ),
    {
        match done {
            Ok(()) => {},
            Err(e) => return Err(e),
        }
        match self.find(pid, generation) {
            None => Err(EINVAL),
            Some(index) => {
                let mut state = self.state_at(index);
                if state.mmap_region_count >= LINUX_MMAP_MAX_REGIONS {
                    return Err(ENOMEM);
                }
                let pages: u64 = match state.mmap_pages.checked_add(plan.page_count) {
                    Some(pages) => pages,
                    None => return Err(ENOMEM),
                };
                let ghost before = state.model();
                state.mmap_regions[state.mmap_region_count] = MmapRegion {
                    start: plan.map_addr,
                    end: plan.map_end,
                    page_count: plan.page_count,
                };
                state.mmap_region_count = state.mmap_region_count + 1;
                state.mmap_pages = pages;
                assert(state.model() =~= region_recorded(before, plan)->Ok_0);
                self.put_state(index, state);
                Ok(plan.map_addr)
            },
        }
    }

    /// Decides a `munmap`: the range whose pages are to be unmapped.
    pub fn sys_munmap(
        &mut self,
        addr: u64,
        len: u64,
        pid: u64,
        generation: InstanceGeneration,
        processes: &ProcessRegistry,
        allocator_ready: bool,
    ) -> (r: Result<UnmapRange, LinuxErrno>)
        requires
            old(self).wf(),
        ensures
            final(self).wf(),
            (final(self).model(), r) == munmap_decided(
                old(self).model(),
                pid,
                generation,
                addr,
                len,
                pages_ready(processes.processes@, pid, generation, allocator_ready),
            ),
    {
        if addr % PAGE_SIZE != 0 || len == 0 {
            return Err(EINVAL);
        }
        let end: u64 = match addr.checked_add(len) {
            Some(end) => end,
            None => return Err(EINVAL),
        };
        match self.ensure(pid, generation) {
            Ok(_) => {},
            Err(e) => return Err(e),
        }
        match check_pages(processes, pid, generation, allocator_ready) {
            Ok(()) => {},
            Err(e) => return Err(e),
        }
        Ok(UnmapRange { start: addr, end })
    }

    /// Ends a `munmap` whose pages were unmapped with the given outcome: the mappings that lie within
    /// the range are forgotten.
    pub fn complete_munmap(
        &mut self,
        pid: u64,
        generation: InstanceGeneration,
        range: UnmapRange,
        done: Result<(), LinuxErrno>,
    ) -> (r: Result<u64, LinuxErrno>)
        requires
            old(self).wf(),
            mem_of(old(self).model(), pid, generation) is Some,
        ensures
            final(self).wf(),
            (final(self).model(), r) == munmap_completed(
                old(self).model(),
                pid,
                generation,
                range,
                done,
            ),
    {
        match done {
            Ok(()) => {},
            Err(e) => return Err(e),
        }
        match self.find(pid, generation) {
            None => Err(EINVAL),
            Some(index) => {
                let mut state = self.state_at(index);
                let ghost before = state.model();
                let mut k: usize = 0;
                while k < LINUX_MMAP_MAX_REGIONS
                    invariant
                        0 <= k <= LINUX_MMAP_MAX_REGIONS,
                        regions_dropped(before, range.start, range.end, 0) == regions_dropped(
                            state.model(),
                            range.start,
                            range.end,
                            k as int,
                        ),
                        state.brk_base == before.brk_base,
                        state.brk_end == before.brk_end,
                    decreases LINUX_MMAP_MAX_REGIONS - k,
                {
                    let ghost held = state.model();
                    let region = state.mmap_regions[k];
                    if region.page_count > 0 && range.start <= region.start && range.end
                        >= region.end {
                        state.mmap_pages = if state.mmap_pages >= region.page_count {
                            state.mmap_pages - region.page_count
                        } else {
                            0
                        };
                        state.mmap_regions[k] = MmapRegion { start: 0, end: 0, page_count: 0 };
                        assert(state.model().regions =~= held.regions.update(
                            k as int,
                            no_region(),
                        ));
                    }
                    k += 1;
                }
                self.put_state(index, state);
                Ok(0)
            },
        }
    }

    /// Gives a child a copy of its parent's state.
    pub fn clone_for_fork(
        &mut self,
        parent_pid: u64,
        parent_gen: InstanceGeneration,
        child_pid: u64,
        child_gen: InstanceGeneration,
    ) -> (r: Result<(), LinuxErrno>)
        requires
            old(self).wf(),
        ensures
            final(self).wf(),
            (final(self).model(), r) == mem_forked(
                old(self).model(),
                parent_pid,
                parent_gen,
                child_pid,
                child_gen,
            ),
    {
        let parent = match self.find(parent_pid, parent_gen) {
            Some(index) => self.state_at(index),
            None => return Err(EINVAL),
        };
        assert(heap_wf(parent.model()));
        let index: usize = match self.ensure(child_pid, child_gen) {
            Ok(index) => index,
            Err(e) => return Err(e),
        };
        self.put_state(index, parent);
        Ok(())
    }
}

/// The slots after the heap and the mapping window of a process were set, and the result.
pub open spec fn image_set(
    slots: Seq<Option<MemSlotModel>>,
    pid: u64,
    generation: InstanceGeneration,
    lo: u64,
    hi: u64,
    brk_initial: u64,
) -> (Seq<Option<MemSlotModel>>, Result<(), LinuxErrno>) {
    match ensured(slots, pid, generation) {
        Err(e) => (slots, Err(e)),
        Ok((held, i)) => (
            with_state(
                held,
                i,
                MemModel {
                    brk_base: brk_initial,
                    brk_end: brk_initial,
                    lo,
                    hi,
                    ..held[i]->0.state
                },
            ),
            Ok(()),
        ),
    }
}

/// The slots after an `arch_prctl` of a process was decided, and what it does.
pub open spec fn prctl_decided(
    slots: Seq<Option<MemSlotModel>>,
    pid: u64,
    generation: InstanceGeneration,
    code: u64,
    addr: u64,
    writable: bool,
) -> (Seq<Option<MemSlotModel>>, Result<PrctlAction, LinuxErrno>) {
    match ensured(slots, pid, generation) {
        Err(e) => (slots, Err(e)),
        Ok((held, i)) => if code == ARCH_SET_FS {
            (
                with_state(held, i, MemModel { fs_base: addr, ..held[i]->0.state }),
                Ok(PrctlAction::SetFsBase(addr)),
            )
        } else if code == ARCH_GET_FS && writable {
            (held, Ok(PrctlAction::StoreFsBase { addr, fs_base: held[i]->0.state.fs_base }))
        } else {
            (held, Err(EINVAL))
        },
    }
}

/// The slots after a `brk` of a process was decided, and what it does.
pub open spec fn brk_decided(
    slots: Seq<Option<MemSlotModel>>,
    pid: u64,
    generation: InstanceGeneration,
    addr: u64,
    ready: Result<(), LinuxErrno>,
) -> (Seq<Option<MemSlotModel>>, Result<BrkPlan, LinuxErrno>) {
    match ensured(slots, pid, generation) {
        Err(e) => (slots, Err(e)),
        Ok((held, i)) => (
            held,
            match brk_planned(held[i]->0.state, addr) {
                Err(e) => Err(e),
                Ok(plan) => if plan is Keep {
                    Ok(plan)
                } else {
                    match ready {
                        Ok(()) => Ok(plan),
                        Err(e) => Err(e),
                    }
                },
            },
        ),
    }
}

/// The slots after a `brk` ended whose pages were mapped or unmapped with the outcome, and its result.
pub open spec fn brk_completed(
    slots: Seq<Option<MemSlotModel>>,
    pid: u64,
    generation: InstanceGeneration,
    plan: BrkPlan,
    done: Result<(), LinuxErrno>,
) -> (Seq<Option<MemSlotModel>>, Result<u64, LinuxErrno>) {
    let i = mem_from(slots, pid, generation, 0)->0;
    (
        if done is Ok && !(plan is Keep) {
            with_state(slots, i, MemModel { brk_end: brk_new_end(plan), ..slots[i]->0.state })
        } else {
            slots
        },
        brk_result(plan, done),
    )
}

/// The slots after an `mmap` of a process was decided, and what it does.
pub open spec fn mmap_decided(
    slots: Seq<Option<MemSlotModel>>,
    pid: u64,
    generation: InstanceGeneration,
    addr: u64,
    len: u64,
    prot: u64,
    flags: u64,
    fd: i64,
    offset: u64,
    ready: Result<(), LinuxErrno>,
) -> (Seq<Option<MemSlotModel>>, Result<MmapPlan, LinuxErrno>) {
    match mmap_request(len, prot, flags, fd, offset) {
        Err(e) => (slots, Err(e)),
        Ok(page_count) => match ensured(slots, pid, generation) {
            Err(e) => (slots, Err(e)),
            Ok((held, i)) => (
                held,
                mmap_planned(held[i]->0.state, addr, page_count, prot, flags, ready),
            ),
        },
    }
}

/// The slots after an `mmap` ended whose pages were mapped with the outcome, and its result.
pub open spec fn mmap_completed(
    slots: Seq<Option<MemSlotModel>>,
    pid: u64,
    generation: InstanceGeneration,
    plan: MmapPlan,
    done: Result<(), LinuxErrno>,
) -> (Seq<Option<MemSlotModel>>, Result<u64, LinuxErrno>) {
    let i = mem_from(slots, pid, generation, 0)->0;
    match done {
        Err(e) => (slots, Err(e)),
        Ok(()) => match region_recorded(slots[i]->0.state, plan) {
            Err(e) => (slots, Err(e)),
            Ok(after) => (with_state(slots, i, after), Ok(plan.map_addr)),
        },
    }
}

/// The slots after a `munmap` of a process was decided, and the range whose pages are to be unmapped.
pub open spec fn munmap_decided(
    slots: Seq<Option<MemSlotModel>>,
    pid: u64,
    generation: InstanceGeneration,
    addr: u64,
    len: u64,
    ready: Result<(), LinuxErrno>,
) -> (Seq<Option<MemSlotModel>>, Result<UnmapRange, LinuxErrno>) {
    if addr % PAGE_SIZE != 0 || len == 0 || addr + len > u64::MAX {
        (slots, Err(EINVAL))
    } else {
        match ensured(slots, pid, generation) {
            Err(e) => (slots, Err(e)),
            Ok((held, _)) => (
                held,
                match ready {
                    Ok(()) => Ok(UnmapRange { start: addr, end: (addr + len) as u64 }),
                    Err(e) => Err(e),
                },
            ),
        }
    }
}

/// The slots after a `munmap` ended whose pages were unmapped with the outcome, and its result.
pub open spec fn munmap_completed(
    slots: Seq<Option<MemSlotModel>>,
    pid: u64,
    generation: InstanceGeneration,
    range: UnmapRange,
    done: Result<(), LinuxErrno>,
) -> (Seq<Option<MemSlotModel>>, Result<u64, LinuxErrno>) {
    let i = mem_from(slots, pid, generation, 0)->0;
    match done {
        Err(e) => (slots, Err(e)),
        Ok(()) => (
            with_state(
                slots,
                i,
                regions_dropped(slots[i]->0.state, range.start, range.end, 0),
            ),
            Ok(0),
        ),
    }
}

/// The slots after a child got a copy of its parent's state.
pub open spec fn mem_forked(
    slots: Seq<Option<MemSlotModel>>,
    parent_pid: u64,
    parent_gen: InstanceGeneration,
    child_pid: u64,
    child_gen: InstanceGeneration,
) -> (Seq<Option<MemSlotModel>>, Result<(), LinuxErrno>) {
    match mem_of(slots, parent_pid, parent_gen) {
        None => (slots, Err(EINVAL)),
        Some(state) => match ensured(slots, child_pid, child_gen) {
            Err(e) => (slots, Err(e)),
            Ok((held, i)) => (with_state(held, i, state), Ok(())),
        },
    }
}

pub open spec fn brk_new_end(plan: BrkPlan) -> u64 {
    match plan {
        BrkPlan::Keep(end) => end,
        BrkPlan::Shrink { new_end, .. } => new_end,
        BrkPlan::Grow { new_end, .. } => new_end,
    }
}

/// What a `brk` returns.
pub open spec fn brk_result(plan: BrkPlan, done: Result<(), LinuxErrno>) -> Result<u64, LinuxErrno> {
    match plan {
        BrkPlan::Keep(end) => Ok(end),
        BrkPlan::Shrink { result, .. } => match done {
            Ok(()) => Ok(result),
            Err(e) => Err(e),
        },
        BrkPlan::Grow { new_end, .. } => match done {
            Ok(()) => Ok(new_end),
            Err(e) => Err(e),
        },
    }
}

fn overlaps_any(state: &LinuxMemState, start: u64, end: u64) -> (r: bool)
    ensures
        r == overlaps_region(state.mmap_regions@, start as int, end as int),
{
    let mut i: usize = 0;
    while i < LINUX_MMAP_MAX_REGIONS
        invariant
            0 <= i <= LINUX_MMAP_MAX_REGIONS,
            forall|k: int|
                0 <= k < i ==> !((#[trigger] state.mmap_regions@[k]).page_count > 0 && start
                    < state.mmap_regions@[k].end && end > state.mmap_regions@[k].start),
        decreases LINUX_MMAP_MAX_REGIONS - i,
    {
        let region = state.mmap_regions[i];
        if region.page_count > 0 && start < region.end && end > region.start {
            assert(state.mmap_regions@[i as int].page_count > 0);
            return true;
        }
        i += 1;
    }
    false
}

/// Finds a place for a mapping, from the top of the window down.
fn alloc_mmap_addr(state: &LinuxMemState, page_count: u64) -> (r: Option<u64>)
    requires
        0 < page_count <= LINUX_MMAP_MAX_PAGES,
    ensures
        r == mmap_place(state.model(), page_count),
{
    proof {
        lemma_page_alignments();
    }
    let bytes: u64 = page_count * PAGE_SIZE;
    let lo: u64 = state.mmap_window_lo;
    let hi: u64 = state.mmap_window_hi;
    if hi <= lo || bytes > hi - lo {
        return None;
    }
    let mut candidate: u64 = hi;
    let mut done: bool = false;
    while !done && candidate >= bytes && candidate - bytes >= lo
        invariant
            bytes > 0,
            bytes == page_count * PAGE_SIZE,
            lo == state.mmap_window_lo,
            candidate <= hi,
            crate::mm::is_alignment(PAGE_SIZE),
            done ==> mmap_place(state.model(), page_count) is None,
            !done ==> mmap_place(state.model(), page_count) == place_from(
                state.model(),
                bytes as int,
                candidate as int,
            ),
        decreases candidate, (if done { 0int } else { 1int }),
    {
        let at: u64 = align_down(candidate - bytes, PAGE_SIZE);
        proof {
            lemma_page_of(candidate - bytes, candidate - bytes);
        }
        if !overlaps_any(state, at, at + bytes) && at >= state.brk_end {
            return Some(at);
        }
        if at <= lo {
            done = true;
        } else {
            candidate = at;
        }
    }
    None
}

/// The ranges of a process's pages that are unmapped when its state is given up: the heap, then each
/// mapping that is still there.
pub open spec fn release_ranges(state: MemModel, ranges: Seq<UnmapRange>, from: int) -> Seq<UnmapRange>
    decreases state.regions.len() - from,
{
    if from < 0 || from >= state.regions.len() {
        ranges
    } else if state.regions[from].page_count > 0 {
        release_ranges(
            state,
            ranges.push(
                UnmapRange { start: state.regions[from].start, end: state.regions[from].end },
            ),
            from + 1,
        )
    } else {
        release_ranges(state, ranges, from + 1)
    }
}

/// The heap's pages.
pub open spec fn heap_range(state: MemModel) -> UnmapRange {
    UnmapRange {
        start: ceil_to(state.brk_base as int, PAGE_SIZE as int) as u64,
        end: ceil_to(state.brk_end as int, PAGE_SIZE as int) as u64,
    }
}

/// Which pages are to be unmapped when a process's state is given up.
pub fn unmap_all(state: &LinuxMemState) -> (r: Vec<UnmapRange>)
    requires
        heap_wf(state.model()),
    ensures
        r@ == release_ranges(state.model(), seq![heap_range(state.model())], 0),
{
    proof {
        lemma_page_alignments();
    }
    let mut ranges: Vec<UnmapRange> = Vec::new();
    ranges.push(
        UnmapRange {
            start: align_up(state.brk_base, PAGE_SIZE),
            end: align_up(state.brk_end, PAGE_SIZE),
        },
    );
    assert(ranges@ =~= seq![heap_range(state.model())]);
    let mut i: usize = 0;
    while i < LINUX_MMAP_MAX_REGIONS
        invariant
            0 <= i <= LINUX_MMAP_MAX_REGIONS,
            release_ranges(state.model(), seq![heap_range(state.model())], 0) == release_ranges(
                state.model(),
                ranges@,
                i as int,
            ),
        decreases LINUX_MMAP_MAX_REGIONS - i,
    {
        let region = state.mmap_regions[i];
        if region.page_count > 0 {
            ranges.push(UnmapRange { start: region.start, end: region.end });
        }
        i += 1;
    }
    ranges
}

/// A step of a walk over pages.
#[derive(Clone, Copy, Debug, PartialEq, Eq, Structural)]
pub enum PageStep {
    Done,
    At(u64),
    Fail(LinuxErrno),
}

/// The step of an upward walk over the pages of `[start, end)` that follows the page `after`.
pub open spec fn step_up(start: u64, end: u64, after: Option<u64>) -> PageStep {
    let next = match after {
        None => floor_to(start as int, PAGE_SIZE as int),
        Some(va) => va + PAGE_SIZE,
    };
    if next > u64::MAX {
        PageStep::Fail(EINVAL)
    } else if next < end {
        PageStep::At(next as u64)
    } else {
        PageStep::Done
    }
}

/// The step of a downward walk over the pages of `[bottom, top)` that follows the page `after`.
pub open spec fn step_down(bottom: u64, top: u64, after: Option<u64>) -> PageStep {
    let cursor = match after {
        None => top,
        Some(va) => va,
    };
    if cursor <= bottom {
        PageStep::Done
    } else if cursor < PAGE_SIZE {
        PageStep::Fail(EINVAL)
    } else {
        PageStep::At((cursor - PAGE_SIZE) as u64)
    }
}

/// The next page of a range that is mapped or unmapped from its start on.
pub fn next_page_up(range: UnmapRange, after: Option<u64>) -> (r: PageStep)
    ensures
        r == step_up(range.start, range.end, after),
{
    proof {
        lemma_page_alignments();
        lemma_page_of(range.start as int, range.start as int);
    }
    let next: u64 = match after {
        None => align_down(range.start, PAGE_SIZE),
        Some(va) => match va.checked_add(PAGE_SIZE) {
            Some(next) => next,
            None => return PageStep::Fail(EINVAL),
        },
    };
    if next < range.end {
        PageStep::At(next)
    } else {
        PageStep::Done
    }
}

/// The next page of a heap that is unmapped from its end on.
pub fn next_page_down(bottom: u64, top: u64, after: Option<u64>) -> (r: PageStep)
    ensures
        r == step_down(bottom, top, after),
{
    let cursor: u64 = match after {
        None => top,
        Some(va) => va,
    };
    if cursor <= bottom {
        return PageStep::Done;
    }
    match cursor.checked_sub(PAGE_SIZE) {
        Some(va) => PageStep::At(va),
        None => PageStep::Fail(EINVAL),
    }
}

/// What the unmapping of one page comes to: a page that is not there is passed over.
pub fn unmap_one_page(present: bool, unmapped: bool) -> (r: Result<(), LinuxErrno>)
    ensures
        r == (if present && !unmapped {
            Err::<(), LinuxErrno>(ENOMEM)
        } else {
            Ok(())
        }),
{
    if present && !unmapped {
        return Err(ENOMEM);
    }
    Ok(())
}

/// Starts the mapping of a zeroed page: takes a frame for it.
pub fn begin_zero_page(allocator: &mut PageAllocator) -> (r: Result<u64, LinuxErrno>)
    requires
        old(allocator).wf(),
    ensures
        final(allocator).wf(),
        final(allocator).regions() == old(allocator).regions(),
        match r {
            Ok(frame) => page_taken(old(allocator), final(allocator), Some(frame)),
            Err(e) => e == ENOMEM && page_taken(old(allocator), final(allocator), None),
        },
{
    match allocator.allocate_page() {
        Some(frame) => Ok(frame),
        None => Err(ENOMEM),
    }
}

/// Ends the mapping of a zeroed page. `mapped` says whether the page tables took the mapping.
pub fn finish_zero_page(
    space: &mut ProcessAddressSpace,
    carve_outs: &CarveOutTable,
    va: u64,
    frame: u64,
    mapped: bool,
) -> (r: Result<(), LinuxErrno>)
    requires
        old(space).wf(),
    ensures
        final(space).wf(),
        final(space).root_frame == old(space).root_frame,
        final(space).page_table_frames@ == old(space).page_table_frames@,
        if page_mapped(old(space), carve_outs.ranges@, va, mapped) is Ok {
            &&& r == Ok::<(), LinuxErrno>(())
            &&& final(space).user_mappings@ == old(space).user_mappings@.push(
                OwnedUserMapping { virtual_address: va, frame_address: frame },
            )
        } else {
            &&& r == Err::<(), LinuxErrno>(ENOMEM)
            &&& final(space).user_mappings@ == old(space).user_mappings@
        },
{
    match map_process_page(space, carve_outs, va, frame, mapped) {
        Ok(()) => Ok(()),
        Err(_) => Err(ENOMEM),
    }
}

/// A field of a `struct utsname`: the text, and zeros up to the field's size.
pub open spec fn utsname_byte(fields: Seq<Seq<u8>>, i: int) -> u8 {
    let field = fields[i / UTSNAME_FIELD as int];
    let at = i % UTSNAME_FIELD as int;
    if at < field.len() {
        field[at]
    } else {
        0
    }
}

/// Lays a `struct utsname` out: six fields of equal size, each shorter than its place.
pub fn encode_utsname_fields(fields: [&[u8]; 6]) -> (r: [u8; UTSNAME_SIZE])
    requires
        forall|k: int| 0 <= k < 6 ==> (#[trigger] fields@[k])@.len() < UTSNAME_FIELD,
    ensures
        forall|i: int|
            0 <= i < UTSNAME_SIZE ==> #[trigger] r@[i] == utsname_byte(
                Seq::new(6, |k: int| fields@[k]@),
                i,
            ),
{
    let ghost model = Seq::new(6, |k: int| fields@[k]@);
    let mut image: [u8; UTSNAME_SIZE] = [0; UTSNAME_SIZE];
    let mut k: usize = 0;
    while k < 6
        invariant
            0 <= k <= 6,
            model == Seq::new(6, |k: int| fields@[k]@),
            forall|j: int| 0 <= j < 6 ==> (#[trigger] fields@[j])@.len() < UTSNAME_FIELD,
            forall|i: int| 0 <= i < k * 65 ==> #[trigger] image@[i] == utsname_byte(model, i),
            forall|i: int| k * 65 <= i < UTSNAME_SIZE ==> #[trigger] image@[i] == 0,
        decreases 6 - k,
    {
        let field: &[u8] = fields[k];
        let len: usize = field.len();
        let mut at: usize = 0;
        while at < len
            invariant
                0 <= k < 6,
                0 <= at <= len,
                len == field@.len(),
                len < UTSNAME_FIELD,
                field@ == model[k as int],
                model.len() == 6,
                forall|i: int|
                    0 <= i < k * 65 + at ==> #[trigger] image@[i] == utsname_byte(model, i),
                forall|i: int| k * 65 + at <= i < UTSNAME_SIZE ==> #[trigger] image@[i] == 0,
            decreases len - at,
        {
            image[k * 65 + at] = field[at];
            assert((k * 65 + at) as int / 65 == k && (k * 65 + at) as int % 65 == at);
            at += 1;
        }
        assert forall|i: int| 0 <= i < (k + 1) * 65 implies #[trigger] image@[i] == utsname_byte(
            model,
            i,
        ) by {
            if i >= k * 65 + len {
                assert(i / 65 == k && i % 65 >= len);
            }
        }
        k += 1;
    }
    image
}

/// The names that `uname` tells, in the order of the fields.
pub open spec fn utsname_fields() -> Seq<Seq<u8>> {
    seq![
        seq![0x4cu8, 0x69, 0x6e, 0x75, 0x78],
        seq![0x6du8, 0x39, 0x2d, 0x66, 0x69, 0x78, 0x74, 0x75, 0x72, 0x65],
        seq![0x36u8, 0x2e, 0x31, 0x2e, 0x30, 0x2d, 0x63, 0x6c, 0x65, 0x61, 0x6e, 0x2d, 0x73, 0x6c,
            0x61, 0x74, 0x65],
        seq![0x23u8, 0x31, 0x20, 0x4d, 0x39],
        seq![0x78u8, 0x38, 0x36, 0x5f, 0x36, 0x34],
        Seq::<u8>::empty(),
    ]
}

/// The bytes that `uname` stores: "Linux", "m9-fixture", "6.1.0-clean-slate", "#1 M9", "x86_64" and an
/// empty domain name. `writable` says whether user memory takes them.
pub fn utsname_for_user(writable: bool) -> (r: Result<[u8; UTSNAME_SIZE], LinuxErrno>)
    ensures
        writable ==> r is Ok && forall|i: int|
            0 <= i < UTSNAME_SIZE ==> #[trigger] r->Ok_0@[i] == utsname_byte(utsname_fields(), i),
        !writable ==> r == Err::<[u8; UTSNAME_SIZE], LinuxErrno>(EFAULT),
{
    if !writable {
        return Err(EFAULT);
    }
    let sysname: [u8; 5] = [0x4c, 0x69, 0x6e, 0x75, 0x78];
    let nodename: [u8; 10] = [0x6d, 0x39, 0x2d, 0x66, 0x69, 0x78, 0x74, 0x75, 0x72, 0x65];
    let release: [u8; 17] = [
        0x36, 0x2e, 0x31, 0x2e, 0x30, 0x2d, 0x63, 0x6c, 0x65, 0x61, 0x6e, 0x2d, 0x73, 0x6c, 0x61,
        0x74, 0x65,
    ];
    let version: [u8; 5] = [0x23, 0x31, 0x20, 0x4d, 0x39];
    let machine: [u8; 6] = [0x78, 0x38, 0x36, 0x5f, 0x36, 0x34];
    let domain: [u8; 0] = [];
    let fields: [&[u8]; 6] = [
        sysname.as_slice(),
        nodename.as_slice(),
        release.as_slice(),
        version.as_slice(),
        machine.as_slice(),
        domain.as_slice(),
    ];
    assert(Seq::new(6, |k: int| fields@[k]@) =~~= utsname_fields());
    Ok(encode_utsname_fields(fields))
}

/// A mapping whose place the kernel chose shares no page with another one, lies above the heap and
/// below the top of the window.
pub proof fn law_chosen_place_is_free(state: MemModel, page_count: u64)
    requires
        0 < page_count <= LINUX_MMAP_MAX_PAGES,
        mmap_place(state, page_count) is Some,
    ensures
        ({
            let at = mmap_place(state, page_count)->0;
            let end = at + page_count * PAGE_SIZE;
            &&& !overlaps_region(state.regions, at as int, end)
            &&& at >= state.brk_end
            &&& at as int % PAGE_SIZE as int == 0
            &&& end <= state.hi
        }),
{
    lemma_place(state, page_count * PAGE_SIZE, state.hi as int);
}

pub proof fn lemma_place(state: MemModel, bytes: int, candidate: int)
    requires
        bytes > 0,
        candidate <= state.hi,
        place_from(state, bytes, candidate) is Some,
    ensures
        ({
            let at = place_from(state, bytes, candidate)->0;
            &&& !overlaps_region(state.regions, at as int, at + bytes)
            &&& at >= state.brk_end
            &&& at as int % PAGE_SIZE as int == 0
            &&& at + bytes <= state.hi
        }),
    decreases candidate,
{
    lemma_page_of(candidate - bytes, candidate - bytes);
    let at = floor_to(candidate - bytes, PAGE_SIZE as int);
    if overlaps_region(state.regions, at, at + bytes) || at < state.brk_end {
        lemma_place(state, bytes, at);
    }
}

/// A mapping that is made as planned keeps the process within its number of pages and leaves its
/// other mappings and its heap alone.
pub proof fn law_mappings_stay_within_bounds(
    state: MemModel,
    addr: u64,
    page_count: u64,
    prot: u64,
    flags: u64,
)
    requires
        state.regions.len() == LINUX_MMAP_MAX_REGIONS,
        mmap_planned(state, addr, page_count, prot, flags, Ok(())) is Ok,
        region_recorded(state, mmap_planned(state, addr, page_count, prot, flags, Ok(()))->Ok_0) is Ok,
    ensures
        ({
            let plan = mmap_planned(state, addr, page_count, prot, flags, Ok(()))->Ok_0;
            let after = region_recorded(state, plan)->Ok_0;
            &&& after.pages <= LINUX_MMAP_MAX_PAGES
            &&& state.lo <= plan.map_addr && plan.map_end <= state.hi
            &&& after.brk_end == state.brk_end
            &&& forall|i: int|
                0 <= i < LINUX_MMAP_MAX_REGIONS && i != state.region_count
                    ==> #[trigger] after.regions[i] == state.regions[i]
        }),
{
}

/// Once a range was unmapped no mapping lies within it; the mappings that reach beyond it are kept.
pub proof fn law_unmapped_range_holds_no_mapping(state: MemModel, start: u64, end: u64)
    ensures
        ({
            let after = regions_dropped(state, start, end, 0);
            &&& after.regions.len() == state.regions.len()
            &&& forall|i: int|
                0 <= i < state.regions.len() ==> #[trigger] after.regions[i] == (
                if state.regions[i].page_count > 0 && start <= state.regions[i].start && end
                    >= state.regions[i].end {
                    no_region()
                } else {
                    state.regions[i]
                })
            &&& after.brk_end == state.brk_end
        }),
{
    lemma_dropped(state, start, end, 0);
}

pub proof fn lemma_dropped(state: MemModel, start: u64, end: u64, from: int)
    requires
        0 <= from <= state.regions.len(),
    ensures
        ({
            let after = regions_dropped(state, start, end, from);
            &&& after.regions.len() == state.regions.len()
            &&& after.brk_end == state.brk_end
            &&& forall|i: int|
                0 <= i < state.regions.len() ==> #[trigger] after.regions[i] == (if i >= from
                    && state.regions[i].page_count > 0 && start <= state.regions[i].start && end
                    >= state.regions[i].end {
                    no_region()
                } else {
                    state.regions[i]
                })
        }),
    decreases state.regions.len() - from,
{
    if from < state.regions.len() {
        let region = state.regions[from];
        if region.page_count > 0 && start <= region.start && end >= region.end {
            lemma_dropped(
                MemModel {
                    regions: state.regions.update(from, no_region()),
                    pages: if state.pages >= region.page_count {
                        (state.pages - region.page_count) as u64
                    } else {
                        0
                    },
                    ..state
                },
                start,
                end,
                from + 1,
            );
        } else {
            lemma_dropped(state, start, end, from + 1);
        }
    }
}

/// A process that gave its state up can have one again: it has left a slot.
pub proof fn law_released_slot_can_be_had(
    slots: Seq<Option<MemSlotModel>>,
    pid: u64,
    generation: InstanceGeneration,
)
    requires
        mem_of(slots, pid, generation) is Some,
    ensures
        ensured(mem_released(slots, pid, generation), pid, generation) is Ok,
{
    lemma_mem_from(slots, pid, generation, 0);
    let i = mem_from(slots, pid, generation, 0)->0;
    lemma_unused_before(slots.update(i, None), i, 0);
}

proof fn lemma_unused_before(slots: Seq<Option<MemSlotModel>>, i: int, from: int)
    requires
        0 <= from <= i < slots.len(),
        slots[i] is None,
    ensures
        unused_from(slots, from) is Some,
    decreases i - from,
{
    if slots[from] is Some {
        lemma_unused_before(slots, i, from + 1);
    }
}

/// A child starts with its parent's heap and mappings, and the parent keeps its own.
pub proof fn law_fork_copies_memory(
    slots: Seq<Option<MemSlotModel>>,
    parent_pid: u64,
    parent_gen: InstanceGeneration,
    child_pid: u64,
    child_gen: InstanceGeneration,
)
    requires
        mem_forked(slots, parent_pid, parent_gen, child_pid, child_gen).1 is Ok,
        (parent_pid, parent_gen) != (child_pid, child_gen),
    ensures
        ({
            let after = mem_forked(slots, parent_pid, parent_gen, child_pid, child_gen).0;
            &&& mem_of(after, child_pid, child_gen) == mem_of(slots, parent_pid, parent_gen)
            &&& mem_of(after, parent_pid, parent_gen) == mem_of(slots, parent_pid, parent_gen)
        }),
{
    let state = mem_of(slots, parent_pid, parent_gen)->0;
    let (held, i) = ensured(slots, child_pid, child_gen)->Ok_0;
    let after = with_state(held, i, state);
    lemma_mem_from(slots, child_pid, child_gen, 0);
    lemma_unused(slots, 0);
    lemma_mem_from(slots, parent_pid, parent_gen, 0);
    lemma_mem_placed(slots, after, i, child_pid, child_gen, 0);
    lemma_mem_kept(slots, after, i, parent_pid, parent_gen, 0);
}

pub proof fn lemma_unused(slots: Seq<Option<MemSlotModel>>, from: int)
    requires
        0 <= from <= slots.len(),
    ensures
        match unused_from(slots, from) {
            Some(i) => from <= i < slots.len() && slots[i] is None,
            None => true,
        },
    decreases slots.len() - from,
{
    if from < slots.len() && slots[from] is Some {
        lemma_unused(slots, from + 1);
    }
}

pub proof fn lemma_mem_from(
    slots: Seq<Option<MemSlotModel>>,
    pid: u64,
    generation: InstanceGeneration,
    from: int,
)
    requires
        0 <= from <= slots.len(),
    ensures
        match mem_from(slots, pid, generation, from) {
            Some(i) => from <= i < slots.len() && slots[i] is Some && slots[i]->0.pid == pid
                && slots[i]->0.generation == generation,
            None => true,
        },
    decreases slots.len() - from,
{
    if from < slots.len() && !(slots[from] is Some && slots[from]->0.pid == pid
        && slots[from]->0.generation == generation) {
        lemma_mem_from(slots, pid, generation, from + 1);
    }
}

/// A process is found in the slot it was put into.
pub proof fn lemma_mem_placed(
    before: Seq<Option<MemSlotModel>>,
    after: Seq<Option<MemSlotModel>>,
    i: int,
    pid: u64,
    generation: InstanceGeneration,
    from: int,
)
    requires
        0 <= from <= i < before.len(),
        after.len() == before.len(),
        forall|k: int| 0 <= k < before.len() && k != i ==> after[k] == before[k],
        after[i] is Some && after[i]->0.pid == pid && after[i]->0.generation == generation,
        mem_from(before, pid, generation, from) is None || mem_from(
            before,
            pid,
            generation,
            from,
        ) == Some(i),
    ensures
        mem_from(after, pid, generation, from) == Some(i),
    decreases before.len() - from,
{
    if from < i {
        assert(after[from] == before[from]);
        lemma_mem_placed(before, after, i, pid, generation, from + 1);
    }
}

/// A process stays where it is when another one's slot changes.
pub proof fn lemma_mem_kept(
    before: Seq<Option<MemSlotModel>>,
    after: Seq<Option<MemSlotModel>>,
    i: int,
    pid: u64,
    generation: InstanceGeneration,
    from: int,
)
    requires
        0 <= from <= before.len(),
        0 <= i < before.len(),
        after.len() == before.len(),
        forall|k: int| 0 <= k < before.len() && k != i ==> after[k] == before[k],
        !(after[i] is Some && after[i]->0.pid == pid && after[i]->0.generation == generation),
        !(before[i] is Some && before[i]->0.pid == pid && before[i]->0.generation == generation),
    ensures
        mem_from(after, pid, generation, from) == mem_from(before, pid, generation, from),
        match mem_from(before, pid, generation, from) {
            Some(k) => after[k] == before[k],
            None => true,
        },
    decreases before.len() - from,
{
    if from < before.len() {
        lemma_mem_kept(before, after, i, pid, generation, from + 1);
    }
}

} // verus!
