//! Per-process address spaces: the frames and mappings that a process owns, the kernel half of its
//! root table, and teardown.

use super::frame_allocator::{in_regions, page_returned, page_taken, PageAllocator};
use super::layout::{
    any_overlap, in_carve_out, ranges_overlap, CarveOutTable, VaRange, KERNEL_USER_PML4_SLOT_END,
};
use super::paging::{entry_in, TableMemory};
use super::x86::{
    address_of, entry_address, entry_flags, entry_frame, flags_contain, flags_of, frame_of,
    has_flags, FLAG_HUGE_PAGE, FLAG_USER_ACCESSIBLE,
};
use super::{align_down, floor_to, lemma_page_alignments, PAGE_SIZE, TWO_MIB};
use vstd::prelude::*;

verus! {

/// Page tables of an image, its stack and the carve-outs.
pub const MAX_ADDRESS_SPACE_PAGE_TABLE_FRAMES: usize = 24;

pub const MAX_ADDRESS_SPACE_USER_MAPPINGS: usize = 4;

/// Private page-table frames of a process for the carve-outs.
pub const KERNEL_CARVE_OUT_PRIVATE_TABLE_FRAMES: usize = 3;

/// Page tables below this physical address are mapped at identity.
pub const LOW_IDENTITY_PT_CUTOFF: u64 = TWO_MIB;

/// Frames that one collection of page tables can hold.
pub const LOW_FRAME_CAPACITY: usize = 512;

#[derive(Clone, Copy, Debug, PartialEq, Eq, Structural)]
pub struct OwnedUserMapping {
    pub virtual_address: u64,
    pub frame_address: u64,
}

#[derive(Clone, Copy, Debug, PartialEq, Eq, Structural)]
pub struct AddressSpaceResourceCounts {
    pub user_pages: usize,
    pub page_table_frames: usize,
}

impl Default for AddressSpaceResourceCounts {
    fn default() -> (r: AddressSpaceResourceCounts)
        ensures
            r == (AddressSpaceResourceCounts { user_pages: 0, page_table_frames: 0 }),
    {
        AddressSpaceResourceCounts { user_pages: 0, page_table_frames: 0 }
    }
}

/// What a process's address space owns: its page-table frames, the root first, and its user pages in
/// the order in which they were mapped.
#[derive(Debug, PartialEq, Eq)]
pub struct ProcessAddressSpace {
    pub root_frame: u64,
    pub page_table_frames: Vec<u64>,
    pub user_mappings: Vec<OwnedUserMapping>,
}

impl ProcessAddressSpace {
    pub open spec fn wf(&self) -> bool {
        &&& self.page_table_frames@.len() <= MAX_ADDRESS_SPACE_PAGE_TABLE_FRAMES
        &&& self.user_mappings@.len() <= MAX_ADDRESS_SPACE_USER_MAPPINGS
    }

    pub open spec fn counts(&self) -> AddressSpaceResourceCounts {
        AddressSpaceResourceCounts {
            user_pages: self.user_mappings@.len() as usize,
            page_table_frames: self.page_table_frames@.len() as usize,
        }
    }

    /// An address space that owns its root table only.
    pub fn new(root_frame: u64) -> (r: Result<ProcessAddressSpace, &'static str>)
        ensures
            r is Ok,
            r->Ok_0.wf(),
            r->Ok_0.root_frame == root_frame,
            r->Ok_0.page_table_frames@ == seq![root_frame],
            r->Ok_0.user_mappings@.len() == 0,
    {
        let mut address_space = ProcessAddressSpace {
            root_frame,
            page_table_frames: Vec::new(),
            user_mappings: Vec::new(),
        };
        match address_space.record_page_table_frame(root_frame) {
            Ok(()) => {},
            Err(e) => return Err(e),
        }
        assert(address_space.page_table_frames@ =~= seq![root_frame]);
        Ok(address_space)
    }

    pub fn record_page_table_frame(&mut self, frame_address: u64) -> (r: Result<(), &'static str>)
        requires
            old(self).wf(),
        ensures
            final(self).wf(),
            final(self).root_frame == old(self).root_frame,
            final(self).user_mappings@ == old(self).user_mappings@,
            if old(self).page_table_frames@.len() < MAX_ADDRESS_SPACE_PAGE_TABLE_FRAMES {
                r == Ok::<(), &'static str>(()) && final(self).page_table_frames@ == old(self).page_table_frames@.push(
                    frame_address,
                )
            } else {
                r == Err::<(), &'static str>(
                    "process address-space page-table tracking capacity exceeded",
                ) && final(self).page_table_frames@ == old(self).page_table_frames@
            },
    {
        if self.page_table_frames.len() >= MAX_ADDRESS_SPACE_PAGE_TABLE_FRAMES {
            return Err("process address-space page-table tracking capacity exceeded");
        }
        self.page_table_frames.push(frame_address);
        Ok(())
    }

    pub fn record_user_mapping(&mut self, virtual_address: u64, frame_address: u64) -> (r: Result<
        (),
        &'static str,
    >)
        requires
            old(self).wf(),
        ensures
            final(self).wf(),
            final(self).root_frame == old(self).root_frame,
            final(self).page_table_frames@ == old(self).page_table_frames@,
            if old(self).user_mappings@.len() < MAX_ADDRESS_SPACE_USER_MAPPINGS {
                r == Ok::<(), &'static str>(()) && final(self).user_mappings@ == old(self).user_mappings@.push(
                    OwnedUserMapping { virtual_address, frame_address },
                )
            } else {
                r == Err::<(), &'static str>(
                    "process address-space mapping tracking capacity exceeded",
                ) && final(self).user_mappings@ == old(self).user_mappings@
            },
    {
        if self.user_mappings.len() >= MAX_ADDRESS_SPACE_USER_MAPPINGS {
            return Err("process address-space mapping tracking capacity exceeded");
        }
        self.user_mappings.push(OwnedUserMapping { virtual_address, frame_address });
        Ok(())
    }

    pub fn resource_counts(&self) -> (r: AddressSpaceResourceCounts)
        ensures
            r == self.counts(),
    {
        AddressSpaceResourceCounts {
            user_pages: self.user_mappings.len(),
            page_table_frames: self.page_table_frames.len(),
        }
    }

    /// The number of user pages.
    pub fn user_mapping_count(&self) -> (r: usize)
        ensures
            r == self.user_mappings@.len(),
    {
        self.user_mappings.len()
    }

    /// The user page mapped at a position.
    pub fn user_mapping_at(&self, index: usize) -> (r: Option<OwnedUserMapping>)
        ensures
            r == (if index < self.user_mappings@.len() {
                Some(self.user_mappings@[index as int])
            } else {
                None
            }),
    {
        if index < self.user_mappings.len() {
            Some(self.user_mappings[index])
        } else {
            None
        }
    }
}

/// What handing out a page and taking it back at once comes to.
pub open spec fn page_not_kept(before: &PageAllocator, after: &PageAllocator) -> bool {
    exists|held: PageAllocator, frame: u64|
        #![trigger page_taken(before, &held, Some(frame))]
        page_taken(before, &held, Some(frame)) && page_returned(&held, after, frame, Ok(()))
}

/// Hands a page-table frame to an address space. A frame that the space cannot record goes back.
pub fn allocate_table_frame(
    allocator: &mut PageAllocator,
    address_space: &mut ProcessAddressSpace,
) -> (r: Option<u64>)
    requires
        old(allocator).wf(),
        old(address_space).wf(),
    ensures
        final(allocator).wf(),
        final(address_space).wf(),
        final(allocator).regions() == old(allocator).regions(),
        final(address_space).root_frame == old(address_space).root_frame,
        final(address_space).user_mappings@ == old(address_space).user_mappings@,
        match r {
            Some(frame) => {
                &&& page_taken(old(allocator), final(allocator), Some(frame))
                &&& old(address_space).page_table_frames@.len()
                    < MAX_ADDRESS_SPACE_PAGE_TABLE_FRAMES
                &&& final(address_space).page_table_frames@ == old(address_space).page_table_frames@.push(frame)
            },
            None => {
                &&& page_taken(old(allocator), final(allocator), None) || (old(
                    address_space,
                ).page_table_frames@.len() >= MAX_ADDRESS_SPACE_PAGE_TABLE_FRAMES
                    && page_not_kept(old(allocator), final(allocator)))
                &&& forall|other: u64| #[trigger]
                    final(allocator).allocated(other) == old(allocator).allocated(other)
                &&& final(address_space).page_table_frames@ == old(address_space).page_table_frames@
            },
        },
{
    let frame: u64 = match allocator.allocate_page() {
        Some(frame) => frame,
        None => return None,
    };
    let ghost held = *allocator;
    match address_space.record_page_table_frame(frame) {
        Ok(()) => Some(frame),
        Err(_) => {
            let _ = allocator.free_page(frame);
            proof {
                assert(page_taken(old(allocator), &held, Some(frame)));
                assert(page_returned(&held, allocator, frame, Ok(())));
                assert forall|other: u64| #[trigger] allocator.allocated(other) == old(allocator).allocated(other) by {
                    assert(held.allocated(other) == (other == frame || old(allocator).allocated(other)));
                }
            }
            None
        },
    }
}

/// A kernel root entry as a process sees it: without user access.
pub open spec fn supervisor_entry(raw: u64) -> u64 {
    if raw == 0 {
        0
    } else {
        address_of(raw) | (flags_of(raw) & !FLAG_USER_ACCESSIBLE)
    }
}

/// The root entry at an index of a process: the user half is empty, the kernel half has no user
/// access.
pub open spec fn process_root_entry(index: int, kernel: u64) -> u64 {
    if index < KERNEL_USER_PML4_SLOT_END {
        0
    } else {
        supervisor_entry(kernel)
    }
}

pub(crate) fn make_supervisor_entry(raw: u64) -> (r: u64)
    ensures
        r == supervisor_entry(raw),
{
    if raw == 0 {
        0
    } else {
        entry_address(raw) | (entry_flags(raw) & !FLAG_USER_ACCESSIBLE)
    }
}

/// Empties the user half of a root table and takes user access from the kernel half.
pub fn sanitize_kernel_root_entries(root: &mut [u64; 512])
    ensures
        forall|i: int|
            0 <= i < 512 ==> #[trigger] final(root)@[i] == process_root_entry(i, old(root)@[i]),
{
    let mut index: usize = 0;
    while index < 512
        invariant
            0 <= index <= 512,
            forall|i: int|
                0 <= i < index ==> #[trigger] root@[i] == process_root_entry(i, old(root)@[i]),
            forall|i: int| index <= i < 512 ==> #[trigger] root@[i] == old(root)@[i],
        decreases 512 - index,
    {
        if index < KERNEL_USER_PML4_SLOT_END {
            root[index] = 0;
        } else {
            root[index] = make_supervisor_entry(root[index]);
        }
        index += 1;
    }
}

/// Whether the kernel half of a root table has an entry with user access.
pub open spec fn exposes_kernel(root: Seq<u64>) -> bool {
    exists|i: int|
        KERNEL_USER_PML4_SLOT_END <= i < root.len() && #[trigger] root[i] != 0 && has_flags(
            flags_of(root[i]),
            FLAG_USER_ACCESSIBLE,
        )
}

pub fn validate_supervisor_only_kernel_root_entries(root: &[u64; 512]) -> (r: Result<
    (),
    &'static str,
>)
    ensures
        r == (if exposes_kernel(root@) {
            Err::<(), &'static str>("inherited kernel root entry remained user accessible")
        } else {
            Ok(())
        }),
{
    let mut index: usize = KERNEL_USER_PML4_SLOT_END;
    while index < 512
        invariant
            KERNEL_USER_PML4_SLOT_END <= index <= 512,
            forall|i: int|
                KERNEL_USER_PML4_SLOT_END <= i < index ==> !(#[trigger] root@[i] != 0 && has_flags(
                    flags_of(root@[i]),
                    FLAG_USER_ACCESSIBLE,
                )),
        decreases 512 - index,
    {
        let raw: u64 = root[index];
        if raw != 0 && flags_contain(entry_flags(raw), FLAG_USER_ACCESSIBLE) {
            return Err("inherited kernel root entry remained user accessible");
        }
        index += 1;
    }
    Ok(())
}

/// The root table of a new process: the kernel's upper half without user access.
pub fn clone_kernel_root_entries(kernel_root: &[u64; 512]) -> (r: [u64; 512])
    ensures
        forall|i: int|
            0 <= i < 512 ==> #[trigger] r@[i] == process_root_entry(i, kernel_root@[i]),
{
    let mut root: [u64; 512] = *kernel_root;
    sanitize_kernel_root_entries(&mut root);
    root
}

/// Taking user access from an entry leaves it without, whatever else it holds.
pub proof fn lemma_supervisor_entry(raw: u64)
    ensures
        !has_flags(flags_of(supervisor_entry(raw)), FLAG_USER_ACCESSIBLE),
{
    assert(0u64 & !0x000f_ffff_ffff_f000u64 & 0x4 != 0x4) by (bit_vector);
    assert(((raw & 0x000f_ffff_ffff_f000) | ((raw & !0x000f_ffff_ffff_f000u64) & !0x4u64))
        & !0x000f_ffff_ffff_f000u64 & 0x4 != 0x4) by (bit_vector);
}

/// A root table that was sanitized, or cloned for a process, passes validation.
pub proof fn law_sanitized_root_is_supervisor_only(kernel: Seq<u64>, root: Seq<u64>)
    requires
        kernel.len() == 512,
        root.len() == 512,
        forall|i: int|
            0 <= i < 512 ==> #[trigger] root[i] == process_root_entry(i, kernel[i]),
    ensures
        !exposes_kernel(root),
        forall|i: int| 0 <= i < KERNEL_USER_PML4_SLOT_END ==> root[i] == 0,
{
    assert forall|i: int|
        KERNEL_USER_PML4_SLOT_END <= i < root.len() implies !(#[trigger] root[i] != 0 && has_flags(
        flags_of(root[i]),
        FLAG_USER_ACCESSIBLE,
    )) by {
        lemma_supervisor_entry(kernel[i]);
    }
}

/// A collection of frames after one more: each frame once, and no more than fit.
pub open spec fn frame_added(frames: Seq<u64>, frame: u64) -> Seq<u64> {
    if frames.contains(frame) || frames.len() >= LOW_FRAME_CAPACITY {
        frames
    } else {
        frames.push(frame)
    }
}

pub fn push_unique_frame(frame: u64, frames: &mut Vec<u64>)
    requires
        old(frames)@.len() <= LOW_FRAME_CAPACITY,
    ensures
        final(frames)@ == frame_added(old(frames)@, frame),
        final(frames)@.len() <= LOW_FRAME_CAPACITY,
{
    let mut i: usize = 0;
    while i < frames.len()
        invariant
            0 <= i <= frames@.len(),
            frames@ == old(frames)@,
            frames@.len() <= LOW_FRAME_CAPACITY,
            forall|j: int| 0 <= j < i ==> frames@[j] != frame,
        decreases frames@.len() - i,
    {
        if frames[i] == frame {
            assert(frames@[i as int] == frame);
            return;
        }
        i += 1;
    }
    if frames.len() >= LOW_FRAME_CAPACITY {
        return;
    }
    frames.push(frame);
}

/// The entries that a level of the walk looks at: at the root only the user half.
pub open spec fn level_limit(level: int) -> int {
    if level == 0 {
        KERNEL_USER_PML4_SLOT_END as int
    } else {
        512
    }
}

/// The frames after a table at `level` (0 is the root) and the tables below it were added, entry by
/// entry from `index` on; `None` where an entry leads nowhere.
pub open spec fn tables_collected(
    m: &TableMemory,
    frames: Seq<u64>,
    table: u64,
    level: int,
    index: int,
) -> (Seq<u64>, bool)
    decreases 3 - level, 512 - index,
{
    if level < 0 || level >= 3 || index < 0 || index >= level_limit(level) {
        (frames, true)
    } else {
        let raw = entry_in(m, table, index);
        if raw == 0 || has_flags(flags_of(raw), FLAG_HUGE_PAGE) {
            tables_collected(m, frames, table, level, index + 1)
        } else {
            match frame_of(raw) {
                Err(_) => (frames, false),
                Ok(child) => {
                    let (below, ok) = tables_collected(
                        m,
                        frame_added(frames, child),
                        child,
                        level + 1,
                        0,
                    );
                    if ok {
                        tables_collected(m, below, table, level, index + 1)
                    } else {
                        (below, false)
                    }
                },
            }
        }
    }
}

/// Adds a page table and those below it to a collection.
pub fn walk_low_page_table_frames(m: &TableMemory, table_frame: u64, level: u8, frames: &mut Vec<u64>) -> (r:
    Result<(), &'static str>)
    requires
        old(frames)@.len() <= LOW_FRAME_CAPACITY,
    ensures
        final(frames)@.len() <= LOW_FRAME_CAPACITY,
        ({
            let (after, ok) = tables_collected(
                m,
                frame_added(old(frames)@, table_frame),
                table_frame,
                level as int,
                0,
            );
            &&& final(frames)@ == after
            &&& r == (if ok {
                Ok::<(), &'static str>(())
            } else {
                Err("invalid kernel page-table child")
            })
        }),
    decreases (if level < 3 { 3 - level } else { 0 }),
{
    push_unique_frame(table_frame, frames);
    if level >= 3 {
        return Ok(());
    }
    let limit: usize = if level == 0 {
        KERNEL_USER_PML4_SLOT_END
    } else {
        512
    };
    let ghost start = frames@;
    let mut index: usize = 0;
    while index < limit
        invariant
            0 <= index <= limit,
            limit == level_limit(level as int),
            level < 3,
            frames@.len() <= LOW_FRAME_CAPACITY,
            start == frame_added(old(frames)@, table_frame),
            tables_collected(m, start, table_frame, level as int, 0) == tables_collected(
                m,
                frames@,
                table_frame,
                level as int,
                index as int,
            ),
        decreases limit - index,
    {
        let raw: u64 = m.entry(table_frame, index);
        if raw != 0 && !flags_contain(entry_flags(raw), FLAG_HUGE_PAGE) {
            let child: u64 = match entry_frame(raw) {
                Ok(child) => child,
                Err(_) => return Err("invalid kernel page-table child"),
            };
            match walk_low_page_table_frames(m, child, level + 1, frames) {
                Ok(()) => {},
                Err(e) => return Err(e),
            }
        }
        index += 1;
    }
    Ok(())
}

/// The kernel's page tables for the low half.
pub fn collect_kernel_low_page_table_frames(
    m: &TableMemory,
    kernel_root: u64,
    frames: &mut Vec<u64>,
) -> (r: Result<(), &'static str>)
    requires
        old(frames)@.len() <= LOW_FRAME_CAPACITY,
    ensures
        final(frames)@.len() <= LOW_FRAME_CAPACITY,
        ({
            let (after, ok) = tables_collected(
                m,
                frame_added(old(frames)@, kernel_root),
                kernel_root,
                0,
                0,
            );
            &&& final(frames)@ == after
            &&& r == (if ok {
                Ok::<(), &'static str>(())
            } else {
                Err("invalid kernel page-table child")
            })
        }),
{
    walk_low_page_table_frames(m, kernel_root, 0, frames)
}

/// A collection after the frames from `from` on were added.
pub open spec fn frames_added(frames: Seq<u64>, more: Seq<u64>, from: int) -> Seq<u64>
    decreases more.len() - from,
{
    if from < 0 || from >= more.len() {
        frames
    } else {
        frames_added(frame_added(frames, more[from]), more, from + 1)
    }
}

/// The frames from `from` on that lie below the cutoff.
pub open spec fn low_frames(frames: Seq<u64>, from: int) -> Seq<u64>
    decreases frames.len() - from,
{
    if from < 0 || from >= frames.len() {
        seq![]
    } else if frames[from] < LOW_IDENTITY_PT_CUTOFF {
        seq![frames[from]] + low_frames(frames, from + 1)
    } else {
        low_frames(frames, from + 1)
    }
}

/// The page-table frames that a process must see at identity: of the kernel's low tables and its
/// own, those below the cutoff.
pub fn identity_page_table_frames(
    m: &TableMemory,
    kernel_root: u64,
    address_space: &ProcessAddressSpace,
) -> (r: Result<Vec<u64>, &'static str>)
    ensures
        ({
            let (kernel, ok) = tables_collected(
                m,
                frame_added(seq![], kernel_root),
                kernel_root,
                0,
                0,
            );
            let all = frames_added(kernel, address_space.page_table_frames@, 0);
            if ok {
                r is Ok && r->Ok_0@ == low_frames(all, 0)
            } else {
                r == Err::<Vec<u64>, &'static str>("invalid kernel page-table child")
            }
        }),
{
    let mut frames: Vec<u64> = Vec::new();
    match collect_kernel_low_page_table_frames(m, kernel_root, &mut frames) {
        Ok(()) => {},
        Err(e) => return Err(e),
    }
    let ghost kernel = frames@;
    let ghost own = address_space.page_table_frames@;
    let mut i: usize = 0;
    while i < address_space.page_table_frames.len()
        invariant
            0 <= i <= own.len(),
            own == address_space.page_table_frames@,
            frames@.len() <= LOW_FRAME_CAPACITY,
            frames_added(kernel, own, 0) == frames_added(frames@, own, i as int),
        decreases own.len() - i,
    {
        push_unique_frame(address_space.page_table_frames[i], &mut frames);
        i += 1;
    }
    let ghost all = frames@;
    let mut low: Vec<u64> = Vec::new();
    let mut k: usize = 0;
    assert(low@ + low_frames(all, 0) =~= low_frames(all, 0));
    while k < frames.len()
        invariant
            0 <= k <= all.len(),
            frames@ == all,
            low@ + low_frames(all, k as int) == low_frames(all, 0),
        decreases all.len() - k,
    {
        let ghost before = low@;
        if frames[k] < LOW_IDENTITY_PT_CUTOFF {
            low.push(frames[k]);
            assert(low@ + low_frames(all, k + 1) =~= before + (seq![all[k as int]] + low_frames(
                all,
                k + 1,
            )));
        }
        k += 1;
    }
    assert(low@ + Seq::<u64>::empty() =~= low@);
    Ok(low)
}

/// A page of a carve-out: the carve-out's position and the page's address.
#[derive(Clone, Copy, Debug, PartialEq, Eq, Structural)]
pub struct CarveOutCursor {
    pub range: usize,
    pub virtual_address: u64,
}

/// The first page at or after an address of a carve-out, or of the carve-outs after it.
pub open spec fn carve_out_settled(
    ranges: Seq<VaRange>,
    range: int,
    virtual_address: int,
) -> Option<CarveOutCursor> {
    if 0 <= range < ranges.len() && virtual_address < ranges[range].end {
        Some(
            CarveOutCursor {
                range: range as usize,
                virtual_address: virtual_address as u64,
            },
        )
    } else if 0 <= range && range + 1 < ranges.len() {
        Some(
            CarveOutCursor {
                range: (range + 1) as usize,
                virtual_address: floor_to(ranges[range + 1].start as int, PAGE_SIZE as int) as u64,
            },
        )
    } else {
        None
    }
}

/// The first page of the first carve-out.
pub fn first_carve_out_page(carve_outs: &CarveOutTable) -> (r: Option<CarveOutCursor>)
    requires
        carve_outs.wf(),
    ensures
        r == (if carve_outs.ranges@.len() == 0 {
            None::<CarveOutCursor>
        } else {
            Some(
                CarveOutCursor {
                    range: 0,
                    virtual_address: floor_to(
                        carve_outs.ranges@[0].start as int,
                        PAGE_SIZE as int,
                    ) as u64,
                },
            )
        }),
{
    proof {
        lemma_page_alignments();
    }
    if carve_outs.ranges.len() == 0 {
        None
    } else {
        Some(
            CarveOutCursor {
                range: 0,
                virtual_address: align_down(carve_outs.ranges[0].start, PAGE_SIZE),
            },
        )
    }
}

/// The page after one, in the same carve-out or the next.
pub fn next_carve_out_page(carve_outs: &CarveOutTable, cursor: CarveOutCursor) -> (r: Option<
    CarveOutCursor,
>)
    requires
        carve_outs.wf(),
        cursor.range < carve_outs.ranges@.len(),
    ensures
        r == carve_out_settled(
            carve_outs.ranges@,
            cursor.range as int,
            cursor.virtual_address + PAGE_SIZE,
        ),
{
    proof {
        lemma_page_alignments();
    }
    let next: u64 = match cursor.virtual_address.checked_add(PAGE_SIZE) {
        Some(next) => next,
        None => u64::MAX,
    };
    if next < carve_outs.ranges[cursor.range].end {
        return Some(CarveOutCursor { range: cursor.range, virtual_address: next });
    }
    if cursor.range + 1 < carve_outs.ranges.len() {
        return Some(
            CarveOutCursor {
                range: cursor.range + 1,
                virtual_address: align_down(carve_outs.ranges[cursor.range + 1].start, PAGE_SIZE),
            },
        );
    }
    None
}

/// What to do about one page of a carve-out when an address space is made.
#[derive(Clone, Copy, Debug, PartialEq, Eq)]
pub enum CarveOutPage {
    /// The kernel does not map it, or the process already maps it to the same frame.
    Skip,
    /// Map it to the frame with the flags.
    Install { frame_address: u64, flags: u64 },
    /// The kernel's own flags could not be read.
    Fail(&'static str),
}

/// The flags of a carve-out page in a process: the kernel's, without user access, as a 4 KiB page.
pub open spec fn carve_out_flags(leaf: u64) -> u64 {
    (leaf & !FLAG_USER_ACCESSIBLE) & !FLAG_HUGE_PAGE
}

/// Decides one page of a carve-out. `kernel_frame` is where the kernel maps it, `leaf` its flags
/// there, and `process_frame` where the process maps it already.
pub fn carve_out_page(
    kernel_frame: Option<u64>,
    leaf: Result<u64, &'static str>,
    process_frame: Option<u64>,
) -> (r: CarveOutPage)
    ensures
        r == match kernel_frame {
            None => CarveOutPage::Skip,
            Some(frame_address) => match leaf {
                Err(e) => CarveOutPage::Fail(e),
                Ok(flags) => if process_frame == kernel_frame {
                    CarveOutPage::Skip
                } else {
                    CarveOutPage::Install { frame_address, flags: carve_out_flags(flags) }
                },
            },
        },
{
    match kernel_frame {
        None => CarveOutPage::Skip,
        Some(frame_address) => match leaf {
            Err(e) => CarveOutPage::Fail(e),
            Ok(flags) => match process_frame {
                Some(mapped) => if mapped == frame_address {
                    CarveOutPage::Skip
                } else {
                    CarveOutPage::Install {
                        frame_address,
                        flags: (flags & !FLAG_USER_ACCESSIBLE) & !FLAG_HUGE_PAGE,
                    }
                },
                None => CarveOutPage::Install {
                    frame_address,
                    flags: (flags & !FLAG_USER_ACCESSIBLE) & !FLAG_HUGE_PAGE,
                },
            },
        },
    }
}

/// Takes a page for the root table of a new address space.
pub fn begin_process_address_space(allocator: &mut PageAllocator) -> (r: Result<
    ProcessAddressSpace,
    &'static str,
>)
    requires
        old(allocator).wf(),
    ensures
        final(allocator).wf(),
        final(allocator).regions() == old(allocator).regions(),
        match r {
            Ok(space) => {
                &&& space.wf()
                &&& page_taken(old(allocator), final(allocator), Some(space.root_frame))
                &&& space.page_table_frames@ == seq![space.root_frame]
                &&& space.user_mappings@.len() == 0
            },
            Err(e) => {
                &&& e == "allocator could not provide a page-table root for a process"
                &&& page_taken(old(allocator), final(allocator), None)
            },
        },
{
    match allocator.allocate_page() {
        None => Err("allocator could not provide a page-table root for a process"),
        Some(root_frame) => ProcessAddressSpace::new(root_frame),
    }
}

/// Ends the making of an address space. `cloned` is what giving it the kernel's mappings gave; where
/// that failed, the root goes back to the allocator.
pub fn create_process_address_space(
    address_space: ProcessAddressSpace,
    allocator: &mut PageAllocator,
    cloned: Result<(), &'static str>,
) -> (r: Result<ProcessAddressSpace, &'static str>)
    requires
        old(allocator).wf(),
        old(allocator).allocated(address_space.root_frame),
    ensures
        final(allocator).wf(),
        final(allocator).regions() == old(allocator).regions(),
        match cloned {
            Ok(()) => r == Ok::<ProcessAddressSpace, &'static str>(address_space)
                && *final(allocator) == *old(allocator),
            Err(e) => {
                &&& r == Err::<ProcessAddressSpace, &'static str>(e)
                &&& page_returned(
                    old(allocator),
                    final(allocator),
                    address_space.root_frame,
                    Ok(()),
                )
            },
        },
{
    match cloned {
        Ok(()) => Ok(address_space),
        Err(e) => {
            let _ = allocator.free_page(address_space.root_frame);
            Err(e)
        },
    }
}

/// Whether a user page may be mapped at an address.
pub open spec fn mapping_allowed(carve_outs: Seq<VaRange>, virtual_address: u64) -> Result<
    (),
    &'static str,
> {
    if virtual_address + PAGE_SIZE > u64::MAX {
        Err("user mapping virtual address overflow")
    } else if any_overlap(carve_outs, virtual_address, (virtual_address + PAGE_SIZE) as u64) {
        Err("user mapping overlaps kernel low carve-out")
    } else {
        Ok(())
    }
}

pub fn check_user_mapping(carve_outs: &CarveOutTable, virtual_address: u64) -> (r: Result<
    (),
    &'static str,
>)
    ensures
        r == mapping_allowed(carve_outs.ranges@, virtual_address),
{
    let page_end: u64 = match virtual_address.checked_add(PAGE_SIZE) {
        Some(end) => end,
        None => return Err("user mapping virtual address overflow"),
    };
    if carve_outs.va_overlaps_kernel_low_reserved(virtual_address, page_end) {
        return Err("user mapping overlaps kernel low carve-out");
    }
    Ok(())
}

/// The result of mapping a user page, given what the page tables did.
pub open spec fn page_mapped(
    space: &ProcessAddressSpace,
    carve_outs: Seq<VaRange>,
    virtual_address: u64,
    mapped: bool,
) -> Result<(), &'static str> {
    match mapping_allowed(carve_outs, virtual_address) {
        Err(e) => Err(e),
        Ok(()) => if !mapped {
            Err("failed to map an address-space page")
        } else if space.user_mappings@.len() >= MAX_ADDRESS_SPACE_USER_MAPPINGS {
            Err("process address-space mapping tracking capacity exceeded")
        } else {
            Ok(())
        },
    }
}

/// Ends the mapping of a user page. `mapped` says whether the page tables took the mapping (it counts
/// only where the address is allowed).
pub fn map_process_page(
    address_space: &mut ProcessAddressSpace,
    carve_outs: &CarveOutTable,
    virtual_address: u64,
    frame_address: u64,
    mapped: bool,
) -> (r: Result<(), &'static str>)
    requires
        old(address_space).wf(),
    ensures
        final(address_space).wf(),
        final(address_space).root_frame == old(address_space).root_frame,
        final(address_space).page_table_frames@ == old(address_space).page_table_frames@,
        r == page_mapped(old(address_space), carve_outs.ranges@, virtual_address, mapped),
        final(address_space).user_mappings@ == (if r is Ok {
            old(address_space).user_mappings@.push(
                OwnedUserMapping { virtual_address, frame_address },
            )
        } else {
            old(address_space).user_mappings@
        }),
{
    match check_user_mapping(carve_outs, virtual_address) {
        Ok(()) => {},
        Err(e) => return Err(e),
    }
    if !mapped {
        return Err("failed to map an address-space page");
    }
    address_space.record_user_mapping(virtual_address, frame_address)
}

/// Ends the unmapping of the user page mapped last. `unmapped` is the frame that the page tables gave
/// back, if they did.
pub fn unmap_last_user_mapping(
    address_space: &mut ProcessAddressSpace,
    allocator: &mut PageAllocator,
    unmapped: Option<u64>,
) -> (r: Result<(), &'static str>)
    requires
        old(address_space).wf(),
        old(allocator).wf(),
    ensures
        final(address_space).wf(),
        final(allocator).wf(),
        final(allocator).regions() == old(allocator).regions(),
        final(address_space).root_frame == old(address_space).root_frame,
        final(address_space).page_table_frames@ == old(address_space).page_table_frames@,
        r == unmap_result(
            old(address_space).user_mappings@,
            old(allocator),
            unmapped,
            "no user mapping available to roll back",
            "rollback unmapped an unexpected frame",
        ),
        r is Err ==> final(address_space).user_mappings@ == old(address_space).user_mappings@
            && *final(allocator) == *old(allocator),
        r is Ok ==> {
            let frame = old(address_space).user_mappings@.last().frame_address;
            &&& final(address_space).user_mappings@ == old(address_space).user_mappings@.drop_last()
            &&& final(allocator).free_list@ == old(allocator).free_list@.push(frame)
            &&& final(allocator).available_pages == old(allocator).available_pages + 1
            &&& !final(allocator).allocated(frame)
            &&& forall|other: u64|
                other != frame ==> #[trigger] final(allocator).allocated(other) == old(allocator).allocated(other)
        },
{
    let n: usize = address_space.user_mappings.len();
    if n == 0 {
        return Err("no user mapping available to roll back");
    }
    let mapping = address_space.user_mappings[n - 1];
    let frame: u64 = match unmapped {
        Some(frame) => frame,
        None => return Err("failed to unmap userspace page"),
    };
    if frame != mapping.frame_address {
        return Err("rollback unmapped an unexpected frame");
    }
    match allocator.free_page(mapping.frame_address) {
        Ok(()) => {},
        Err(e) => return Err(e),
    }
    let _ = address_space.user_mappings.pop();
    Ok(())
}

/// The first mapping of a page at or above `from`.
pub open spec fn mapping_from(mappings: Seq<OwnedUserMapping>, virtual_address: u64, from: int) -> Option<
    int,
>
    decreases mappings.len() - from,
{
    if from < 0 || from >= mappings.len() {
        None
    } else if mappings[from].virtual_address == virtual_address {
        Some(from)
    } else {
        mapping_from(mappings, virtual_address, from + 1)
    }
}

fn find_mapping(mappings: &Vec<OwnedUserMapping>, virtual_address: u64) -> (r: Option<usize>)
    ensures
        match r {
            Some(i) => i < mappings@.len() && mapping_from(mappings@, virtual_address, 0) == Some(i as int),
            None => mapping_from(mappings@, virtual_address, 0) is None,
        },
{
    let mut i: usize = 0;
    while i < mappings.len()
        invariant
            0 <= i <= mappings@.len(),
            mapping_from(mappings@, virtual_address, 0) == mapping_from(
                mappings@,
                virtual_address,
                i as int,
            ),
        decreases mappings@.len() - i,
    {
        if mappings[i].virtual_address == virtual_address {
            return Some(i);
        }
        i += 1;
    }
    None
}

/// The result of unmapping the user page at an address and freeing its frame.
pub open spec fn page_unmapped(
    mappings: Seq<OwnedUserMapping>,
    allocator: &PageAllocator,
    virtual_address: u64,
    unmapped: Option<u64>,
) -> Result<(), &'static str> {
    match mapping_from(mappings, virtual_address, 0) {
        None => Err("no user mapping at the address"),
        Some(i) => match unmapped {
            None => Err("failed to unmap userspace page"),
            Some(frame) => if frame != mappings[i].frame_address {
                Err("unmapped an unexpected frame")
            } else {
                allocator.free_result(frame)
            },
        },
    }
}

/// Ends the unmapping of the user page at an address. `unmapped` is the frame that the page tables
/// gave back, if they did.
pub fn unmap_process_page_at(
    address_space: &mut ProcessAddressSpace,
    allocator: &mut PageAllocator,
    virtual_address: u64,
    unmapped: Option<u64>,
) -> (r: Result<(), &'static str>)
    requires
        old(address_space).wf(),
        old(allocator).wf(),
    ensures
        final(address_space).wf(),
        final(allocator).wf(),
        final(allocator).regions() == old(allocator).regions(),
        final(address_space).root_frame == old(address_space).root_frame,
        final(address_space).page_table_frames@ == old(address_space).page_table_frames@,
        r == page_unmapped(
            old(address_space).user_mappings@,
            old(allocator),
            virtual_address,
            unmapped,
        ),
        r is Err ==> final(address_space).user_mappings@ == old(address_space).user_mappings@
            && *final(allocator) == *old(allocator),
        r is Ok ==> {
            let i = mapping_from(old(address_space).user_mappings@, virtual_address, 0)->0;
            let frame = old(address_space).user_mappings@[i].frame_address;
            &&& final(address_space).user_mappings@ == old(address_space).user_mappings@.remove(i)
            &&& final(allocator).free_list@ == old(allocator).free_list@.push(frame)
            &&& final(allocator).available_pages == old(allocator).available_pages + 1
            &&& !final(allocator).allocated(frame)
            &&& forall|other: u64|
                other != frame ==> #[trigger] final(allocator).allocated(other) == old(allocator).allocated(other)
        },
{
    let i: usize = match find_mapping(&address_space.user_mappings, virtual_address) {
        Some(i) => i,
        None => return Err("no user mapping at the address"),
    };
    let frame: u64 = match unmapped {
        Some(frame) => frame,
        None => return Err("failed to unmap userspace page"),
    };
    if frame != address_space.user_mappings[i].frame_address {
        return Err("unmapped an unexpected frame");
    }
    match allocator.free_page(frame) {
        Ok(()) => {},
        Err(e) => return Err(e),
    }
    let _ = address_space.user_mappings.remove(i);
    Ok(())
}

/// The result of unmapping the last of `mappings` and freeing its frame.
pub open spec fn unmap_result(
    mappings: Seq<OwnedUserMapping>,
    allocator: &PageAllocator,
    unmapped: Option<u64>,
    none: &'static str,
    unexpected: &'static str,
) -> Result<(), &'static str> {
    if mappings.len() == 0 {
        Err(none)
    } else {
        match unmapped {
            None => Err("failed to unmap userspace page"),
            Some(frame) => if frame != mappings.last().frame_address {
                Err(unexpected)
            } else {
                allocator.free_result(frame)
            },
        }
    }
}

/// The frames that an address space owns, in the order of their release: the user pages, the one
/// mapped last first, then the page tables, the root last.
pub open spec fn release_order(frames: Seq<u64>, mappings: Seq<OwnedUserMapping>) -> Seq<u64> {
    Seq::new(
        mappings.len() + frames.len(),
        |k: int|
            if k < mappings.len() {
                mappings[mappings.len() - 1 - k].frame_address
            } else {
                frames[frames.len() - 1 - (k - mappings.len())]
            },
    )
}

/// The result of one step of a teardown: for a user page the page tables must give its frame back,
/// and the allocator must take the frame.
pub open spec fn release_step(
    frames: Seq<u64>,
    mappings: Seq<OwnedUserMapping>,
    unmapped: Seq<Option<u64>>,
    allocator: &PageAllocator,
    k: int,
) -> Result<(), &'static str> {
    let frame = release_order(frames, mappings)[k];
    if k < mappings.len() && unmapped[k] is None {
        Err("failed to unmap userspace page")
    } else if k < mappings.len() && unmapped[k] != Some(frame) {
        Err("address-space teardown unmapped an unexpected frame")
    } else {
        allocator.free_result(frame)
    }
}

/// A teardown that released the first `k` frames and ended with `result`.
pub open spec fn torn_down(
    frames: Seq<u64>,
    mappings: Seq<OwnedUserMapping>,
    unmapped: Seq<Option<u64>>,
    before: &PageAllocator,
    after: &PageAllocator,
    result: Result<(), &'static str>,
    k: int,
) -> bool {
    let order = release_order(frames, mappings);
    &&& 0 <= k <= order.len()
    &&& after.regions() == before.regions()
    &&& after.current_region == before.current_region
    &&& after.next_page == before.next_page
    &&& after.free_list@ == before.free_list@ + order.take(k)
    &&& after.available_pages == before.available_pages + k
    &&& forall|j: int|
        0 <= j < k && j < mappings.len() ==> #[trigger] unmapped[j] == Some(order[j])
    &&& if k == order.len() {
        result == Ok::<(), &'static str>(())
    } else {
        result is Err && result == release_step(frames, mappings, unmapped, after, k)
    }
}

/// Tears an address space down: its user pages in the order opposite to that of their mapping, then
/// its page tables. `unmapped` are the frames that the page tables gave back for the user pages, in
/// that order, `None` for one that could not be unmapped. The first step that fails ends it.
pub fn destroy_process_address_space(
    address_space: &ProcessAddressSpace,
    allocator: &mut PageAllocator,
    unmapped: &[Option<u64>],
) -> (r: Result<(), &'static str>)
    requires
        old(allocator).wf(),
        address_space.wf(),
        unmapped@.len() >= address_space.user_mappings@.len(),
    ensures
        final(allocator).wf(),
        exists|k: int| #[trigger]
            torn_down(
                address_space.page_table_frames@,
                address_space.user_mappings@,
                unmapped@,
                old(allocator),
                final(allocator),
                r,
                k,
            ),
{
    let ghost frames = address_space.page_table_frames@;
    let ghost mappings = address_space.user_mappings@;
    let ghost order = release_order(frames, mappings);
    let pages: usize = address_space.user_mappings.len();
    let tables: usize = address_space.page_table_frames.len();
    let mut k: usize = 0;
    assert(allocator.free_list@ =~= old(allocator).free_list@ + order.take(0));
    while k < pages + tables
        invariant
            0 <= k <= pages + tables,
            pages + tables == order.len(),
            pages + tables <= 100,
            pages == mappings.len(),
            tables == frames.len(),
            frames == address_space.page_table_frames@,
            mappings == address_space.user_mappings@,
            order == release_order(frames, mappings),
            unmapped@.len() >= pages,
            allocator.wf(),
            allocator.regions() == old(allocator).regions(),
            allocator.current_region == old(allocator).current_region,
            allocator.next_page == old(allocator).next_page,
            allocator.free_list@ == old(allocator).free_list@ + order.take(k as int),
            allocator.available_pages == old(allocator).available_pages + k,
            forall|j: int|
                0 <= j < k && j < mappings.len() ==> #[trigger] unmapped@[j] == Some(order[j]),
        decreases pages + tables - k,
    {
        let frame: u64 = if k < pages {
            address_space.user_mappings[pages - 1 - k].frame_address
        } else {
            address_space.page_table_frames[tables - 1 - (k - pages)]
        };
        assert(frame == order[k as int]);
        if k < pages {
            match unmapped[k] {
                Some(given) => {
                    if given != frame {
                        let r = Err("address-space teardown unmapped an unexpected frame");
                        assert(torn_down(
                            frames,
                            mappings,
                            unmapped@,
                            old(allocator),
                            allocator,
                            r,
                            k as int,
                        ));
                        return r;
                    }
                },
                None => {
                    let r = Err("failed to unmap userspace page");
                    assert(torn_down(
                        frames,
                        mappings,
                        unmapped@,
                        old(allocator),
                        allocator,
                        r,
                        k as int,
                    ));
                    return r;
                },
            }
        }
        match allocator.free_page(frame) {
            Ok(()) => {},
            Err(e) => {
                let r = Err(e);
                assert(torn_down(
                    frames,
                    mappings,
                    unmapped@,
                    old(allocator),
                    allocator,
                    r,
                    k as int,
                ));
                return r;
            },
        }
        assert(order.take(k + 1) =~= order.take(k as int).push(frame));
        assert(allocator.free_list@ =~= old(allocator).free_list@ + order.take(k + 1));
        k += 1;
    }
    let r = Ok(());
    assert(torn_down(frames, mappings, unmapped@, old(allocator), allocator, r, k as int));
    r
}

/// Whether every frame that an address space owns is an allocated page, and none is owned twice.
pub open spec fn owns_allocated(
    frames: Seq<u64>,
    mappings: Seq<OwnedUserMapping>,
    allocator: &PageAllocator,
) -> bool {
    let order = release_order(frames, mappings);
    &&& order.no_duplicates()
    &&& forall|k: int| 0 <= k < order.len() ==> allocator.allocated(#[trigger] order[k])
}

/// The teardown of an address space whose frames are allocated pages, and whose page tables give the
/// user pages back, succeeds; afterwards exactly its frames are free again.
pub proof fn law_teardown_frees_everything(
    frames: Seq<u64>,
    mappings: Seq<OwnedUserMapping>,
    unmapped: Seq<Option<u64>>,
    before: &PageAllocator,
    after: &PageAllocator,
    result: Result<(), &'static str>,
    k: int,
)
    requires
        before.wf(),
        owns_allocated(frames, mappings, before),
        forall|j: int|
            0 <= j < mappings.len() ==> #[trigger] unmapped[j] == Some(
                release_order(frames, mappings)[j],
            ),
        torn_down(frames, mappings, unmapped, before, after, result, k),
    ensures
        result is Ok,
        after.available_pages == before.available_pages + frames.len() + mappings.len(),
        forall|frame: u64| #[trigger]
            after.allocated(frame) == (before.allocated(frame) && !release_order(
                frames,
                mappings,
            ).contains(frame)),
{
    let order = release_order(frames, mappings);
    if k < order.len() {
        let frame = order[k];
        assert(before.allocated(frame));
        let i = choose|i: int|
            0 <= i < before.regions().len() && (#[trigger] before.regions()[i]).start <= frame
                < before.regions()[i].end && (i < before.current_region || (i
                == before.current_region && frame < before.next_page));
        assert(after.regions()[i].start <= frame < after.regions()[i].end);
        assert(after.passed(frame));
        assert(in_regions(after.regions(), frame));
        if after.free_list@.contains(frame) {
            let j = after.free_list@.index_of(frame);
            if j < before.free_list@.len() {
                assert(before.free_list@[j] == frame);
            } else {
                assert(order.take(k)[j - before.free_list@.len()] == frame);
                assert(order[j - before.free_list@.len()] == order[k]);
            }
        }
        assert(release_step(frames, mappings, unmapped, after, k) is Ok);
    }
    assert(order.take(k) =~= order);
    assert forall|frame: u64| #[trigger] after.allocated(frame) == (before.allocated(frame)
        && !order.contains(frame)) by {
        assert(after.passed(frame) == before.passed(frame)) by {
            assert(after.regions() == before.regions());
        }
        let joined = before.free_list@ + order;
        if before.free_list@.contains(frame) {
            let j = before.free_list@.index_of(frame);
            assert(joined[j] == frame);
        }
        if order.contains(frame) {
            let j = order.index_of(frame);
            assert(joined[before.free_list@.len() + j] == frame);
        }
        if joined.contains(frame) {
            let j = joined.index_of(frame);
            if j < before.free_list@.len() {
                assert(before.free_list@[j] == frame);
            } else {
                assert(order[j - before.free_list@.len()] == frame);
            }
        }
    }
}

/// Whether no page of the mappings holds an address of a carve-out.
pub open spec fn clear_of_carve_outs(mappings: Seq<OwnedUserMapping>, carve_outs: Seq<VaRange>) -> bool {
    forall|k: int, address: u64|
        0 <= k < mappings.len() && #[trigger] mappings[k].virtual_address <= address
            < mappings[k].virtual_address + PAGE_SIZE ==> !(#[trigger] in_carve_out(
            carve_outs,
            address,
        ))
}

/// A process never has a user page over a carve-out of the kernel: mapping a page keeps its pages clear
/// of them, and so does unmapping one.
pub proof fn law_user_pages_avoid_carve_outs(
    space: &ProcessAddressSpace,
    carve_outs: Seq<VaRange>,
    virtual_address: u64,
    frame_address: u64,
    i: int,
)
    requires
        clear_of_carve_outs(space.user_mappings@, carve_outs),
    ensures
        page_mapped(space, carve_outs, virtual_address, true) is Ok ==> clear_of_carve_outs(
            space.user_mappings@.push(OwnedUserMapping { virtual_address, frame_address }),
            carve_outs,
        ),
        0 <= i < space.user_mappings@.len() ==> clear_of_carve_outs(
            space.user_mappings@.remove(i),
            carve_outs,
        ),
{
    let mappings = space.user_mappings@;
    let more = mappings.push(OwnedUserMapping { virtual_address, frame_address });
    if page_mapped(space, carve_outs, virtual_address, true) is Ok {
        assert forall|k: int, address: u64|
            0 <= k < more.len() && #[trigger] more[k].virtual_address <= address
                < more[k].virtual_address + PAGE_SIZE implies !(#[trigger] in_carve_out(
            carve_outs,
            address,
        )) by {
            if k < mappings.len() {
                assert(mappings[k].virtual_address <= address < mappings[k].virtual_address
                    + PAGE_SIZE);
            } else if in_carve_out(carve_outs, address) {
                let r = choose|r: int|
                    0 <= r < carve_outs.len() && (#[trigger] carve_outs[r]).start <= address
                        < carve_outs[r].end;
                assert(ranges_overlap(
                    carve_outs[r],
                    virtual_address,
                    (virtual_address + PAGE_SIZE) as u64,
                ));
            }
        }
    }
    if 0 <= i < mappings.len() {
        let fewer = mappings.remove(i);
        assert forall|k: int, address: u64|
            0 <= k < fewer.len() && #[trigger] fewer[k].virtual_address <= address
                < fewer[k].virtual_address + PAGE_SIZE implies !(#[trigger] in_carve_out(
            carve_outs,
            address,
        )) by {
            let j = if k < i {
                k
            } else {
                k + 1
            };
            assert(mappings[j].virtual_address <= address < mappings[j].virtual_address + PAGE_SIZE);
        }
    }
}

} // verus!
