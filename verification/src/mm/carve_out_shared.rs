//! Page tables for the kernel's low carve-outs, built once and shared by every process root.

use super::address_space::carve_out_flags;
use super::frame_allocator::{
    lemma_no_page_taken, lemma_page_taken_next, page_taken, pages_taken, PageAllocator,
};
use super::layout::{CarveOutTable, VaRange};
use super::paging::{
    entry_in, leaf_address, leaf_page_flags_for_address_in_root,
    leaf_phys_addr_for_address_in_root, lemma_walk_agrees, on_walk, walked, TableMemory,
};
use super::x86::{flags_contain, has_flags, FLAG_HUGE_PAGE, FLAG_PRESENT, FLAG_USER_ACCESSIBLE};
use super::{
    align_down, floor_to, lemma_page_alignments, PAGE_SIZE, TWO_MIB, USER_CANONICAL_TOP_EXCLUSIVE,
};
use vstd::prelude::*;

verus! {

pub const MAX_SHARED_TWO_MIB_TABLES: usize = 24;

/// The level-1 table of a 2 MiB window.
#[derive(Clone, Copy, Debug, PartialEq, Eq, Structural)]
pub struct SharedTwoMiBTable {
    pub region_base: u64,
    pub frame: u64,
}

#[derive(Debug)]
pub struct SharedTableRegistry {
    pub entries: Vec<SharedTwoMiBTable>,
}

/// The tables after one more: a window that already has a table keeps it.
pub open spec fn shared_pushed(
    entries: Seq<SharedTwoMiBTable>,
    entry: SharedTwoMiBTable,
) -> Option<Seq<SharedTwoMiBTable>> {
    if entries.len() >= MAX_SHARED_TWO_MIB_TABLES {
        None
    } else if exists|i: int|
        0 <= i < entries.len() && (#[trigger] entries[i]).region_base == entry.region_base {
        Some(entries)
    } else {
        Some(entries.push(entry))
    }
}

impl SharedTableRegistry {
    pub open spec fn wf(&self) -> bool {
        self.entries@.len() <= MAX_SHARED_TWO_MIB_TABLES
    }

    pub fn new() -> (r: SharedTableRegistry)
        ensures
            r.wf(),
            r.entries@.len() == 0,
    {
        SharedTableRegistry { entries: Vec::new() }
    }

    /// Whether a frame holds a shared table.
    pub fn shared_carve_out_page_table_frame(&self, frame: u64) -> (r: bool)
        ensures
            r == exists|i: int|
                0 <= i < self.entries@.len() && (#[trigger] self.entries@[i]).frame == frame,
    {
        let mut i: usize = 0;
        while i < self.entries.len()
            invariant
                0 <= i <= self.entries@.len(),
                forall|j: int| 0 <= j < i ==> (#[trigger] self.entries@[j]).frame != frame,
            decreases self.entries@.len() - i,
        {
            if self.entries[i].frame == frame {
                return true;
            }
            i += 1;
        }
        false
    }

    pub fn push_shared(&mut self, region_base: u64, frame: u64) -> (r: Result<(), &'static str>)
        requires
            old(self).wf(),
        ensures
            final(self).wf(),
            match shared_pushed(old(self).entries@, (SharedTwoMiBTable { region_base, frame })) {
                Some(entries) => r is Ok && final(self).entries@ == entries,
                None => r == Err::<(), &'static str>(
                    "shared carve-out page-table capacity exceeded",
                ) && final(self).entries@ == old(self).entries@,
            },
    {
        if self.entries.len() >= MAX_SHARED_TWO_MIB_TABLES {
            return Err("shared carve-out page-table capacity exceeded");
        }
        let mut i: usize = 0;
        while i < self.entries.len()
            invariant
                0 <= i <= self.entries@.len(),
                self.entries@ == old(self).entries@,
                self.entries@.len() < MAX_SHARED_TWO_MIB_TABLES,
                forall|j: int|
                    0 <= j < i ==> (#[trigger] self.entries@[j]).region_base != region_base,
            decreases self.entries@.len() - i,
        {
            if self.entries[i].region_base == region_base {
                return Ok(());
            }
            i += 1;
        }
        self.entries.push(SharedTwoMiBTable { region_base, frame });
        Ok(())
    }

    /// The shared tables, in the order in which they were built.
    pub fn shared_two_mib_tables(&self) -> (r: &Vec<SharedTwoMiBTable>)
        ensures
            r@ == self.entries@,
    {
        &self.entries
    }
}

/// The entry of a shared table for a page: the kernel's mapping of it without user access, unused
/// where the kernel maps nothing.
pub open spec fn shared_entry(m: &TableMemory, kernel_root: u64, page: u64) -> u64 {
    match (leaf_address(m, kernel_root, page), walked(m, kernel_root, page)) {
        (Ok(address), Ok(walk)) => if has_flags(walk.leaf, FLAG_PRESENT) {
            address | carve_out_flags(walk.leaf)
        } else {
            0
        },
        _ => 0,
    }
}

/// The page at a position of a window.
pub open spec fn page_at(two_mib_base: u64, index: int) -> u64 {
    (two_mib_base + index * PAGE_SIZE) as u64
}

/// Whether every physical address that the kernel maps in a window fits in 52 bits.
pub open spec fn window_addressable(m: &TableMemory, kernel_root: u64, two_mib_base: u64) -> bool {
    forall|index: int|
        0 <= index < 512 ==> (match #[trigger] leaf_address(
            m,
            kernel_root,
            page_at(two_mib_base, index),
        ) {
            Ok(address) => address < 0x10_0000_0000_0000,
            Err(_) => true,
        })
}

/// Fills the shared table of a window.
pub fn populate_shared_table(
    m: &mut TableMemory,
    kernel_root: u64,
    frame: u64,
    two_mib_base: u64,
)
    requires
        two_mib_base + TWO_MIB <= USER_CANONICAL_TOP_EXCLUSIVE,
        window_addressable(old(m), kernel_root, two_mib_base),
    ensures
        forall|f: u64, index: int|
            0 <= index < 512 ==> #[trigger] entry_in(final(m), f, index) == (if f == frame {
                shared_entry(old(m), kernel_root, page_at(two_mib_base, index))
            } else {
                entry_in(old(m), f, index)
            }),
{
    let mut table: [u64; 512] = [0; 512];
    let mut index: usize = 0;
    while index < 512
        invariant
            0 <= index <= 512,
            two_mib_base + TWO_MIB <= USER_CANONICAL_TOP_EXCLUSIVE,
            *m == *old(m),
            forall|i: int|
                0 <= i < index ==> #[trigger] table@[i] == shared_entry(
                    m,
                    kernel_root,
                    page_at(two_mib_base, i),
                ),
            forall|i: int| index <= i < 512 ==> #[trigger] table@[i] == 0,
        decreases 512 - index,
    {
        let page: u64 = two_mib_base + (index as u64) * PAGE_SIZE;
        let address: Result<u64, &'static str> = leaf_phys_addr_for_address_in_root(
            m,
            kernel_root,
            page,
        );
        let leaf: Result<u64, &'static str> = leaf_page_flags_for_address_in_root(
            m,
            kernel_root,
            page,
        );
        match address {
            Ok(address) => match leaf {
                Ok(flags) => {
                    if flags_contain(flags, FLAG_PRESENT) {
                        table[index] = address | ((flags & !FLAG_USER_ACCESSIBLE)
                            & !FLAG_HUGE_PAGE);
                    }
                },
                Err(_) => {},
            },
            Err(_) => {},
        }
        index += 1;
    }
    m.set_table(frame, table);
}

/// The windows after one more: each once, and no more than fit.
pub open spec fn window_added(windows: Seq<u64>, base: u64) -> Seq<u64> {
    if windows.len() < MAX_SHARED_TWO_MIB_TABLES && !windows.contains(base) {
        windows.push(base)
    } else {
        windows
    }
}

/// The windows after those from `base` on that start below `end`.
pub open spec fn range_windows(windows: Seq<u64>, base: int, end: int) -> Seq<u64>
    decreases (if base < end { end - base } else { 0 }),
{
    if base >= end {
        windows
    } else {
        range_windows(window_added(windows, base as u64), base + TWO_MIB, end)
    }
}

/// The windows of the carve-outs from `from` on.
pub open spec fn all_windows(windows: Seq<u64>, ranges: Seq<VaRange>, from: int) -> Seq<u64>
    decreases ranges.len() - from,
{
    if from < 0 || from >= ranges.len() {
        windows
    } else {
        all_windows(
            range_windows(
                windows,
                floor_to(ranges[from].start as int, TWO_MIB as int),
                ranges[from].end as int,
            ),
            ranges,
            from + 1,
        )
    }
}

/// The 2 MiB windows that the carve-outs touch, each once, up to the capacity.
pub fn collect_two_mib_windows(carve_outs: &CarveOutTable) -> (r: Vec<u64>)
    ensures
        r@ == all_windows(seq![], carve_outs.ranges@, 0),
        r@.len() <= MAX_SHARED_TWO_MIB_TABLES,
        r@.no_duplicates(),
        forall|i: int|
            #![trigger r@[i]]
            0 <= i < r@.len() ==> r@[i] % TWO_MIB == 0 && exists|j: int|
                0 <= j < carve_outs.ranges@.len() && r@[i] < (#[trigger] carve_outs.ranges@[j]).end,
{
    let mut out: Vec<u64> = Vec::new();
    let ghost ranges = carve_outs.ranges@;
    let mut i: usize = 0;
    while i < carve_outs.ranges.len()
        invariant
            0 <= i <= ranges.len(),
            ranges == carve_outs.ranges@,
            out@.len() <= MAX_SHARED_TWO_MIB_TABLES,
            out@.no_duplicates(),
            all_windows(seq![], ranges, 0) == all_windows(out@, ranges, i as int),
            forall|k: int|
                #![trigger out@[k]]
                0 <= k < out@.len() ==> out@[k] % TWO_MIB == 0 && exists|j: int|
                    0 <= j < ranges.len() && out@[k] < (#[trigger] ranges[j]).end,
        decreases ranges.len() - i,
    {
        proof {
            lemma_page_alignments();
        }
        let range = carve_outs.ranges[i];
        let ghost before = out@;
        let first: u64 = align_down(range.start, TWO_MIB);
        let mut base: u64 = first;
        let mut past: bool = base >= range.end;
        while !past
            invariant
                0 <= i < ranges.len(),
                range == ranges[i as int],
                out@.len() <= MAX_SHARED_TWO_MIB_TABLES,
                out@.no_duplicates(),
                base % TWO_MIB == 0,
                !past ==> base < range.end,
                range_windows(before, first as int, range.end as int) == (if past {
                    out@
                } else {
                    range_windows(out@, base as int, range.end as int)
                }),
                forall|k: int|
                    #![trigger out@[k]]
                    0 <= k < out@.len() ==> out@[k] % TWO_MIB == 0 && exists|j: int|
                        0 <= j < ranges.len() && out@[k] < (#[trigger] ranges[j]).end,
            decreases range.end - base, (if past { 0int } else { 1int }),
        {
            let mut present: bool = false;
            let mut k: usize = 0;
            while k < out.len()
                invariant
                    0 <= k <= out@.len(),
                    present == exists|j: int| 0 <= j < k && out@[j] == base,
                decreases out@.len() - k,
            {
                if out[k] == base {
                    present = true;
                }
                k += 1;
            }
            assert(present == out@.contains(base));
            assert(base < ranges[i as int].end);
            if out.len() < MAX_SHARED_TWO_MIB_TABLES && !present {
                out.push(base);
            }
            assert(base + TWO_MIB >= range.end ==> range_windows(
                out@,
                base + TWO_MIB,
                range.end as int,
            ) == out@);
            match base.checked_add(TWO_MIB) {
                Some(next) => {
                    if next < range.end {
                        base = next;
                    } else {
                        past = true;
                    }
                },
                None => {
                    past = true;
                },
            }
        }
        i += 1;
    }
    out
}

/// Whether the walks in a window read no table that lies in a free page.
pub open spec fn window_settled(
    m: &TableMemory,
    kernel_root: u64,
    two_mib_base: u64,
    allocator: &PageAllocator,
) -> bool {
    forall|index: int, frame: u64|
        0 <= index < 512 && #[trigger] on_walk(
            m,
            kernel_root,
            page_at(two_mib_base, index),
            frame,
        ) ==> !allocator.free(frame)
}

/// Whether the carve-outs lie in the lower half, the kernel maps them to addresses of 52 bits, and
/// its page tables for them lie in no free page.
pub open spec fn carve_outs_settled(
    m: &TableMemory,
    kernel_root: u64,
    ranges: Seq<VaRange>,
    allocator: &PageAllocator,
) -> bool {
    &&& forall|i: int|
        0 <= i < ranges.len() ==> (#[trigger] ranges[i]).end <= USER_CANONICAL_TOP_EXCLUSIVE
    &&& forall|base: u64|
        all_windows(seq![], ranges, 0).contains(base) ==> #[trigger] window_addressable(
            m,
            kernel_root,
            base,
        ) && window_settled(m, kernel_root, base, allocator)
}

/// The frames of shared tables.
pub open spec fn frames_of(entries: Seq<SharedTwoMiBTable>) -> Seq<u64> {
    Seq::new(entries.len(), |k: int| entries[k].frame)
}

/// The state after the tables of the first `n` windows were built.
pub open spec fn tables_built(
    windows: Seq<u64>,
    kernel_root: u64,
    before: &TableMemory,
    after: &TableMemory,
    free_before: &PageAllocator,
    free_after: &PageAllocator,
    entries: Seq<SharedTwoMiBTable>,
    n: int,
) -> bool {
    &&& 0 <= n <= windows.len()
    &&& entries.len() == n
    &&& forall|k: int|
        0 <= k < n ==> (#[trigger] entries[k]).region_base == windows[k] && free_before.free(
            entries[k].frame,
        ) && free_after.allocated(entries[k].frame)
    &&& forall|j: int, k: int|
        0 <= j < k < n ==> (#[trigger] entries[j]).frame != (#[trigger] entries[k]).frame
    &&& forall|frame: u64|
        free_before.allocated(frame) ==> #[trigger] free_after.allocated(frame)
    &&& forall|k: int, index: int|
        #![trigger entry_in(after, entries[k].frame, index)]
        0 <= k < n && 0 <= index < 512 ==> entry_in(after, entries[k].frame, index)
            == shared_entry(before, kernel_root, page_at(windows[k], index))
    &&& forall|frame: u64, index: int|
        0 <= index < 512 && !free_before.free(frame) ==> #[trigger] entry_in(after, frame, index)
            == entry_in(before, frame, index)
}

/// Builds the shared tables of all windows anew.
pub fn install_shared_carve_out_page_tables(
    registry: &mut SharedTableRegistry,
    m: &mut TableMemory,
    kernel_root: u64,
    carve_outs: &CarveOutTable,
    allocator: &mut PageAllocator,
) -> (r: Result<(), &'static str>)
    requires
        old(allocator).wf(),
        carve_outs_settled(old(m), kernel_root, carve_outs.ranges@, old(allocator)),
    ensures
        final(registry).wf(),
        final(allocator).wf(),
        final(allocator).regions() == old(allocator).regions(),
        tables_built(
            all_windows(seq![], carve_outs.ranges@, 0),
            kernel_root,
            old(m),
            final(m),
            old(allocator),
            final(allocator),
            final(registry).entries@,
            final(registry).entries@.len() as int,
        ),
        final(allocator).available_pages == old(allocator).available_pages - final(registry).entries@.len(),
        match r {
            Ok(()) => final(registry).entries@.len() == all_windows(
                seq![],
                carve_outs.ranges@,
                0,
            ).len() && pages_taken(
                *old(allocator),
                *final(allocator),
                frames_of(final(registry).entries@),
            ),
            Err(e) => e == "shared carve-out page-table allocation failed" && final(allocator).available_pages == 0 && final(registry).entries@.len() < all_windows(
                seq![],
                carve_outs.ranges@,
                0,
            ).len() && exists|held: PageAllocator| #[trigger]
                pages_taken(*old(allocator), held, frames_of(final(registry).entries@)) && page_taken(
                    &held,
                    final(allocator),
                    None,
                ),
        },
{
    registry.entries = Vec::new();
    let windows = collect_two_mib_windows(carve_outs);
    let mut i: usize = 0;
    proof {
        lemma_no_page_taken(*allocator);
        assert(frames_of(registry.entries@) =~= seq![]);
    }
    while i < windows.len()
        invariant
            0 <= i <= windows@.len(),
            windows@ == all_windows(seq![], carve_outs.ranges@, 0),
            windows@.len() <= MAX_SHARED_TWO_MIB_TABLES,
            windows@.no_duplicates(),
            forall|k: int|
                #![trigger windows@[k]]
                0 <= k < windows@.len() ==> windows@[k] % TWO_MIB == 0 && exists|j: int|
                    0 <= j < carve_outs.ranges@.len() && windows@[k] < (
                    #[trigger] carve_outs.ranges@[j]).end,
            carve_outs_settled(old(m), kernel_root, carve_outs.ranges@, old(allocator)),
            allocator.wf(),
            allocator.regions() == old(allocator).regions(),
            allocator.available_pages == old(allocator).available_pages - i,
            pages_taken(*old(allocator), *allocator, frames_of(registry.entries@)),
            tables_built(
                windows@,
                kernel_root,
                old(m),
                m,
                old(allocator),
                allocator,
                registry.entries@,
                i as int,
            ),
        decreases windows@.len() - i,
    {
        let base: u64 = windows[i];
        let ghost held = *allocator;
        let frame: u64 = match allocator.allocate_page() {
            Some(frame) => frame,
            None => {
                return Err("shared carve-out page-table allocation failed");
            },
        };
        let ghost mid = *m;
        let ghost entries = registry.entries@;
        proof {
            assert(windows@.contains(base));
            assert(window_addressable(old(m), kernel_root, base));
            assert(!old(allocator).allocated(frame));
            assert(old(allocator).free(frame));
            assert forall|index: int| 0 <= index < 512 implies #[trigger] leaf_address(
                &mid,
                kernel_root,
                page_at(base, index),
            ) == leaf_address(old(m), kernel_root, page_at(base, index)) && walked(
                &mid,
                kernel_root,
                page_at(base, index),
            ) == walked(old(m), kernel_root, page_at(base, index)) by {
                let page = page_at(base, index);
                assert forall|f: u64, at: int|
                    on_walk(old(m), kernel_root, page, f) && 0 <= at < 512 implies #[trigger] entry_in(
                    &mid,
                    f,
                    at,
                ) == entry_in(old(m), f, at) by {
                    assert(!old(allocator).free(f));
                }
                lemma_walk_agrees(old(m), &mid, kernel_root, page);
            }
        }
        populate_shared_table(m, kernel_root, frame, base);
        match registry.push_shared(base, frame) {
            Ok(()) => {},
            Err(e) => {
                assert(false);
                return Err(e);
            },
        }
        proof {
            assert(registry.entries@ =~= entries.push(SharedTwoMiBTable { region_base: base, frame })) by {
                assert forall|k: int| 0 <= k < entries.len() implies (
                #[trigger] entries[k]).region_base != base by {
                    assert(windows@[k] != windows@[i as int]);
                }
            }
            assert(frames_of(registry.entries@) =~= frames_of(entries).push(frame));
            lemma_page_taken_next(*old(allocator), held, *allocator, frames_of(entries), frame);
            assert forall|k: int| 0 <= k < i implies (#[trigger] entries[k]).frame != frame by {
                assert(held.allocated(entries[k].frame));
            }
            assert forall|k: int, index: int|
                #![trigger entry_in(m, registry.entries@[k].frame, index)]
                0 <= k < i + 1 && 0 <= index < 512 implies entry_in(
                m,
                registry.entries@[k].frame,
                index,
            ) == shared_entry(old(m), kernel_root, page_at(windows@[k], index)) by {
                if k < i {
                    assert(registry.entries@[k] == entries[k]);
                    assert(entry_in(&mid, entries[k].frame, index) == shared_entry(
                        old(m),
                        kernel_root,
                        page_at(windows@[k], index),
                    ));
                } else {
                    assert(leaf_address(&mid, kernel_root, page_at(base, index)) == leaf_address(
                        old(m),
                        kernel_root,
                        page_at(base, index),
                    ));
                }
            }
            assert forall|k: int| 0 <= k < i + 1 implies (
            #[trigger] registry.entries@[k]).region_base == windows@[k] && old(allocator).free(
                registry.entries@[k].frame,
            ) && allocator.allocated(registry.entries@[k].frame) by {
                if k < i {
                    assert(registry.entries@[k] == entries[k]);
                    assert(held.allocated(entries[k].frame));
                }
            }
        }
        i += 1;
    }
    Ok(())
}

/// No entry of a shared table gives user access.
pub proof fn law_shared_entries_are_supervisor_only(m: &TableMemory, kernel_root: u64, page: u64)
    requires
        leaf_address(m, kernel_root, page) is Ok ==> leaf_address(m, kernel_root, page)->Ok_0
            % PAGE_SIZE == 0,
    ensures
        !has_flags(shared_entry(m, kernel_root, page), FLAG_USER_ACCESSIBLE),
{
    assert(0u64 & 0x4 != 0x4) by (bit_vector);
    if leaf_address(m, kernel_root, page) is Ok && walked(m, kernel_root, page) is Ok {
        let a: u64 = leaf_address(m, kernel_root, page)->Ok_0;
        let f: u64 = walked(m, kernel_root, page)->Ok_0.leaf;
        assert((a | ((f & !0x4u64) & !0x80u64)) & 0x4 != 0x4) by (bit_vector)
            requires
                a % 4096 == 0,
        ;
    }
}

} // verus!
