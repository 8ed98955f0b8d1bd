//! What an address space owns, and where it may map.

use super::address_space::{
    frame_added, frames_added, low_frames, mapping_allowed, mapping_from, page_mapped,
    page_unmapped, release_order, unmap_result, OwnedUserMapping, ProcessAddressSpace,
};
use super::carve_out_shared::{range_windows, window_added, MAX_SHARED_TWO_MIB_TABLES};
use super::frame_allocator::{usable_parts, PageAllocator};
use super::layout::{carve_outs_from, in_carve_out, VaRange};
use super::region::{MemoryRegion, MemoryRegionKind, ReservedRange};
use super::TWO_MIB;
use vstd::prelude::*;

verus! {

/// A user page may be mapped exactly where no address of it is the kernel's.
pub proof fn law_pages_are_mapped_beside_the_kernel(carve_outs: Seq<VaRange>, page: u64, address: u64)
    requires
        forall|i: int|
            0 <= i < carve_outs.len() ==> (#[trigger] carve_outs[i]).start < carve_outs[i].end,
    ensures
        mapping_allowed(carve_outs, page) is Ok && page <= address < page + 4096 ==> !in_carve_out(
            carve_outs,
            address,
        ),
        mapping_allowed(carve_outs, page) is Err && page + 4096 <= u64::MAX ==> exists|a: u64|
            page <= a < page + 4096 && #[trigger] in_carve_out(carve_outs, a),
        page + 4096 > u64::MAX ==> mapping_allowed(carve_outs, page) is Err,
{
    if mapping_allowed(carve_outs, page) is Ok && page <= address < page + 4096 {
        if in_carve_out(carve_outs, address) {
            let i = choose|i: int|
                0 <= i < carve_outs.len() && (#[trigger] carve_outs[i]).start <= address
                    < carve_outs[i].end;
            assert(super::layout::ranges_overlap(carve_outs[i], page, (page + 4096) as u64));
        }
    }
    if mapping_allowed(carve_outs, page) is Err && page + 4096 <= u64::MAX {
        let i = choose|i: int|
            0 <= i < carve_outs.len() && super::layout::ranges_overlap(
                #[trigger] carve_outs[i],
                page,
                (page + 4096) as u64,
            );
        let a = if carve_outs[i].start < page {
            page
        } else {
            carve_outs[i].start
        };
        assert(carve_outs[i].start <= a < carve_outs[i].end);
        assert(in_carve_out(carve_outs, a));
    }
}

/// A page is recorded only where it may be mapped, the page tables took it, and there is room.
pub proof fn law_mapping_needs_the_page_tables(
    space: &ProcessAddressSpace,
    carve_outs: Seq<VaRange>,
    page: u64,
    mapped: bool,
)
    ensures
        page_mapped(space, carve_outs, page, mapped) is Ok ==> mapped && mapping_allowed(
            carve_outs,
            page,
        ) is Ok && space.user_mappings@.len()
            < super::address_space::MAX_ADDRESS_SPACE_USER_MAPPINGS,
        mapped && mapping_allowed(carve_outs, page) is Ok && space.user_mappings@.len()
            < super::address_space::MAX_ADDRESS_SPACE_USER_MAPPINGS ==> page_mapped(
            space,
            carve_outs,
            page,
            mapped,
        ) is Ok,
{
}

proof fn lemma_mapping_from(mappings: Seq<OwnedUserMapping>, page: u64, from: int, j: int)
    requires
        0 <= from <= mappings.len(),
    ensures
        match mapping_from(mappings, page, from) {
            Some(i) => from <= i < mappings.len() && mappings[i].virtual_address == page && (from <= j
                < i ==> mappings[j].virtual_address != page),
            None => from <= j < mappings.len() ==> mappings[j].virtual_address != page,
        },
    decreases mappings.len() - from,
{
    if from < mappings.len() && mappings[from].virtual_address != page {
        lemma_mapping_from(mappings, page, from + 1, j);
    }
}

/// A page that was recorded last is found again, unless its address was mapped before; and one is given
/// back only with the frame that is behind its address.
pub proof fn law_recorded_page_is_given_back(
    mappings: Seq<OwnedUserMapping>,
    allocator: &PageAllocator,
    page: u64,
    frame: u64,
    unmapped: Option<u64>,
    j: int,
)
    requires
        mapping_from(mappings, page, 0) is None,
        0 <= j < mappings.len(),
    ensures
        ({
            let more = mappings.push(
                OwnedUserMapping { virtual_address: page, frame_address: frame },
            );
            &&& mapping_from(more, page, 0) == Some(mappings.len() as int)
            &&& more.remove(mappings.len() as int) == mappings
            &&& page_unmapped(mappings, allocator, page, unmapped) is Err
            &&& page_unmapped(more, allocator, page, unmapped) is Ok ==> unmapped == Some(frame)
            &&& page_unmapped(more, allocator, page, Some(frame)) == allocator.free_result(frame)
            &&& page_unmapped(mappings, allocator, mappings[j].virtual_address, unmapped) is Ok
                ==> unmapped == Some(
                mappings[mapping_from(mappings, mappings[j].virtual_address, 0)->0].frame_address,
            )
        }),
{
    let more = mappings.push(OwnedUserMapping { virtual_address: page, frame_address: frame });
    lemma_mapping_from(more, page, 0, 0);
    let n = mappings.len() as int;
    lemma_mapping_from(more, page, 0, n);
    let i = mapping_from(more, page, 0)->0;
    if i < n {
        lemma_mapping_from(mappings, page, 0, i);
        assert(more[i] == mappings[i]);
    }
    assert(more.remove(n) =~= mappings);
}

/// Every frame that an address space owns is released once it is torn down: each user page and each page
/// table has its turn, user pages before tables and the root last.
pub proof fn law_every_frame_has_its_turn(
    frames: Seq<u64>,
    mappings: Seq<OwnedUserMapping>,
    p: int,
    t: int,
)
    requires
        0 <= p < mappings.len(),
        0 <= t < frames.len(),
    ensures
        ({
            let order = release_order(frames, mappings);
            &&& order.len() == mappings.len() + frames.len()
            &&& order[mappings.len() - 1 - p] == mappings[p].frame_address
            &&& order[order.len() - 1 - t] == frames[t]
            &&& order.last() == frames[0]
            &&& mappings.len() - 1 - p < order.len() - 1 - t
        }),
{
}

/// Collecting frames keeps each once: those that were there stay, a new one is there while there is room,
/// and no frame comes from elsewhere.
pub proof fn law_frames_are_collected_once(frames: Seq<u64>, more: Seq<u64>, from: int, k: int)
    requires
        0 <= from <= more.len(),
        frames.no_duplicates(),
    ensures
        ({
            let all = frames_added(frames, more, from);
            &&& all.no_duplicates()
            &&& frames.len() <= all.len()
            &&& all.take(frames.len() as int) == frames
            &&& 0 <= k < all.len() ==> frames.contains(all[k]) || more.contains(all[k])
            &&& all.len() < super::address_space::LOW_FRAME_CAPACITY && from <= k < more.len()
                ==> all.contains(more[k])
        }),
    decreases more.len() - from,
{
    if from < more.len() {
        let next = frame_added(frames, more[from]);
        assert(more.contains(more[from]));
        assert(next.no_duplicates());
        law_frames_are_collected_once(next, more, from + 1, k);
        let all = frames_added(next, more, from + 1);
        assert(all.take(frames.len() as int) =~= all.take(next.len() as int).take(
            frames.len() as int,
        ));
        assert(next.take(frames.len() as int) =~= frames);
        if 0 <= k < all.len() && next.contains(all[k]) && !frames.contains(all[k]) {
            let x = all[k];
            let i = choose|i: int| 0 <= i < next.len() && next[i] == x;
            if i < frames.len() {
                assert(frames[i] == x);
            }
        }
        if all.len() < super::address_space::LOW_FRAME_CAPACITY && k == from {
            assert(next.contains(more[from])) by {
                if !frames.contains(more[from]) {
                    assert(next[frames.len() as int] == more[from]);
                }
            }
            let i = choose|i: int| 0 <= i < next.len() && next[i] == more[from];
            assert(all.take(next.len() as int)[i] == all[i]);
        }
    } else {
        assert(frames.take(frames.len() as int) =~= frames);
        if 0 <= k < frames.len() {
            assert(frames.contains(frames[k]));
        }
    }
}

/// The frames that must be seen at identity are exactly those below the cutoff.
pub proof fn law_low_frames_are_those_below(frames: Seq<u64>, from: int, frame: u64)
    requires
        0 <= from <= frames.len(),
    ensures
        low_frames(frames, from).contains(frame) <==> frame
            < super::address_space::LOW_IDENTITY_PT_CUTOFF && exists|k: int|
            from <= k < frames.len() && #[trigger] frames[k] == frame,
    decreases frames.len() - from,
{
    if from < frames.len() {
        law_low_frames_are_those_below(frames, from + 1, frame);
        let rest = low_frames(frames, from + 1);
        if frames[from] < super::address_space::LOW_IDENTITY_PT_CUTOFF {
            let all = seq![frames[from]] + rest;
            if all.contains(frame) {
                let i = choose|i: int| 0 <= i < all.len() && all[i] == frame;
                if i > 0 {
                    assert(rest[i - 1] == frame);
                }
            }
            if rest.contains(frame) {
                let i = choose|i: int| 0 <= i < rest.len() && rest[i] == frame;
                assert(all[i + 1] == frame);
            }
            assert(all[0] == frames[from]);
        }
    }
}

/// Every reserved range that is not empty becomes a carve-out, in order, and nothing else does, as long as
/// there is room.
pub proof fn law_reserved_ranges_are_carved_out(
    ranges: Seq<VaRange>,
    reserved: Seq<ReservedRange>,
    from: int,
    k: int,
    address: u64,
)
    requires
        0 <= from <= k < reserved.len(),
        carve_outs_from(ranges, reserved, from).1,
        reserved[k].start <= address < reserved[k].end,
    ensures
        in_carve_out(carve_outs_from(ranges, reserved, from).0, address),
    decreases reserved.len() - from,
{
    let range = VaRange { start: reserved[from].start, end: reserved[from].end };
    let next = super::layout::carve_out_pushed(ranges, range)->0;
    if from < k {
        law_reserved_ranges_are_carved_out(next, reserved, from + 1, k, address);
    } else {
        assert(next == ranges.push(range));
        lemma_carve_outs_grow(next, reserved, from + 1, ranges.len() as int);
        let all = carve_outs_from(ranges, reserved, from).0;
        assert(all[ranges.len() as int] == range);
        assert(all[ranges.len() as int].start <= address < all[ranges.len() as int].end);
    }
}

proof fn lemma_carve_outs_grow(ranges: Seq<VaRange>, reserved: Seq<ReservedRange>, from: int, j: int)
    requires
        0 <= from <= reserved.len(),
        0 <= j < ranges.len(),
    ensures
        ranges.len() <= carve_outs_from(ranges, reserved, from).0.len(),
        carve_outs_from(ranges, reserved, from).0[j] == ranges[j],
    decreases reserved.len() - from,
{
    if from < reserved.len() {
        let range = VaRange { start: reserved[from].start, end: reserved[from].end };
        if let Some(next) = super::layout::carve_out_pushed(ranges, range) {
            lemma_carve_outs_grow(next, reserved, from + 1, j);
        }
    }
}

/// Unmapping the last page of an address space frees its frame: only where the page tables gave exactly that
/// frame back, and never without a page.
pub proof fn law_last_page_gives_its_frame_back(
    mappings: Seq<OwnedUserMapping>,
    allocator: &PageAllocator,
    unmapped: Option<u64>,
    none: &'static str,
    unexpected: &'static str,
)
    ensures
        ({
            let r = unmap_result(mappings, allocator, unmapped, none, unexpected);
            &&& r is Ok ==> mappings.len() > 0 && unmapped == Some(mappings.last().frame_address)
                && allocator.free_result(mappings.last().frame_address) is Ok
            &&& mappings.len() > 0 && unmapped == Some(mappings.last().frame_address) ==> r
                == allocator.free_result(mappings.last().frame_address)
            &&& mappings.len() == 0 ==> r == Err::<(), &'static str>(none)
        }),
{
}

proof fn lemma_windows_stay(windows: Seq<u64>, base: int, end: int, window: u64)
    requires
        windows.contains(window),
    ensures
        range_windows(windows, base, end).contains(window),
        range_windows(windows, base, end).len() >= windows.len(),
    decreases (if base < end { end - base } else { 0 }),
{
    if base < end {
        let next = window_added(windows, base as u64);
        let i = choose|i: int| 0 <= i < windows.len() && windows[i] == window;
        assert(next[i] == window);
        lemma_windows_stay(next, base + TWO_MIB, end, window);
    }
}

proof fn lemma_windows_grow(windows: Seq<u64>, base: int, end: int)
    ensures
        range_windows(windows, base, end).len() >= windows.len(),
    decreases (if base < end { end - base } else { 0 }),
{
    if base < end {
        lemma_windows_grow(window_added(windows, base as u64), base + TWO_MIB, end);
    }
}

/// Each window that begins below the end of a range, a whole number of windows after its base, is among
/// those of the range, as long as there is room.
pub proof fn law_windows_cover_the_range(windows: Seq<u64>, base: int, end: int, steps: nat)
    requires
        0 <= base,
        base + steps * TWO_MIB < end,
        end <= u64::MAX,
        range_windows(windows, base, end).len() < MAX_SHARED_TWO_MIB_TABLES,
    ensures
        range_windows(windows, base, end).contains((base + steps * TWO_MIB) as u64),
    decreases steps,
{
    assert(0 <= steps * TWO_MIB) by (nonlinear_arith);
    let next = window_added(windows, base as u64);
    if steps == 0 {
        lemma_windows_grow(next, base + TWO_MIB, end);
        if !windows.contains(base as u64) {
            assert(windows.len() <= next.len());
            assert(next[windows.len() as int] == base as u64);
        }
        lemma_windows_stay(next, base + TWO_MIB, end, base as u64);
    } else {
        let fewer = (steps - 1) as nat;
        assert(steps * TWO_MIB == fewer * TWO_MIB + TWO_MIB) by (nonlinear_arith)
            requires
                fewer == steps - 1,
        ;
        law_windows_cover_the_range(next, base + TWO_MIB, end, fewer);
    }
}

/// Memory that is handed out comes from usable regions, and never from page zero: each part lies in a usable
/// region, and each usable address above page zero lies in a part.
pub proof fn law_usable_memory_is_handed_out(regions: Seq<MemoryRegion>, j: int, k: int, address: u64)
    requires
        0 <= k < regions.len(),
    ensures
        ({
            let parts = usable_parts(regions);
            &&& 0 <= j < parts.len() ==> {
                &&& 4096 <= parts[j].start < parts[j].end
                &&& exists|i: int|
                    0 <= i < regions.len() && (#[trigger] regions[i]).kind
                        == MemoryRegionKind::Usable && regions[i].start <= parts[j].start
                        && parts[j].end == regions[i].end
            }
            &&& regions[k].kind == MemoryRegionKind::Usable && 4096 <= address && regions[k].start
                <= address < regions[k].end ==> exists|i: int|
                0 <= i < parts.len() && (#[trigger] parts[i]).start <= address < parts[i].end
        }),
    decreases regions.len(),
{
    let rest = regions.drop_last();
    let parts = usable_parts(regions);
    let before = usable_parts(rest);
    if rest.len() > 0 {
        let kk = if k < rest.len() {
            k
        } else {
            0
        };
        law_usable_memory_is_handed_out(rest, j, kk, address);
        if 0 <= j < before.len() {
            assert(parts[j] == before[j]);
            let i = choose|i: int|
                0 <= i < rest.len() && (#[trigger] rest[i]).kind == MemoryRegionKind::Usable
                    && rest[i].start <= before[j].start && before[j].end == rest[i].end;
            assert(regions[i] == rest[i]);
        }
    } else {
        assert(before.len() == 0);
    }
    if 0 <= j < parts.len() && j >= before.len() {
        assert(regions[regions.len() - 1].kind == MemoryRegionKind::Usable);
    }
    if regions[k].kind == MemoryRegionKind::Usable && 4096 <= address && regions[k].start <= address
        < regions[k].end {
        if k < rest.len() {
            assert(regions[k] == rest[k]);
            let i = choose|i: int|
                0 <= i < before.len() && (#[trigger] before[i]).start <= address < before[i].end;
            assert(parts[i] == before[i]);
        } else {
            assert(parts.last().start <= address < parts.last().end);
            assert(parts[parts.len() - 1].start <= address);
        }
    }
}

} // verus!
