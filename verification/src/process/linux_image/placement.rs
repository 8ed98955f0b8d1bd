//! Where the parts of an image lie.

use super::error::{LinuxImageError, LoadPlanError, StackLayoutError};
use super::layout::LinuxImageLayout;
use super::load_plan::{private_slot, span_of, Elf64Header, LoadPlan, LoadPolicy, LoadSegment};
use super::prescan::{header_at, headers_from, le_at, le_value, prescanned, segment_range};
use super::validate::{
    budgets, launch_auxv, plan_checked, ranges_from, segment_pages, validation_result,
    LinuxImagePlan, StackImage,
};
use crate::process::exec_use::tells;
use vstd::prelude::*;

verus! {

/// The pages of a segment hold all of it and no page more: they start at the page of its first byte and
/// end with the page of its last.
pub proof fn law_span_holds_the_segment(segment: LoadSegment, address: u64)
    requires
        span_of(segment) is Ok,
    ensures
        ({
            let (first, pages) = span_of(segment)->Ok_0;
            &&& first % 4096 == 0
            &&& first <= segment.vaddr < first + 4096
            &&& segment.memsz == 0 <==> pages == 0
            &&& segment.vaddr <= address < segment.vaddr + segment.memsz ==> first <= address < first
                + pages * 4096
            &&& segment.memsz > 0 ==> first + (pages - 1) * 4096 < segment.vaddr + segment.memsz
        }),
        segment.vaddr + segment.memsz + 4095 <= u64::MAX,
{
}

/// A segment is placed exactly where its pages lie in the window and below what is reserved for the
/// stack; its range is then that of its pages.
pub proof fn law_segment_is_placed_in_its_window(segment: LoadSegment, layout: LinuxImageLayout)
    requires
        span_of(segment) is Ok,
        segment.align <= 1 || segment.align >= 4096,
        segment.memsz > 0,
    ensures
        ({
            let (first, pages) = span_of(segment)->Ok_0;
            let end = first + pages * 4096;
            let r = segment_pages(segment, layout);
            &&& r is Ok <==> layout.window_base <= first && end <= layout.window_end && end
                <= layout.stack_reservation_start
            &&& r is Ok ==> r->Ok_0 is Some && (r->Ok_0->0).0 == first && (r->Ok_0->0).1 == end
            &&& r == Err::<Option<(u64, u64)>, LinuxImageError>(
                LinuxImageError::SegmentOverlapsStackReservation,
            ) ==> end > layout.stack_reservation_start
            &&& r == Err::<Option<(u64, u64)>, LinuxImageError>(LinuxImageError::OutOfWindow)
                ==> first < layout.window_base || end > layout.window_end
        }),
{
    law_span_holds_the_segment(segment, 0);
}

/// A segment whose alignment is finer than a page is refused.
pub proof fn law_fine_alignment_is_refused(segment: LoadSegment, layout: LinuxImageLayout)
    requires
        1 < segment.align < 4096,
    ensures
        segment_pages(segment, layout) == Err::<Option<(u64, u64)>, LinuxImageError>(
            LinuxImageError::AlignmentBelowPageSize,
        ),
{
}

/// Every segment that has pages is among the ranges, in order, and each range is one.
pub proof fn law_ranges_are_the_segments(
    segments: Seq<LoadSegment>,
    layout: LinuxImageLayout,
    ranges: Seq<(u64, u64)>,
    from: int,
    k: int,
)
    requires
        0 <= from <= k < segments.len(),
        ranges_from(segments, layout, ranges, from) is Ok,
    ensures
        ({
            let all = ranges_from(segments, layout, ranges, from)->Ok_0;
            &&& ranges.len() <= all.len() <= ranges.len() + (segments.len() - from)
            &&& segment_pages(segments[k], layout) is Ok
            &&& segment_pages(segments[k], layout)->Ok_0 matches Some(range) ==> exists|i: int|
                ranges.len() <= i < all.len() && #[trigger] all[i] == range
        }),
    decreases segments.len() - from,
{
    lemma_ranges_grow(segments, layout, ranges, from);
    match segment_pages(segments[from], layout) {
        Ok(Some(range)) => {
            let more = ranges.push(range);
            lemma_ranges_grow(segments, layout, more, from + 1);
            if from < k {
                law_ranges_are_the_segments(segments, layout, more, from + 1, k);
                if let Some(other) = segment_pages(segments[k], layout)->Ok_0 {
                    let all = ranges_from(segments, layout, more, from + 1)->Ok_0;
                    let i = choose|i: int| more.len() <= i < all.len() && #[trigger] all[i] == other;
                    assert(ranges.len() <= i < all.len() && all[i] == other);
                }
            } else {
                let all = ranges_from(segments, layout, more, from + 1)->Ok_0;
                assert(all[ranges.len() as int] == more[ranges.len() as int]);
            }
        },
        _ => {
            if from < k {
                law_ranges_are_the_segments(segments, layout, ranges, from + 1, k);
            }
        },
    }
}

proof fn lemma_ranges_grow(
    segments: Seq<LoadSegment>,
    layout: LinuxImageLayout,
    ranges: Seq<(u64, u64)>,
    from: int,
)
    requires
        0 <= from <= segments.len(),
        ranges_from(segments, layout, ranges, from) is Ok,
    ensures
        ({
            let all = ranges_from(segments, layout, ranges, from)->Ok_0;
            &&& ranges.len() <= all.len() <= ranges.len() + (segments.len() - from)
            &&& forall|i: int| 0 <= i < ranges.len() ==> #[trigger] all[i] == ranges[i]
        }),
    decreases segments.len() - from,
{
    if from < segments.len() {
        match segment_pages(segments[from], layout) {
            Ok(Some(range)) => {
                let more = ranges.push(range);
                lemma_ranges_grow(segments, layout, more, from + 1);
                let all = ranges_from(segments, layout, more, from + 1)->Ok_0;
                assert forall|i: int| 0 <= i < ranges.len() implies #[trigger] all[i]
                    == ranges[i] by {
                    assert(all[i] == more[i]);
                }
            },
            _ => {
                lemma_ranges_grow(segments, layout, ranges, from + 1);
            },
        }
    }
}

/// A segment lies where it may exactly when it neither wraps nor reaches into the kernel's half nor
/// touches the first page, and with the private slot lies within it; the error tells which it is.
pub proof fn law_segment_range_is_user_space(vaddr: u64, memsz: u64, slot: bool)
    ensures
        segment_range(vaddr as int, memsz as int, slot) is Ok ==> {
            &&& 4096 <= vaddr
            &&& vaddr + memsz <= 0x8000_0000_0000
            &&& slot ==> super::layout::LINUX_USER_WINDOW_BASE <= vaddr && vaddr + memsz
                <= super::layout::LINUX_USER_WINDOW_END
        },
        4096 <= vaddr < 0x8000_0000_0000 && vaddr + memsz <= 0x8000_0000_0000 && !slot
            ==> segment_range(vaddr as int, memsz as int, slot) is Ok,
        vaddr < 4096 && vaddr + memsz <= 0x8000_0000_0000 ==> segment_range(
            vaddr as int,
            memsz as int,
            slot,
        ) == Err::<(), LinuxImageError>(LinuxImageError::PageZero),
        vaddr + memsz > u64::MAX ==> segment_range(vaddr as int, memsz as int, slot) == Err::<
            (),
            LinuxImageError,
        >(LinuxImageError::VaddrOverflow),
{
}

/// The program headers of an image pass only where each of them does: none asks for an interpreter or
/// for dynamic linking, and each segment to be loaded lies in user space.
pub proof fn law_every_header_is_looked_at(bytes: Seq<u8>, header: Elf64Header, slot: bool, index: int, k: int)
    requires
        0 <= index <= k < header.e_phnum,
        headers_from(bytes, header, slot, index) is Ok,
    ensures
        ({
            let at = k * header.e_phentsize + header.e_phoff;
            &&& header_at(bytes, at, slot) is Ok
            &&& le_at(bytes, at, 4) is Some
            &&& le_at(bytes, at, 4) != Some(3int)
            &&& le_at(bytes, at, 4) != Some(2int)
            &&& le_at(bytes, at, 4) == Some(1int) ==> {
                let vaddr = le_at(bytes, at + 16, 8);
                let memsz = le_at(bytes, at + 40, 8);
                &&& vaddr is Some && memsz is Some
                &&& memsz->0 > 0 ==> 4096 <= vaddr->0 && vaddr->0 + memsz->0 <= 0x8000_0000_0000
            }
        }),
    decreases header.e_phnum - index,
{
    if index < k {
        law_every_header_is_looked_at(bytes, header, slot, index + 1, k);
    }
}

/// The header table must lie in the file.
pub proof fn law_headers_lie_in_the_file(bytes: Seq<u8>, header: Elf64Header, slot: bool)
    requires
        prescanned(bytes, header, slot) is Ok,
    ensures
        header.e_phoff + header.e_phnum * header.e_phentsize <= bytes.len(),
        headers_from(bytes, header, slot, 0) is Ok,
{
}

/// A number in a file has its low byte first: the number of eight bytes is that of the first four and,
/// above it, that of the next four.
pub proof fn law_numbers_are_little_endian(bytes: Seq<u8>, offset: int)
    ensures
        le_value(bytes, offset, 1) == bytes[offset],
        le_value(bytes, offset, 2) == bytes[offset] + 256 * bytes[offset + 1],
        le_value(bytes, offset, 8) == le_value(bytes, offset, 4) + 0x1_0000_0000 * le_value(
            bytes,
            offset + 4,
            4,
        ),
{
    reveal_with_fuel(le_value, 9);
}

/// An image that is checked is static, has its program headers mapped, and passed the look at them; its
/// pages and frames are those of its segments and its stack.
pub proof fn law_checked_image_is_static(
    bytes: Seq<u8>,
    policy: LoadPolicy,
    layout: LinuxImageLayout,
    header: Result<Elf64Header, LoadPlanError>,
    plan: Result<LoadPlan, LoadPlanError>,
)
    ensures
        ({
            let r = plan_checked(bytes, policy, layout, header, plan);
            &&& r is Ok <==> header is Ok && prescanned(
                bytes,
                header->Ok_0,
                private_slot(policy),
            ) is Ok && plan is Ok && !plan->Ok_0.has_interp && !plan->Ok_0.has_dynamic
                && plan->Ok_0.phdr_vaddr is Some && budgets(plan->Ok_0, layout) is Ok
            &&& r matches Ok((phdr, pages, frames)) ==> Some(phdr) == plan->Ok_0.phdr_vaddr && Ok::<
                u64,
                LoadPlanError,
            >(pages) == plan->Ok_0.mapped_pages
        }),
{
}

/// The auxiliary vector of a launched program tells where it starts, where and how many its program
/// headers are, and the page size.
pub proof fn law_launch_auxv_tells_the_program(entry: u64, phdr: u64, phnum: u16)
    ensures
        ({
            let auxv = launch_auxv(entry, phdr, phnum);
            &&& tells(auxv, 9, entry)
            &&& tells(auxv, 3, phdr)
            &&& tells(auxv, 4, 56)
            &&& tells(auxv, 5, phnum as u64)
            &&& tells(auxv, 6, 4096)
        }),
{
    let auxv = launch_auxv(entry, phdr, phnum);
    assert(auxv[0].0 == 3 && auxv[1].0 == 4 && auxv[2].0 == 5 && auxv[3].0 == 6 && auxv[4].0 == 9);
}

/// A validated image is the one that was checked: its plan, entry, program headers and layout are those it
/// was checked with, its pages are those of its segments, and it starts on the stack that was built for it,
/// aligned and inside the stack. An image whose stack could not be built is refused.
pub proof fn law_validated_image_is_the_checked_one(
    bytes: Seq<u8>,
    policy: LoadPolicy,
    layout: LinuxImageLayout,
    header: Result<Elf64Header, LoadPlanError>,
    plan: Result<LoadPlan, LoadPlanError>,
    built: Result<StackImage, StackLayoutError>,
    r: Result<LinuxImagePlan, LinuxImageError>,
)
    requires
        validation_result(bytes, policy, layout, header, plan, built, r),
    ensures
        r is Ok ==> {
            let image = r->Ok_0;
            let stack = image.initial_stack;
            &&& plan == Ok::<LoadPlan, LoadPlanError>(image.plan)
            &&& built is Ok
            &&& image.entry == plan->Ok_0.entry
            &&& Some(image.phdr_vaddr) == plan->Ok_0.phdr_vaddr
            &&& Ok::<u64, LoadPlanError>(image.image_pages) == plan->Ok_0.mapped_pages
            &&& image.layout == layout
            &&& stack.stack_top == layout.stack_top
            &&& stack.bytes@ == built->Ok_0.bytes@
            &&& stack.rsp == built->Ok_0.rsp
            &&& stack.rsp % 16 == 0 && layout.stack_base <= stack.rsp < layout.stack_top
            &&& tells(stack.auxv@, 9, image.entry)
            &&& tells(stack.auxv@, 3, image.phdr_vaddr)
            &&& tells(stack.auxv@, 5, plan->Ok_0.phnum as u64)
        },
        built is Err ==> r is Err,
        r is Ok <==> plan_checked(bytes, policy, layout, header, plan) is Ok && built is Ok
            && built->Ok_0.rsp % 16 == 0 && layout.stack_base <= built->Ok_0.rsp < layout.stack_top,
{
    law_checked_image_is_static(bytes, policy, layout, header, plan);
    if r is Ok {
        law_launch_auxv_tells_the_program(r->Ok_0.entry, r->Ok_0.phdr_vaddr, plan->Ok_0.phnum);
    }
}

/// A number is read exactly where all its bytes lie in the file.
pub proof fn law_numbers_lie_in_the_file(bytes: Seq<u8>, offset: int, n: nat)
    ensures
        le_at(bytes, offset, n) is Some <==> 0 <= offset && offset + n <= bytes.len(),
{
}

} // verus!
