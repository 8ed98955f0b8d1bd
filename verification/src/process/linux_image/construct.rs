//! Construction of a process image: what is written where, and what is given back on failure.

use super::error::LinuxImageError;
use super::layout::LinuxImageLayout;
use super::validate::{LinuxImagePlan, LinuxInitialStack};
use crate::mm::address_space::{
    destroy_process_address_space, law_teardown_frees_everything, owns_allocated, release_order,
    torn_down, ProcessAddressSpace, KERNEL_CARVE_OUT_PRIVATE_TABLE_FRAMES,
};
use crate::mm::frame_allocator::PageAllocator;
use crate::mm::{align_down, floor_to, lemma_page_alignments, lemma_page_of, PAGE_SIZE};
use vstd::prelude::*;

verus! {

/// A part of the initial stack that goes into one page.
#[derive(Clone, Copy, Debug, PartialEq, Eq, Structural)]
pub struct StackChunk {
    /// Where the part starts among the stack's bytes.
    pub offset: usize,
    /// The page it goes to.
    pub page_vaddr: u64,
    /// Where in the page it starts.
    pub in_page: u64,
    pub len: usize,
}

/// The part at an offset of `len` bytes that start at an address: to the end of its page.
pub open spec fn chunk_at(base: int, len: int, offset: int) -> StackChunk {
    let vaddr = base + offset;
    let page = floor_to(vaddr, PAGE_SIZE as int);
    let room = PAGE_SIZE - (vaddr - page);
    StackChunk {
        offset: offset as usize,
        page_vaddr: page as u64,
        in_page: (vaddr - page) as u64,
        len: if room < len - offset {
            room as usize
        } else {
            (len - offset) as usize
        },
    }
}

/// The parts from an offset on, behind those found before.
pub open spec fn chunks_from(
    chunks: Seq<StackChunk>,
    base: int,
    len: int,
    layout: LinuxImageLayout,
    offset: int,
) -> Result<Seq<StackChunk>, &'static str>
    decreases (if offset < len { len - offset } else { 0 }),
{
    let chunk = chunk_at(base, len, offset);
    if offset < 0 || offset >= len {
        Ok(chunks)
    } else if !(layout.stack_base <= chunk.page_vaddr < layout.stack_top) {
        Err("initial stack image escaped the mapped stack range")
    } else if chunk.len <= 0 {
        Ok(chunks)
    } else {
        chunks_from(chunks.push(chunk), base, len, layout, offset + chunk.len)
    }
}

/// The parts in which the initial stack is written, page by page.
pub fn stack_image_chunks(stack: &LinuxInitialStack, layout: &LinuxImageLayout) -> (r: Result<
    Vec<StackChunk>,
    &'static str,
>)
    requires
        stack.bytes@.len() <= stack.stack_top,
    ensures
        match chunks_from(
            seq![],
            stack.stack_top - stack.bytes@.len(),
            stack.bytes@.len() as int,
            *layout,
            0,
        ) {
            Ok(chunks) => r is Ok && r->Ok_0@ == chunks,
            Err(e) => r == Err::<Vec<StackChunk>, &'static str>(e),
        },
{
    proof {
        lemma_page_alignments();
    }
    let base: u64 = stack.image_base();
    let len: usize = stack.bytes.len();
    let mut chunks: Vec<StackChunk> = Vec::new();
    assert(chunks@ =~= seq![]);
    let mut offset: usize = 0;
    while offset < len
        invariant
            0 <= offset <= len,
            len == stack.bytes@.len(),
            base == stack.stack_top - len,
            len <= stack.stack_top,
            crate::mm::is_alignment(PAGE_SIZE),
            chunks_from(seq![], base as int, len as int, *layout, 0) == chunks_from(
                chunks@,
                base as int,
                len as int,
                *layout,
                offset as int,
            ),
        decreases len - offset,
    {
        let vaddr: u64 = base + offset as u64;
        proof {
            lemma_page_of(vaddr as int, vaddr as int);
        }
        let page_vaddr: u64 = align_down(vaddr, PAGE_SIZE);
        if page_vaddr < layout.stack_base || page_vaddr >= layout.stack_top {
            return Err("initial stack image escaped the mapped stack range");
        }
        let in_page: u64 = vaddr - page_vaddr;
        let room: u64 = PAGE_SIZE - in_page;
        let left: usize = len - offset;
        let part: usize = if room < left as u64 {
            room as usize
        } else {
            left
        };
        chunks.push(StackChunk { offset, page_vaddr, in_page, len: part });
        offset = offset + part;
    }
    Ok(chunks)
}

/// The parts of the initial stack follow one another without a gap, each within one page of the
/// stack, and end where the stack's bytes end.
pub proof fn law_chunks_tile_the_stack(
    chunks: Seq<StackChunk>,
    base: int,
    len: int,
    layout: LinuxImageLayout,
    offset: int,
    k: int,
)
    requires
        0 <= offset <= len <= usize::MAX,
        0 <= base,
        base + len <= u64::MAX,
        chunks_from(chunks, base, len, layout, offset) is Ok,
        chunks.len() <= k < chunks_from(chunks, base, len, layout, offset)->Ok_0.len(),
    ensures
        ({
            let all = chunks_from(chunks, base, len, layout, offset)->Ok_0;
            &&& chunks.is_prefix_of(all)
            &&& all[k].in_page + all[k].len <= PAGE_SIZE
            &&& all[k].page_vaddr + all[k].in_page == base + all[k].offset
            &&& layout.stack_base <= all[k].page_vaddr < layout.stack_top
            &&& all[k].offset == (if k == chunks.len() {
                offset
            } else {
                all[k - 1].offset + all[k - 1].len
            })
            &&& k + 1 == all.len() ==> all[k].offset + all[k].len == len
        }),
    decreases len - offset,
{
    if offset < len {
        let chunk = chunk_at(base, len, offset);
        lemma_page_of(base + offset, base + offset);
        let more = chunks.push(chunk);
        let all = chunks_from(chunks, base, len, layout, offset)->Ok_0;
        lemma_chunks_prefix(more, base, len, layout, offset + chunk.len);
        assert(all[chunks.len() as int] == more[chunks.len() as int]);
        assert(chunks.is_prefix_of(all)) by {
            assert forall|i: int| 0 <= i < chunks.len() implies chunks[i] == all[i] by {
                assert(more[i] == all[i]);
            }
            assert(all.subrange(0, chunks.len() as int) =~= chunks);
        }
        if k > chunks.len() {
            law_chunks_tile_the_stack(more, base, len, layout, offset + chunk.len, k);
        } else if k + 1 == all.len() && offset + chunk.len < len {
            lemma_chunks_prefix(
                more.push(chunk_at(base, len, offset + chunk.len)),
                base,
                len,
                layout,
                offset + chunk.len + chunk_at(base, len, offset + chunk.len).len,
            );
            lemma_page_of(base + offset + chunk.len, base + offset + chunk.len);
        }
    }
}

proof fn lemma_chunks_prefix(
    chunks: Seq<StackChunk>,
    base: int,
    len: int,
    layout: LinuxImageLayout,
    offset: int,
)
    requires
        0 <= offset <= len <= usize::MAX,
        0 <= base,
        base + len <= u64::MAX,
        chunks_from(chunks, base, len, layout, offset) is Ok,
    ensures
        chunks.len() <= chunks_from(chunks, base, len, layout, offset)->Ok_0.len(),
        forall|i: int|
            0 <= i < chunks.len() ==> chunks[i] == #[trigger] chunks_from(
                chunks,
                base,
                len,
                layout,
                offset,
            )->Ok_0[i],
    decreases len - offset,
{
    if offset < len {
        let chunk = chunk_at(base, len, offset);
        lemma_page_of(base + offset, base + offset);
        let more = chunks.push(chunk);
        lemma_chunks_prefix(more, base, len, layout, offset + chunk.len);
        let all = chunks_from(chunks, base, len, layout, offset)->Ok_0;
        assert forall|i: int| 0 <= i < chunks.len() implies chunks[i] == #[trigger] all[i] by {
            assert(more[i] == all[i]);
        }
    }
}

/// The error after an address space was torn down: the original one, unless that failed too.
pub open spec fn after_discard(original: LinuxImageError, torn: Result<(), &'static str>) -> LinuxImageError {
    match torn {
        Ok(()) => original,
        Err(message) => LinuxImageError::Rollback(message),
    }
}

/// Tears a half-built address space down and gives the error to report. That the teardown failed counts
/// more than the original error, for frames may be lost.
pub fn discard_address_space(
    address_space: &ProcessAddressSpace,
    allocator: &mut PageAllocator,
    unmapped: &[Option<u64>],
    original: LinuxImageError,
) -> (r: LinuxImageError)
    requires
        old(allocator).wf(),
        address_space.wf(),
        unmapped@.len() >= address_space.user_mappings@.len(),
    ensures
        final(allocator).wf(),
        exists|torn: Result<(), &'static str>, k: int| #[trigger]
            torn_down(
                address_space.page_table_frames@,
                address_space.user_mappings@,
                unmapped@,
                old(allocator),
                final(allocator),
                torn,
                k,
            ) && r == after_discard(original, torn),
{
    match destroy_process_address_space(address_space, allocator, unmapped) {
        Ok(()) => original,
        Err(message) => LinuxImageError::Rollback(message),
    }
}

/// A process image that is built and not registered yet.
#[derive(Debug)]
pub struct LinuxProcessImage {
    pub address_space: ProcessAddressSpace,
    /// The launch address.
    pub entry: u64,
    /// The stack pointer at launch.
    pub launch_rsp: u64,
    /// Pages of the image's segments.
    pub image_pages: usize,
}

/// What is wrong with a process image after its parts were mapped and written, in the order of the
/// steps.
pub open spec fn build_failure(
    image_pages: u64,
    page_table_frames: usize,
    stack_pages: u64,
    address_space: &ProcessAddressSpace,
    segments: Result<usize, &'static str>,
    stack_mapped: Result<(), &'static str>,
    stack_written: Result<(), &'static str>,
    guard_mapped: bool,
) -> Option<LinuxImageError> {
    match segments {
        Err(message) => Some(LinuxImageError::SegmentMapping(message)),
        Ok(pages) => if pages != image_pages {
            Some(
                LinuxImageError::SegmentMapping(
                    "mapped page count diverged from the validated plan",
                ),
            )
        } else if stack_mapped is Err {
            Some(LinuxImageError::StackMapping(stack_mapped->Err_0))
        } else if stack_written is Err {
            Some(LinuxImageError::StackImageWrite(stack_written->Err_0))
        } else if guard_mapped {
            Some(LinuxImageError::GuardPageMapped)
        } else if address_space.page_table_frames@.len() != page_table_frames
            + KERNEL_CARVE_OUT_PRIVATE_TABLE_FRAMES || address_space.user_mappings@.len()
            != image_pages + stack_pages {
            Some(
                LinuxImageError::StackMapping(
                    "address-space resource counts diverged from the plan",
                ),
            )
        } else {
            None
        },
    }
}

/// What ending the construction of a process image does.
pub open spec fn image_built(
    image_plan: LinuxImagePlan,
    created: Result<ProcessAddressSpace, &'static str>,
    segments: Result<usize, &'static str>,
    stack_mapped: Result<(), &'static str>,
    stack_written: Result<(), &'static str>,
    guard_mapped: bool,
    unmapped: Seq<Option<u64>>,
    before: &PageAllocator,
    after: &PageAllocator,
    r: Result<LinuxProcessImage, LinuxImageError>,
) -> bool {
    match created {
        Err(message) => r == Err::<LinuxProcessImage, LinuxImageError>(
            LinuxImageError::AddressSpaceCreation(message),
        ) && *after == *before,
        Ok(space) => match build_failure(
            image_plan.image_pages,
            image_plan.page_table_frames,
            image_plan.layout.stack_pages,
            &space,
            segments,
            stack_mapped,
            stack_written,
            guard_mapped,
        ) {
            None => {
                &&& r == Ok::<LinuxProcessImage, LinuxImageError>(
                    LinuxProcessImage {
                        address_space: space,
                        entry: image_plan.entry,
                        launch_rsp: image_plan.initial_stack.rsp,
                        image_pages: segments->Ok_0,
                    },
                )
                &&& *after == *before
            },
            Some(failure) => exists|torn: Result<(), &'static str>, k: int| #[trigger]
                torn_down(
                    space.page_table_frames@,
                    space.user_mappings@,
                    unmapped,
                    before,
                    after,
                    torn,
                    k,
                ) && r == Err::<LinuxProcessImage, LinuxImageError>(
                    after_discard(failure, torn),
                ),
        },
    }
}

/// Ends the construction of a process image. `created` is the address space, or why there is none; the
/// other outcomes are those of mapping the segments and the stack, of writing the initial stack, and
/// whether the guard page was found mapped. A step counts only where those before it succeeded. Any
/// failure tears the address space down.
pub fn build_linux_process_image(
    allocator: &mut PageAllocator,
    image_plan: &LinuxImagePlan,
    created: Result<ProcessAddressSpace, &'static str>,
    segments: Result<usize, &'static str>,
    stack_mapped: Result<(), &'static str>,
    stack_written: Result<(), &'static str>,
    guard_mapped: bool,
    unmapped: &[Option<u64>],
) -> (r: Result<LinuxProcessImage, LinuxImageError>)
    requires
        old(allocator).wf(),
        image_plan.image_pages + image_plan.layout.stack_pages <= u64::MAX,
        created is Ok ==> created->Ok_0.wf() && unmapped@.len()
            >= created->Ok_0.user_mappings@.len(),
    ensures
        final(allocator).wf(),
        image_built(
            *image_plan,
            created,
            segments,
            stack_mapped,
            stack_written,
            guard_mapped,
            unmapped@,
            old(allocator),
            final(allocator),
            r,
        ),
{
    let address_space = match created {
        Ok(space) => space,
        Err(message) => return Err(LinuxImageError::AddressSpaceCreation(message)),
    };
    let failure: Option<LinuxImageError> = match segments {
        Err(message) => Some(LinuxImageError::SegmentMapping(message)),
        Ok(pages) => if pages as u64 != image_plan.image_pages {
            Some(
                LinuxImageError::SegmentMapping(
                    "mapped page count diverged from the validated plan",
                ),
            )
        } else {
            match stack_mapped {
                Err(message) => Some(LinuxImageError::StackMapping(message)),
                Ok(()) => match stack_written {
                    Err(message) => Some(LinuxImageError::StackImageWrite(message)),
                    Ok(()) => if guard_mapped {
                        Some(LinuxImageError::GuardPageMapped)
                    } else {
                        let counts = address_space.resource_counts();
                        let expected: usize = image_plan.page_table_frames.saturating_add(
                            KERNEL_CARVE_OUT_PRIVATE_TABLE_FRAMES,
                        );
                        if counts.page_table_frames != expected || counts.user_pages as u64
                            != image_plan.mapped_pages() {
                            Some(
                                LinuxImageError::StackMapping(
                                    "address-space resource counts diverged from the plan",
                                ),
                            )
                        } else {
                            None
                        }
                    },
                },
            }
        },
    };
    match failure {
        Some(failure) => Err(discard_address_space(&address_space, allocator, unmapped, failure)),
        None => {
            let image_pages: usize = match segments {
                Ok(pages) => pages,
                Err(_) => 0,
            };
            Ok(
                LinuxProcessImage {
                    address_space,
                    entry: image_plan.entry,
                    launch_rsp: image_plan.launch_rsp(),
                    image_pages,
                },
            )
        },
    }
}

/// An image whose construction fails after its address space was made gives every frame of that space
/// back, and the error is that of the first step that failed.
pub proof fn law_failed_image_frees_its_space(
    image_plan: LinuxImagePlan,
    space: ProcessAddressSpace,
    segments: Result<usize, &'static str>,
    stack_mapped: Result<(), &'static str>,
    stack_written: Result<(), &'static str>,
    guard_mapped: bool,
    unmapped: Seq<Option<u64>>,
    before: &PageAllocator,
    after: &PageAllocator,
    r: Result<LinuxProcessImage, LinuxImageError>,
)
    requires
        before.wf(),
        owns_allocated(space.page_table_frames@, space.user_mappings@, before),
        forall|j: int|
            0 <= j < space.user_mappings@.len() ==> #[trigger] unmapped[j] == Some(
                release_order(space.page_table_frames@, space.user_mappings@)[j],
            ),
        image_built(
            image_plan,
            Ok(space),
            segments,
            stack_mapped,
            stack_written,
            guard_mapped,
            unmapped,
            before,
            after,
            r,
        ),
        r is Err,
    ensures
        build_failure(
            image_plan.image_pages,
            image_plan.page_table_frames,
            image_plan.layout.stack_pages,
            &space,
            segments,
            stack_mapped,
            stack_written,
            guard_mapped,
        ) == Some(r->Err_0),
        after.available_pages == before.available_pages + space.page_table_frames@.len()
            + space.user_mappings@.len(),
        forall|frame: u64| #[trigger]
            after.allocated(frame) == (before.allocated(frame) && !release_order(
                space.page_table_frames@,
                space.user_mappings@,
            ).contains(frame)),
{
    let failure = build_failure(
        image_plan.image_pages,
        image_plan.page_table_frames,
        image_plan.layout.stack_pages,
        &space,
        segments,
        stack_mapped,
        stack_written,
        guard_mapped,
    )->0;
    let (torn, k) = choose|torn: Result<(), &'static str>, k: int| #[trigger]
        torn_down(
            space.page_table_frames@,
            space.user_mappings@,
            unmapped,
            before,
            after,
            torn,
            k,
        ) && r == Err::<LinuxProcessImage, LinuxImageError>(after_discard(failure, torn));
    law_teardown_frees_everything(
        space.page_table_frames@,
        space.user_mappings@,
        unmapped,
        before,
        after,
        torn,
        k,
    );
}

} // verus!
