//! Validation of an image: what the generic parser does not look at.
//!
//! The file's header and load plan come from the ELF parser, the bytes of the initial stack from the
//! stack builder; the functions here take what those gave.

use super::demand::{demand, page_table_frame_demand};
use super::error::{LinuxImageError, LoadPlanError, StackLayoutError};
use super::layout::{
    legacy_layout, low_layout, LinuxImageLayout, LINUX_LOW_VA_ARGV0, LINUX_STACK_PAGES,
    LINUX_USER_WINDOW_BASE,
};
use super::load_plan::{
    private_slot, span_of, Elf64Header, LoadPlan, LoadPolicy, LoadSegment, ELF64_PHDR_SIZE,
};
use super::prescan::{prescan_program_headers, prescan_program_headers_minimal, prescanned};
use crate::abi::{AT_ENTRY, AT_PAGESZ, AT_PHDR, AT_PHENT, AT_PHNUM};
use crate::mm::address_space::{
    KERNEL_CARVE_OUT_PRIVATE_TABLE_FRAMES, MAX_ADDRESS_SPACE_PAGE_TABLE_FRAMES,
    MAX_ADDRESS_SPACE_USER_MAPPINGS,
};
use crate::mm::layout::LINUX_CONVENTIONAL_USER_VA_LO;
use crate::mm::{align_down, floor_to, lemma_page_alignments, PAGE_SIZE};
use vstd::prelude::*;

verus! {

/// The bytes that the stack builder laid out, ending at the stack's top, and the stack pointer.
#[derive(Debug, PartialEq, Eq)]
pub struct StackImage {
    pub bytes: Vec<u8>,
    pub rsp: u64,
}

/// The initial stack of an image.
#[derive(Debug, PartialEq, Eq)]
pub struct LinuxInitialStack {
    /// Exclusive top of the mapped stack pages.
    pub stack_top: u64,
    /// The bytes directly below the top.
    pub bytes: Vec<u8>,
    /// The stack pointer, at the argument count.
    pub rsp: u64,
    /// The auxiliary vector without its terminator.
    pub auxv: Vec<(u64, u64)>,
}

impl LinuxInitialStack {
    /// Lowest address of the stack's bytes.
    pub fn image_base(&self) -> (r: u64)
        requires
            self.bytes@.len() <= self.stack_top,
        ensures
            r == self.stack_top - self.bytes@.len(),
    {
        self.stack_top - self.bytes.len() as u64
    }
}

/// An image that can be mapped.
#[derive(Debug, PartialEq, Eq)]
pub struct LinuxImagePlan {
    pub plan: LoadPlan,
    /// The launch address.
    pub entry: u64,
    /// Where user code finds the program headers.
    pub phdr_vaddr: u64,
    /// Distinct pages of the segments.
    pub image_pages: u64,
    /// Page-table frames for image and stack.
    pub page_table_frames: usize,
    pub initial_stack: LinuxInitialStack,
    pub layout: LinuxImageLayout,
}

impl LinuxImagePlan {
    pub fn launch_rsp(&self) -> (r: u64)
        ensures
            r == self.initial_stack.rsp,
    {
        self.initial_stack.rsp
    }

    /// User pages of image and stack; the guard page is never mapped and does not count.
    pub fn mapped_pages(&self) -> (r: u64)
        requires
            self.image_pages + self.layout.stack_pages <= u64::MAX,
        ensures
            r == self.image_pages + self.layout.stack_pages,
    {
        self.image_pages + self.layout.stack_pages
    }
}

/// The auxiliary vector of a launched program, without its terminator.
pub open spec fn launch_auxv(entry: u64, phdr_vaddr: u64, phnum: u16) -> Seq<(u64, u64)> {
    seq![
        (AT_PHDR, phdr_vaddr),
        (AT_PHENT, ELF64_PHDR_SIZE as u64),
        (AT_PHNUM, phnum as u64),
        (AT_PAGESZ, PAGE_SIZE),
        (AT_ENTRY, entry),
    ]
}

pub fn linux_launch_auxv(entry: u64, phdr_vaddr: u64, phnum: u16) -> (r: Vec<(u64, u64)>)
    ensures
        r@ == launch_auxv(entry, phdr_vaddr, phnum),
{
    let mut auxv: Vec<(u64, u64)> = Vec::new();
    auxv.push((AT_PHDR, phdr_vaddr));
    auxv.push((AT_PHENT, ELF64_PHDR_SIZE as u64));
    auxv.push((AT_PHNUM, phnum as u64));
    auxv.push((AT_PAGESZ, PAGE_SIZE));
    auxv.push((AT_ENTRY, entry));
    assert(auxv@ =~= launch_auxv(entry, phdr_vaddr, phnum));
    auxv
}

/// Whether a stack pointer is aligned and lies in the stack.
pub open spec fn rsp_allowed(rsp: u64, layout: LinuxImageLayout) -> bool {
    rsp % 16 == 0 && layout.stack_base <= rsp < layout.stack_top
}

/// The initial stack of a launched program, from the bytes that were built for it.
pub fn build_linux_initial_stack(
    entry: u64,
    phdr_vaddr: u64,
    phnum: u16,
    layout: &LinuxImageLayout,
    built: Result<StackImage, StackLayoutError>,
) -> (r: Result<LinuxInitialStack, LinuxImageError>)
    ensures
        match built {
            Err(e) => r == Err::<LinuxInitialStack, LinuxImageError>(
                LinuxImageError::InitialStack(e),
            ),
            Ok(image) => if !rsp_allowed(image.rsp, *layout) {
                r == Err::<LinuxInitialStack, LinuxImageError>(
                    LinuxImageError::InitialStack(StackLayoutError::InvalidStackTop),
                )
            } else {
                &&& r is Ok
                &&& r->Ok_0.stack_top == layout.stack_top
                &&& r->Ok_0.bytes@ == image.bytes@
                &&& r->Ok_0.rsp == image.rsp
                &&& r->Ok_0.auxv@ == launch_auxv(entry, phdr_vaddr, phnum)
            },
        },
{
    let image = match built {
        Ok(image) => image,
        Err(e) => return Err(LinuxImageError::InitialStack(e)),
    };
    if image.rsp % 16 != 0 || image.rsp < layout.stack_base || image.rsp >= layout.stack_top {
        return Err(LinuxImageError::InitialStack(StackLayoutError::InvalidStackTop));
    }
    Ok(
        LinuxInitialStack {
            stack_top: layout.stack_top,
            bytes: image.bytes,
            rsp: image.rsp,
            auxv: linux_launch_auxv(entry, phdr_vaddr, phnum),
        },
    )
}

/// The page range of a segment, none where it has no pages, or why it may not lie there.
pub open spec fn segment_pages(segment: LoadSegment, layout: LinuxImageLayout) -> Result<
    Option<(u64, u64)>,
    LinuxImageError,
> {
    if 1 < segment.align < PAGE_SIZE {
        Err(LinuxImageError::AlignmentBelowPageSize)
    } else {
        match span_of(segment) {
            Err(e) => Err(LinuxImageError::LoadPlan(e)),
            Ok((first, pages)) => {
                let end = first + pages * PAGE_SIZE;
                if pages == 0 {
                    Ok(None)
                } else if end > u64::MAX {
                    Err(LinuxImageError::VaddrOverflow)
                } else if first < layout.window_base || end > layout.window_end {
                    Err(LinuxImageError::OutOfWindow)
                } else if end > layout.stack_reservation_start {
                    Err(LinuxImageError::SegmentOverlapsStackReservation)
                } else {
                    Ok(Some((first, end as u64)))
                }
            },
        }
    }
}

/// The page ranges of the segments from `from` on, behind those found before.
pub open spec fn ranges_from(
    segments: Seq<LoadSegment>,
    layout: LinuxImageLayout,
    ranges: Seq<(u64, u64)>,
    from: int,
) -> Result<Seq<(u64, u64)>, LinuxImageError>
    decreases segments.len() - from,
{
    if from < 0 || from >= segments.len() {
        Ok(ranges)
    } else {
        match segment_pages(segments[from], layout) {
            Err(e) => Err(e),
            Ok(None) => ranges_from(segments, layout, ranges, from + 1),
            Ok(Some(range)) => ranges_from(segments, layout, ranges.push(range), from + 1),
        }
    }
}

/// The pages and page-table frames of an image and its stack, or why they are not to be had.
pub open spec fn budgets(plan: LoadPlan, layout: LinuxImageLayout) -> Result<
    (u64, usize),
    LinuxImageError,
> {
    match ranges_from(plan.segments@, layout, seq![], 0) {
        Err(e) => Err(e),
        Ok(ranges) => match demand(ranges.push((layout.stack_base, layout.stack_top))) {
            Err(e) => Err(e),
            Ok(all) => {
                let frames = if layout.user_region_base < LINUX_USER_WINDOW_BASE {
                    (all - 2) as usize
                } else {
                    all
                };
                if frames + KERNEL_CARVE_OUT_PRIVATE_TABLE_FRAMES
                    > MAX_ADDRESS_SPACE_PAGE_TABLE_FRAMES {
                    Err(LinuxImageError::PageTableBudgetExceeded)
                } else {
                    match plan.mapped_pages {
                        Err(e) => Err(LinuxImageError::LoadPlan(e)),
                        Ok(pages) => if pages + layout.stack_pages
                            > MAX_ADDRESS_SPACE_USER_MAPPINGS {
                            Err(LinuxImageError::MappingBudgetExceeded)
                        } else {
                            Ok((pages, frames))
                        },
                    }
                }
            },
        },
    }
}

fn check_segment(segment: &LoadSegment, layout: &LinuxImageLayout) -> (r: Result<
    Option<(u64, u64)>,
    LinuxImageError,
>)
    ensures
        r == segment_pages(*segment, *layout),
{
    if segment.align > 1 && segment.align < PAGE_SIZE {
        return Err(LinuxImageError::AlignmentBelowPageSize);
    }
    let (first, pages) = match segment.page_span() {
        Ok(span) => span,
        Err(e) => return Err(LinuxImageError::LoadPlan(e)),
    };
    if pages == 0 {
        return Ok(None);
    }
    let bytes: u64 = match pages.checked_mul(PAGE_SIZE) {
        Some(bytes) => bytes,
        None => return Err(LinuxImageError::VaddrOverflow),
    };
    let end: u64 = match first.checked_add(bytes) {
        Some(end) => end,
        None => return Err(LinuxImageError::VaddrOverflow),
    };
    if first < layout.window_base || end > layout.window_end {
        return Err(LinuxImageError::OutOfWindow);
    }
    if end > layout.stack_reservation_start {
        return Err(LinuxImageError::SegmentOverlapsStackReservation);
    }
    Ok(Some((first, end)))
}

/// Checks where the segments lie and that image and stack fit into an address space. Returns the
/// image's pages and the page-table frames.
pub fn validate_segment_layout_and_budgets(plan: &LoadPlan, layout: &LinuxImageLayout) -> (r: Result<
    (u64, usize),
    LinuxImageError,
>)
    ensures
        r == budgets(*plan, *layout),
{
    let mut ranges: Vec<(u64, u64)> = Vec::new();
    assert(ranges@ =~= seq![]);
    let mut i: usize = 0;
    while i < plan.segments.len()
        invariant
            0 <= i <= plan.segments@.len(),
            ranges_from(plan.segments@, *layout, seq![], 0) == ranges_from(
                plan.segments@,
                *layout,
                ranges@,
                i as int,
            ),
        decreases plan.segments@.len() - i,
    {
        match check_segment(&plan.segments[i], layout) {
            Err(e) => return Err(e),
            Ok(None) => {},
            Ok(Some(range)) => {
                ranges.push(range);
            },
        }
        i += 1;
    }
    ranges.push((layout.stack_base, layout.stack_top));
    let all: usize = match page_table_frame_demand(ranges.as_slice()) {
        Ok(all) => all,
        Err(e) => return Err(e),
    };
    let frames: usize = if layout.user_region_base < LINUX_USER_WINDOW_BASE {
        all - 2
    } else {
        all
    };
    if frames + KERNEL_CARVE_OUT_PRIVATE_TABLE_FRAMES > MAX_ADDRESS_SPACE_PAGE_TABLE_FRAMES {
        return Err(LinuxImageError::PageTableBudgetExceeded);
    }
    let pages: u64 = match plan.mapped_pages {
        Ok(pages) => pages,
        Err(e) => return Err(LinuxImageError::LoadPlan(e)),
    };
    let total: u64 = match pages.checked_add(layout.stack_pages) {
        Some(total) => total,
        None => return Err(LinuxImageError::MappingBudgetExceeded),
    };
    if total > MAX_ADDRESS_SPACE_USER_MAPPINGS as u64 {
        return Err(LinuxImageError::MappingBudgetExceeded);
    }
    Ok((pages, frames))
}

/// What a validation finds before the stack: the address of the program headers, the image's pages
/// and the page-table frames, or the first reason to refuse the image.
pub open spec fn plan_checked(
    bytes: Seq<u8>,
    policy: LoadPolicy,
    layout: LinuxImageLayout,
    header: Result<Elf64Header, LoadPlanError>,
    plan: Result<LoadPlan, LoadPlanError>,
) -> Result<(u64, u64, usize), LinuxImageError> {
    match header {
        Err(e) => Err(LinuxImageError::LoadPlan(e)),
        Ok(header) => match prescanned(bytes, header, private_slot(policy)) {
            Err(e) => Err(e),
            Ok(()) => match plan {
                Err(e) => Err(LinuxImageError::LoadPlan(e)),
                Ok(plan) => if plan.has_interp {
                    Err(LinuxImageError::InterpreterNotAllowed)
                } else if plan.has_dynamic {
                    Err(LinuxImageError::DynamicNotAllowed)
                } else {
                    match plan.phdr_vaddr {
                        None => Err(LinuxImageError::ProgramHeadersNotMapped),
                        Some(phdr_vaddr) => match budgets(plan, layout) {
                            Err(e) => Err(e),
                            Ok((pages, frames)) => Ok((phdr_vaddr, pages, frames)),
                        },
                    }
                },
            },
        },
    }
}

fn check_plan(
    bytes: &[u8],
    policy: &LoadPolicy,
    layout: &LinuxImageLayout,
    header: &Result<Elf64Header, LoadPlanError>,
    plan: &Result<LoadPlan, LoadPlanError>,
) -> (r: Result<(u64, u64, usize), LinuxImageError>)
    ensures
        r == plan_checked(bytes@, *policy, *layout, *header, *plan),
{
    let header = match header {
        Ok(header) => header,
        Err(e) => return Err(LinuxImageError::LoadPlan(*e)),
    };
    let scanned = if policy.is_private_slot() {
        prescan_program_headers(bytes, header)
    } else {
        prescan_program_headers_minimal(bytes, header)
    };
    match scanned {
        Ok(()) => {},
        Err(e) => return Err(e),
    }
    let plan = match plan {
        Ok(plan) => plan,
        Err(e) => return Err(LinuxImageError::LoadPlan(*e)),
    };
    if plan.has_interp {
        return Err(LinuxImageError::InterpreterNotAllowed);
    }
    if plan.has_dynamic {
        return Err(LinuxImageError::DynamicNotAllowed);
    }
    let phdr_vaddr: u64 = match plan.phdr_vaddr {
        Some(phdr_vaddr) => phdr_vaddr,
        None => return Err(LinuxImageError::ProgramHeadersNotMapped),
    };
    match validate_segment_layout_and_budgets(plan, layout) {
        Ok((pages, frames)) => Ok((phdr_vaddr, pages, frames)),
        Err(e) => Err(e),
    }
}

/// Whether a plan is the one that a validation gave.
pub open spec fn plan_from(
    image: LinuxImagePlan,
    checked: (u64, u64, usize),
    plan: LoadPlan,
    layout: LinuxImageLayout,
) -> bool {
    &&& image.plan == plan
    &&& image.entry == plan.entry
    &&& image.phdr_vaddr == checked.0
    &&& image.image_pages == checked.1
    &&& image.page_table_frames == checked.2
    &&& image.layout == layout
}

/// What a validation gives: the first reason to refuse the image or its stack, else the plan.
pub open spec fn validation_result(
    bytes: Seq<u8>,
    policy: LoadPolicy,
    layout: LinuxImageLayout,
    header: Result<Elf64Header, LoadPlanError>,
    plan: Result<LoadPlan, LoadPlanError>,
    built: Result<StackImage, StackLayoutError>,
    r: Result<LinuxImagePlan, LinuxImageError>,
) -> bool {
    match plan_checked(bytes, policy, layout, header, plan) {
        Err(e) => r == Err::<LinuxImagePlan, LinuxImageError>(e),
        Ok(checked) => match built {
            Err(e) => r == Err::<LinuxImagePlan, LinuxImageError>(
                LinuxImageError::InitialStack(e),
            ),
            Ok(image) => if !rsp_allowed(image.rsp, layout) {
                r == Err::<LinuxImagePlan, LinuxImageError>(
                    LinuxImageError::InitialStack(StackLayoutError::InvalidStackTop),
                )
            } else {
                &&& r is Ok
                &&& plan_from(r->Ok_0, checked, plan->Ok_0, layout)
                &&& r->Ok_0.initial_stack.stack_top == layout.stack_top
                &&& r->Ok_0.initial_stack.bytes@ == image.bytes@
                &&& r->Ok_0.initial_stack.rsp == image.rsp
                &&& r->Ok_0.initial_stack.auxv@ == launch_auxv(
                    plan->Ok_0.entry,
                    checked.0,
                    plan->Ok_0.phnum,
                )
            },
        },
    }
}

/// Validates an image under a policy and a layout. `header` and `plan` are what parsing the file gave,
/// `built` the bytes of its initial stack.
pub fn validate_linux_image_with_policy(
    bytes: &[u8],
    policy: &LoadPolicy,
    layout: LinuxImageLayout,
    header: Result<Elf64Header, LoadPlanError>,
    plan: Result<LoadPlan, LoadPlanError>,
    built: Result<StackImage, StackLayoutError>,
) -> (r: Result<LinuxImagePlan, LinuxImageError>)
    ensures
        validation_result(bytes@, *policy, layout, header, plan, built, r),
{
    let (phdr_vaddr, image_pages, page_table_frames) = match check_plan(
        bytes,
        policy,
        &layout,
        &header,
        &plan,
    ) {
        Ok(checked) => checked,
        Err(e) => return Err(e),
    };
    let plan = match plan {
        Ok(plan) => plan,
        Err(e) => return Err(LinuxImageError::LoadPlan(e)),
    };
    let initial_stack = match build_linux_initial_stack(
        plan.entry,
        phdr_vaddr,
        plan.phnum,
        &layout,
        built,
    ) {
        Ok(stack) => stack,
        Err(e) => return Err(e),
    };
    Ok(
        finish_linux_image_plan(
            plan,
            phdr_vaddr,
            image_pages,
            page_table_frames,
            initial_stack,
            layout,
        ),
    )
}

/// Validates an image for the private slot.
pub fn validate_linux_image(
    bytes: &[u8],
    header: Result<Elf64Header, LoadPlanError>,
    plan: Result<LoadPlan, LoadPlanError>,
    built: Result<StackImage, StackLayoutError>,
) -> (r: Result<LinuxImagePlan, LinuxImageError>)
    ensures
        ({
            let policy = LoadPolicy {
                user_va_lo: LINUX_USER_WINDOW_BASE,
                user_va_hi: super::layout::LINUX_USER_WINDOW_END,
            };
            validation_result(bytes@, policy, legacy_layout(), header, plan, built, r)
        }),
{
    let policy = LoadPolicy::linux_m8();
    validate_linux_image_with_policy(
        bytes,
        &policy,
        LinuxImageLayout::m8_legacy(),
        header,
        plan,
        built,
    )
}

/// Validates an image at conventional addresses. The policy's window is `policy`.
pub fn validate_linux_low_va_image(
    bytes: &[u8],
    policy: &LoadPolicy,
    header: Result<Elf64Header, LoadPlanError>,
    plan: Result<LoadPlan, LoadPlanError>,
    built: Result<StackImage, StackLayoutError>,
) -> (r: Result<LinuxImagePlan, LinuxImageError>)
    requires
        !private_slot(*policy),
    ensures
        match header {
            Err(e) => r == Err::<LinuxImagePlan, LinuxImageError>(LinuxImageError::LoadPlan(e)),
            Ok(h) => match prescanned(bytes@, h, false) {
                Err(e) => r == Err::<LinuxImagePlan, LinuxImageError>(e),
                Ok(()) => match plan {
                    Err(e) => r == Err::<LinuxImagePlan, LinuxImageError>(
                        LinuxImageError::LoadPlan(e),
                    ),
                    Ok(p) => match p.image_base {
                        None => r == Err::<LinuxImagePlan, LinuxImageError>(
                            LinuxImageError::LoadPlan(LoadPlanError::NoLoadSegments),
                        ),
                        Some(base) => {
                            let layout = low_layout(
                                floor_to(base as int, PAGE_SIZE as int) as u64,
                                LINUX_STACK_PAGES,
                                LINUX_CONVENTIONAL_USER_VA_LO,
                                LINUX_LOW_VA_ARGV0,
                            );
                            validation_result(bytes@, *policy, layout, header, plan, built, r)
                        },
                    },
                },
            },
        },
{
    let h = match &header {
        Ok(h) => h,
        Err(e) => return Err(LinuxImageError::LoadPlan(*e)),
    };
    match prescan_program_headers_minimal(bytes, h) {
        Ok(()) => {},
        Err(e) => return Err(e),
    }
    let base: u64 = match &plan {
        Err(e) => return Err(LinuxImageError::LoadPlan(*e)),
        Ok(p) => match p.image_base {
            Some(base) => base,
            None => return Err(LinuxImageError::LoadPlan(LoadPlanError::NoLoadSegments)),
        },
    };
    proof {
        lemma_page_alignments();
    }
    let layout = LinuxImageLayout::conventional(align_down(base, PAGE_SIZE));
    validate_linux_image_with_policy(bytes, policy, layout, header, plan, built)
}

/// Validates an image with an initial stack that the caller made.
pub fn validate_linux_image_with_stack(
    bytes: &[u8],
    policy: &LoadPolicy,
    layout: LinuxImageLayout,
    header: Result<Elf64Header, LoadPlanError>,
    plan: Result<LoadPlan, LoadPlanError>,
    initial_stack: LinuxInitialStack,
) -> (r: Result<LinuxImagePlan, LinuxImageError>)
    ensures
        match plan_checked(bytes@, *policy, layout, header, plan) {
            Err(e) => r == Err::<LinuxImagePlan, LinuxImageError>(e),
            Ok(checked) => if initial_stack.stack_top != layout.stack_top || initial_stack.rsp
                < layout.stack_base || initial_stack.rsp >= layout.stack_top {
                r == Err::<LinuxImagePlan, LinuxImageError>(
                    LinuxImageError::InitialStack(StackLayoutError::InvalidStackTop),
                )
            } else {
                &&& r is Ok
                &&& plan_from(r->Ok_0, checked, plan->Ok_0, layout)
                &&& r->Ok_0.initial_stack == initial_stack
            },
        },
{
    let (phdr_vaddr, image_pages, page_table_frames) = match check_plan(
        bytes,
        policy,
        &layout,
        &header,
        &plan,
    ) {
        Ok(checked) => checked,
        Err(e) => return Err(e),
    };
    let plan = match plan {
        Ok(plan) => plan,
        Err(e) => return Err(LinuxImageError::LoadPlan(e)),
    };
    if initial_stack.stack_top != layout.stack_top || initial_stack.rsp < layout.stack_base
        || initial_stack.rsp >= layout.stack_top {
        return Err(LinuxImageError::InitialStack(StackLayoutError::InvalidStackTop));
    }
    Ok(
        finish_linux_image_plan(
            plan,
            phdr_vaddr,
            image_pages,
            page_table_frames,
            initial_stack,
            layout,
        ),
    )
}

fn finish_linux_image_plan(
    plan: LoadPlan,
    phdr_vaddr: u64,
    image_pages: u64,
    page_table_frames: usize,
    initial_stack: LinuxInitialStack,
    layout: LinuxImageLayout,
) -> (r: LinuxImagePlan)
    ensures
        plan_from(r, (phdr_vaddr, image_pages, page_table_frames), plan, layout),
        r.initial_stack == initial_stack,
{
    let entry: u64 = plan.entry;
    LinuxImagePlan {
        plan,
        entry,
        phdr_vaddr,
        image_pages,
        page_table_frames,
        initial_stack,
        layout,
    }
}

/// A validated image leaves the guard page and the stack free, stays inside its window, and fits into
/// an address space together with its stack.
pub proof fn law_validated_image_fits(plan: LoadPlan, layout: LinuxImageLayout, k: int)
    requires
        budgets(plan, layout) is Ok,
        0 <= k < plan.segments@.len(),
        span_of(plan.segments@[k]) is Ok,
        (span_of(plan.segments@[k])->Ok_0).1 > 0,
    ensures
        ({
            let (first, pages) = span_of(plan.segments@[k])->Ok_0;
            &&& layout.window_base <= first
            &&& first + pages * PAGE_SIZE <= layout.stack_reservation_start
            &&& first + pages * PAGE_SIZE <= layout.window_end
        }),
        (budgets(plan, layout)->Ok_0).0 + layout.stack_pages <= MAX_ADDRESS_SPACE_USER_MAPPINGS,
        (budgets(plan, layout)->Ok_0).1 + KERNEL_CARVE_OUT_PRIVATE_TABLE_FRAMES
            <= MAX_ADDRESS_SPACE_PAGE_TABLE_FRAMES,
{
    lemma_segment_checked(plan.segments@, layout, seq![], 0, k);
}

proof fn lemma_segment_checked(
    segments: Seq<LoadSegment>,
    layout: LinuxImageLayout,
    ranges: Seq<(u64, u64)>,
    from: int,
    k: int,
)
    requires
        0 <= from <= k < segments.len(),
        ranges_from(segments, layout, ranges, from) is Ok,
    ensures
        segment_pages(segments[k], layout) is Ok,
    decreases k - from,
{
    if from < k {
        match segment_pages(segments[from], layout) {
            Ok(Some(range)) => {
                lemma_segment_checked(segments, layout, ranges.push(range), from + 1, k);
            },
            _ => {
                lemma_segment_checked(segments, layout, ranges, from + 1, k);
            },
        }
    }
}

} // verus!
