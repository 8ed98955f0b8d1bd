//! What the loader knows of a parsed ELF file, as plain values.

use super::error::LoadPlanError;
use super::layout::{LINUX_USER_WINDOW_BASE, LINUX_USER_WINDOW_END};
use crate::mm::{align_down, align_up, ceil_to, floor_to, lemma_page_alignments, PAGE_SIZE};
use vstd::prelude::*;

verus! {

pub const PT_LOAD: u32 = 1;

pub const PT_DYNAMIC: u32 = 2;

pub const PT_INTERP: u32 = 3;

/// Size of a program header.
pub const ELF64_PHDR_SIZE: u16 = 56;

/// Segments that an image may have.
pub const MAX_LOAD_SEGMENTS: usize = 16;

/// Where a file's program headers are.
#[derive(Clone, Copy, Debug, PartialEq, Eq, Structural)]
pub struct Elf64Header {
    pub e_phoff: u64,
    pub e_phnum: u16,
    pub e_phentsize: u16,
}

/// The user addresses that a load policy allows.
#[derive(Clone, Copy, Debug, PartialEq, Eq, Structural)]
pub struct LoadPolicy {
    pub user_va_lo: u64,
    pub user_va_hi: u64,
}

/// Whether a policy is that of the private slot.
pub open spec fn private_slot(policy: LoadPolicy) -> bool {
    policy.user_va_lo == LINUX_USER_WINDOW_BASE && policy.user_va_hi == LINUX_USER_WINDOW_END
}

impl LoadPolicy {
    /// The policy of the private slot.
    pub fn linux_m8() -> (r: LoadPolicy)
        ensures
            private_slot(r),
    {
        LoadPolicy { user_va_lo: LINUX_USER_WINDOW_BASE, user_va_hi: LINUX_USER_WINDOW_END }
    }

    pub fn is_private_slot(&self) -> (r: bool)
        ensures
            r == private_slot(*self),
    {
        self.user_va_lo == LINUX_USER_WINDOW_BASE && self.user_va_hi == LINUX_USER_WINDOW_END
    }
}

/// A segment to be loaded.
#[derive(Clone, Copy, Debug, PartialEq, Eq, Structural)]
pub struct LoadSegment {
    pub vaddr: u64,
    pub memsz: u64,
    pub align: u64,
}

/// The pages that a segment touches: the first one's address and their number.
pub open spec fn span_of(segment: LoadSegment) -> Result<(u64, u64), LoadPlanError> {
    let end = segment.vaddr + segment.memsz;
    let first = floor_to(segment.vaddr as int, PAGE_SIZE as int);
    if end + PAGE_SIZE - 1 > u64::MAX {
        Err(LoadPlanError::VaddrRangeOverflow)
    } else if segment.memsz == 0 {
        Ok((first as u64, 0))
    } else {
        Ok((first as u64, ((ceil_to(end, PAGE_SIZE as int) - first) / PAGE_SIZE as int) as u64))
    }
}

impl LoadSegment {
    pub fn page_span(&self) -> (r: Result<(u64, u64), LoadPlanError>)
        ensures
            r == span_of(*self),
    {
        proof {
            lemma_page_alignments();
        }
        let end: u64 = match self.vaddr.checked_add(self.memsz) {
            Some(end) => end,
            None => return Err(LoadPlanError::VaddrRangeOverflow),
        };
        if end > u64::MAX - (PAGE_SIZE - 1) {
            return Err(LoadPlanError::VaddrRangeOverflow);
        }
        let first: u64 = align_down(self.vaddr, PAGE_SIZE);
        if self.memsz == 0 {
            return Ok((first, 0));
        }
        let top: u64 = align_up(end, PAGE_SIZE);
        Ok((first, (top - first) / PAGE_SIZE))
    }
}

/// What parsing an ELF file under a policy gave.
#[derive(Debug, PartialEq, Eq)]
pub struct LoadPlan {
    pub segments: Vec<LoadSegment>,
    /// The launch address.
    pub entry: u64,
    pub phnum: u16,
    /// Where the program headers are mapped, if a segment covers them.
    pub phdr_vaddr: Option<u64>,
    pub has_interp: bool,
    pub has_dynamic: bool,
    /// The lowest address of a segment.
    pub image_base: Option<u64>,
    /// The distinct pages of all segments.
    pub mapped_pages: Result<u64, LoadPlanError>,
}

/// The highest end of the segments from `from` on, at least `high`.
pub open spec fn segments_end(segments: Seq<LoadSegment>, high: int, from: int) -> int
    decreases segments.len() - from,
{
    if from < 0 || from >= segments.len() {
        high
    } else {
        let end = segments[from].vaddr + segments[from].memsz;
        let capped = if end > u64::MAX {
            u64::MAX as int
        } else {
            end
        };
        segments_end(
            segments,
            if capped > high {
                capped
            } else {
                high
            },
            from + 1,
        )
    }
}

/// Where the heap of an image starts: at the first page above its segments.
pub fn brk_initial_from_load_plan(plan: &LoadPlan) -> (r: u64)
    requires
        segments_end(plan.segments@, 0, 0) + PAGE_SIZE - 1 <= u64::MAX,
    ensures
        r == ceil_to(segments_end(plan.segments@, 0, 0), PAGE_SIZE as int),
{
    proof {
        lemma_page_alignments();
    }
    let mut high: u64 = 0;
    let mut i: usize = 0;
    while i < plan.segments.len()
        invariant
            0 <= i <= plan.segments@.len(),
            segments_end(plan.segments@, 0, 0) == segments_end(
                plan.segments@,
                high as int,
                i as int,
            ),
        decreases plan.segments@.len() - i,
    {
        let segment = plan.segments[i];
        let end: u64 = match segment.vaddr.checked_add(segment.memsz) {
            Some(end) => end,
            None => u64::MAX,
        };
        if end > high {
            high = end;
        }
        i += 1;
    }
    align_up(high, PAGE_SIZE)
}

} // verus!
