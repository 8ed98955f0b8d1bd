//! Why an image is not loaded.

use vstd::prelude::*;

verus! {

/// What can be wrong with an ELF file.
#[derive(Clone, Copy, Debug, PartialEq, Eq, Structural)]
pub enum LoadPlanError {
    TruncatedHeader,
    BadMagic,
    BadClass,
    BadEndian,
    BadVersion,
    BadMachine,
    TruncatedProgramHeaders,
    BadPhentsize,
    FileszGreaterThanMemsz,
    FileRangeOverflow,
    FileRangeBeyondEof,
    VaddrRangeOverflow,
    NonCanonicalVaddr,
    OutOfWindowVaddr,
    PageZero,
    AlignmentViolation,
    OffsetVaddrCongruenceViolation,
    SegmentOverlap,
    SegmentBudgetExceeded,
    EntryOutsideExecutableSegment,
    WriteExecuteConflict,
    NoLoadSegments,
    UnsupportedEType,
    ArithmeticOverflow,
}

/// What can be wrong with an initial stack.
#[derive(Clone, Copy, Debug, PartialEq, Eq, Structural)]
pub enum StackLayoutError {
    BufferTooSmall,
    InvalidStackTop,
    StringOverflow,
    PrematureAtNull,
}

/// Why an image is not loaded or not run.
#[derive(Clone, Copy, Debug, PartialEq, Eq)]
pub enum LinuxImageError {
    /// The file or one of its segments is malformed, or the policy does not allow it.
    LoadPlan(LoadPlanError),
    /// A segment touches page zero.
    PageZero,
    /// A segment lies below the private slot, in the kernel's identity map.
    IdentityMapVaddr,
    /// A segment lies at or above the top of userspace.
    KernelHalfVaddr,
    /// A segment extends past the private slot.
    OutOfWindow,
    /// A segment's end overflows.
    VaddrOverflow,
    /// The file asks for a dynamic loader.
    InterpreterNotAllowed,
    /// The file is dynamically linked.
    DynamicNotAllowed,
    /// A segment is aligned to less than a page.
    AlignmentBelowPageSize,
    /// A segment touches the guard page or the stack.
    SegmentOverlapsStackReservation,
    /// No segment covers the program headers.
    ProgramHeadersNotMapped,
    /// Image and stack have more pages than an address space takes.
    MappingBudgetExceeded,
    /// Image and stack need more page tables than an address space takes.
    PageTableBudgetExceeded,
    /// The initial stack cannot be laid out.
    InitialStack(StackLayoutError),
    AddressSpaceCreation(&'static str),
    SegmentMapping(&'static str),
    StackMapping(&'static str),
    StackImageWrite(&'static str),
    /// The guard page was found mapped.
    GuardPageMapped,
    EntryFrame(&'static str),
    IdAllocation(&'static str),
    Registry(&'static str),
    Scheduler(&'static str),
    /// Giving resources back failed; some may be lost.
    Rollback(&'static str),
    /// Too many arguments, or too many bytes of arguments and environment.
    ExecArgvBounds,
    /// Too many environment strings.
    ExecEnvBounds,
    /// A number of stack pages that is not allowed.
    ExecStackBounds,
    /// The process has more than one thread.
    ExecMultiThread,
    /// The process is not the one that asked.
    ExecGenerationMismatch,
}

/// The message for an error in a file.
pub open spec fn load_plan_message(error: LoadPlanError) -> &'static str {
    match error {
        LoadPlanError::TruncatedHeader => "linux image: truncated ELF header",
        LoadPlanError::BadMagic => "linux image: bad ELF magic",
        LoadPlanError::BadClass => "linux image: not ELFCLASS64",
        LoadPlanError::BadEndian => "linux image: not little-endian",
        LoadPlanError::BadVersion => "linux image: unsupported ELF version",
        LoadPlanError::BadMachine => "linux image: not EM_X86_64",
        LoadPlanError::TruncatedProgramHeaders => "linux image: program headers beyond file",
        LoadPlanError::BadPhentsize => "linux image: e_phentsize != 56",
        LoadPlanError::FileszGreaterThanMemsz => "linux image: p_filesz > p_memsz",
        LoadPlanError::FileRangeOverflow => "linux image: p_offset + p_filesz overflow",
        LoadPlanError::FileRangeBeyondEof => "linux image: p_offset + p_filesz beyond file",
        LoadPlanError::VaddrRangeOverflow => "linux image: p_vaddr + p_memsz overflow",
        LoadPlanError::NonCanonicalVaddr => "linux image: non-canonical p_vaddr",
        LoadPlanError::OutOfWindowVaddr => "linux image: p_vaddr outside policy window",
        LoadPlanError::PageZero => "linux image: PT_LOAD touches page zero",
        LoadPlanError::AlignmentViolation => "linux image: p_align not a power of two",
        LoadPlanError::OffsetVaddrCongruenceViolation =>
            "linux image: p_vaddr % p_align != p_offset % p_align",
        LoadPlanError::SegmentOverlap => "linux image: PT_LOAD segments overlap",
        LoadPlanError::SegmentBudgetExceeded => "linux image: too many PT_LOAD segments",
        LoadPlanError::EntryOutsideExecutableSegment =>
            "linux image: e_entry outside an executable PT_LOAD",
        LoadPlanError::WriteExecuteConflict => "linux image: PT_LOAD is writable and executable",
        LoadPlanError::NoLoadSegments => "linux image: no PT_LOAD segments",
        LoadPlanError::UnsupportedEType => "linux image: e_type is not ET_EXEC",
        LoadPlanError::ArithmeticOverflow => "linux image: arithmetic overflow",
    }
}

/// The message for an error.
pub open spec fn image_message(error: LinuxImageError) -> &'static str {
    match error {
        LinuxImageError::LoadPlan(error) => load_plan_message(error),
        LinuxImageError::PageZero => "linux image: PT_LOAD touches page zero",
        LinuxImageError::IdentityMapVaddr => "linux image: PT_LOAD inside kernel identity map",
        LinuxImageError::KernelHalfVaddr =>
            "linux image: PT_LOAD in kernel half of the address space",
        LinuxImageError::OutOfWindow => "linux image: PT_LOAD outside the private user window",
        LinuxImageError::VaddrOverflow => "linux image: p_vaddr + p_memsz overflow",
        LinuxImageError::InterpreterNotAllowed => "linux image: PT_INTERP not supported in M8",
        LinuxImageError::DynamicNotAllowed => "linux image: PT_DYNAMIC not supported in M8",
        LinuxImageError::AlignmentBelowPageSize => "linux image: p_align below page size",
        LinuxImageError::SegmentOverlapsStackReservation =>
            "linux image: PT_LOAD overlaps reserved stack/guard range",
        LinuxImageError::ProgramHeadersNotMapped =>
            "linux image: program headers not inside a PT_LOAD",
        LinuxImageError::MappingBudgetExceeded =>
            "linux image: mapped pages exceed address-space bound",
        LinuxImageError::PageTableBudgetExceeded => "linux image: page-table frames exceed bound",
        LinuxImageError::InitialStack(error) => match error {
            StackLayoutError::BufferTooSmall => "linux image: initial stack image buffer too small",
            StackLayoutError::InvalidStackTop => "linux image: initial stack top invalid",
            StackLayoutError::StringOverflow => "linux image: initial stack string overflow",
            StackLayoutError::PrematureAtNull =>
                "linux image: initial stack auxv contained AT_NULL",
        },
        LinuxImageError::AddressSpaceCreation(message) => message,
        LinuxImageError::SegmentMapping(message) => message,
        LinuxImageError::StackMapping(message) => message,
        LinuxImageError::StackImageWrite(message) => message,
        LinuxImageError::EntryFrame(message) => message,
        LinuxImageError::IdAllocation(message) => message,
        LinuxImageError::Registry(message) => message,
        LinuxImageError::Scheduler(message) => message,
        LinuxImageError::Rollback(message) => message,
        LinuxImageError::GuardPageMapped => "linux image: stack guard page was mapped",
        LinuxImageError::ExecArgvBounds =>
            "linux image: exec argv/env byte or count bounds exceeded",
        LinuxImageError::ExecEnvBounds => "linux image: exec env count bounds exceeded",
        LinuxImageError::ExecStackBounds => "linux image: exec stack page budget invalid",
        LinuxImageError::ExecMultiThread => "linux image: exec with multiple live threads",
        LinuxImageError::ExecGenerationMismatch => "linux image: exec generation mismatch",
    }
}

fn load_plan_error_description(error: LoadPlanError) -> (r: &'static str)
    ensures
        r == load_plan_message(error),
{
    match error {
        LoadPlanError::TruncatedHeader => "linux image: truncated ELF header",
        LoadPlanError::BadMagic => "linux image: bad ELF magic",
        LoadPlanError::BadClass => "linux image: not ELFCLASS64",
        LoadPlanError::BadEndian => "linux image: not little-endian",
        LoadPlanError::BadVersion => "linux image: unsupported ELF version",
        LoadPlanError::BadMachine => "linux image: not EM_X86_64",
        LoadPlanError::TruncatedProgramHeaders => "linux image: program headers beyond file",
        LoadPlanError::BadPhentsize => "linux image: e_phentsize != 56",
        LoadPlanError::FileszGreaterThanMemsz => "linux image: p_filesz > p_memsz",
        LoadPlanError::FileRangeOverflow => "linux image: p_offset + p_filesz overflow",
        LoadPlanError::FileRangeBeyondEof => "linux image: p_offset + p_filesz beyond file",
        LoadPlanError::VaddrRangeOverflow => "linux image: p_vaddr + p_memsz overflow",
        LoadPlanError::NonCanonicalVaddr => "linux image: non-canonical p_vaddr",
        LoadPlanError::OutOfWindowVaddr => "linux image: p_vaddr outside policy window",
        LoadPlanError::PageZero => "linux image: PT_LOAD touches page zero",
        LoadPlanError::AlignmentViolation => "linux image: p_align not a power of two",
        LoadPlanError::OffsetVaddrCongruenceViolation => {
            "linux image: p_vaddr % p_align != p_offset % p_align"
        },
        LoadPlanError::SegmentOverlap => "linux image: PT_LOAD segments overlap",
        LoadPlanError::SegmentBudgetExceeded => "linux image: too many PT_LOAD segments",
        LoadPlanError::EntryOutsideExecutableSegment => {
            "linux image: e_entry outside an executable PT_LOAD"
        },
        LoadPlanError::WriteExecuteConflict => "linux image: PT_LOAD is writable and executable",
        LoadPlanError::NoLoadSegments => "linux image: no PT_LOAD segments",
        LoadPlanError::UnsupportedEType => "linux image: e_type is not ET_EXEC",
        LoadPlanError::ArithmeticOverflow => "linux image: arithmetic overflow",
    }
}

impl LinuxImageError {
    /// The message for the kernel's log.
    pub fn description(&self) -> (r: &'static str)
        ensures
            r == image_message(*self),
    {
        match *self {
            LinuxImageError::LoadPlan(error) => load_plan_error_description(error),
            LinuxImageError::PageZero => "linux image: PT_LOAD touches page zero",
            LinuxImageError::IdentityMapVaddr => "linux image: PT_LOAD inside kernel identity map",
            LinuxImageError::KernelHalfVaddr => {
                "linux image: PT_LOAD in kernel half of the address space"
            },
            LinuxImageError::OutOfWindow => "linux image: PT_LOAD outside the private user window",
            LinuxImageError::VaddrOverflow => "linux image: p_vaddr + p_memsz overflow",
            LinuxImageError::InterpreterNotAllowed => {
                "linux image: PT_INTERP not supported in M8"
            },
            LinuxImageError::DynamicNotAllowed => "linux image: PT_DYNAMIC not supported in M8",
            LinuxImageError::AlignmentBelowPageSize => "linux image: p_align below page size",
            LinuxImageError::SegmentOverlapsStackReservation => {
                "linux image: PT_LOAD overlaps reserved stack/guard range"
            },
            LinuxImageError::ProgramHeadersNotMapped => {
                "linux image: program headers not inside a PT_LOAD"
            },
            LinuxImageError::MappingBudgetExceeded => {
                "linux image: mapped pages exceed address-space bound"
            },
            LinuxImageError::PageTableBudgetExceeded => {
                "linux image: page-table frames exceed bound"
            },
            LinuxImageError::InitialStack(error) => match error {
                StackLayoutError::BufferTooSmall => {
                    "linux image: initial stack image buffer too small"
                },
                StackLayoutError::InvalidStackTop => "linux image: initial stack top invalid",
                StackLayoutError::StringOverflow => "linux image: initial stack string overflow",
                StackLayoutError::PrematureAtNull => {
                    "linux image: initial stack auxv contained AT_NULL"
                },
            },
            LinuxImageError::AddressSpaceCreation(message) => message,
            LinuxImageError::SegmentMapping(message) => message,
            LinuxImageError::StackMapping(message) => message,
            LinuxImageError::StackImageWrite(message) => message,
            LinuxImageError::EntryFrame(message) => message,
            LinuxImageError::IdAllocation(message) => message,
            LinuxImageError::Registry(message) => message,
            LinuxImageError::Scheduler(message) => message,
            LinuxImageError::Rollback(message) => message,
            LinuxImageError::GuardPageMapped => "linux image: stack guard page was mapped",
            LinuxImageError::ExecArgvBounds => {
                "linux image: exec argv/env byte or count bounds exceeded"
            },
            LinuxImageError::ExecEnvBounds => "linux image: exec env count bounds exceeded",
            LinuxImageError::ExecStackBounds => "linux image: exec stack page budget invalid",
            LinuxImageError::ExecMultiThread => "linux image: exec with multiple live threads",
            LinuxImageError::ExecGenerationMismatch => "linux image: exec generation mismatch",
        }
    }
}

impl From<LoadPlanError> for LinuxImageError {
    fn from(error: LoadPlanError) -> (r: LinuxImageError) {
        LinuxImageError::LoadPlan(error)
    }
}

impl vstd::std_specs::convert::FromSpecImpl<LoadPlanError> for LinuxImageError {
    open spec fn obeys_from_spec() -> bool {
        true
    }

    open spec fn from_spec(error: LoadPlanError) -> LinuxImageError {
        LinuxImageError::LoadPlan(error)
    }
}

} // verus!
