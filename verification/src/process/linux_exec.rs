//! Bounded Linux exec: preparing an image and putting it into a process.
//!
//! Parsing the file, laying the stack out and mapping pages happen elsewhere; the functions here take
//! what came of that.

use super::id_allocator::IdAllocator;
use super::lifecycle::{process_from, Process, ProcessRegistry, ResourceDomain};
use super::linux_fd::registry::{cloexec_done, FdRegistryModel, LinuxFdRegistry};
use super::linux_image::construct::{
    after_discard, build_failure, build_linux_process_image, LinuxProcessImage,
};
use super::linux_image::error::{LinuxImageError, LoadPlanError, StackLayoutError};
use super::linux_image::launch::{
    lemma_process_from, register_linux_process, registration_result, LaunchedLinuxProcess,
};
use super::linux_image::layout::{
    legacy_layout, low_layout, LinuxImageLayout, CONVENTIONAL_STACK_TOP,
    LINUX_MAX_STACK_IMAGE_BYTES, LINUX_STACK_PAGES,
};
use super::linux_image::load_plan::{
    brk_initial_from_load_plan, private_slot, segments_end, span_of, Elf64Header, LoadPlan,
    LoadPolicy, LoadSegment, ELF64_PHDR_SIZE,
};
use super::linux_image::validate::{
    build_linux_initial_stack, launch_auxv, plan_checked, ranges_from, rsp_allowed, segment_pages,
    validate_linux_image_with_stack, LinuxImagePlan, LinuxInitialStack, StackImage,
};
use super::linux_mem::{
    ensured, heap_range, mem_of, mem_released, release_ranges, unmap_all, with_state, MemModel,
    UnmapRange, LINUX_BRK_MAX_BYTES,
};
use super::linux_signal::signals_released;
use super::{linux_mem, linux_signal, InstanceGeneration};
use crate::abi::{
    LinuxErrno, AT_BASE, AT_EGID, AT_ENTRY, AT_EUID, AT_EXECFN, AT_FLAGS, AT_GID, AT_HWCAP,
    AT_PAGESZ, AT_PHDR, AT_PHENT, AT_PHNUM, AT_RANDOM, AT_SECURE, AT_UID, EINVAL, ENOEXEC,
};
use crate::mm::address_space::{destroy_process_address_space, torn_down, ProcessAddressSpace};
use crate::mm::frame_allocator::PageAllocator;
use crate::mm::{align_down, ceil_to, floor_to, lemma_page_alignments, PAGE_SIZE};
use crate::sched::wait::SyscallContext;
use crate::sched::{Scheduler, SchedulerModel, ThreadState, TASK_COUNT};
use vstd::prelude::*;
use vstd::string::StringSliceAdditionalSpecFns;

verus! {

pub const LINUX_EXEC_MAX_ARGS: usize = 16;

pub const LINUX_EXEC_MAX_ENVS: usize = 16;

pub const LINUX_EXEC_MAX_ARG_BYTES: usize = 1024;

pub const LINUX_EXEC_MAX_STACK_PAGES: u64 = 8;

/// Random bytes that a program finds on its stack.
pub const AT_RANDOM_BYTES: usize = 16;

/// The flags register at the start of a program.
pub const USER_TEST_RFLAGS: u64 = 0x202;

/// What is to be launched or executed.
#[derive(Clone, Copy, Debug)]
pub struct LinuxExecSpec<'a> {
    pub image: &'a [u8],
    pub argv: &'a [&'a [u8]],
    pub envp: &'a [&'a [u8]],
    pub exec_filename: &'a [u8],
    pub stack_pages: u64,
    pub policy: &'a LoadPolicy,
}

/// An image in an address space of its own, that no process has yet.
#[derive(Debug)]
pub struct PreparedLinuxImage {
    pub address_space: ProcessAddressSpace,
    pub entry: u64,
    pub launch_rsp: u64,
    pub image_pages: usize,
    pub page_table_frames: usize,
    pub brk_initial: u64,
    pub layout: LinuxImageLayout,
}

/// The bytes of the strings from `from` on, each with its terminator.
pub open spec fn string_bytes(strings: Seq<&[u8]>, from: int) -> int
    decreases strings.len() - from,
{
    if from < 0 || from >= strings.len() {
        0
    } else {
        strings[from]@.len() + 1 + string_bytes(strings, from + 1)
    }
}

/// Whether one of the strings is empty.
pub open spec fn any_empty(strings: Seq<&[u8]>) -> bool {
    exists|i: int| 0 <= i < strings.len() && (#[trigger] strings[i])@.len() == 0
}

/// Whether the strings and the stack size of an exec are within bounds.
pub open spec fn spec_checked(
    argv: Seq<&[u8]>,
    envp: Seq<&[u8]>,
    exec_filename: Seq<u8>,
    stack_pages: u64,
) -> Result<(), LinuxImageError> {
    if argv.len() == 0 || argv.len() > LINUX_EXEC_MAX_ARGS {
        Err(LinuxImageError::ExecArgvBounds)
    } else if envp.len() > LINUX_EXEC_MAX_ENVS {
        Err(LinuxImageError::ExecEnvBounds)
    } else if stack_pages == 0 || stack_pages > LINUX_EXEC_MAX_STACK_PAGES {
        Err(LinuxImageError::ExecStackBounds)
    } else if exec_filename.len() == 0 || any_empty(argv) || any_empty(envp) || string_bytes(
        argv,
        0,
    ) + string_bytes(envp, 0) + exec_filename.len() + 1 + AT_RANDOM_BYTES
        > LINUX_EXEC_MAX_ARG_BYTES {
        Err(LinuxImageError::ExecArgvBounds)
    } else {
        Ok(())
    }
}

proof fn lemma_string_bytes(strings: Seq<&[u8]>, from: int)
    requires
        0 <= from <= strings.len(),
    ensures
        string_bytes(strings, from) >= 0,
    decreases strings.len() - from,
{
    if from < strings.len() {
        lemma_string_bytes(strings, from + 1);
    }
}

/// Adds the bytes of some strings up; none where one is empty or the sum is too large to tell.
fn add_strings(strings: &[&[u8]], start: usize) -> (r: Option<usize>)
    ensures
        r is None <==> any_empty(strings@) || start + string_bytes(strings@, 0) > usize::MAX,
        r is Some ==> r->0 == start + string_bytes(strings@, 0),
{
    let mut total: usize = start;
    let mut i: usize = 0;
    while i < strings.len()
        invariant
            0 <= i <= strings@.len(),
            total + string_bytes(strings@, i as int) == start + string_bytes(strings@, 0),
            forall|k: int| 0 <= k < i ==> (#[trigger] strings@[k])@.len() != 0,
        decreases strings@.len() - i,
    {
        let len: usize = strings[i].len();
        proof {
            lemma_string_bytes(strings@, i + 1);
        }
        if len == 0 {
            assert(strings@[i as int]@.len() == 0);
            return None;
        }
        total = match total.checked_add(len) {
            Some(total) => total,
            None => return None,
        };
        total = match total.checked_add(1) {
            Some(total) => total,
            None => return None,
        };
        i += 1;
    }
    Some(total)
}

pub fn validate_spec_strings(spec: &LinuxExecSpec<'_>) -> (r: Result<(), LinuxImageError>)
    ensures
        r == spec_checked(spec.argv@, spec.envp@, spec.exec_filename@, spec.stack_pages),
{
    if spec.argv.len() == 0 || spec.argv.len() > LINUX_EXEC_MAX_ARGS {
        return Err(LinuxImageError::ExecArgvBounds);
    }
    if spec.envp.len() > LINUX_EXEC_MAX_ENVS {
        return Err(LinuxImageError::ExecEnvBounds);
    }
    if spec.stack_pages == 0 || spec.stack_pages > LINUX_EXEC_MAX_STACK_PAGES {
        return Err(LinuxImageError::ExecStackBounds);
    }
    if spec.exec_filename.len() == 0 {
        return Err(LinuxImageError::ExecArgvBounds);
    }
    proof {
        lemma_string_bytes(spec.argv@, 0);
        lemma_string_bytes(spec.envp@, 0);
    }
    let arguments: usize = match add_strings(spec.argv, 0) {
        Some(total) => total,
        None => return Err(LinuxImageError::ExecArgvBounds),
    };
    let strings: usize = match add_strings(spec.envp, arguments) {
        Some(total) => total,
        None => return Err(LinuxImageError::ExecArgvBounds),
    };
    let named: usize = match strings.checked_add(spec.exec_filename.len()) {
        Some(total) => total,
        None => return Err(LinuxImageError::ExecArgvBounds),
    };
    let total: usize = match named.checked_add(1 + AT_RANDOM_BYTES) {
        Some(total) => total,
        None => return Err(LinuxImageError::ExecArgvBounds),
    };
    if total > LINUX_EXEC_MAX_ARG_BYTES {
        return Err(LinuxImageError::ExecArgvBounds);
    }
    Ok(())
}

/// The byte of a word at a position, the lowest first.
pub open spec fn word_byte(word: u64, k: int) -> u8 {
    ((word >> (8 * k) as u64) & 0xff) as u8
}

/// The random bytes of a program: those of two words, or zeros where the machine gave none.
pub open spec fn random_bytes(supported: bool, words: Seq<Option<u64>>) -> Seq<u8> {
    Seq::new(
        AT_RANDOM_BYTES as nat,
        |i: int|
            if !supported || words[0] is None || words[1] is None {
                0
            } else {
                word_byte(words[i / 8]->0, i % 8)
            },
    )
}

/// Makes the random bytes of a program from two words of the machine's random source.
pub fn fill_at_random(supported: bool, words: &[Option<u64>; 2]) -> (r: [u8; AT_RANDOM_BYTES])
    ensures
        r@ == random_bytes(supported, words@),
{
    let mut out: [u8; AT_RANDOM_BYTES] = [0; AT_RANDOM_BYTES];
    if supported && words[0].is_some() && words[1].is_some() {
        let mut i: usize = 0;
        while i < AT_RANDOM_BYTES
            invariant
                0 <= i <= AT_RANDOM_BYTES,
                supported,
                words@[0] is Some,
                words@[1] is Some,
                forall|k: int|
                    0 <= k < i ==> #[trigger] out@[k] == random_bytes(supported, words@)[k],
            decreases AT_RANDOM_BYTES - i,
        {
            let word: u64 = match words[i / 8] {
                Some(word) => word,
                None => 0,
            };
            let shift: u64 = (8 * (i % 8)) as u64;
            out[i] = ((word >> shift) & 0xff) as u8;
            i += 1;
        }
    }
    assert(out@ =~= random_bytes(supported, words@));
    out
}

/// Bytes that the stack builder puts behind the strings.
#[derive(Debug, PartialEq, Eq)]
pub struct StackTailBlob {
    pub bytes: Vec<u8>,
    pub nul_terminate: bool,
}

/// What lies behind the strings of an exec's stack: the file name and the random bytes.
pub fn exec_stack_tail(exec_filename: &[u8], random: &[u8; AT_RANDOM_BYTES]) -> (r: Vec<
    StackTailBlob,
>)
    ensures
        r@.len() == 2,
        r@[0].bytes@ == exec_filename@,
        r@[0].nul_terminate,
        r@[1].bytes@ == random@,
        !r@[1].nul_terminate,
{
    let mut tail: Vec<StackTailBlob> = Vec::new();
    tail.push(
        StackTailBlob { bytes: vstd::slice::slice_to_vec(exec_filename), nul_terminate: true },
    );
    tail.push(
        StackTailBlob {
            bytes: vstd::slice::slice_to_vec(random.as_slice()),
            nul_terminate: false,
        },
    );
    tail
}

/// The auxiliary vector of an executed program, without its terminator.
pub open spec fn exec_auxv(
    entry: u64,
    phdr_vaddr: u64,
    phnum: u16,
    random_vaddr: u64,
    execfn_vaddr: u64,
) -> Seq<(u64, u64)> {
    seq![
        (AT_PAGESZ, PAGE_SIZE),
        (AT_HWCAP, 0),
        (AT_PHDR, phdr_vaddr),
        (AT_PHENT, ELF64_PHDR_SIZE as u64),
        (AT_PHNUM, phnum as u64),
        (AT_RANDOM, random_vaddr),
        (AT_UID, 0),
        (AT_EUID, 0),
        (AT_GID, 0),
        (AT_EGID, 0),
        (AT_SECURE, 0),
        (AT_BASE, 0),
        (AT_FLAGS, 0),
        (AT_ENTRY, entry),
        (AT_EXECFN, execfn_vaddr),
    ]
}

/// Makes the auxiliary vector of an executed program. With both addresses zero it is the one with
/// which the stack is laid out to find them.
pub fn linux_exec_auxv(
    entry: u64,
    phdr_vaddr: u64,
    phnum: u16,
    random_vaddr: u64,
    execfn_vaddr: u64,
) -> (r: Vec<(u64, u64)>)
    ensures
        r@ == exec_auxv(entry, phdr_vaddr, phnum, random_vaddr, execfn_vaddr),
{
    let mut auxv: Vec<(u64, u64)> = Vec::new();
    auxv.push((AT_PAGESZ, PAGE_SIZE));
    auxv.push((AT_HWCAP, 0));
    auxv.push((AT_PHDR, phdr_vaddr));
    auxv.push((AT_PHENT, ELF64_PHDR_SIZE as u64));
    auxv.push((AT_PHNUM, phnum as u64));
    auxv.push((AT_RANDOM, random_vaddr));
    auxv.push((AT_UID, 0));
    auxv.push((AT_EUID, 0));
    auxv.push((AT_GID, 0));
    auxv.push((AT_EGID, 0));
    auxv.push((AT_SECURE, 0));
    auxv.push((AT_BASE, 0));
    auxv.push((AT_FLAGS, 0));
    auxv.push((AT_ENTRY, entry));
    auxv.push((AT_EXECFN, execfn_vaddr));
    assert(auxv@ =~= exec_auxv(entry, phdr_vaddr, phnum, random_vaddr, execfn_vaddr));
    auxv
}

/// Where the stack builder put the tail.
#[derive(Clone, Copy, Debug, PartialEq, Eq, Structural)]
pub struct StackTail {
    pub execfn_vaddr: u64,
    pub random_vaddr: u64,
}

/// The size of an exec's stack image, if it may have that size.
pub open spec fn exec_stack_bytes(layout: LinuxImageLayout) -> Result<usize, LinuxImageError> {
    let bytes = layout.stack_pages * PAGE_SIZE;
    if bytes == 0 || bytes > LINUX_MAX_STACK_IMAGE_BYTES {
        Err(LinuxImageError::ExecStackBounds)
    } else {
        Ok(bytes as usize)
    }
}

/// The size of the buffer in which an exec's stack is laid out.
pub fn exec_stack_image_bytes(layout: &LinuxImageLayout) -> (r: Result<usize, LinuxImageError>)
    ensures
        r == exec_stack_bytes(*layout),
{
    let bytes: u64 = match layout.stack_pages.checked_mul(PAGE_SIZE) {
        Some(bytes) => bytes,
        None => return Err(LinuxImageError::ExecStackBounds),
    };
    if bytes == 0 || bytes > LINUX_MAX_STACK_IMAGE_BYTES as u64 {
        return Err(LinuxImageError::ExecStackBounds);
    }
    Ok(bytes as usize)
}

/// Why an exec has no initial stack.
pub open spec fn exec_stack_failure(
    layout: LinuxImageLayout,
    probe: Result<StackTail, StackLayoutError>,
    built: Result<StackImage, StackLayoutError>,
) -> Option<LinuxImageError> {
    match exec_stack_bytes(layout) {
        Err(e) => Some(e),
        Ok(_) => match probe {
            Err(e) => Some(LinuxImageError::InitialStack(e)),
            Ok(_) => match built {
                Err(e) => Some(LinuxImageError::InitialStack(e)),
                Ok(image) => if !rsp_allowed(image.rsp, layout) {
                    Some(LinuxImageError::InitialStack(StackLayoutError::InvalidStackTop))
                } else {
                    None
                },
            },
        },
    }
}

/// The initial stack of an executed program. `probe` is where a first layout put the tail, `built` the
/// stack laid out with those addresses.
pub fn build_exec_initial_stack(
    layout: &LinuxImageLayout,
    entry: u64,
    phdr_vaddr: u64,
    phnum: u16,
    probe: Result<StackTail, StackLayoutError>,
    built: Result<StackImage, StackLayoutError>,
) -> (r: Result<LinuxInitialStack, LinuxImageError>)
    ensures
        match exec_stack_failure(*layout, probe, built) {
            Some(e) => r == Err::<LinuxInitialStack, LinuxImageError>(e),
            None => {
                &&& r is Ok
                &&& r->Ok_0.stack_top == layout.stack_top
                &&& r->Ok_0.bytes@ == built->Ok_0.bytes@
                &&& r->Ok_0.rsp == built->Ok_0.rsp
                &&& r->Ok_0.auxv@ == exec_auxv(
                    entry,
                    phdr_vaddr,
                    phnum,
                    probe->Ok_0.random_vaddr,
                    probe->Ok_0.execfn_vaddr,
                )
            },
        },
{
    match exec_stack_image_bytes(layout) {
        Ok(_) => {},
        Err(e) => return Err(e),
    }
    let tail = match probe {
        Ok(tail) => tail,
        Err(e) => return Err(LinuxImageError::InitialStack(e)),
    };
    let image = match built {
        Ok(image) => image,
        Err(e) => return Err(LinuxImageError::InitialStack(e)),
    };
    if image.rsp % 16 != 0 || image.rsp < layout.stack_base || image.rsp >= layout.stack_top {
        return Err(LinuxImageError::InitialStack(StackLayoutError::InvalidStackTop));
    }
    Ok(
        LinuxInitialStack {
            stack_top: layout.stack_top,
            bytes: image.bytes,
            rsp: image.rsp,
            auxv: linux_exec_auxv(
                entry,
                phdr_vaddr,
                phnum,
                tail.random_vaddr,
                tail.execfn_vaddr,
            ),
        },
    )
}

/// The layout of an exec: the private slot has one layout, elsewhere the stack size is free.
pub open spec fn exec_layout(policy: LoadPolicy, stack_pages: u64, image_base: u64) -> Result<
    LinuxImageLayout,
    LinuxImageError,
> {
    if private_slot(policy) {
        if stack_pages != LINUX_STACK_PAGES {
            Err(LinuxImageError::ExecStackBounds)
        } else {
            Ok(legacy_layout())
        }
    } else if stack_pages == 0 {
        Err(LinuxImageError::InitialStack(StackLayoutError::BufferTooSmall))
    } else if (stack_pages + 1) * PAGE_SIZE > CONVENTIONAL_STACK_TOP {
        Err(LinuxImageError::VaddrOverflow)
    } else {
        Ok(
            low_layout(
                floor_to(image_base as int, PAGE_SIZE as int) as u64,
                stack_pages,
                policy.user_va_lo,
                "",
            ),
        )
    }
}

pub fn layout_for_spec(spec: &LinuxExecSpec<'_>, image_base: u64) -> (r: Result<
    LinuxImageLayout,
    LinuxImageError,
>)
    ensures
        r == exec_layout(*spec.policy, spec.stack_pages, image_base),
{
    if spec.policy.is_private_slot() {
        if spec.stack_pages != LINUX_STACK_PAGES {
            return Err(LinuxImageError::ExecStackBounds);
        }
        Ok(LinuxImageLayout::m8_legacy())
    } else {
        proof {
            lemma_page_alignments();
        }
        LinuxImageLayout::conventional_with_stack(
            align_down(image_base, PAGE_SIZE),
            spec.stack_pages,
            spec.policy.user_va_lo,
        )
    }
}

/// What laying the stack of an exec out needs.
#[derive(Clone, Copy, Debug)]
pub struct ExecPlan {
    pub layout: LinuxImageLayout,
    pub entry: u64,
    pub phdr_vaddr: u64,
    pub phnum: u16,
}

/// The plan of an exec, or why there is none.
pub open spec fn exec_planned(spec: LinuxExecSpec<'_>, plan: Result<LoadPlan, LoadPlanError>) -> Result<
    ExecPlan,
    LinuxImageError,
> {
    match spec_checked(spec.argv@, spec.envp@, spec.exec_filename@, spec.stack_pages) {
        Err(e) => Err(e),
        Ok(()) => match plan {
            Err(e) => Err(LinuxImageError::LoadPlan(e)),
            Ok(plan) => match plan.image_base {
                None => Err(LinuxImageError::LoadPlan(LoadPlanError::NoLoadSegments)),
                Some(base) => match exec_layout(*spec.policy, spec.stack_pages, base) {
                    Err(e) => Err(e),
                    Ok(layout) => match plan.phdr_vaddr {
                        None => Err(LinuxImageError::ProgramHeadersNotMapped),
                        Some(phdr_vaddr) => Ok(
                            ExecPlan { layout, entry: plan.entry, phdr_vaddr, phnum: plan.phnum },
                        ),
                    },
                },
            },
        },
    }
}

/// Plans an exec. `plan` is what parsing the file under the policy gave.
pub fn plan_linux_exec(spec: &LinuxExecSpec<'_>, plan: &Result<LoadPlan, LoadPlanError>) -> (r: Result<
    ExecPlan,
    LinuxImageError,
>)
    ensures
        r == exec_planned(*spec, *plan),
{
    match validate_spec_strings(spec) {
        Ok(()) => {},
        Err(e) => return Err(e),
    }
    let plan = match plan {
        Ok(plan) => plan,
        Err(e) => return Err(LinuxImageError::LoadPlan(*e)),
    };
    let image_base: u64 = match plan.image_base {
        Some(base) => base,
        None => return Err(LinuxImageError::LoadPlan(LoadPlanError::NoLoadSegments)),
    };
    let layout = match layout_for_spec(spec, image_base) {
        Ok(layout) => layout,
        Err(e) => return Err(e),
    };
    match plan.phdr_vaddr {
        None => Err(LinuxImageError::ProgramHeadersNotMapped),
        Some(phdr_vaddr) => Ok(
            ExecPlan { layout, entry: plan.entry, phdr_vaddr, phnum: plan.phnum },
        ),
    }
}

/// Why a prepared program has no initial stack: in the private slot it is laid out as for a launch.
pub open spec fn stack_failure(
    policy: LoadPolicy,
    layout: LinuxImageLayout,
    probe: Result<StackTail, StackLayoutError>,
    built: Result<StackImage, StackLayoutError>,
) -> Option<LinuxImageError> {
    if private_slot(policy) {
        match built {
            Err(e) => Some(LinuxImageError::InitialStack(e)),
            Ok(image) => if !rsp_allowed(image.rsp, layout) {
                Some(LinuxImageError::InitialStack(StackLayoutError::InvalidStackTop))
            } else {
                None
            },
        }
    } else {
        exec_stack_failure(layout, probe, built)
    }
}

/// The auxiliary vector of a prepared program: that of a launch in the private slot, elsewhere that of
/// an exec with the places where the tail lies.
pub open spec fn prepared_auxv(
    policy: LoadPolicy,
    entry: u64,
    phdr_vaddr: u64,
    phnum: u16,
    probe: Result<StackTail, StackLayoutError>,
) -> Seq<(u64, u64)> {
    if private_slot(policy) {
        launch_auxv(entry, phdr_vaddr, phnum)
    } else {
        exec_auxv(
            entry,
            phdr_vaddr,
            phnum,
            probe->Ok_0.random_vaddr,
            probe->Ok_0.execfn_vaddr,
        )
    }
}

/// The initial stack of a program that is prepared.
fn initial_stack_for(
    spec: &LinuxExecSpec<'_>,
    exec: &ExecPlan,
    probe: Result<StackTail, StackLayoutError>,
    built: Result<StackImage, StackLayoutError>,
) -> (r: Result<LinuxInitialStack, LinuxImageError>)
    ensures
        match stack_failure(*spec.policy, exec.layout, probe, built) {
            Some(e) => r == Err::<LinuxInitialStack, LinuxImageError>(e),
            None => {
                &&& r is Ok
                &&& r->Ok_0.stack_top == exec.layout.stack_top
                &&& r->Ok_0.bytes@ == built->Ok_0.bytes@
                &&& r->Ok_0.rsp == built->Ok_0.rsp
                &&& rsp_allowed(r->Ok_0.rsp, exec.layout)
                &&& r->Ok_0.auxv@ == prepared_auxv(
                    *spec.policy,
                    exec.entry,
                    exec.phdr_vaddr,
                    exec.phnum,
                    probe,
                )
            },
        },
{
    if spec.policy.is_private_slot() {
        build_linux_initial_stack(
            exec.entry,
            exec.phdr_vaddr,
            exec.phnum,
            &exec.layout,
            built,
        )
    } else {
        build_exec_initial_stack(
            &exec.layout,
            exec.entry,
            exec.phdr_vaddr,
            exec.phnum,
            probe,
            built,
        )
    }
}

/// The image plan of a program that is prepared: what its segments and its stack are mapped from.
pub fn plan_prepared_image(
    spec: &LinuxExecSpec<'_>,
    header: Result<Elf64Header, LoadPlanError>,
    plan: Result<LoadPlan, LoadPlanError>,
    probe: Result<StackTail, StackLayoutError>,
    built: Result<StackImage, StackLayoutError>,
) -> (r: Result<LinuxImagePlan, LinuxImageError>)
    ensures
        match prepared_plan(*spec, header, plan, probe, built) {
            Err(e) => r == Err::<LinuxImagePlan, LinuxImageError>(e),
            Ok((layout, pages, frames)) => {
                &&& r is Ok
                &&& r->Ok_0.plan == plan->Ok_0
                &&& r->Ok_0.entry == plan->Ok_0.entry
                &&& r->Ok_0.phdr_vaddr == plan->Ok_0.phdr_vaddr->0
                &&& r->Ok_0.image_pages == pages
                &&& r->Ok_0.page_table_frames == frames
                &&& r->Ok_0.layout == layout
                &&& r->Ok_0.initial_stack.stack_top == layout.stack_top
                &&& r->Ok_0.initial_stack.bytes@ == built->Ok_0.bytes@
                &&& r->Ok_0.initial_stack.rsp == built->Ok_0.rsp
                &&& r->Ok_0.initial_stack.auxv@ == prepared_auxv(
                    *spec.policy,
                    plan->Ok_0.entry,
                    plan->Ok_0.phdr_vaddr->0,
                    plan->Ok_0.phnum,
                    probe,
                )
            },
        },
{
    let exec = match plan_linux_exec(spec, &plan) {
        Ok(exec) => exec,
        Err(e) => return Err(e),
    };
    let initial_stack = match initial_stack_for(spec, &exec, probe, built) {
        Ok(stack) => stack,
        Err(e) => return Err(e),
    };
    validate_linux_image_with_stack(
        spec.image,
        spec.policy,
        exec.layout,
        header,
        plan,
        initial_stack,
    )
}

/// The layout, pages and page-table frames of a program that is prepared, or why it is not.
pub open spec fn prepared_plan(
    spec: LinuxExecSpec<'_>,
    header: Result<Elf64Header, LoadPlanError>,
    plan: Result<LoadPlan, LoadPlanError>,
    probe: Result<StackTail, StackLayoutError>,
    built: Result<StackImage, StackLayoutError>,
) -> Result<(LinuxImageLayout, u64, usize), LinuxImageError> {
    match exec_planned(spec, plan) {
        Err(e) => Err(e),
        Ok(exec) => match stack_failure(*spec.policy, exec.layout, probe, built) {
            Some(e) => Err(e),
            None => match plan_checked(spec.image@, *spec.policy, exec.layout, header, plan) {
                Err(e) => Err(e),
                Ok((_, pages, frames)) => Ok((exec.layout, pages, frames)),
            },
        },
    }
}

/// Where the segments of a checked image end.
proof fn lemma_segments_end(
    segments: Seq<LoadSegment>,
    layout: LinuxImageLayout,
    ranges: Seq<(u64, u64)>,
    high: int,
    from: int,
)
    requires
        0 <= from <= segments.len(),
        0 <= high <= u64::MAX - (PAGE_SIZE - 1),
        ranges_from(segments, layout, ranges, from) is Ok,
    ensures
        0 <= segments_end(segments, high, from) <= u64::MAX - (PAGE_SIZE - 1),
    decreases segments.len() - from,
{
    if from < segments.len() {
        let end = segments[from].vaddr + segments[from].memsz;
        assert(span_of(segments[from]) is Ok);
        let next = if end > high {
            end
        } else {
            high
        };
        match segment_pages(segments[from], layout) {
            Ok(Some(range)) => {
                lemma_segments_end(segments, layout, ranges.push(range), next, from + 1);
            },
            _ => {
                lemma_segments_end(segments, layout, ranges, next, from + 1);
            },
        }
    }
}

/// Ends the preparation of a program. `header` and `plan` are what parsing the file gave, `probe` and
/// `built` the layouts of its stack, `created` the address space; the others tell how mapping and
/// writing its pages went. A step counts only where those before it succeeded.
pub fn prepare_linux_image(
    allocator: &mut PageAllocator,
    spec: &LinuxExecSpec<'_>,
    header: Result<Elf64Header, LoadPlanError>,
    plan: Result<LoadPlan, LoadPlanError>,
    probe: Result<StackTail, StackLayoutError>,
    built: Result<StackImage, StackLayoutError>,
    created: Result<ProcessAddressSpace, &'static str>,
    segments: Result<usize, &'static str>,
    stack_mapped: Result<(), &'static str>,
    stack_written: Result<(), &'static str>,
    guard_mapped: bool,
    unmapped: &[Option<u64>],
) -> (r: Result<PreparedLinuxImage, LinuxImageError>)
    requires
        old(allocator).wf(),
        created is Ok ==> created->Ok_0.wf() && unmapped@.len()
            >= created->Ok_0.user_mappings@.len(),
    ensures
        final(allocator).wf(),
        match prepared_plan(*spec, header, plan, probe, built) {
            Err(e) => r == Err::<PreparedLinuxImage, LinuxImageError>(e) && *final(allocator)
                == *old(allocator),
            Ok((layout, pages, frames)) => match created {
                Err(message) => r == Err::<PreparedLinuxImage, LinuxImageError>(
                    LinuxImageError::AddressSpaceCreation(message),
                ) && *final(allocator) == *old(allocator),
                Ok(space) => match build_failure(
                    pages,
                    frames,
                    layout.stack_pages,
                    &space,
                    segments,
                    stack_mapped,
                    stack_written,
                    guard_mapped,
                ) {
                    None => {
                        &&& r == Ok::<PreparedLinuxImage, LinuxImageError>(
                            PreparedLinuxImage {
                                address_space: space,
                                entry: plan->Ok_0.entry,
                                launch_rsp: built->Ok_0.rsp,
                                image_pages: segments->Ok_0,
                                page_table_frames: space.page_table_frames@.len() as usize,
                                brk_initial: ceil_to(
                                    segments_end(plan->Ok_0.segments@, 0, 0),
                                    PAGE_SIZE as int,
                                ) as u64,
                                layout,
                            },
                        )
                        &&& *final(allocator) == *old(allocator)
                    },
                    Some(failure) => exists|torn: Result<(), &'static str>, k: int| #[trigger]
                        torn_down(
                            space.page_table_frames@,
                            space.user_mappings@,
                            unmapped@,
                            old(allocator),
                            final(allocator),
                            torn,
                            k,
                        ) && r == Err::<PreparedLinuxImage, LinuxImageError>(
                            after_discard(failure, torn),
                        ),
                },
            },
        },
{
    let image_plan = match plan_prepared_image(spec, header, plan, probe, built) {
        Ok(image_plan) => image_plan,
        Err(e) => return Err(e),
    };
    let image = match build_linux_process_image(
        allocator,
        &image_plan,
        created,
        segments,
        stack_mapped,
        stack_written,
        guard_mapped,
        unmapped,
    ) {
        Ok(image) => image,
        Err(e) => return Err(e),
    };
    proof {
        lemma_segments_end(image_plan.plan.segments@, image_plan.layout, seq![], 0, 0);
    }
    let brk_initial: u64 = brk_initial_from_load_plan(&image_plan.plan);
    let page_table_frames: usize = image.address_space.resource_counts().page_table_frames;
    Ok(
        PreparedLinuxImage {
            address_space: image.address_space,
            entry: image.entry,
            launch_rsp: image.launch_rsp,
            image_pages: image.image_pages,
            page_table_frames,
            brk_initial,
            layout: image_plan.layout,
        },
    )
}

/// The first unused thread slot at or above `from` whose kernel stack does not hold the stack pointer.
pub open spec fn relaunch_from(m: SchedulerModel, stacks: Seq<(u64, u64)>, rsp: u64, from: int) -> Option<
    int,
>
    decreases stacks.len() - from,
{
    if from < 0 || from >= stacks.len() || from >= TASK_COUNT {
        None
    } else if m.threads[from].state == ThreadState::Empty && !(stacks[from].0 < rsp
        <= stacks[from].1) {
        Some(from)
    } else {
        relaunch_from(m, stacks, rsp, from + 1)
    }
}

/// Picks an unused thread slot whose kernel stack is not the one that runs now. `stacks` are the lowest
/// address and the top of each kernel stack.
pub fn pick_scheduler_slot_for_relaunch(scheduler: &Scheduler, stacks: &[(u64, u64)], rsp: u64) -> (r:
    Result<(usize, u64), &'static str>)
    requires
        scheduler.wf(),
    ensures
        match relaunch_from(scheduler.model(), stacks@, rsp, 0) {
            Some(i) => r is Ok && (r->Ok_0).0 == i && (r->Ok_0).1 == stacks@[i].1,
            None => r == Err::<(usize, u64), &'static str>(
                "linux relaunch: no scheduler slot with idle kernel stack",
            ),
        },
{
    let mut i: usize = 0;
    while i < stacks.len() && i < TASK_COUNT
        invariant
            0 <= i <= TASK_COUNT,
            i <= stacks@.len(),
            relaunch_from(scheduler.model(), stacks@, rsp, 0) == relaunch_from(
                scheduler.model(),
                stacks@,
                rsp,
                i as int,
            ),
        decreases TASK_COUNT - i,
    {
        let (base, top) = stacks[i];
        if scheduler.threads[i].state == ThreadState::Empty && !(rsp > base && rsp <= top) {
            return Ok((i, top));
        }
        i += 1;
    }
    Err("linux relaunch: no scheduler slot with idle kernel stack")
}

/// What the memory registry holds after an image was put into a process.
pub open spec fn image_memory(
    slots: Seq<Option<linux_mem::MemSlotModel>>,
    i: int,
    layout: LinuxImageLayout,
    brk_initial: u64,
) -> Seq<Option<linux_mem::MemSlotModel>> {
    with_state(
        slots,
        i,
        MemModel {
            brk_base: brk_initial,
            brk_end: brk_initial,
            lo: layout.window_base,
            hi: layout.stack_reservation_start,
            ..slots[i]->0.state
        },
    )
}

/// The memory registry after the end of a launch, and its result.
pub open spec fn launch_finished(
    mem: Seq<Option<linux_mem::MemSlotModel>>,
    launched: LaunchedLinuxProcess,
    layout: LinuxImageLayout,
    brk_initial: u64,
    network_granted: bool,
    tmp_granted: bool,
) -> (Seq<Option<linux_mem::MemSlotModel>>, Result<LaunchedLinuxProcess, LinuxImageError>) {
    match ensured(mem, launched.pid, launched.instance_generation) {
        Err(_) => (mem, Err(LinuxImageError::Registry("linux launch: brk init failed"))),
        Ok((slots, i)) => (
            image_memory(slots, i, layout, brk_initial),
            if !network_granted {
                Err(LinuxImageError::Registry("linux launch: network capability grant failed"))
            } else if !tmp_granted {
                Err(LinuxImageError::Registry("linux launch: tmp object capability grant failed"))
            } else {
                Ok(launched)
            },
        ),
    }
}

/// Ends a launch whose process is registered: it gets a heap, and then the capabilities for the network
/// and for temporary files, with the given outcomes.
pub fn finish_launch(
    mem: &mut linux_mem::Registry,
    launched: LaunchedLinuxProcess,
    layout: &LinuxImageLayout,
    brk_initial: u64,
    network_granted: bool,
    tmp_granted: bool,
) -> (r: Result<LaunchedLinuxProcess, LinuxImageError>)
    requires
        old(mem).wf(),
        brk_initial + LINUX_BRK_MAX_BYTES + PAGE_SIZE <= u64::MAX,
    ensures
        final(mem).wf(),
        (final(mem).model(), r) == launch_finished(
            old(mem).model(),
            launched,
            *layout,
            brk_initial,
            network_granted,
            tmp_granted,
        ),
{
    match mem.init_for_image(launched.pid, launched.instance_generation, layout, brk_initial) {
        Ok(()) => {},
        Err(_) => {
            return Err(LinuxImageError::Registry("linux launch: brk init failed"));
        },
    }
    if !network_granted {
        return Err(LinuxImageError::Registry("linux launch: network capability grant failed"));
    }
    if !tmp_granted {
        return Err(LinuxImageError::Registry("linux launch: tmp object capability grant failed"));
    }
    Ok(launched)
}

/// Registers a prepared program as a process and gives it a heap. `entry_frame` is where the frame lies
/// from which its thread enters user mode.
pub fn launch_linux_process_from_spec(
    registry: &mut ProcessRegistry,
    scheduler: &mut Scheduler,
    ids: &mut IdAllocator,
    allocator: &mut PageAllocator,
    mem: &mut linux_mem::Registry,
    kernel_stack_top: u64,
    scheduler_slot: usize,
    prepared: PreparedLinuxImage,
    entry_frame: Result<u64, &'static str>,
    network_granted: bool,
    tmp_granted: bool,
    unmapped: &[Option<u64>],
) -> (r: Result<LaunchedLinuxProcess, LinuxImageError>)
    requires
        old(registry).wf(),
        old(scheduler).wf(),
        old(allocator).wf(),
        old(mem).wf(),
        prepared.address_space.wf(),
        prepared.brk_initial + LINUX_BRK_MAX_BYTES + PAGE_SIZE <= u64::MAX,
        unmapped@.len() >= prepared.address_space.user_mappings@.len(),
    ensures
        final(registry).wf(),
        final(scheduler).wf(),
        final(allocator).wf(),
        final(mem).wf(),
        exists|registered: Result<LaunchedLinuxProcess, LinuxImageError>| #[trigger]
            registration_result(
                *old(registry),
                *final(registry),
                old(scheduler).model(),
                final(scheduler).model(),
                *old(ids),
                *final(ids),
                old(allocator),
                final(allocator),
                kernel_stack_top,
                scheduler_slot,
                prepared_image(prepared),
                prepared.page_table_frames,
                entry_frame,
                unmapped@,
                registered,
            ) && match registered {
                Err(e) => r == Err::<LaunchedLinuxProcess, LinuxImageError>(e)
                    && final(mem).model() == old(mem).model(),
                Ok(launched) => match ensured(
                    old(mem).model(),
                    launched.pid,
                    launched.instance_generation,
                ) {
                    Err(_) => {
                        &&& r == Err::<LaunchedLinuxProcess, LinuxImageError>(
                            LinuxImageError::Registry("linux launch: brk init failed"),
                        )
                        &&& final(mem).model() == old(mem).model()
                    },
                    Ok((slots, i)) => {
                        &&& final(mem).model() == image_memory(
                            slots,
                            i,
                            prepared.layout,
                            prepared.brk_initial,
                        )
                        &&& network_granted && tmp_granted ==> r == Ok::<
                            LaunchedLinuxProcess,
                            LinuxImageError,
                        >(launched)
                        &&& !network_granted ==> r == Err::<LaunchedLinuxProcess, LinuxImageError>(
                            LinuxImageError::Registry(
                                "linux launch: network capability grant failed",
                            ),
                        )
                        &&& network_granted && !tmp_granted ==> r == Err::<
                            LaunchedLinuxProcess,
                            LinuxImageError,
                        >(
                            LinuxImageError::Registry(
                                "linux launch: tmp object capability grant failed",
                            ),
                        )
                    },
                },
            },
{
    let ghost whole = prepared_image(prepared);
    let page_table_frames: usize = prepared.page_table_frames;
    let layout = prepared.layout;
    let brk_initial: u64 = prepared.brk_initial;
    let image = LinuxProcessImage {
        address_space: prepared.address_space,
        entry: prepared.entry,
        launch_rsp: prepared.launch_rsp,
        image_pages: prepared.image_pages,
    };
    assert(image == whole);
    let registered = register_linux_process(
        registry,
        scheduler,
        ids,
        allocator,
        kernel_stack_top,
        scheduler_slot,
        image,
        page_table_frames,
        entry_frame,
        unmapped,
    );
    assert(registration_result(
        *old(registry),
        *registry,
        old(scheduler).model(),
        scheduler.model(),
        *old(ids),
        *ids,
        old(allocator),
        allocator,
        kernel_stack_top,
        scheduler_slot,
        whole,
        page_table_frames,
        entry_frame,
        unmapped@,
        registered,
    ));
    match registered {
        Ok(launched) => finish_launch(
            mem,
            launched,
            &layout,
            brk_initial,
            network_granted,
            tmp_granted,
        ),
        Err(e) => Err(e),
    }
}

/// The process image of a prepared program.
pub open spec fn prepared_image(prepared: PreparedLinuxImage) -> LinuxProcessImage {
    LinuxProcessImage {
        address_space: prepared.address_space,
        entry: prepared.entry,
        launch_rsp: prepared.launch_rsp,
        image_pages: prepared.image_pages,
    }
}

/// Whether a process may be given a new image.
pub open spec fn exec_allowed(processes: Seq<Process>, pid: u64, generation: InstanceGeneration) -> Result<
    int,
    LinuxImageError,
> {
    match process_from(processes, pid, 0) {
        None => Err(LinuxImageError::Registry("exec commit: process missing")),
        Some(i) => if processes[i].instance_generation != generation {
            Err(LinuxImageError::ExecGenerationMismatch)
        } else if processes[i].live_threads != 1 {
            Err(LinuxImageError::ExecMultiThread)
        } else if processes[i].resource_domain.address_space is None {
            Err(LinuxImageError::Registry("exec commit: no address space"))
        } else {
            Ok(i)
        },
    }
}

fn check_exec(registry: &ProcessRegistry, pid: u64, generation: InstanceGeneration) -> (r: Result<
    (),
    LinuxImageError,
>)
    ensures
        match exec_allowed(registry.processes@, pid, generation) {
            Ok(_) => r == Ok::<(), LinuxImageError>(()),
            Err(e) => r == Err::<(), LinuxImageError>(e),
        },
{
    let process = match registry.get(pid) {
        Some(process) => process,
        None => return Err(LinuxImageError::Registry("exec commit: process missing")),
    };
    if process.instance_generation.0 != generation.0 {
        return Err(LinuxImageError::ExecGenerationMismatch);
    }
    if process.live_threads != 1 {
        return Err(LinuxImageError::ExecMultiThread);
    }
    if process.resource_domain.address_space().is_none() {
        return Err(LinuxImageError::Registry("exec commit: no address space"));
    }
    Ok(())
}

/// What starting to put a new image into a process leaves, and the pages of the old one.
pub open spec fn exec_begun(
    processes: Seq<Process>,
    mem: Seq<Option<linux_mem::MemSlotModel>>,
    signals: Seq<Option<linux_signal::SignalSlotModel>>,
    pid: u64,
    generation: InstanceGeneration,
) -> (
    Seq<Option<linux_mem::MemSlotModel>>,
    Seq<Option<linux_signal::SignalSlotModel>>,
    Result<Seq<UnmapRange>, LinuxImageError>,
) {
    match exec_allowed(processes, pid, generation) {
        Err(e) => (mem, signals, Err(e)),
        Ok(_) => (
            mem_released(mem, pid, generation),
            signals_released(signals, pid, generation),
            Ok(
                match mem_of(mem, pid, generation) {
                    None => seq![],
                    Some(state) => release_ranges(state, seq![heap_range(state)], 0),
                },
            ),
        ),
    }
}

/// Starts to put a new image into a process: its memory and signal state are given up. Returns the
/// pages of the old image that are to be unmapped first.
pub fn begin_commit_exec(
    registry: &ProcessRegistry,
    mem: &mut linux_mem::Registry,
    signals: &mut linux_signal::Registry,
    pid: u64,
    generation: InstanceGeneration,
) -> (r: Result<Vec<UnmapRange>, LinuxImageError>)
    requires
        old(mem).wf(),
    ensures
        final(mem).wf(),
        ({
            let (m, s, begun) = exec_begun(
                registry.processes@,
                old(mem).model(),
                old(signals).model(),
                pid,
                generation,
            );
            &&& final(mem).model() == m
            &&& final(signals).model() == s
            &&& match begun {
                Err(e) => r is Err && r->Err_0 == e,
                Ok(ranges) => r is Ok && r->Ok_0@ == ranges,
            }
        }),
{
    match check_exec(registry, pid, generation) {
        Ok(()) => {},
        Err(e) => return Err(e),
    }
    let ranges = match mem.take_for_process(pid, generation) {
        Some(state) => unmap_all(&state),
        None => Vec::new(),
    };
    signals.reset_for_exec(pid, generation);
    Ok(ranges)
}

/// How putting a new image into a process ended. After a fatal end the kernel must stop.
#[derive(Clone, Copy, Debug, PartialEq, Eq)]
pub enum ExecCommit {
    Done,
    Fatal(&'static str),
}

/// The saved registers with which a new image starts.
pub open spec fn exec_frame(entry: u64, launch_rsp: u64) -> SyscallContext {
    SyscallContext {
        rax: 0,
        rdx: 0,
        rbx: 0,
        rbp: 0,
        rsi: 0,
        rdi: 0,
        r8: 0,
        r9: 0,
        r10: 0,
        r12: 0,
        r13: 0,
        r14: 0,
        r15: 0,
        user_rip: entry,
        user_rflags: USER_TEST_RFLAGS,
        user_rsp: launch_rsp,
    }
}

/// Lets a system call return into the new image.
pub fn rewrite_syscall_return_for_exec(frame: &mut SyscallContext, entry: u64, launch_rsp: u64)
    ensures
        *final(frame) == exec_frame(entry, launch_rsp),
{
    frame.user_rip = entry;
    frame.user_rsp = launch_rsp;
    frame.user_rflags = USER_TEST_RFLAGS;
    frame.rax = 0;
    frame.rdx = 0;
    frame.rbx = 0;
    frame.rbp = 0;
    frame.rsi = 0;
    frame.rdi = 0;
    frame.r8 = 0;
    frame.r9 = 0;
    frame.r10 = 0;
    frame.r12 = 0;
    frame.r13 = 0;
    frame.r14 = 0;
    frame.r15 = 0;
}

/// A process with a new address space.
pub open spec fn with_space(process: Process, space: ProcessAddressSpace) -> Process {
    Process {
        resource_domain: ResourceDomain {
            id: process.resource_domain.id,
            root_frame: space.root_frame,
            address_space: Some(space),
        },
        ..process
    }
}

/// What putting a prepared image into the process in slot `i` leaves, and how it ends. `torn` tells how
/// tearing the old address space down went.
pub open spec fn exec_committed(
    frame: SyscallContext,
    processes: Seq<Process>,
    mem: Seq<Option<linux_mem::MemSlotModel>>,
    fds: FdRegistryModel,
    pid: u64,
    generation: InstanceGeneration,
    prepared: PreparedLinuxImage,
    i: int,
    torn: Result<(), &'static str>,
) -> (
    SyscallContext,
    Seq<Process>,
    Seq<Option<linux_mem::MemSlotModel>>,
    FdRegistryModel,
    Result<ExecCommit, LinuxImageError>,
) {
    let swapped = processes.update(i, with_space(processes[i], prepared.address_space));
    let left = cloexec_done(fds, pid, generation);
    match ensured(mem, pid, generation) {
        Err(_) => (
            frame,
            swapped,
            mem,
            left,
            Err(LinuxImageError::Registry("exec commit: linux_mem init failed")),
        ),
        Ok((slots, j)) => {
            let heap = image_memory(slots, j, prepared.layout, prepared.brk_initial);
            match torn {
                Ok(()) => (
                    exec_frame(prepared.entry, prepared.launch_rsp),
                    swapped,
                    heap,
                    left,
                    Ok(ExecCommit::Done),
                ),
                Err(_) => (
                    frame,
                    swapped,
                    heap,
                    left,
                    Ok(ExecCommit::Fatal("exec commit: destroying the old address space failed")),
                ),
            }
        },
    }
}

/// Puts a prepared image into a process that gave its memory and signal state up, and tears the old
/// address space down. `unmapped` are the frames that the page tables gave back for its user pages.
pub fn commit_exec(
    frame: &mut SyscallContext,
    registry: &mut ProcessRegistry,
    mem: &mut linux_mem::Registry,
    fds: &mut LinuxFdRegistry,
    allocator: &mut PageAllocator,
    pid: u64,
    generation: InstanceGeneration,
    prepared: PreparedLinuxImage,
    unmapped: &[Option<u64>],
) -> (r: Result<ExecCommit, LinuxImageError>)
    requires
        old(registry).wf(),
        old(mem).wf(),
        old(fds).wf(),
        old(allocator).wf(),
        prepared.brk_initial + LINUX_BRK_MAX_BYTES + PAGE_SIZE <= u64::MAX,
        exec_allowed(old(registry).processes@, pid, generation) is Ok ==> ({
            let i = exec_allowed(old(registry).processes@, pid, generation)->Ok_0;
            let space = old(registry).processes@[i].resource_domain.address_space->0;
            space.wf() && unmapped@.len() >= space.user_mappings@.len()
        }),
    ensures
        final(registry).wf(),
        final(mem).wf(),
        final(fds).wf(),
        final(allocator).wf(),
        final(registry).next_instance_generation == old(registry).next_instance_generation,
        match exec_allowed(old(registry).processes@, pid, generation) {
            Err(e) => {
                &&& r == Err::<ExecCommit, LinuxImageError>(e)
                &&& final(registry).processes@ == old(registry).processes@
                &&& final(mem).model() == old(mem).model()
                &&& final(fds).model() == old(fds).model()
                &&& *final(allocator) == *old(allocator)
                &&& *final(frame) == *old(frame)
            },
            Ok(i) => {
                let space = old(registry).processes@[i].resource_domain.address_space->0;
                match ensured(old(mem).model(), pid, generation) {
                    Err(_) => *final(allocator) == *old(allocator) && (
                        *final(frame),
                        final(registry).processes@,
                        final(mem).model(),
                        final(fds).model(),
                        r,
                    ) == exec_committed(
                        *old(frame),
                        old(registry).processes@,
                        old(mem).model(),
                        old(fds).model(),
                        pid,
                        generation,
                        prepared,
                        i,
                        Ok(()),
                    ),
                    Ok(_) => exists|torn: Result<(), &'static str>, k: int| #[trigger]
                        torn_down(
                            space.page_table_frames@,
                            space.user_mappings@,
                            unmapped@,
                            old(allocator),
                            final(allocator),
                            torn,
                            k,
                        ) && (
                        *final(frame),
                        final(registry).processes@,
                        final(mem).model(),
                        final(fds).model(),
                        r,
                    ) == exec_committed(
                        *old(frame),
                        old(registry).processes@,
                        old(mem).model(),
                        old(fds).model(),
                        pid,
                        generation,
                        prepared,
                        i,
                        torn,
                    ),
                }
            },
        },
{
    match check_exec(registry, pid, generation) {
        Ok(()) => {},
        Err(e) => return Err(e),
    }
    let entry: u64 = prepared.entry;
    let launch_rsp: u64 = prepared.launch_rsp;
    let brk_initial: u64 = prepared.brk_initial;
    let layout = prepared.layout;
    let ghost before = registry.processes@;
    proof {
        lemma_process_from(before, pid, 0);
    }
    let old_space = match registry.get_mut(pid) {
        Some(process) => process.resource_domain.replace_address_space(prepared.address_space),
        None => None,
    };
    let ghost i = process_from(before, pid, 0)->0;
    assert(registry.processes@ =~= before.update(i, with_space(before[i], prepared.address_space)));
    let old_space = match old_space {
        Some(space) => space,
        None => return Ok(ExecCommit::Fatal("exec commit: address space vanished")),
    };
    match fds.close_on_exec_for_process(pid, generation) {
        Ok(()) => {},
        Err(_) => {
            return Ok(
                ExecCommit::Fatal(
                    "exec commit: close_on_exec failed after address-space swap",
                ),
            );
        },
    }
    match mem.init_for_image(pid, generation, &layout, brk_initial) {
        Ok(()) => {},
        Err(_) => {
            return Err(LinuxImageError::Registry("exec commit: linux_mem init failed"));
        },
    }
    match destroy_process_address_space(&old_space, allocator, unmapped) {
        Ok(()) => {},
        Err(_) => {
            return Ok(
                ExecCommit::Fatal("exec commit: destroying the old address space failed"),
            );
        },
    }
    rewrite_syscall_return_for_exec(frame, entry, launch_rsp);
    Ok(ExecCommit::Done)
}

/// The error number that an `execve` returns.
pub open spec fn exec_errno(error: LinuxImageError) -> LinuxErrno {
    if error == LinuxImageError::ExecGenerationMismatch || error
        == LinuxImageError::ExecMultiThread {
        EINVAL
    } else {
        ENOEXEC
    }
}

pub fn linux_errno_for_exec_error(error: LinuxImageError) -> (r: LinuxErrno)
    ensures
        r == exec_errno(error),
{
    match error {
        LinuxImageError::ExecGenerationMismatch => EINVAL,
        LinuxImageError::ExecMultiThread => EINVAL,
        _ => ENOEXEC,
    }
}

/// What launching the program of the private slot executes: `argv` holds its one argument.
pub fn m8_hello_exec_spec<'a>(
    image: &'a [u8],
    argv: &'a [&'a [u8]],
    policy: &'a LoadPolicy,
) -> (r: LinuxExecSpec<'a>)
    requires
        private_slot(*policy),
    ensures
        r.image@ == image@,
        r.argv@ == argv@,
        r.envp@.len() == 0,
        r.exec_filename@ == "/hello-linux-x86_64".spec_bytes(),
        r.stack_pages == LINUX_STACK_PAGES,
        private_slot(*r.policy),
{
    LinuxExecSpec {
        image,
        argv,
        envp: &[],
        exec_filename: "/hello-linux-x86_64".as_bytes(),
        stack_pages: LINUX_STACK_PAGES,
        policy,
    }
}

/// An exec keeps its process: its id, its generation and its threads stay, and it has the new address
/// space.
pub proof fn law_exec_keeps_the_process(process: Process, space: ProcessAddressSpace)
    ensures
        ({
            let after = with_space(process, space);
            &&& after.id == process.id
            &&& after.instance_generation == process.instance_generation
            &&& after.live_threads == process.live_threads
            &&& after.state == process.state
            &&& after.execution_personality == process.execution_personality
            &&& after.resource_domain.address_space == Some(space)
            &&& after.resource_domain.root_frame == space.root_frame
        }),
{
}

} // verus!
