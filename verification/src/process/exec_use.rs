//! What a program finds when it starts, and what an exec keeps and replaces.

use super::lifecycle::{process_from, Process};
use super::linux_exec::{
    exec_allowed, exec_auxv, exec_begun, exec_committed, exec_errno, exec_layout, exec_planned,
    exec_stack_failure, launch_finished, prepared_auxv, prepared_plan, random_bytes,
    relaunch_from, spec_checked, stack_failure, string_bytes, word_byte, ExecCommit,
    LinuxExecSpec, PreparedLinuxImage, StackTail,
};
use super::linux_fd::descriptors::same_fd;
use super::linux_fd::open_description::OpenDescriptionId;
use super::linux_fd::registry::{cloexec_of, fd_open, FdRegistryModel};
use super::linux_image::error::{LinuxImageError, LoadPlanError, StackLayoutError};
use super::linux_image::launch::{lemma_process_from, LaunchedLinuxProcess};
use super::linux_image::layout::LinuxImageLayout;
use super::linux_image::load_plan::{
    private_slot, segments_end, Elf64Header, LoadPlan, LoadPolicy, LoadSegment,
};
use super::linux_image::validate::{plan_checked, StackImage};
use super::linux_mem::{ensured, image_set, mem_of, MemSlotModel};
use super::linux_proc::exec_resolve::{built_in_at, BuiltInImage};
use super::linux_signal::{default_action, signals_of, SignalSlotModel};
use super::memory_use::{any_mapped, any_within, heap_page};
use super::signal_use::registry_wf;
use super::{linux_fd, InstanceGeneration};
use crate::abi::{LinuxErrno, EBADF, EINVAL, ENOEXEC};
use crate::mm::{floor_to, PAGE_SIZE};
use crate::sched::wait::SyscallContext;
use crate::sched::{SchedulerModel, ThreadState};
use vstd::prelude::*;
use vstd::string::StringSliceAdditionalSpecFns;

verus! {

/// An auxiliary vector has an entry of a kind, and every entry of that kind has the value.
pub open spec fn tells(auxv: Seq<(u64, u64)>, kind: u64, value: u64) -> bool {
    &&& exists|i: int| 0 <= i < auxv.len() && (#[trigger] auxv[i]).0 == kind
    &&& forall|i: int| 0 <= i < auxv.len() && (#[trigger] auxv[i]).0 == kind ==> auxv[i].1 == value
}

/// The auxiliary vector of a program tells where it starts, where and how many its program headers are,
/// the page size, and where its random bytes and its file name lie; that it runs as the super-user
/// without privileges gained; and it says each once and does not end early.
pub proof fn law_auxv_tells_the_program(entry: u64, phdr: u64, phnum: u16, random: u64, execfn: u64)
    ensures
        ({
            let auxv = exec_auxv(entry, phdr, phnum, random, execfn);
            &&& tells(auxv, 9, entry)
            &&& tells(auxv, 3, phdr)
            &&& tells(auxv, 4, 56)
            &&& tells(auxv, 5, phnum as u64)
            &&& tells(auxv, 6, 4096)
            &&& tells(auxv, 25, random)
            &&& tells(auxv, 31, execfn)
            &&& tells(auxv, 11, 0) && tells(auxv, 12, 0) && tells(auxv, 13, 0) && tells(auxv, 14, 0)
            &&& tells(auxv, 23, 0)
            &&& tells(auxv, 7, 0)
            &&& forall|i: int| 0 <= i < auxv.len() ==> (#[trigger] auxv[i]).0 != 0
            &&& forall|i: int, j: int|
                0 <= i < j < auxv.len() ==> (#[trigger] auxv[i]).0 != (#[trigger] auxv[j]).0
        }),
{
    let auxv = exec_auxv(entry, phdr, phnum, random, execfn);
    assert(auxv[0].0 == 6 && auxv[2].0 == 3 && auxv[3].0 == 4 && auxv[4].0 == 5 && auxv[5].0 == 25);
    assert(auxv[6].0 == 11 && auxv[7].0 == 12 && auxv[8].0 == 13 && auxv[9].0 == 14);
    assert(auxv[10].0 == 23 && auxv[11].0 == 7 && auxv[13].0 == 9 && auxv[14].0 == 31);
}

/// The word whose bytes are these, the lowest first.
pub open spec fn joined(
    b0: u8,
    b1: u8,
    b2: u8,
    b3: u8,
    b4: u8,
    b5: u8,
    b6: u8,
    b7: u8,
) -> u64 {
    (b0 as u64) | ((b1 as u64) << 8) | ((b2 as u64) << 16) | ((b3 as u64) << 24) | ((b4 as u64)
        << 32) | ((b5 as u64) << 40) | ((b6 as u64) << 48) | ((b7 as u64) << 56)
}

/// The random bytes are those of the two words, low byte first, so that the words can be put together
/// from them; where the machine gave none they are zeros.
pub proof fn law_random_bytes_are_the_words(a: u64, b: u64, words: Seq<Option<u64>>)
    requires
        words == seq![Some(a), Some(b)],
    ensures
        ({
            let r = random_bytes(true, words);
            &&& r.len() == 16
            &&& a == joined(r[0], r[1], r[2], r[3], r[4], r[5], r[6], r[7])
            &&& b == joined(r[8], r[9], r[10], r[11], r[12], r[13], r[14], r[15])
        }),
        forall|i: int| 0 <= i < 16 ==> random_bytes(false, words)[i] == 0,
        forall|i: int| 0 <= i < 16 ==> random_bytes(true, seq![Some(a), None])[i] == 0,
        forall|i: int| 0 <= i < 16 ==> random_bytes(true, seq![None, Some(b)])[i] == 0,
{
    lemma_word(a);
    lemma_word(b);
}

proof fn lemma_word(w: u64)
    ensures
        w == joined(
            word_byte(w, 0),
            word_byte(w, 1),
            word_byte(w, 2),
            word_byte(w, 3),
            word_byte(w, 4),
            word_byte(w, 5),
            word_byte(w, 6),
            word_byte(w, 7),
        ),
{
    assert(w == joined(
        ((w >> 0u64) & 0xff) as u8,
        ((w >> 8u64) & 0xff) as u8,
        ((w >> 16u64) & 0xff) as u8,
        ((w >> 24u64) & 0xff) as u8,
        ((w >> 32u64) & 0xff) as u8,
        ((w >> 40u64) & 0xff) as u8,
        ((w >> 48u64) & 0xff) as u8,
        ((w >> 56u64) & 0xff) as u8,
    )) by (bit_vector);
}

/// The strings of an exec are counted with their terminators, one more string adding its own.
pub proof fn law_strings_are_counted(strings: Seq<&[u8]>, last: &[u8])
    ensures
        string_bytes(strings.push(last), 0) == string_bytes(strings, 0) + last@.len() + 1,
        string_bytes(seq![], 0) == 0,
{
    lemma_strings(strings, last, 0);
}

proof fn lemma_strings(strings: Seq<&[u8]>, last: &[u8], from: int)
    requires
        0 <= from <= strings.len(),
    ensures
        string_bytes(strings.push(last), from) == string_bytes(strings, from) + last@.len() + 1,
    decreases strings.len() - from,
{
    reveal_with_fuel(string_bytes, 2);
    if from < strings.len() {
        lemma_strings(strings, last, from + 1);
        assert(strings.push(last)[from] == strings[from]);
    }
}

/// An exec that is planned has at least one argument, no empty string, at most sixteen arguments and
/// sixteen variables, one to eight stack pages, and strings that fit with the file name and the random
/// bytes into a kilobyte; it starts where the file says.
pub proof fn law_planned_exec_is_bounded(spec: LinuxExecSpec<'_>, plan: Result<LoadPlan, LoadPlanError>, j: int)
    requires
        exec_planned(spec, plan) is Ok,
    ensures
        ({
            let p = exec_planned(spec, plan)->Ok_0;
            &&& plan is Ok
            &&& p.entry == plan->Ok_0.entry
            &&& Some(p.phdr_vaddr) == plan->Ok_0.phdr_vaddr
            &&& p.phnum == plan->Ok_0.phnum
            &&& p.layout.stack_pages == spec.stack_pages
            &&& 1 <= spec.argv@.len() <= 16
            &&& spec.envp@.len() <= 16
            &&& 1 <= spec.stack_pages <= 8
            &&& 0 <= j < spec.argv@.len() ==> spec.argv@[j]@.len() > 0
            &&& 0 <= j < spec.envp@.len() ==> spec.envp@[j]@.len() > 0
            &&& spec.exec_filename@.len() > 0
            &&& string_bytes(spec.argv@, 0) + string_bytes(spec.envp@, 0)
                + spec.exec_filename@.len() + 17 <= 1024
        }),
{
    assert(spec_checked(
        spec.argv@,
        spec.envp@,
        spec.exec_filename@,
        spec.stack_pages,
    ) is Ok);
}

/// The stack of an exec has the asked pages below its top and a page below it that is never mapped;
/// outside the private slot it ends at the same place for every program.
pub proof fn law_exec_stack_has_the_asked_pages(
    policy: LoadPolicy,
    stack_pages: u64,
    image_base: u64,
    other_base: u64,
)
    requires
        exec_layout(policy, stack_pages, image_base) is Ok,
        !private_slot(policy),
    ensures
        ({
            let layout = exec_layout(policy, stack_pages, image_base)->Ok_0;
            &&& layout.stack_top - layout.stack_base == stack_pages * 4096
            &&& layout.stack_guard_page + 4096 == layout.stack_base
            &&& layout.stack_reservation_start == layout.stack_guard_page
            &&& layout.stack_pages == stack_pages
            &&& layout.window_base == policy.user_va_lo
            &&& layout.user_region_base <= image_base < layout.user_region_base + 4096
            &&& layout.user_region_base % 4096 == 0
            &&& exec_layout(policy, stack_pages, other_base) is Ok
            &&& exec_layout(policy, stack_pages, other_base)->Ok_0.stack_top == layout.stack_top
        }),
{
}

/// A stack with which a program starts lies in its pages, with its pointer aligned to sixteen.
pub proof fn law_start_stack_is_usable(
    layout: LinuxImageLayout,
    probe: Result<StackTail, StackLayoutError>,
    built: Result<StackImage, StackLayoutError>,
)
    ensures
        exec_stack_failure(layout, probe, built) is None ==> {
            &&& probe is Ok && built is Ok
            &&& built->Ok_0.rsp % 16 == 0
            &&& layout.stack_base <= built->Ok_0.rsp < layout.stack_top
            &&& 0 < layout.stack_pages * 4096
        },
{
}

/// The heap starts at or behind the end of every segment, at a page boundary less than a page behind the
/// last of them.
pub proof fn law_heap_starts_behind_the_segments(segments: Seq<LoadSegment>, high: int, from: int, j: int)
    requires
        0 <= from <= segments.len(),
        0 <= high,
        from <= j < segments.len(),
    ensures
        segments_end(segments, high, from) >= high,
        segments[j].vaddr + segments[j].memsz <= u64::MAX ==> segments_end(segments, high, from)
            >= segments[j].vaddr + segments[j].memsz,
    decreases segments.len() - from,
{
    lemma_end_grows(segments, high, from);
    if from < j {
        let end = segments[from].vaddr + segments[from].memsz;
        let capped = if end > u64::MAX {
            u64::MAX as int
        } else {
            end
        };
        law_heap_starts_behind_the_segments(
            segments,
            if capped > high {
                capped
            } else {
                high
            },
            from + 1,
            j,
        );
    } else {
        let end = segments[from].vaddr + segments[from].memsz;
        let capped = if end > u64::MAX {
            u64::MAX as int
        } else {
            end
        };
        lemma_end_grows(
            segments,
            if capped > high {
                capped
            } else {
                high
            },
            from + 1,
        );
    }
}

proof fn lemma_end_grows(segments: Seq<LoadSegment>, high: int, from: int)
    requires
        0 <= from <= segments.len(),
    ensures
        segments_end(segments, high, from) >= high,
        segments_end(segments, high, from) == high || exists|k: int|
            from <= k < segments.len() && (segments_end(segments, high, from) == (
            #[trigger] segments[k]).vaddr + segments[k].memsz || segments_end(segments, high, from)
                == u64::MAX),
    decreases segments.len() - from,
{
    if from < segments.len() {
        let end = segments[from].vaddr + segments[from].memsz;
        let capped = if end > u64::MAX {
            u64::MAX as int
        } else {
            end
        };
        lemma_end_grows(
            segments,
            if capped > high {
                capped
            } else {
                high
            },
            from + 1,
        );
    }
}

/// A thread slot for a relaunch is unused and its kernel stack is not the one that runs; no lower slot
/// would do.
pub proof fn law_relaunch_takes_an_idle_stack(
    m: SchedulerModel,
    stacks: Seq<(u64, u64)>,
    rsp: u64,
    from: int,
    j: int,
)
    requires
        0 <= from <= j,
        relaunch_from(m, stacks, rsp, from) is Some,
    ensures
        ({
            let i = relaunch_from(m, stacks, rsp, from)->0;
            &&& from <= i < stacks.len()
            &&& m.threads[i].state == ThreadState::Empty
            &&& !(stacks[i].0 < rsp <= stacks[i].1)
            &&& j < i ==> m.threads[j].state != ThreadState::Empty || stacks[j].0 < rsp
                <= stacks[j].1
        }),
    decreases stacks.len() - from,
{
    if !(m.threads[from].state == ThreadState::Empty && !(stacks[from].0 < rsp <= stacks[from].1)) {
        if from == j {
            law_relaunch_takes_an_idle_stack(m, stacks, rsp, from + 1, j + 1);
        } else {
            law_relaunch_takes_an_idle_stack(m, stacks, rsp, from + 1, j);
        }
    }
}

/// An exec is begun only for the instance that asks, while it has one thread and an address space. It
/// then gives up its memory, all of whose pages are to be unmapped, and its signal dispositions. One that
/// is refused keeps everything.
pub proof fn law_begun_exec_gives_up_the_old_image(
    processes: Seq<Process>,
    mem: Seq<Option<MemSlotModel>>,
    signals: Seq<Option<SignalSlotModel>>,
    pid: u64,
    generation: InstanceGeneration,
    signum: u64,
    address: u64,
)
    requires
        registry_wf(signals),
        1 <= signum <= 64,
    ensures
        ({
            let (m, s, r) = exec_begun(processes, mem, signals, pid, generation);
            let i = process_from(processes, pid, 0)->0;
            &&& r is Err ==> m == mem && s == signals
            &&& r is Ok <==> process_from(processes, pid, 0) is Some
                && processes[i].instance_generation == generation && processes[i].live_threads == 1
                && processes[i].resource_domain.address_space is Some
            &&& r matches Ok(ranges) ==> {
                &&& signals_of(s, pid, generation).actions[signum - 1] == default_action()
                &&& signals_of(s, pid, generation).blocked == 0
                &&& mem_of(mem, pid, generation) is None ==> ranges.len() == 0
                &&& mem_of(mem, pid, generation) matches Some(state) ==> super::linux_mem::heap_wf(
                    state,
                ) ==> (any_within(ranges, address) <==> heap_page(
                    state.brk_base,
                    state.brk_end,
                    floor_to(address as int, PAGE_SIZE as int) as u64,
                ) || any_mapped(state, 0, address))
            }
        }),
{
    super::signal_use::law_release_restores_the_defaults(
        signals,
        pid,
        generation,
        signum,
        if pid == 0 {
            1u64
        } else {
            0u64
        },
        generation,
    );
    if let Some(state) = mem_of(mem, pid, generation) {
        if super::linux_mem::heap_wf(state) {
            super::memory_use::law_release_covers_everything(state, address);
        }
    }
}

/// An exec that is done: the process is the same one with the new address space, resumes at the new
/// program's start on the new stack with every other register cleared and interrupts on, has an empty
/// heap behind the new image, and keeps exactly the descriptors that were not marked to be closed. Other
/// processes stay as they are.
pub proof fn law_done_exec_starts_the_new_program(
    frame: SyscallContext,
    processes: Seq<Process>,
    mem: Seq<Option<MemSlotModel>>,
    fds: FdRegistryModel,
    pid: u64,
    generation: InstanceGeneration,
    prepared: PreparedLinuxImage,
    torn: Result<(), &'static str>,
    fd: u64,
    other: int,
)
    requires
        linux_fd::descriptors::registry_wf(fds),
        exec_allowed(processes, pid, generation) is Ok,
        0 <= other < processes.len(),
        exec_committed(
            frame,
            processes,
            mem,
            fds,
            pid,
            generation,
            prepared,
            exec_allowed(processes, pid, generation)->Ok_0,
            torn,
        ).4 == Ok::<ExecCommit, LinuxImageError>(ExecCommit::Done),
    ensures
        ({
            let i = exec_allowed(processes, pid, generation)->Ok_0;
            let (resumed, after, m, f, r) = exec_committed(
                frame,
                processes,
                mem,
                fds,
                pid,
                generation,
                prepared,
                i,
                torn,
            );
            let state = mem_of(m, pid, generation)->0;
            &&& resumed.user_rip == prepared.entry && resumed.user_rsp == prepared.launch_rsp
            &&& resumed.rax == 0 && resumed.rdi == 0 && resumed.rsi == 0 && resumed.rdx == 0
            &&& resumed.user_rflags == 0x202
            &&& after.len() == processes.len()
            &&& after[i].id == pid && after[i].instance_generation == generation
            &&& after[i].resource_domain.address_space == Some(prepared.address_space)
            &&& after[i].resource_domain.root_frame == prepared.address_space.root_frame
            &&& after[i].live_threads == processes[i].live_threads
            &&& other != i ==> after[other] == processes[other]
            &&& mem_of(m, pid, generation) is Some
            &&& state.brk_base == prepared.brk_initial && state.brk_end == prepared.brk_initial
            &&& state.lo == prepared.layout.window_base
            &&& state.hi == prepared.layout.stack_reservation_start
            &&& cloexec_of(fds, pid, generation, fd) == Ok::<bool, LinuxErrno>(true) ==> fd_open(
                f,
                pid,
                generation,
                fd,
            ) == Err::<OpenDescriptionId, LinuxErrno>(EBADF)
            &&& cloexec_of(fds, pid, generation, fd) != Ok::<bool, LinuxErrno>(true) ==> same_fd(
                fds,
                f,
                pid,
                generation,
                fd,
            )
        }),
{
    lemma_process_from(processes, pid, 0);
    linux_fd::descriptors::law_exec_closes_the_marked(fds, pid, generation, fd);
    super::memory_use::law_image_starts_an_empty_heap(
        mem,
        pid,
        generation,
        prepared.layout.window_base,
        prepared.layout.stack_reservation_start,
        prepared.brk_initial,
        Ok(()),
        0,
    );
    let (slots, j) = ensured(mem, pid, generation)->Ok_0;
    super::linux_mem::lemma_mem_from(mem, pid, generation, 0);
    super::linux_mem::lemma_unused(mem, 0);
    let m = image_set(
        mem,
        pid,
        generation,
        prepared.layout.window_base,
        prepared.layout.stack_reservation_start,
        prepared.brk_initial,
    ).0;
    super::linux_mem::lemma_mem_placed(mem, m, j, pid, generation, 0);
}

/// An exec that does not end well does not resume in the new program.
pub proof fn law_failed_exec_does_not_resume(
    frame: SyscallContext,
    processes: Seq<Process>,
    mem: Seq<Option<MemSlotModel>>,
    fds: FdRegistryModel,
    pid: u64,
    generation: InstanceGeneration,
    prepared: PreparedLinuxImage,
    i: int,
    torn: Result<(), &'static str>,
)
    ensures
        ({
            let (resumed, _, _, _, r) = exec_committed(
                frame,
                processes,
                mem,
                fds,
                pid,
                generation,
                prepared,
                i,
                torn,
            );
            &&& r != Ok::<ExecCommit, LinuxImageError>(ExecCommit::Done) ==> resumed == frame
            &&& torn is Err ==> r != Ok::<ExecCommit, LinuxImageError>(ExecCommit::Done)
            &&& ensured(mem, pid, generation) is Ok && torn is Ok ==> r == Ok::<
                ExecCommit,
                LinuxImageError,
            >(ExecCommit::Done)
        }),
{
}

/// A launch ends with the process it began with, and only where both grants were made; it has an empty
/// heap behind its image then, and nothing changes where there is no room for one.
pub proof fn law_launch_needs_its_grants(
    mem: Seq<Option<MemSlotModel>>,
    launched: LaunchedLinuxProcess,
    layout: LinuxImageLayout,
    brk_initial: u64,
    network_granted: bool,
    tmp_granted: bool,
)
    ensures
        ({
            let (m, r) = launch_finished(
                mem,
                launched,
                layout,
                brk_initial,
                network_granted,
                tmp_granted,
            );
            let state = mem_of(m, launched.pid, launched.instance_generation)->0;
            &&& r is Ok <==> ensured(mem, launched.pid, launched.instance_generation) is Ok
                && network_granted && tmp_granted
            &&& r is Ok ==> r->Ok_0 == launched && state.brk_base == brk_initial && state.brk_end
                == brk_initial && state.lo == layout.window_base && state.hi
                == layout.stack_reservation_start
            &&& ensured(mem, launched.pid, launched.instance_generation) is Err ==> m == mem
        }),
{
    let (pid, generation) = (launched.pid, launched.instance_generation);
    if ensured(mem, pid, generation) is Ok {
        let (slots, j) = ensured(mem, pid, generation)->Ok_0;
        super::linux_mem::lemma_mem_from(mem, pid, generation, 0);
        super::linux_mem::lemma_unused(mem, 0);
        let m = image_set(
            mem,
            pid,
            generation,
            layout.window_base,
            layout.stack_reservation_start,
            brk_initial,
        ).0;
        super::linux_mem::lemma_mem_placed(mem, m, j, pid, generation, 0);
    }
}

/// A program that cannot be executed is told apart from a process that may not exec.
pub proof fn law_exec_errors_are_told_apart(error: LinuxImageError)
    ensures
        exec_errno(error) == EINVAL <==> error == LinuxImageError::ExecMultiThread || error
            == LinuxImageError::ExecGenerationMismatch,
        exec_errno(error) == EINVAL || exec_errno(error) == ENOEXEC,
        EINVAL != ENOEXEC,
{
}

/// A prepared program finds its entry, its program headers and the page size in its auxiliary vector,
/// wherever it runs; outside the private slot also where its random bytes and its file name lie.
pub proof fn law_prepared_program_is_told(
    policy: LoadPolicy,
    entry: u64,
    phdr: u64,
    phnum: u16,
    probe: Result<StackTail, StackLayoutError>,
)
    ensures
        ({
            let auxv = prepared_auxv(policy, entry, phdr, phnum, probe);
            &&& tells(auxv, 9, entry)
            &&& tells(auxv, 3, phdr)
            &&& tells(auxv, 5, phnum as u64)
            &&& tells(auxv, 6, 4096)
            &&& !private_slot(policy) ==> tells(auxv, 25, probe->Ok_0.random_vaddr) && tells(
                auxv,
                31,
                probe->Ok_0.execfn_vaddr,
            )
        }),
{
    super::linux_image::placement::law_launch_auxv_tells_the_program(entry, phdr, phnum);
    law_auxv_tells_the_program(
        entry,
        phdr,
        phnum,
        probe->Ok_0.random_vaddr,
        probe->Ok_0.execfn_vaddr,
    );
}

/// In the private slot a program has no stack only where none could be built or its pointer would lie
/// outside the stack or not be aligned.
pub proof fn law_private_stack_is_usable(
    policy: LoadPolicy,
    layout: LinuxImageLayout,
    probe: Result<StackTail, StackLayoutError>,
    built: Result<StackImage, StackLayoutError>,
)
    requires
        private_slot(policy),
    ensures
        stack_failure(policy, layout, probe, built) is None <==> built is Ok && built->Ok_0.rsp % 16
            == 0 && layout.stack_base <= built->Ok_0.rsp < layout.stack_top,
        built matches Err(e) ==> stack_failure(policy, layout, probe, built) == Some(
            LinuxImageError::InitialStack(e),
        ),
{
}

/// A prepared program has the layout that was planned for it, and its pages are those of its segments; it
/// is prepared only if it was planned, its image was checked and it has a stack to start on.
pub proof fn law_prepared_program_is_the_planned_one(
    spec: LinuxExecSpec<'_>,
    header: Result<Elf64Header, LoadPlanError>,
    plan: Result<LoadPlan, LoadPlanError>,
    probe: Result<StackTail, StackLayoutError>,
    built: Result<StackImage, StackLayoutError>,
)
    ensures
        ({
            let r = prepared_plan(spec, header, plan, probe, built);
            let layout = exec_planned(spec, plan)->Ok_0.layout;
            &&& r matches Ok((found, pages, _)) ==> found == layout && plan is Ok
                && !plan->Ok_0.has_interp && !plan->Ok_0.has_dynamic && Ok::<u64, LoadPlanError>(
                pages,
            ) == plan->Ok_0.mapped_pages
            &&& r is Ok <==> exec_planned(spec, plan) is Ok && stack_failure(
                *spec.policy,
                layout,
                probe,
                built,
            ) is None && plan_checked(spec.image@, *spec.policy, layout, header, plan) is Ok
        }),
{
    super::linux_image::placement::law_checked_image_is_static(
        spec.image@,
        *spec.policy,
        exec_planned(spec, plan)->Ok_0.layout,
        header,
        plan,
    );
}

/// An exec whose strings and stack are within bounds is accepted: one to sixteen arguments, at most sixteen
/// variables, none of them and no file name empty, a stack of one to eight pages, and strings that with
/// their ends and the random bytes fit in a kilobyte.
pub proof fn law_exec_within_bounds_is_accepted(
    argv: Seq<&[u8]>,
    envp: Seq<&[u8]>,
    exec_filename: Seq<u8>,
    stack_pages: u64,
)
    ensures
        spec_checked(argv, envp, exec_filename, stack_pages) is Ok <==> {
            &&& 1 <= argv.len() <= 16
            &&& envp.len() <= 16
            &&& 1 <= stack_pages <= 8
            &&& exec_filename.len() > 0
            &&& forall|i: int| 0 <= i < argv.len() ==> (#[trigger] argv[i])@.len() > 0
            &&& forall|i: int| 0 <= i < envp.len() ==> (#[trigger] envp[i])@.len() > 0
            &&& string_bytes(argv, 0) + string_bytes(envp, 0) + exec_filename.len() + 17 <= 1024
        },
{
}

/// An exec has a layout wherever its stack has one: in the private slot a stack of two pages, elsewhere any
/// that, with the page below it, fits below the stack's top. The private slot is that of both its bounds.
pub proof fn law_exec_layout_is_found(policy: LoadPolicy, stack_pages: u64, image_base: u64)
    ensures
        private_slot(policy) <==> policy.user_va_lo == 0x4000_0000_0000 && policy.user_va_hi
            == 0x4080_0000_0000,
        private_slot(policy) ==> (exec_layout(policy, stack_pages, image_base) is Ok <==> stack_pages
            == 2),
        !private_slot(policy) ==> (exec_layout(policy, stack_pages, image_base) is Ok <==> 1
            <= stack_pages && (stack_pages + 1) * 4096 <= 0x80_0000),
{
}

/// A built-in program is given only where it was built in, and only for a path of its own.
pub proof fn law_built_in_program_was_built_in(path: Seq<u8>, has_proc_probe: bool, has_exec_args: bool)
    ensures
        ({
            let found = built_in_at(path, has_proc_probe, has_exec_args);
            &&& found == Some(BuiltInImage::ProcProbe) ==> has_proc_probe && path
                == "/fixture/linux-proc-probe".spec_bytes()
            &&& found == Some(BuiltInImage::ExecArgs) ==> has_exec_args && path
                == "/fixture/linux-exec-args".spec_bytes()
            &&& found == Some(BuiltInImage::Hello) ==> path == "/bin/busybox".spec_bytes() || path
                == "/bin/sh".spec_bytes()
            &&& path == "/bin/sh".spec_bytes() || path == "/bin/busybox".spec_bytes() ==> found == Some(
                BuiltInImage::Hello,
            )
        }),
{
}

} // verus!
