//! How processes come into being and how they end, as seen from outside.

use super::domain::{
    current_teardown_begun, external_teardown_begun, linux_state_released, snapshot_of,
};
use super::id_allocator::IdAllocator;
use super::lifecycle::{generation_of, process_from, Process, ProcessRegistry, ProcessState};
use super::linux_fd::registry::{
    dropped, fds_released, instance_released, pid_dropped_from, stale_dropped_from,
    FdRegistryModel,
};
use super::linux_image::construct::LinuxProcessImage;
use super::linux_image::error::LinuxImageError;
use super::linux_image::launch::{
    ids_after_launch, lemma_process_from, registration_result, LaunchedLinuxProcess,
};
use super::linux_mem::{mem_from, mem_of, MemSlotModel};
use super::linux_proc::fork::{child_registered, ForkedChild};
use super::linux_proc::table::TableModel;
use super::linux_signal::{default_action, signals_of, SignalSlotModel};
use super::memory_use::{any_mapped, any_within, heap_page};
use super::personality::ExecutionPersonality;
use super::records::same_process;
use super::signal_use::registry_wf;
use crate::abi::LinuxErrno;
use crate::ipc::IpcProcessResources;
use crate::mm::address_space::ProcessAddressSpace;
use crate::mm::frame_allocator::PageAllocator;
use crate::mm::{floor_to, PAGE_SIZE};
use crate::scan::{lemma_count_bound, lemma_count_zero};
use crate::sched::{
    exited_from, force_exits, owned_by, retires, runnable, runnable_from, SchedulerModel,
    Thread, ThreadKind, ThreadState,
};
use vstd::prelude::*;

verus! {

/// Whether a thread may run again.
pub open spec fn may_run(thread: Thread) -> bool {
    runnable(thread) || thread.state == ThreadState::Blocked
}

/// Ending the running process ends the process of the running thread, with the given status, and every
/// thread of it that may run; no thread of another process ends, and no other process changes. The turn
/// goes to a thread of another process where one can run.
pub proof fn law_running_process_is_ended(
    m: SchedulerModel,
    processes: Seq<Process>,
    status: u64,
    faulted: bool,
    j: int,
    k: int,
)
    requires
        m.threads.len() == 3,
        m.current_thread matches Some(current) ==> current < 3,
        forall|a: int, b: int|
            0 <= a < b < 3 ==> (#[trigger] m.threads[a]).id != (#[trigger] m.threads[b]).id,
        current_teardown_begun(m, processes, status, faulted).2 is Ok,
        0 <= j < 3,
        0 <= k < processes.len(),
    ensures
        ({
            let (after, records, begun) = current_teardown_begun(m, processes, status, faulted);
            let current = m.current_thread->0 as int;
            let pid = m.threads[current].owner_process_id;
            let i = process_from(processes, pid, 0);
            &&& m.current_thread is Some
            &&& m.threads[current].kind == ThreadKind::User
            &&& begun->Ok_0.process_id == pid
            &&& i is Some
            &&& records.len() == processes.len()
            &&& records[i->0].state == ProcessState::Exited
            &&& records[i->0].exit_status == Some(status)
            &&& records[i->0].live_threads == 0
            &&& same_process(records[i->0], processes[i->0])
            &&& k != i->0 ==> records[k] == processes[k]
            &&& after.threads.len() == 3
            &&& m.threads[j].owner_process_id == pid ==> !may_run(after.threads[j])
            &&& m.threads[j].owner_process_id != pid && after.current_thread != Some(j as usize)
                ==> after.threads[j] == m.threads[j]
            &&& begun->Ok_0.next_stack_pointer is Some <==> after.current_thread is Some
            &&& after.current_thread == Some(j as usize) ==> m.threads[j].owner_process_id != pid
                && runnable(m.threads[j]) && after.threads[j].state == ThreadState::Running
            &&& after.current_thread is None && j != 2 && m.threads[j].owner_process_id != pid
                ==> !runnable(m.threads[j])
        }),
{
    reveal_with_fuel(runnable_from, 4);
    let current = m.current_thread->0 as int;
    let thread = m.threads[current];
    let pid = thread.owner_process_id;
    lemma_process_from(processes, pid, 0);
    let which = retires(pid, thread.id);
    let alone = exited_from(m.threads, which);
    assert(alone.len() == 3);
    assert(forall|a: int| 0 <= a < 3 && a != current ==> (#[trigger] m.threads[a]).id != thread.id);
}

/// Ending another process ends it and its threads in the same way, and leaves the running thread running.
/// The kernel, the process that runs, one that does not live, and one that is not there are refused.
pub proof fn law_other_process_is_ended(
    m: SchedulerModel,
    processes: Seq<Process>,
    pid: u64,
    status: u64,
    faulted: bool,
    j: int,
    k: int,
)
    requires
        m.threads.len() == 3,
        0 <= j < 3,
        0 <= k < processes.len(),
    ensures
        ({
            let (after, records, r) = external_teardown_begun(m, processes, pid, status, faulted);
            let i = process_from(processes, pid, 0);
            &&& r is Ok ==> {
                &&& pid != 0
                &&& i is Some
                &&& records.len() == processes.len()
                &&& records[i->0].state == ProcessState::Exited
                &&& records[i->0].exit_status == Some(status)
                &&& records[i->0].live_threads == 0
                &&& same_process(records[i->0], processes[i->0])
                &&& processes[i->0].state != ProcessState::Exited && processes[i->0].state
                    != ProcessState::Reaped
                &&& m.threads[j].owner_process_id == pid ==> !may_run(after.threads[j])
                &&& m.current_thread matches Some(c) ==> m.threads[c as int].kind != ThreadKind::User
                    || m.threads[c as int].owner_process_id != pid
            }
            &&& r is Ok && k != i->0 ==> records[k] == processes[k]
            &&& m.threads[j].owner_process_id != pid ==> after.threads[j] == m.threads[j]
            &&& after.current_thread == m.current_thread
            &&& pid == 0 || i is None ==> r is Err && after == m && records == processes
        }),
{
    lemma_process_from(processes, pid, 0);
    lemma_count_bound(m.threads, force_exits(pid));
    assert(exited_from(m.threads, force_exits(pid)).len() == 3);
}

/// The snapshot of a process counts what it owns: the pages and page tables of its address space, each of
/// its threads once with its kernel stack, and what it holds of IPC.
pub proof fn law_snapshot_counts_what_is_owned(
    processes: Seq<Process>,
    threads: Seq<Thread>,
    ipc: IpcProcessResources,
    pid: u64,
)
    requires
        threads.len() == 3,
    ensures
        ({
            let i = process_from(processes, pid, 0);
            let r = snapshot_of(processes, threads, ipc, pid);
            &&& r is Ok <==> i is Some
            &&& r matches Ok(s) ==> {
                &&& s.threads == s.kernel_stacks
                &&& s.runnable_threads <= s.threads <= 3
                &&& s.threads == 0 <==> forall|t: int|
                    0 <= t < 3 ==> !owned_by(#[trigger] threads[t], pid)
                &&& s.ipc_endpoints == ipc.owned_endpoints && s.ipc_handles == ipc.held_capabilities
                &&& processes[i->0].resource_domain.address_space is None ==> s.user_pages == 0
                    && s.page_table_frames == 0
                &&& processes[i->0].resource_domain.address_space matches Some(space)
                    ==> s.user_pages == space.user_mappings@.len() && s.page_table_frames
                    == space.page_table_frames@.len()
            }
        }),
{
    let p = |thread: Thread| owned_by(thread, pid);
    let q = |thread: Thread| owned_by(thread, pid) && runnable(thread);
    lemma_count_bound(threads, p);
    lemma_count_zero(threads, p);
    lemma_fewer(threads, p, q);
    assert((forall|t: int| 0 <= t < 3 ==> !p(#[trigger] threads[t])) <==> (forall|t: int|
        0 <= t < 3 ==> !owned_by(#[trigger] threads[t], pid))) by {
        if forall|t: int| 0 <= t < 3 ==> !owned_by(#[trigger] threads[t], pid) {
            assert forall|t: int| 0 <= t < 3 implies !p(#[trigger] threads[t]) by {
                assert(!owned_by(threads[t], pid));
            }
        }
        if forall|t: int| 0 <= t < 3 ==> !p(#[trigger] threads[t]) {
            assert forall|t: int| 0 <= t < 3 implies !owned_by(#[trigger] threads[t], pid) by {
                assert(!p(threads[t]));
            }
        }
    }
    if let Some(i) = process_from(processes, pid, 0) {
        if let Some(space) = processes[i].resource_domain.address_space {
            assert(space.user_mappings@.len() == space.user_mappings.len());
            assert(space.page_table_frames@.len() == space.page_table_frames.len());
        }
    }
}

proof fn lemma_fewer(threads: Seq<Thread>, p: spec_fn(Thread) -> bool, q: spec_fn(Thread) -> bool)
    requires
        forall|t: Thread| #[trigger] q(t) ==> p(t),
    ensures
        crate::scan::count(threads, q) <= crate::scan::count(threads, p),
    decreases threads.len(),
{
    if threads.len() > 0 {
        lemma_fewer(threads.drop_last(), p, q);
    }
}

proof fn lemma_pid_dropped(m: FdRegistryModel, pid: u64, from: int, s: int)
    requires
        0 <= from <= m.slots.len(),
        0 <= s < m.slots.len(),
    ensures
        ({
            let after = pid_dropped_from(m, pid, from);
            &&& after.slots.len() == m.slots.len()
            &&& after.slots[s] is Some ==> after.slots[s] == m.slots[s]
            &&& s >= from && m.slots[s] is Some && m.slots[s]->0.pid == pid ==> after.slots[s] is None
            &&& m.slots[s] is Some && m.slots[s]->0.pid != pid ==> after.slots[s] == m.slots[s]
        }),
    decreases m.slots.len() - from,
{
    if from < m.slots.len() {
        if m.slots[from] is Some && m.slots[from]->0.pid == pid {
            lemma_pid_dropped(dropped(m, from), pid, from + 1, s);
        } else {
            lemma_pid_dropped(m, pid, from + 1, s);
        }
    }
}

proof fn lemma_stale_dropped(m: FdRegistryModel, live: Seq<u64>, from: int, s: int)
    requires
        0 <= from <= m.slots.len(),
        0 <= s < m.slots.len(),
    ensures
        ({
            let after = stale_dropped_from(m, live, from);
            &&& after.slots.len() == m.slots.len()
            &&& after.slots[s] is Some ==> after.slots[s] == m.slots[s]
            &&& m.slots[s] is Some && super::linux_fd::registry::is_among(live, m.slots[s]->0.pid)
                ==> after.slots[s] == m.slots[s]
        }),
    decreases m.slots.len() - from,
{
    if from < m.slots.len() {
        if m.slots[from] is Some && !super::linux_fd::registry::is_among(
            live,
            m.slots[from]->0.pid,
        ) {
            let gone = m.slots[from]->0.pid;
            lemma_pid_dropped(m, gone, 0, s);
            lemma_stale_dropped(pid_dropped_from(m, gone, 0), live, from + 1, s);
        } else {
            lemma_stale_dropped(m, live, from + 1, s);
        }
    }
}

/// A process that is torn down keeps no descriptors, no signal dispositions and no memory, all of whose
/// pages are to be unmapped; the records of processes that are not there any more go, and those of
/// processes that are stay.
pub proof fn law_linux_state_is_given_up(
    processes: Seq<Process>,
    fds: FdRegistryModel,
    mem: Seq<Option<MemSlotModel>>,
    signals: Seq<Option<SignalSlotModel>>,
    table: TableModel,
    pid: u64,
    s: int,
    t: int,
    signum: u64,
    address: u64,
)
    requires
        registry_wf(signals),
        1 <= signum <= 64,
        0 <= s < fds.slots.len(),
        0 <= t < table.slots.len(),
    ensures
        ({
            let (f, m, sig, left, ranges) = linux_state_released(
                processes,
                fds,
                mem,
                signals,
                table,
                pid,
            );
            &&& f.slots.len() == fds.slots.len()
            &&& f.slots[s] is Some ==> f.slots[s]->0.pid != pid && f.slots[s] == fds.slots[s]
            &&& left.slots.len() == table.slots.len()
            &&& process_from(processes, table.slots[t].id.pid, 0) is None ==> !left.slots[t].live
            &&& process_from(processes, table.slots[t].id.pid, 0) is Some ==> left.slots[t]
                == table.slots[t]
            &&& generation_of(processes, pid) matches Some(generation) ==> {
                &&& signals_of(sig, pid, generation).actions[signum - 1] == default_action()
                &&& signals_of(sig, pid, generation).blocked == 0
                &&& mem_of(mem, pid, generation) is None ==> ranges.len() == 0 && m == mem
                &&& mem_of(mem, pid, generation) matches Some(state) ==> m[mem_from(
                    mem,
                    pid,
                    generation,
                    0,
                )->0] is None && (super::linux_mem::heap_wf(state) ==> (any_within(ranges, address)
                    <==> heap_page(
                    state.brk_base,
                    state.brk_end,
                    floor_to(address as int, PAGE_SIZE as int) as u64,
                ) || any_mapped(state, 0, address)))
            }
        }),
{
    let own = match generation_of(processes, pid) {
        Some(generation) => fds_released(fds, pid, generation),
        None => fds,
    };
    if let Some(generation) = generation_of(processes, pid) {
        super::linux_fd::registry::lemma_table_from(fds.slots, pid, generation, 0);
        super::linux_fd::references::lemma_pid_from(fds.slots, pid, 0);
        if !instance_released(fds, pid, generation).1 {
            lemma_pid_dropped(fds, pid, 0, s);
        }
        super::linux_mem::lemma_mem_from(mem, pid, generation, 0);
        super::signal_use::law_release_restores_the_defaults(
            signals,
            pid,
            generation,
            signum,
            if pid == 0 {
                1u64
            } else {
                0u64
            },
            generation,
        );
        if let Some(state) = mem_of(mem, pid, generation) {
            if super::linux_mem::heap_wf(state) {
                super::memory_use::law_release_covers_everything(state, address);
            }
        }
    }
    assert(own.slots.len() == fds.slots.len());
    assert(own.slots[s] is Some ==> own.slots[s] == fds.slots[s]);
    lemma_pid_dropped(own, pid, 0, s);
    lemma_stale_dropped(
        pid_dropped_from(own, pid, 0),
        super::domain::pids_from(processes, 0),
        0,
        s,
    );
}

/// A program that was launched is registered under the pid and generation that the launch gives, with the
/// image's address space and the Linux personality; its one thread is ready in the chosen slot, enters at
/// the image's start and runs on the given kernel stack. Other processes and threads stay, and the next
/// launch gets other numbers.
pub proof fn law_launched_process_is_there(
    registry: ProcessRegistry,
    registry_after: ProcessRegistry,
    scheduler: SchedulerModel,
    scheduler_after: SchedulerModel,
    ids: IdAllocator,
    ids_after: IdAllocator,
    allocator: &PageAllocator,
    allocator_after: &PageAllocator,
    kernel_stack_top: u64,
    scheduler_slot: usize,
    image: LinuxProcessImage,
    page_table_frames: usize,
    entry_frame: Result<u64, &'static str>,
    unmapped: Seq<Option<u64>>,
    r: Result<LaunchedLinuxProcess, LinuxImageError>,
    j: int,
    other: u64,
)
    requires
        registration_result(
            registry,
            registry_after,
            scheduler,
            scheduler_after,
            ids,
            ids_after,
            allocator,
            allocator_after,
            kernel_stack_top,
            scheduler_slot,
            image,
            page_table_frames,
            entry_frame,
            unmapped,
            r,
        ),
        r is Ok,
        scheduler.threads.len() == 3,
        0 <= j < 3,
        other != r->Ok_0.pid,
    ensures
        ({
            let launched = r->Ok_0;
            let i = process_from(registry_after.processes@, launched.pid, 0);
            let record = registry_after.processes@[i->0];
            let thread = scheduler_after.threads[scheduler_slot as int];
            &&& process_from(registry.processes@, launched.pid, 0) is None
            &&& i is Some
            &&& record.state == ProcessState::Ready && record.live_threads == 1
            &&& record.exit_status is None
            &&& record.instance_generation == launched.instance_generation
            &&& record.execution_personality == ExecutionPersonality::LinuxX86_64
            &&& record.resource_domain.address_space == Some(image.address_space)
            &&& record.resource_domain.root_frame == image.address_space.root_frame
            &&& launched.entry == image.entry && launched.launch_rsp == image.launch_rsp
            &&& launched.scheduler_slot == scheduler_slot
            &&& scheduler_slot < 2
            &&& scheduler.threads[scheduler_slot as int].state == ThreadState::Empty
            &&& thread.id == launched.tid && thread.owner_process_id == launched.pid
            &&& thread.kind == ThreadKind::User && thread.state == ThreadState::Ready
            &&& !thread.started
            &&& thread.kernel_stack_top == kernel_stack_top
            &&& entry_frame == Ok::<u64, &'static str>(thread.saved_stack_pointer)
            &&& thread.launch_entry == image.entry
            &&& j != scheduler_slot ==> scheduler_after.threads[j] == scheduler.threads[j]
            &&& scheduler_after.current_thread == scheduler.current_thread
            &&& generation_of(registry_after.processes@, other) == generation_of(
                registry.processes@,
                other,
            )
            &&& ids_after.next_pid > launched.pid && ids_after.next_tid > launched.tid
            &&& *allocator_after == *allocator
        }),
{
    super::records::law_inserted_process_is_found(
        registry.processes@,
        registry.next_instance_generation,
        super::linux_image::launch::linux_process(ids.next_pid, image.address_space),
        other,
    );
}

/// A forked child is registered with its copy of the address space under a pid, a thread number and a
/// generation of its own; its thread is ready in the chosen slot and goes on from the given frame. Other
/// processes and threads stay, the parent's among them.
pub proof fn law_forked_child_is_there(
    registry: ProcessRegistry,
    registry_after: ProcessRegistry,
    scheduler: SchedulerModel,
    scheduler_after: SchedulerModel,
    ids: IdAllocator,
    ids_after: IdAllocator,
    allocator: &PageAllocator,
    allocator_after: &PageAllocator,
    child_space: Result<ProcessAddressSpace, &'static str>,
    child_frame: Result<u64, &'static str>,
    user_rip: u64,
    kernel_stack_top: u64,
    scheduler_slot: usize,
    unmapped: Seq<Option<u64>>,
    r: Result<ForkedChild, LinuxErrno>,
    j: int,
    other: u64,
)
    requires
        child_registered(
            registry,
            registry_after,
            scheduler,
            scheduler_after,
            ids,
            ids_after,
            allocator,
            allocator_after,
            child_space,
            child_frame,
            user_rip,
            kernel_stack_top,
            scheduler_slot,
            unmapped,
            r,
        ),
        r is Ok,
        scheduler.threads.len() == 3,
        0 <= j < 3,
        other != r->Ok_0.pid,
    ensures
        ({
            let child = r->Ok_0;
            let i = process_from(registry_after.processes@, child.pid, 0);
            let record = registry_after.processes@[i->0];
            let thread = scheduler_after.threads[scheduler_slot as int];
            &&& child_space is Ok && child_frame is Ok
            &&& child.pid == ids.next_pid && ids_after.next_pid == child.pid + 1
            &&& child.tid == ids.next_tid && ids_after.next_tid == child.tid + 1
            &&& process_from(registry.processes@, child.pid, 0) is None
            &&& i is Some
            &&& record.state == ProcessState::Ready && record.live_threads == 1
            &&& record.instance_generation == child.generation
            &&& record.execution_personality == ExecutionPersonality::LinuxX86_64
            &&& record.resource_domain.address_space == Some(child_space->Ok_0)
            &&& scheduler.threads[scheduler_slot as int].state == ThreadState::Empty
            &&& thread.id == child.tid && thread.owner_process_id == child.pid
            &&& thread.kind == ThreadKind::User && thread.state == ThreadState::Ready
            &&& thread.kernel_stack_top == kernel_stack_top
            &&& thread.saved_stack_pointer == child_frame->Ok_0
            &&& thread.launch_entry == user_rip
            &&& thread.blocked_syscall_frame == 0
            &&& j != scheduler_slot ==> scheduler_after.threads[j] == scheduler.threads[j]
            &&& scheduler_after.current_thread == scheduler.current_thread
            &&& generation_of(registry_after.processes@, other) == generation_of(
                registry.processes@,
                other,
            )
            &&& ids_after.next_pid > child.pid && ids_after.next_tid > child.tid
            &&& *allocator_after == *allocator
        }),
{
    super::records::law_inserted_process_is_found(
        registry.processes@,
        registry.next_instance_generation,
        super::linux_image::launch::linux_process(ids.next_pid, child_space->Ok_0),
        other,
    );
}

/// Launching takes at most one id of each kind, the process's before the thread's; it takes both where its
/// thread slot is free, the registry has room and neither kind has run out.
pub proof fn law_launch_takes_its_ids(
    m: SchedulerModel,
    processes: Seq<Process>,
    ids: IdAllocator,
    scheduler_slot: usize,
)
    ensures
        ({
            let after = ids_after_launch(m, processes, ids, scheduler_slot);
            &&& ids.next_pid <= after.next_pid <= ids.next_pid + 1
            &&& ids.next_tid <= after.next_tid <= ids.next_tid + 1
            &&& after.next_tid > ids.next_tid ==> after.next_pid > ids.next_pid
            &&& after.next_pid > ids.next_pid ==> scheduler_slot < 2
                && m.threads[scheduler_slot as int].state == ThreadState::Empty
            &&& after.next_pid > ids.next_pid && ids.next_tid < u64::MAX ==> after.next_tid
                == ids.next_tid + 1
        }),
{
}

} // verus!
