//! Teardown of processes, and accounting for what they own.
//!
//! A teardown runs in steps, for IPC endpoints, capabilities and page tables are given up elsewhere in
//! between: it is begun, the process's Linux state is released, and it is finished by
//! `teardown_current_process` or `teardown_process_by_id`.

use super::lifecycle::{
    begin_thread_exit, empty_process, finalize_process_exit, generation_of, occupied, process_from,
    reap_process_record, thread_exited, Process, ProcessRegistry, ProcessState,
};
use super::linux_fd::registry::{
    fds_released, pid_dropped_from, stale_dropped_from, FdRegistryModel, LinuxFdRegistry,
};
use super::linux_image::launch::{
    alone_with_id, lemma_process_from, lemma_same_slots, lemma_slot_emptied, without_space,
};
use super::linux_mem::{heap_range, mem_of, mem_released, release_ranges, unmap_all, UnmapRange};
use super::linux_proc::table::{stale_retired, LinuxProcessTable, TableModel};
use super::linux_signal::signals_released;
use super::{linux_mem, linux_signal, InstanceGeneration, KERNEL_PROCESS_ID};
use crate::ipc::IpcProcessResources;
use crate::mm::address_space::{destroy_process_address_space, torn_down};
use crate::mm::frame_allocator::PageAllocator;
use crate::scan::{count, lemma_count_bound};
use crate::sched::dispatch::{
    dispatch_of, prepare_current_scheduler_thread_dispatch, ThreadDispatch,
};
use crate::sched::wait::{waits_cancelled, WaitTable};
use crate::sched::{
    exited_from, force_exits, handed_off, next_from, owned_by, reap_result, reaped, retires, runnable,
    Scheduler, SchedulerModel, Thread, ThreadKind, ThreadState, SCHEDULER_THREAD_SLOTS, TASK_COUNT,
};
use vstd::prelude::*;

verus! {

/// What a process owns.
#[derive(Clone, Copy, Debug, PartialEq, Eq, Structural)]
pub struct ResourceSnapshot {
    pub user_pages: usize,
    pub page_table_frames: usize,
    pub kernel_stacks: usize,
    pub ipc_endpoints: usize,
    pub ipc_handles: usize,
    pub threads: usize,
    pub runnable_threads: usize,
}

impl Default for ResourceSnapshot {
    fn default() -> (r: ResourceSnapshot)
        ensures
            r == (ResourceSnapshot {
                user_pages: 0,
                page_table_frames: 0,
                kernel_stacks: 0,
                ipc_endpoints: 0,
                ipc_handles: 0,
                threads: 0,
                runnable_threads: 0,
            }),
    {
        ResourceSnapshot {
            user_pages: 0,
            page_table_frames: 0,
            kernel_stacks: 0,
            ipc_endpoints: 0,
            ipc_handles: 0,
            threads: 0,
            runnable_threads: 0,
        }
    }
}

/// A process that was torn down.
#[derive(Clone, Copy, Debug, PartialEq, Eq, Structural)]
pub struct DomainTeardownResult {
    pub process_id: u64,
    pub exit_status: u64,
    pub released_resources: ResourceSnapshot,
    pub next_stack_pointer: Option<u64>,
}

/// The threads of a process.
pub open spec fn threads_owned(threads: Seq<Thread>, process_id: u64) -> nat {
    count(threads, |thread: Thread| owned_by(thread, process_id))
}

/// The threads of a process that can run.
pub open spec fn threads_runnable(threads: Seq<Thread>, process_id: u64) -> nat {
    count(threads, |thread: Thread| owned_by(thread, process_id) && runnable(thread))
}

/// Counts what is still attributed to a process after its teardown. A process that is still registered
/// owns more than can be counted.
pub fn remaining_owned_resource_count(
    registry: &ProcessRegistry,
    scheduler: &Scheduler,
    ipc: IpcProcessResources,
    process_id: u64,
) -> (r: usize)
    requires
        ipc.owned_endpoints + ipc.held_capabilities + 3 * SCHEDULER_THREAD_SLOTS <= usize::MAX,
    ensures
        if process_from(registry.processes@, process_id, 0) is Some {
            r == usize::MAX
        } else {
            r == 2 * threads_owned(scheduler.threads@, process_id) + threads_runnable(
                scheduler.threads@,
                process_id,
            ) + ipc.owned_endpoints + ipc.held_capabilities
        },
{
    if registry.get(process_id).is_some() {
        return usize::MAX;
    }
    let threads = scheduler.resources_for_process(process_id);
    threads.threads + threads.kernel_stacks + threads.runnable_threads + ipc.owned_endpoints
        + ipc.held_capabilities
}

/// What a process owns, if it is registered.
pub open spec fn snapshot_of(
    processes: Seq<Process>,
    threads: Seq<Thread>,
    ipc: IpcProcessResources,
    process_id: u64,
) -> Result<ResourceSnapshot, &'static str> {
    match process_from(processes, process_id, 0) {
        None => Err("resource snapshot process was not registered"),
        Some(i) => {
            let space = processes[i].resource_domain.counts();
            Ok(
                ResourceSnapshot {
                    user_pages: space.user_pages,
                    page_table_frames: space.page_table_frames,
                    kernel_stacks: threads_owned(threads, process_id) as usize,
                    ipc_endpoints: ipc.owned_endpoints,
                    ipc_handles: ipc.held_capabilities,
                    threads: threads_owned(threads, process_id) as usize,
                    runnable_threads: threads_runnable(threads, process_id) as usize,
                },
            )
        },
    }
}

pub fn resource_snapshot(
    registry: &ProcessRegistry,
    scheduler: &Scheduler,
    ipc: IpcProcessResources,
    process_id: u64,
) -> (r: Result<ResourceSnapshot, &'static str>)
    ensures
        r == snapshot_of(registry.processes@, scheduler.threads@, ipc, process_id),
{
    let space = match registry.get(process_id) {
        Some(process) => process.resource_domain.address_space_resource_counts(),
        None => return Err("resource snapshot process was not registered"),
    };
    let threads = scheduler.resources_for_process(process_id);
    Ok(
        ResourceSnapshot {
            user_pages: space.user_pages,
            page_table_frames: space.page_table_frames,
            kernel_stacks: threads.kernel_stacks,
            ipc_endpoints: ipc.owned_endpoints,
            ipc_handles: ipc.held_capabilities,
            threads: threads.threads,
            runnable_threads: threads.runnable_threads,
        },
    )
}

/// A teardown of the running process that was begun.
#[derive(Clone, Copy, Debug, PartialEq, Eq, Structural)]
pub struct TeardownStart {
    pub process_id: u64,
    /// The stack pointer of the thread that runs next, if one does.
    pub next_stack_pointer: Option<u64>,
}

/// The record of a process whose current thread ends it, and its siblings with it.
pub open spec fn last_exit(process: Process, retired: int, status: u64, faulted: bool) -> (
    Process,
    Result<(), &'static str>,
) {
    let ended = thread_exited(process, status, faulted);
    if ended.live_threads < retired {
        (ended, Err("process thread accounting underflow during teardown"))
    } else {
        let left = Process { live_threads: (ended.live_threads - retired) as u16, ..ended };
        if left.live_threads != 0 {
            (left, Err("process teardown left live threads after sibling retirement"))
        } else if process.live_threads == 1 {
            (left, Ok(()))
        } else {
            (
                Process { state: ProcessState::Exited, exit_status: Some(status), ..left },
                Ok(()),
            )
        }
    }
}

/// The scheduler and the processes after a teardown of the running process was begun.
pub open spec fn current_teardown_begun(
    m: SchedulerModel,
    processes: Seq<Process>,
    status: u64,
    faulted: bool,
) -> (SchedulerModel, Seq<Process>, Result<TeardownStart, &'static str>) {
    match m.current_thread {
        None => (m, processes, Err("process teardown required a current scheduler thread")),
        Some(current) => {
            let thread = m.threads[current as int];
            let pid = thread.owner_process_id;
            let retired = count(m.threads, retires(pid, thread.id));
            let alone = SchedulerModel {
                threads: exited_from(m.threads, retires(pid, thread.id)),
                ..m
            };
            let ended = SchedulerModel {
                threads: alone.threads.update(
                    current as int,
                    Thread { state: ThreadState::Exited, ..alone.threads[current as int] },
                ),
                ..m
            };
            if thread.kind != ThreadKind::User {
                (m, processes, Err("process teardown required a userspace current thread"))
            } else {
                match process_from(processes, pid, 0) {
                    None => (alone, processes, Err("teardown process was missing from registry")),
                    Some(i) => if processes[i].live_threads == 0 {
                        (alone, processes, Err("process thread accounting underflow during exit"))
                    } else {
                        let (record, done) = last_exit(processes[i], retired as int, status, faulted);
                        let after = processes.update(i, record);
                        match done {
                            Err(e) => (ended, after, Err(e)),
                            Ok(()) => match next_from(ended.threads, Some(current)) {
                                None => (
                                    SchedulerModel { current_thread: None, ..ended },
                                    after,
                                    Ok(TeardownStart { process_id: pid, next_stack_pointer: None }),
                                ),
                                Some(next) => (
                                    handed_off(ended, next).0,
                                    after,
                                    Ok(
                                        TeardownStart {
                                            process_id: pid,
                                            next_stack_pointer: Some(handed_off(ended, next).1),
                                        },
                                    ),
                                ),
                            },
                        }
                    },
                }
            }
        },
    }
}

/// Begins the teardown of the running process: its threads end, and the turn goes to another thread.
pub fn begin_teardown_of_current(
    scheduler: &mut Scheduler,
    registry: &mut ProcessRegistry,
    status: u64,
    faulted: bool,
) -> (r: Result<TeardownStart, &'static str>)
    requires
        old(scheduler).wf(),
        old(registry).wf(),
    ensures
        final(scheduler).wf(),
        final(registry).wf(),
        final(registry).next_instance_generation == old(registry).next_instance_generation,
        ({
            let (m, processes, begun) = current_teardown_begun(
                old(scheduler).model(),
                old(registry).processes@,
                status,
                faulted,
            );
            &&& final(scheduler).model() == m
            &&& final(registry).processes@ == processes
            &&& r == begun
        }),
{
    let ghost before = scheduler.model();
    let ghost processes = registry.processes@;
    let current_index: usize = match scheduler.current_thread {
        Some(index) => index,
        None => return Err("process teardown required a current scheduler thread"),
    };
    let current = scheduler.threads[current_index];
    if current.kind != ThreadKind::User {
        return Err("process teardown required a userspace current thread");
    }
    let retired: usize = scheduler.retire_sibling_threads_for_process(
        current.owner_process_id,
        current.id,
    );
    let ghost alone = scheduler.model();
    proof {
        lemma_process_from(processes, current.owner_process_id, 0);
    }
    let mut ended: Thread = scheduler.threads[current_index];
    let ghost kept = ended;
    let done: Result<(), &'static str> = match registry.get_mut(current.owner_process_id) {
        None => return Err("teardown process was missing from registry"),
        Some(process) => match begin_thread_exit(process, &mut ended, status, faulted) {
            Err(e) => Err(e),
            Ok(should_destroy) => {
                let retired_threads: u16 = retired as u16;
                if process.live_threads < retired_threads {
                    Err("process thread accounting underflow during teardown")
                } else {
                    process.live_threads = process.live_threads - retired_threads;
                    if process.live_threads == 0 && !should_destroy {
                        let _ = finalize_process_exit(process, status);
                    }
                    if process.live_threads != 0 {
                        Err("process teardown left live threads after sibling retirement")
                    } else {
                        Ok(())
                    }
                }
            },
        },
    };
    scheduler.threads[current_index] = ended;
    proof {
        let i = process_from(processes, current.owner_process_id, 0)->0;
        if processes[i].live_threads == 0 {
            assert(scheduler.model() =~= alone);
            assert(registry.processes@ =~= processes);
        } else {
            assert(registry.processes@ =~= processes.update(
                i,
                last_exit(processes[i], retired as int, status, faulted).0,
            ));
        }
    }
    match done {
        Ok(()) => {},
        Err(e) => return Err(e),
    }
    assert(scheduler.threads@.update(current_index as int, ended) =~= scheduler.threads@);
    match scheduler.finish_current_thread() {
        Ok(next_stack_pointer) => Ok(
            TeardownStart { process_id: current.owner_process_id, next_stack_pointer },
        ),
        Err(e) => Err(e),
    }
}

/// The processes and threads after a teardown of another process was begun.
pub open spec fn external_teardown_begun(
    m: SchedulerModel,
    processes: Seq<Process>,
    process_id: u64,
    status: u64,
    faulted: bool,
) -> (SchedulerModel, Seq<Process>, Result<(), &'static str>) {
    if process_id == KERNEL_PROCESS_ID {
        (m, processes, Err("kernel process cannot be torn down through lifecycle control"))
    } else if faulted {
        (m, processes, Err("supervisor-initiated teardown does not model faulted exit yet"))
    } else if m.current_thread is Some && m.threads[m.current_thread->0 as int].kind
        == ThreadKind::User && m.threads[m.current_thread->0 as int].owner_process_id
        == process_id {
        (
            m,
            processes,
            Err("cannot externally teardown the currently running userspace process"),
        )
    } else {
        match process_from(processes, process_id, 0) {
            None => (m, processes, Err("teardown target process was missing from registry")),
            Some(i) => {
                let process = processes[i];
                let n = count(m.threads, force_exits(process_id));
                let ended = SchedulerModel {
                    threads: exited_from(m.threads, force_exits(process_id)),
                    ..m
                };
                let left = Process { live_threads: (process.live_threads - n) as u16, ..process };
                if !(process.state == ProcessState::Ready || process.state == ProcessState::Running
                    || process.state == ProcessState::Faulted || process.state
                    == ProcessState::Exiting) {
                    (m, processes, Err("teardown target process was not live"))
                } else if n == 0 {
                    (ended, processes, Err("process had no live threads to force-exit"))
                } else if process.live_threads < n {
                    (
                        ended,
                        processes,
                        Err("process thread accounting underflow during external teardown"),
                    )
                } else if left.live_threads != 0 {
                    (
                        ended,
                        processes.update(i, left),
                        Err("external teardown left live threads after force-exit"),
                    )
                } else {
                    (
                        ended,
                        processes.update(
                            i,
                            Process {
                                state: ProcessState::Exited,
                                exit_status: Some(status),
                                ..left
                            },
                        ),
                        Ok(()),
                    )
                }
            },
        }
    }
}

/// Begins the teardown of a process that does not run: all its threads are made to exit.
pub fn begin_teardown_by_id(
    scheduler: &mut Scheduler,
    registry: &mut ProcessRegistry,
    process_id: u64,
    status: u64,
    faulted: bool,
) -> (r: Result<(), &'static str>)
    requires
        old(scheduler).wf(),
        old(registry).wf(),
    ensures
        final(scheduler).wf(),
        final(registry).wf(),
        final(registry).next_instance_generation == old(registry).next_instance_generation,
        ({
            let (m, processes, begun) = external_teardown_begun(
                old(scheduler).model(),
                old(registry).processes@,
                process_id,
                status,
                faulted,
            );
            &&& final(scheduler).model() == m
            &&& final(registry).processes@ == processes
            &&& r == begun
        }),
{
    if process_id == KERNEL_PROCESS_ID {
        return Err("kernel process cannot be torn down through lifecycle control");
    }
    if faulted {
        return Err("supervisor-initiated teardown does not model faulted exit yet");
    }
    match scheduler.current_userspace_process_id() {
        Ok(pid) => {
            if pid == process_id {
                return Err("cannot externally teardown the currently running userspace process");
            }
        },
        Err(_) => {},
    }
    let ghost processes = registry.processes@;
    proof {
        lemma_process_from(processes, process_id, 0);
    }
    proof {
        lemma_count_bound(scheduler.threads@, force_exits(process_id));
    }
    let state = match registry.get(process_id) {
        Some(process) => process.state,
        None => return Err("teardown target process was missing from registry"),
    };
    if state != ProcessState::Ready && state != ProcessState::Running && state
        != ProcessState::Faulted && state != ProcessState::Exiting {
        return Err("teardown target process was not live");
    }
    let exited: usize = match scheduler.force_exit_all_threads_for_process(process_id) {
        Ok(exited) => exited,
        Err(e) => return Err(e),
    };
    let done: Result<(), &'static str> = match registry.get_mut(process_id) {
        None => Err("teardown target process was missing from registry"),
        Some(process) => {
            let exited_threads: u16 = exited as u16;
            if process.live_threads < exited_threads {
                Err("process thread accounting underflow during external teardown")
            } else {
                process.live_threads = process.live_threads - exited_threads;
                if process.live_threads != 0 {
                    Err("external teardown left live threads after force-exit")
                } else {
                    finalize_process_exit(process, status)
                }
            }
        },
    };
    assert(registry.processes@ =~= external_teardown_begun(
        old(scheduler).model(),
        processes,
        process_id,
        status,
        faulted,
    ).1);
    match done {
        Ok(()) => Ok(()),
        Err(e) => Err(e),
    }
}

/// The ids of the processes from slot `from` on.
pub open spec fn pids_from(processes: Seq<Process>, from: int) -> Seq<u64>
    decreases processes.len() - from,
{
    if from < 0 || from >= processes.len() {
        seq![]
    } else if occupied(processes[from]) {
        seq![processes[from].id] + pids_from(processes, from + 1)
    } else {
        pids_from(processes, from + 1)
    }
}

/// The ids of the processes that are registered.
pub fn registered_pids(registry: &ProcessRegistry) -> (r: Vec<u64>)
    ensures
        r@ == pids_from(registry.processes@, 0),
{
    let mut pids: Vec<u64> = Vec::new();
    let mut i: usize = 0;
    assert(pids@ + pids_from(registry.processes@, 0) =~= pids_from(registry.processes@, 0));
    while i < registry.processes.len()
        invariant
            0 <= i <= registry.processes@.len(),
            pids@ + pids_from(registry.processes@, i as int) == pids_from(registry.processes@, 0),
        decreases registry.processes@.len() - i,
    {
        let ghost held = pids@;
        if registry.processes[i].state != ProcessState::Empty {
            pids.push(registry.processes[i].id);
            assert(pids@ + pids_from(registry.processes@, i + 1) =~= held + pids_from(
                registry.processes@,
                i as int,
            ));
        }
        i += 1;
    }
    assert(pids@ + pids_from(registry.processes@, i as int) =~= pids@);
    pids
}

/// The descriptors after a process was torn down: its own, any other of its pid, and those of pids that
/// no process has.
pub open spec fn fds_torn_down(m: FdRegistryModel, processes: Seq<Process>, pid: u64) -> FdRegistryModel {
    let own = match generation_of(processes, pid) {
        Some(generation) => fds_released(m, pid, generation),
        None => m,
    };
    stale_dropped_from(pid_dropped_from(own, pid, 0), pids_from(processes, 0), 0)
}

/// What is left of the Linux personality's state after a process that is torn down gave its own up, and
/// the pages that are to be unmapped.
pub open spec fn linux_state_released(
    processes: Seq<Process>,
    fds: FdRegistryModel,
    mem: Seq<Option<linux_mem::MemSlotModel>>,
    signals: Seq<Option<linux_signal::SignalSlotModel>>,
    table: TableModel,
    process_id: u64,
) -> (
    FdRegistryModel,
    Seq<Option<linux_mem::MemSlotModel>>,
    Seq<Option<linux_signal::SignalSlotModel>>,
    TableModel,
    Seq<UnmapRange>,
) {
    let f = fds_torn_down(fds, processes, process_id);
    let t = TableModel { slots: stale_retired(table.slots, processes), ..table };
    match generation_of(processes, process_id) {
        None => (f, mem, signals, t, seq![]),
        Some(generation) => (
            f,
            mem_released(mem, process_id, generation),
            signals_released(signals, process_id, generation),
            t,
            match mem_of(mem, process_id, generation) {
                None => seq![],
                Some(state) => release_ranges(state, seq![heap_range(state)], 0),
            },
        ),
    }
}

/// Gives up what the Linux personality holds for a process that is torn down. Returns the pages that
/// are to be unmapped.
pub fn release_linux_state(
    registry: &ProcessRegistry,
    fds: &mut LinuxFdRegistry,
    mem: &mut linux_mem::Registry,
    signals: &mut linux_signal::Registry,
    table: &mut LinuxProcessTable,
    process_id: u64,
) -> (r: Vec<UnmapRange>)
    requires
        old(fds).wf(),
        old(mem).wf(),
    ensures
        final(fds).wf(),
        final(mem).wf(),
        (
            final(fds).model(),
            final(mem).model(),
            final(signals).model(),
            final(table).model(),
            r@,
        ) == linux_state_released(
            registry.processes@,
            old(fds).model(),
            old(mem).model(),
            old(signals).model(),
            old(table).model(),
            process_id,
        ),
{
    let mut unmap: Vec<UnmapRange> = Vec::new();
    match registry.live_instance_generation(process_id) {
        Some(generation) => {
            fds.release_for_process(process_id, generation);
            match mem.take_for_process(process_id, generation) {
                Some(state) => {
                    unmap = unmap_all(&state);
                },
                None => {},
            }
            signals.release(process_id, generation);
        },
        None => {},
    }
    fds.release_by_pid(process_id);
    let live = registered_pids(registry);
    fds.release_stale_registry_slots(live.as_slice());
    table.retire_stale_live_slots(registry);
    unmap
}

/// Gives up the descriptors of a process that is torn down from outside.
pub fn release_descriptors(registry: &ProcessRegistry, fds: &mut LinuxFdRegistry, process_id: u64)
    requires
        old(fds).wf(),
    ensures
        final(fds).wf(),
        final(fds).model() == match generation_of(registry.processes@, process_id) {
            Some(generation) => fds_released(old(fds).model(), process_id, generation),
            None => old(fds).model(),
        },
{
    match registry.live_instance_generation(process_id) {
        Some(generation) => fds.release_for_process(process_id, generation),
        None => {},
    }
}

/// Whether the network service is told of a holder's exit, and with which generation: where sessions
/// were cleared though no request was reclaimed.
pub fn holder_exit_notice(
    net_reclaimed: usize,
    sessions_cleared: usize,
    generation: Option<InstanceGeneration>,
) -> (r: Option<u64>)
    ensures
        r == (if net_reclaimed == 0 && sessions_cleared > 0 {
            match generation {
                Some(generation) => Some(generation.0 as u64),
                None => None,
            }
        } else {
            None
        }),
{
    if net_reclaimed == 0 && sessions_cleared > 0 {
        match generation {
            Some(generation) => Some(generation.0 as u64),
            None => None,
        }
    } else {
        None
    }
}

/// Who asked for a teardown.
#[derive(Clone, Copy, Debug, PartialEq, Eq, Structural)]
pub enum TeardownKind {
    /// The process itself, which ran until now.
    Current,
    /// Another process.
    External,
}

pub open spec fn count_message(kind: TeardownKind) -> &'static str {
    match kind {
        TeardownKind::Current => "scheduler thread cleanup count diverged from teardown snapshot",
        TeardownKind::External =>
            "scheduler thread cleanup count diverged from external teardown snapshot",
    }
}

pub open spec fn missing_message(kind: TeardownKind) -> &'static str {
    match kind {
        TeardownKind::Current => "process missing from registry during resource teardown",
        TeardownKind::External =>
            "process missing from registry during external resource teardown",
    }
}

pub open spec fn space_message(kind: TeardownKind) -> &'static str {
    match kind {
        TeardownKind::Current => "process address space was missing during teardown",
        TeardownKind::External => "process address space was missing during external teardown",
    }
}

pub open spec fn ipc_message(kind: TeardownKind) -> &'static str {
    match kind {
        TeardownKind::Current =>
            "IPC teardown counts diverged from the recorded process snapshot",
        TeardownKind::External =>
            "IPC teardown counts diverged from the recorded external teardown snapshot",
    }
}

pub open spec fn threads_message(kind: TeardownKind) -> &'static str {
    match kind {
        TeardownKind::Current =>
            "scheduler teardown counts diverged from the recorded process snapshot",
        TeardownKind::External =>
            "scheduler teardown counts diverged from the recorded external teardown snapshot",
    }
}

/// What the thread that runs next needs in place, if there is one.
pub open spec fn next_dispatch(
    m: SchedulerModel,
    kernel_root: u64,
    processes: Seq<Process>,
    wanted: bool,
) -> Result<Option<ThreadDispatch>, &'static str> {
    if !wanted {
        Ok(None)
    } else {
        match m.current_thread {
            None => Err("scheduler had no current thread to dispatch"),
            Some(index) => match dispatch_of(m.threads[index as int], kernel_root, processes) {
                Ok(dispatch) => Ok(Some(dispatch)),
                Err(e) => Err(e),
            },
        }
    }
}

/// The processes, and the result, after the address space of the process in slot `i` was torn down with
/// an outcome.
pub open spec fn space_gone(
    kind: TeardownKind,
    m: SchedulerModel,
    kernel_root: u64,
    dispatches: bool,
    processes: Seq<Process>,
    i: int,
    torn: Result<(), &'static str>,
    released_ipc: IpcProcessResources,
    owned: nat,
    snapshot: ResourceSnapshot,
) -> (Seq<Process>, Result<Option<ThreadDispatch>, &'static str>) {
    let bare = without_space(processes[i]);
    let dead = processes.update(i, Process { state: ProcessState::Reaped, ..bare });
    match torn {
        Err(e) => (processes.update(i, bare), Err(e)),
        Ok(()) => if bare.live_threads != 0 {
            (
                processes.update(i, bare),
                Err("process could not be reaped while threads remained"),
            )
        } else {
            match next_dispatch(m, kernel_root, dead, dispatches) {
                Err(e) => (dead, Err(e)),
                Ok(dispatch) => {
                    let gone = processes.update(i, empty_process());
                    if released_ipc.owned_endpoints != snapshot.ipc_endpoints
                        || released_ipc.held_capabilities != snapshot.ipc_handles {
                        (gone, Err(ipc_message(kind)))
                    } else if owned != snapshot.threads || owned != snapshot.kernel_stacks {
                        (gone, Err(threads_message(kind)))
                    } else {
                        (gone, Ok(dispatch))
                    }
                },
            }
        },
    }
}

/// Whether a teardown was finished in this way.
pub open spec fn teardown_finished(
    kind: TeardownKind,
    scheduler: SchedulerModel,
    scheduler_after: SchedulerModel,
    waits: crate::sched::wait::WaitModel,
    waits_after: crate::sched::wait::WaitModel,
    processes: Seq<Process>,
    processes_after: Seq<Process>,
    allocator: &PageAllocator,
    allocator_after: &PageAllocator,
    kernel_root: u64,
    dispatches: bool,
    process_id: u64,
    snapshot: ResourceSnapshot,
    released_ipc: IpcProcessResources,
    unmapped: Seq<Option<u64>>,
    r: Result<Option<ThreadDispatch>, &'static str>,
) -> bool {
    let (cancelled, w) = waits_cancelled(scheduler, waits, processes, process_id);
    let (m, reaped) = reap_result(cancelled, process_id);
    let owned = threads_owned(scheduler.threads, process_id);
    &&& scheduler_after == m
    &&& waits_after == w
    &&& match reaped {
        Err(e) => {
            &&& r == Err::<Option<ThreadDispatch>, &'static str>(e)
            &&& processes_after == processes
            &&& *allocator_after == *allocator
        },
        Ok(n) => if n != owned {
            &&& r == Err::<Option<ThreadDispatch>, &'static str>(count_message(kind))
            &&& processes_after == processes
            &&& *allocator_after == *allocator
        } else {
            match process_from(processes, process_id, 0) {
                None => {
                    &&& r == Err::<Option<ThreadDispatch>, &'static str>(missing_message(kind))
                    &&& processes_after == processes
                    &&& *allocator_after == *allocator
                },
                Some(i) => match processes[i].resource_domain.address_space {
                    None => {
                        &&& r == Err::<Option<ThreadDispatch>, &'static str>(space_message(kind))
                        &&& processes_after == processes.update(i, without_space(processes[i]))
                        &&& *allocator_after == *allocator
                    },
                    Some(space) => exists|torn: Result<(), &'static str>, k: int| #[trigger]
                        torn_down(
                            space.page_table_frames@,
                            space.user_mappings@,
                            unmapped,
                            allocator,
                            allocator_after,
                            torn,
                            k,
                        ) && (processes_after, r) == space_gone(
                            kind,
                            m,
                            kernel_root,
                            dispatches,
                            processes,
                            i,
                            torn,
                            released_ipc,
                            owned,
                            snapshot,
                        ),
                },
            }
        },
    }
}

/// Whether the frames that page tables gave back are known for all user pages of a process.
pub open spec fn unmapping_known(processes: Seq<Process>, pid: u64, unmapped: Seq<Option<u64>>) -> bool {
    let i = process_from(processes, pid, 0);
    i is Some && processes[i->0].resource_domain.address_space is Some ==> {
        let space = processes[i->0].resource_domain.address_space->0;
        space.wf() && unmapped.len() >= space.user_mappings@.len()
    }
}

fn finish_teardown(
    kind: TeardownKind,
    scheduler: &mut Scheduler,
    waits: &mut WaitTable,
    registry: &mut ProcessRegistry,
    allocator: &mut PageAllocator,
    kernel_root: u64,
    dispatches: bool,
    process_id: u64,
    snapshot: ResourceSnapshot,
    released_ipc: IpcProcessResources,
    unmapped: &[Option<u64>],
) -> (r: Result<Option<ThreadDispatch>, &'static str>)
    requires
        old(scheduler).wf(),
        old(waits).wf(),
        old(registry).wf(),
        old(allocator).wf(),
        unmapping_known(old(registry).processes@, process_id, unmapped@),
    ensures
        final(scheduler).wf(),
        final(waits).wf(),
        final(registry).wf(),
        final(allocator).wf(),
        final(registry).next_instance_generation == old(registry).next_instance_generation,
        teardown_finished(
            kind,
            old(scheduler).model(),
            final(scheduler).model(),
            old(waits).model(),
            final(waits).model(),
            old(registry).processes@,
            final(registry).processes@,
            old(allocator),
            final(allocator),
            kernel_root,
            dispatches,
            process_id,
            snapshot,
            released_ipc,
            unmapped@,
            r,
        ),
{
    let ghost before = registry.processes@;
    let resources = scheduler.resources_for_process(process_id);
    let reaped: usize = match scheduler.reap_threads_for_process(waits, registry, process_id) {
        Ok(reaped) => reaped,
        Err(e) => return Err(e),
    };
    if reaped != resources.threads {
        return Err(
            match kind {
                TeardownKind::Current =>
                    "scheduler thread cleanup count diverged from teardown snapshot",
                TeardownKind::External =>
                    "scheduler thread cleanup count diverged from external teardown snapshot",
            },
        );
    }
    proof {
        lemma_process_from(before, process_id, 0);
    }
    let ghost i = process_from(before, process_id, 0)->0;
    let taken = match registry.get_mut(process_id) {
        Some(process) => process.resource_domain.take_address_space(),
        None => {
            return Err(
                match kind {
                    TeardownKind::Current =>
                        "process missing from registry during resource teardown",
                    TeardownKind::External =>
                        "process missing from registry during external resource teardown",
                },
            );
        },
    };
    let ghost bare = before.update(i, without_space(before[i]));
    assert(registry.processes@ =~= bare);
    let space = match taken {
        Some(space) => space,
        None => {
            return Err(
                match kind {
                    TeardownKind::Current => "process address space was missing during teardown",
                    TeardownKind::External =>
                        "process address space was missing during external teardown",
                },
            );
        },
    };
    let torn = destroy_process_address_space(&space, allocator, unmapped);
    match torn {
        Ok(()) => {},
        Err(e) => return Err(e),
    }
    proof {
        lemma_same_slots(before, bare, process_id, 0);
    }
    let dead_result: Result<(), &'static str> = match registry.get_mut(process_id) {
        Some(process) => reap_process_record(process),
        None => Ok(()),
    };
    let ghost dead = before.update(
        i,
        Process { state: ProcessState::Reaped, ..without_space(before[i]) },
    );
    match dead_result {
        Ok(()) => {},
        Err(e) => {
            assert(registry.processes@ =~= bare);
            return Err(e);
        },
    }
    assert(registry.processes@ =~= dead);
    let dispatch: Option<ThreadDispatch> = if dispatches {
        match prepare_current_scheduler_thread_dispatch(scheduler, kernel_root, registry) {
            Ok(dispatch) => Some(dispatch),
            Err(e) => return Err(e),
        }
    } else {
        None
    };
    proof {
        lemma_same_slots(before, dead, process_id, 0);
    }
    match registry.release_reaped(process_id) {
        Ok(()) => {},
        Err(e) => return Err(e),
    }
    assert(registry.processes@ =~= before.update(i, empty_process()));
    if released_ipc.owned_endpoints != snapshot.ipc_endpoints || released_ipc.held_capabilities
        != snapshot.ipc_handles {
        return Err(
            match kind {
                TeardownKind::Current =>
                    "IPC teardown counts diverged from the recorded process snapshot",
                TeardownKind::External =>
                    "IPC teardown counts diverged from the recorded external teardown snapshot",
            },
        );
    }
    if resources.threads != snapshot.threads || resources.kernel_stacks != snapshot.kernel_stacks {
        return Err(
            match kind {
                TeardownKind::Current =>
                    "scheduler teardown counts diverged from the recorded process snapshot",
                TeardownKind::External =>
                    "scheduler teardown counts diverged from the recorded external teardown snapshot",
            },
        );
    }
    Ok(dispatch)
}

/// Finishes the teardown of the process that ran: its threads, its address space and its record go.
/// `snapshot` is what it owned when its threads had ended, `released_ipc` what the IPC endpoints gave
/// up, or why they did not, and `unmapped` are the frames that the page tables gave back for its user
/// pages. With the result comes what the next thread needs in place.
pub fn teardown_current_process(
    scheduler: &mut Scheduler,
    waits: &mut WaitTable,
    registry: &mut ProcessRegistry,
    allocator: &mut PageAllocator,
    kernel_root: u64,
    start: TeardownStart,
    status: u64,
    snapshot: ResourceSnapshot,
    released_ipc: Result<IpcProcessResources, &'static str>,
    unmapped: &[Option<u64>],
) -> (r: Result<(DomainTeardownResult, Option<ThreadDispatch>), &'static str>)
    requires
        old(scheduler).wf(),
        old(waits).wf(),
        old(registry).wf(),
        old(allocator).wf(),
        unmapping_known(old(registry).processes@, start.process_id, unmapped@),
    ensures
        final(scheduler).wf(),
        final(waits).wf(),
        final(registry).wf(),
        final(allocator).wf(),
        final(registry).next_instance_generation == old(registry).next_instance_generation,
        match released_ipc {
            Err(e) => {
                &&& r == Err::<(DomainTeardownResult, Option<ThreadDispatch>), &'static str>(e)
                &&& final(scheduler).model() == old(scheduler).model()
                &&& final(waits).model() == old(waits).model()
                &&& final(registry).processes@ == old(registry).processes@
                &&& *final(allocator) == *old(allocator)
            },
            Ok(ipc) => exists|finished: Result<Option<ThreadDispatch>, &'static str>| #[trigger]
                teardown_finished(
                    TeardownKind::Current,
                    old(scheduler).model(),
                    final(scheduler).model(),
                    old(waits).model(),
                    final(waits).model(),
                    old(registry).processes@,
                    final(registry).processes@,
                    old(allocator),
                    final(allocator),
                    kernel_root,
                    start.next_stack_pointer is Some,
                    start.process_id,
                    snapshot,
                    ipc,
                    unmapped@,
                    finished,
                ) && r == match finished {
                    Err(e) => Err::<(DomainTeardownResult, Option<ThreadDispatch>), &'static str>(e),
                    Ok(dispatch) => Ok(
                        (
                            DomainTeardownResult {
                                process_id: start.process_id,
                                exit_status: status,
                                released_resources: snapshot,
                                next_stack_pointer: start.next_stack_pointer,
                            },
                            dispatch,
                        ),
                    ),
                },
        },
{
    let ipc = match released_ipc {
        Ok(ipc) => ipc,
        Err(e) => return Err(e),
    };
    match finish_teardown(
        TeardownKind::Current,
        scheduler,
        waits,
        registry,
        allocator,
        kernel_root,
        start.next_stack_pointer.is_some(),
        start.process_id,
        snapshot,
        ipc,
        unmapped,
    ) {
        Ok(dispatch) => Ok(
            (
                DomainTeardownResult {
                    process_id: start.process_id,
                    exit_status: status,
                    released_resources: snapshot,
                    next_stack_pointer: start.next_stack_pointer,
                },
                dispatch,
            ),
        ),
        Err(e) => Err(e),
    }
}

/// Finishes the teardown of a process that did not run. The arguments are as for the process that ran.
pub fn teardown_process_by_id(
    scheduler: &mut Scheduler,
    waits: &mut WaitTable,
    registry: &mut ProcessRegistry,
    allocator: &mut PageAllocator,
    process_id: u64,
    status: u64,
    snapshot: ResourceSnapshot,
    released_ipc: Result<IpcProcessResources, &'static str>,
    unmapped: &[Option<u64>],
) -> (r: Result<DomainTeardownResult, &'static str>)
    requires
        old(scheduler).wf(),
        old(waits).wf(),
        old(registry).wf(),
        old(allocator).wf(),
        unmapping_known(old(registry).processes@, process_id, unmapped@),
    ensures
        final(scheduler).wf(),
        final(waits).wf(),
        final(registry).wf(),
        final(allocator).wf(),
        final(registry).next_instance_generation == old(registry).next_instance_generation,
        match released_ipc {
            Err(e) => {
                &&& r == Err::<DomainTeardownResult, &'static str>(e)
                &&& final(scheduler).model() == old(scheduler).model()
                &&& final(waits).model() == old(waits).model()
                &&& final(registry).processes@ == old(registry).processes@
                &&& *final(allocator) == *old(allocator)
            },
            Ok(ipc) => exists|finished: Result<Option<ThreadDispatch>, &'static str>| #[trigger]
                teardown_finished(
                    TeardownKind::External,
                    old(scheduler).model(),
                    final(scheduler).model(),
                    old(waits).model(),
                    final(waits).model(),
                    old(registry).processes@,
                    final(registry).processes@,
                    old(allocator),
                    final(allocator),
                    0,
                    false,
                    process_id,
                    snapshot,
                    ipc,
                    unmapped@,
                    finished,
                ) && r == match finished {
                    Err(e) => Err::<DomainTeardownResult, &'static str>(e),
                    Ok(_) => Ok(
                        DomainTeardownResult {
                            process_id,
                            exit_status: status,
                            released_resources: snapshot,
                            next_stack_pointer: None,
                        },
                    ),
                },
        },
{
    let ipc = match released_ipc {
        Ok(ipc) => ipc,
        Err(e) => return Err(e),
    };
    match finish_teardown(
        TeardownKind::External,
        scheduler,
        waits,
        registry,
        allocator,
        0,
        false,
        process_id,
        snapshot,
        ipc,
        unmapped,
    ) {
        Ok(_) => Ok(
            DomainTeardownResult {
                process_id,
                exit_status: status,
                released_resources: snapshot,
                next_stack_pointer: None,
            },
        ),
        Err(e) => Err(e),
    }
}

/// A teardown that succeeded leaves nothing of the process: no record, where no other process has its
/// id, no thread, and its whole address space given back. The records of all other processes are as
/// they were.
pub proof fn law_teardown_leaves_nothing(
    kind: TeardownKind,
    scheduler: SchedulerModel,
    scheduler_after: SchedulerModel,
    waits: crate::sched::wait::WaitModel,
    waits_after: crate::sched::wait::WaitModel,
    processes: Seq<Process>,
    processes_after: Seq<Process>,
    allocator: &PageAllocator,
    allocator_after: &PageAllocator,
    kernel_root: u64,
    dispatches: bool,
    process_id: u64,
    snapshot: ResourceSnapshot,
    released_ipc: IpcProcessResources,
    unmapped: Seq<Option<u64>>,
    r: Result<Option<ThreadDispatch>, &'static str>,
)
    requires
        teardown_finished(
            kind,
            scheduler,
            scheduler_after,
            waits,
            waits_after,
            processes,
            processes_after,
            allocator,
            allocator_after,
            kernel_root,
            dispatches,
            process_id,
            snapshot,
            released_ipc,
            unmapped,
            r,
        ),
        r is Ok,
        process_id != KERNEL_PROCESS_ID,
        scheduler_after.threads.len() == SCHEDULER_THREAD_SLOTS,
        alone_with_id(processes, process_id),
    ensures
        ({
            let i = process_from(processes, process_id, 0);
            &&& i is Some
            &&& process_from(processes_after, process_id, 0) is None
            &&& processes_after.len() == processes.len()
            &&& forall|k: int|
                0 <= k < processes.len() && k != i->0 ==> #[trigger] processes_after[k]
                    == processes[k]
            &&& processes[i->0].resource_domain.address_space is Some
            &&& exists|k: int| #[trigger]
                torn_down(
                    processes[i->0].resource_domain.address_space->0.page_table_frames@,
                    processes[i->0].resource_domain.address_space->0.user_mappings@,
                    unmapped,
                    allocator,
                    allocator_after,
                    Ok::<(), &'static str>(()),
                    k,
                )
        }),
        forall|k: int|
            0 <= k < TASK_COUNT ==> !owned_by(#[trigger] scheduler_after.threads[k], process_id),
        released_ipc.owned_endpoints == snapshot.ipc_endpoints,
        released_ipc.held_capabilities == snapshot.ipc_handles,
        threads_owned(scheduler.threads, process_id) == snapshot.threads,
{
    lemma_process_from(processes, process_id, 0);
    let i = process_from(processes, process_id, 0)->0;
    let space = processes[i].resource_domain.address_space->0;
    let owned = threads_owned(scheduler.threads, process_id);
    let (torn, k) = choose|torn: Result<(), &'static str>, k: int| #[trigger]
        torn_down(
            space.page_table_frames@,
            space.user_mappings@,
            unmapped,
            allocator,
            allocator_after,
            torn,
            k,
        ) && (processes_after, r) == space_gone(
            kind,
            scheduler_after,
            kernel_root,
            dispatches,
            processes,
            i,
            torn,
            released_ipc,
            owned,
            snapshot,
        );
    assert(torn == Ok::<(), &'static str>(()));
    lemma_slot_emptied(processes, process_id);
    let (cancelled, w) = waits_cancelled(scheduler, waits, processes, process_id);
    assert(scheduler_after == reaped(cancelled, process_id));
}

} // verus!
