//! Linux `fork`: a child with a copy of its parent's address space.
//!
//! A fork runs in steps, for copying pages, building the child's first frame and delegating
//! capabilities happen elsewhere: `begin_fork`, `register_fork_child`, `finish_fork`, and
//! `abort_fork_child` where the last one refuses.

use super::table::{
    registered, LinuxProcessTable, ProcId, SlotModel, TableModel, LINUX_MAX_PROC_ENTRIES,
};
use crate::abi::{LinuxErrno, EAGAIN, EINVAL, ENOMEM, ESRCH};
use crate::mm::address_space::{destroy_process_address_space, torn_down, ProcessAddressSpace};
use crate::mm::frame_allocator::PageAllocator;
use crate::process::id_allocator::IdAllocator;
use crate::process::lifecycle::{
    empty_process, free_from, insert_result, lemma_free_from, lemma_inserted, next_inserted,
    process_from, reap_process_record, Process, ProcessRegistry, ProcessState, ResourceDomain,
};
use crate::process::linux_fd::registry::{fds_released, FdRegistryModel, LinuxFdRegistry};
use crate::process::linux_image::launch::{
    alone_with_id, lemma_process_from, lemma_same_slots, lemma_slot_emptied, linux_process,
    process_rolled_back, rollback_registered_process, space_unmapped,
};
use crate::process::linux_mem::{
    heap_range, mem_forked, mem_of, mem_released, release_ranges, unmap_all, UnmapRange,
};
use crate::process::linux_signal::{signals_forked, signals_released};
use crate::process::personality::ExecutionPersonality;
use crate::process::{linux_mem, linux_signal, InstanceGeneration};
use crate::scan::count;
use crate::sched::{
    empty_thread, fresh_thread, Scheduler, SchedulerModel, Thread, ThreadKind, ThreadState,
    SCHEDULER_THREAD_SLOTS, TASK_COUNT,
};
use vstd::prelude::*;

verus! {

/// Whether a process can be forked: there must be room, and an address space to copy.
pub open spec fn fork_admitted(slots: Seq<SlotModel>, processes: Seq<Process>, parent_pid: u64) -> Result<
    (),
    LinuxErrno,
> {
    if count(slots, |slot: SlotModel| slot.live) >= LINUX_MAX_PROC_ENTRIES {
        Err(EAGAIN)
    } else {
        match process_from(processes, parent_pid, 0) {
            None => Err(ESRCH),
            Some(i) => if processes[i].resource_domain.address_space is None {
                Err(EINVAL)
            } else {
                Ok(())
            },
        }
    }
}

/// Tells whether a process can be forked.
pub fn begin_fork(table: &LinuxProcessTable, registry: &ProcessRegistry, parent_pid: u64) -> (r: Result<
    (),
    LinuxErrno,
>)
    ensures
        r == fork_admitted(table.model().slots, registry.processes@, parent_pid),
{
    if table.occupied() >= LINUX_MAX_PROC_ENTRIES {
        return Err(EAGAIN);
    }
    match registry.get(parent_pid) {
        None => Err(ESRCH),
        Some(parent) => {
            if parent.resource_domain.address_space().is_none() {
                return Err(EINVAL);
            }
            Ok(())
        },
    }
}

/// A child that is registered and has a thread.
#[derive(Clone, Copy, Debug, PartialEq, Eq, Structural)]
pub struct ForkedChild {
    pub pid: u64,
    pub tid: u64,
    pub generation: InstanceGeneration,
}

/// Whether a child's thread slot cannot be used.
pub open spec fn slot_refused(m: SchedulerModel, scheduler_slot: usize) -> bool {
    scheduler_slot >= TASK_COUNT || m.threads[scheduler_slot as int].state != ThreadState::Empty
}

/// What registering a child and setting its thread up does.
pub open spec fn child_registered(
    registry: ProcessRegistry,
    registry_after: ProcessRegistry,
    scheduler: SchedulerModel,
    scheduler_after: SchedulerModel,
    ids: IdAllocator,
    ids_after: IdAllocator,
    allocator: &PageAllocator,
    allocator_after: &PageAllocator,
    child_space: Result<ProcessAddressSpace, &'static str>,
    child_frame: Result<u64, &'static str>,
    user_rip: u64,
    kernel_stack_top: u64,
    scheduler_slot: usize,
    unmapped: Seq<Option<u64>>,
    r: Result<ForkedChild, LinuxErrno>,
) -> bool {
    let pid = ids.next_pid;
    let tid = ids.next_tid;
    let generation = registry.next_instance_generation;
    let unchanged = registry_after.processes@ == registry.processes@
        && registry_after.next_instance_generation == generation && scheduler_after == scheduler;
    match child_space {
        Err(_) => {
            &&& r == Err::<ForkedChild, LinuxErrno>(ENOMEM)
            &&& unchanged
            &&& ids_after == ids
            &&& *allocator_after == *allocator
        },
        Ok(space) => {
            &&& ids_after.next_pid == (if pid == u64::MAX {
                pid as int
            } else {
                pid + 1
            })
            &&& ids_after.next_tid == (if pid == u64::MAX || tid == u64::MAX {
                tid as int
            } else {
                tid + 1
            })
            &&& if pid == u64::MAX || tid == u64::MAX || child_frame is Err {
                &&& r == Err::<ForkedChild, LinuxErrno>(EAGAIN)
                &&& unchanged
                &&& *allocator_after == *allocator
            } else if slot_refused(scheduler, scheduler_slot) {
                &&& r == Err::<ForkedChild, LinuxErrno>(EAGAIN)
                &&& unchanged
                &&& exists|torn: Result<(), &'static str>, k: int| #[trigger]
                    torn_down(
                        space.page_table_frames@,
                        space.user_mappings@,
                        unmapped,
                        allocator,
                        allocator_after,
                        torn,
                        k,
                    )
            } else if insert_result(
                registry.processes@,
                generation,
                linux_process(pid, space),
            ) is Err {
                &&& r == Err::<ForkedChild, LinuxErrno>(EAGAIN)
                &&& registry_after.next_instance_generation == next_inserted(
                    registry.processes@,
                    generation,
                    linux_process(pid, space),
                )
                &&& scheduler_after == scheduler
                &&& exists|undone: Result<(), &'static str>| #[trigger]
                    process_rolled_back(
                        registry.processes@,
                        registry_after.processes@,
                        pid,
                        unmapped,
                        allocator,
                        allocator_after,
                        undone,
                    )
            } else {
                &&& r == Ok::<ForkedChild, LinuxErrno>(ForkedChild { pid, tid, generation })
                &&& registry_after.processes@ == registry.processes@.update(
                    free_from(registry.processes@, 0)->0,
                    Process {
                        instance_generation: generation,
                        ..linux_process(pid, space)
                    },
                )
                &&& registry_after.next_instance_generation == next_inserted(
                    registry.processes@,
                    generation,
                    linux_process(pid, space),
                )
                &&& scheduler_after == (SchedulerModel {
                    threads: scheduler.threads.update(
                        scheduler_slot as int,
                        fresh_thread(
                            tid,
                            pid,
                            ThreadKind::User,
                            kernel_stack_top,
                            child_frame->Ok_0,
                            user_rip,
                            ThreadState::Ready,
                        ),
                    ),
                    ..scheduler
                })
                &&& *allocator_after == *allocator
            }
        },
    }
}

/// Registers a child and sets its thread up. `child_space` is the copy of the parent's address space,
/// `child_frame` where the child's first frame lies. Where the thread slot cannot be used the copy is
/// torn down; `unmapped` are the frames that the page tables then give back.
pub fn register_fork_child(
    registry: &mut ProcessRegistry,
    scheduler: &mut Scheduler,
    ids: &mut IdAllocator,
    allocator: &mut PageAllocator,
    child_space: Result<ProcessAddressSpace, &'static str>,
    child_frame: Result<u64, &'static str>,
    user_rip: u64,
    kernel_stack_top: u64,
    scheduler_slot: usize,
    unmapped: &[Option<u64>],
) -> (r: Result<ForkedChild, LinuxErrno>)
    requires
        old(registry).wf(),
        old(scheduler).wf(),
        old(allocator).wf(),
        child_space is Ok ==> child_space->Ok_0.wf() && unmapped@.len()
            >= child_space->Ok_0.user_mappings@.len(),
        space_unmapped(old(registry).processes@, old(ids).next_pid, unmapped@),
    ensures
        final(registry).wf(),
        final(scheduler).wf(),
        final(allocator).wf(),
        child_registered(
            *old(registry),
            *final(registry),
            old(scheduler).model(),
            final(scheduler).model(),
            *old(ids),
            *final(ids),
            old(allocator),
            final(allocator),
            child_space,
            child_frame,
            user_rip,
            kernel_stack_top,
            scheduler_slot,
            unmapped@,
            r,
        ),
{
    let child_space = match child_space {
        Ok(space) => space,
        Err(_) => return Err(ENOMEM),
    };
    let pid: u64 = match ids.allocate_pid() {
        Ok(pid) => pid,
        Err(_) => return Err(EAGAIN),
    };
    let tid: u64 = match ids.allocate_tid() {
        Ok(tid) => tid,
        Err(_) => return Err(EAGAIN),
    };
    let saved_stack_pointer: u64 = match child_frame {
        Ok(frame) => frame,
        Err(_) => return Err(EAGAIN),
    };
    if scheduler_slot >= scheduler.thread_capacity() {
        let _ = destroy_process_address_space(&child_space, allocator, unmapped);
        return Err(EAGAIN);
    }
    if scheduler.threads[scheduler_slot].state != ThreadState::Empty {
        let _ = destroy_process_address_space(&child_space, allocator, unmapped);
        return Err(EAGAIN);
    }
    let ghost before = registry.processes@;
    let ghost next = registry.next_instance_generation;
    let ghost space = child_space;
    let process = Process {
        id: pid,
        instance_generation: InstanceGeneration(0),
        state: ProcessState::Ready,
        resource_domain: ResourceDomain::with_address_space(pid, child_space),
        live_threads: 1,
        exit_status: None,
        execution_personality: ExecutionPersonality::LinuxX86_64,
    };
    assert(process == linux_process(pid, space));
    match registry.insert(process) {
        Ok(()) => {},
        Err(_) => {
            let undone = rollback_registered_process(registry, pid, allocator, unmapped);
            assert(process_rolled_back(
                before,
                registry.processes@,
                pid,
                unmapped@,
                old(allocator),
                allocator,
                undone,
            ));
            return Err(EAGAIN);
        },
    }
    proof {
        lemma_free_from(before, 0);
        lemma_inserted(
            before,
            free_from(before, 0)->0,
            Process { instance_generation: next, ..process },
            0,
        );
    }
    let generation = match registry.instance_generation(pid) {
        Some(generation) => generation,
        None => return Err(EAGAIN),
    };
    match scheduler.configure_thread(
        scheduler_slot,
        tid,
        pid,
        ThreadKind::User,
        kernel_stack_top,
        saved_stack_pointer,
        user_rip,
    ) {
        Ok(()) => {},
        Err(_) => {
            let _ = rollback_registered_process(registry, pid, allocator, unmapped);
            return Err(EAGAIN);
        },
    }
    Ok(ForkedChild { pid, tid, generation })
}

/// Why a fork is given up, and the pages of the child that are unmapped before it is aborted.
#[derive(Debug, PartialEq, Eq)]
pub struct ForkAbort {
    pub errno: LinuxErrno,
    pub unmap: Vec<UnmapRange>,
}

/// What the runtime state of the child comes to: memory first, then signals.
pub open spec fn runtime_forked(
    mem: Seq<Option<linux_mem::MemSlotModel>>,
    signals: Seq<Option<linux_signal::SignalSlotModel>>,
    parent: ProcId,
    child: ProcId,
) -> (
    Seq<Option<linux_mem::MemSlotModel>>,
    Seq<Option<linux_signal::SignalSlotModel>>,
    Result<(), LinuxErrno>,
) {
    let (held, copied) = mem_forked(mem, parent.pid, parent.generation, child.pid, child.generation);
    match copied {
        Err(e) => (held, signals, Err(e)),
        Ok(()) => {
            let (s, done) = signals_forked(
                signals,
                parent.pid,
                parent.generation,
                child.pid,
                child.generation,
            );
            (held, s, done)
        },
    }
}

/// What the end of a fork leaves, and its result: the child's pid, or why the fork is given up and what
/// is unmapped.
pub open spec fn fork_finished(
    table: TableModel,
    fds: FdRegistryModel,
    mem: Seq<Option<linux_mem::MemSlotModel>>,
    signals: Seq<Option<linux_signal::SignalSlotModel>>,
    parent: ProcId,
    child: ProcId,
    inherited: bool,
    delegated: bool,
) -> (
    TableModel,
    FdRegistryModel,
    Seq<Option<linux_mem::MemSlotModel>>,
    Seq<Option<linux_signal::SignalSlotModel>>,
    Result<u64, (LinuxErrno, Seq<UnmapRange>)>,
) {
    if !inherited || !delegated {
        (table, fds, mem, signals, Err((EAGAIN, seq![])))
    } else {
        let (t, placed) = registered(table, child, parent);
        if placed is Err {
            (t, fds, mem, signals, Err((EAGAIN, seq![])))
        } else {
            let (m, s, copied) = runtime_forked(mem, signals, parent, child);
            match copied {
                Ok(()) => (t, fds, m, s, Ok(child.pid)),
                Err(e) => (
                    t,
                    fds_released(fds, child.pid, child.generation),
                    mem_released(m, child.pid, child.generation),
                    signals_released(s, child.pid, child.generation),
                    Err(
                        (
                            e,
                            match mem_of(m, child.pid, child.generation) {
                                None => seq![],
                                Some(state) => release_ranges(state, seq![heap_range(state)], 0),
                            },
                        ),
                    ),
                ),
            }
        }
    }
}

/// Ends a fork. `inherited` and `delegated` tell whether the child has its parent's descriptors and
/// capabilities. Where the fork is given up the caller unmaps what is named and aborts the child.
pub fn finish_fork(
    table: &mut LinuxProcessTable,
    fds: &mut LinuxFdRegistry,
    mem: &mut linux_mem::Registry,
    signals: &mut linux_signal::Registry,
    parent: ProcId,
    child: ProcId,
    inherited: bool,
    delegated: bool,
) -> (r: Result<u64, ForkAbort>)
    requires
        old(fds).wf(),
        old(mem).wf(),
    ensures
        final(fds).wf(),
        final(mem).wf(),
        ({
            let (t, f, m, s, done) = fork_finished(
                old(table).model(),
                old(fds).model(),
                old(mem).model(),
                old(signals).model(),
                parent,
                child,
                inherited,
                delegated,
            );
            &&& final(table).model() == t
            &&& final(fds).model() == f
            &&& final(mem).model() == m
            &&& final(signals).model() == s
            &&& match done {
                Ok(pid) => r == Ok::<u64, ForkAbort>(pid),
                Err((errno, unmap)) => r is Err && r->Err_0.errno == errno && r->Err_0.unmap@
                    == unmap,
            }
        }),
{
    if !inherited || !delegated {
        return Err(ForkAbort { errno: EAGAIN, unmap: Vec::new() });
    }
    match table.register(child, parent) {
        Ok(()) => {},
        Err(_) => {
            return Err(ForkAbort { errno: EAGAIN, unmap: Vec::new() });
        },
    }
    let copied = match mem.clone_for_fork(
        parent.pid,
        parent.generation,
        child.pid,
        child.generation,
    ) {
        Ok(()) => signals.clone_for_fork(
            parent.pid,
            parent.generation,
            child.pid,
            child.generation,
        ),
        Err(e) => Err(e),
    };
    match copied {
        Ok(()) => Ok(child.pid),
        Err(errno) => {
            let unmap = match mem.take_for_process(child.pid, child.generation) {
                Some(state) => unmap_all(&state),
                None => Vec::new(),
            };
            signals.release(child.pid, child.generation);
            fds.release_for_process(child.pid, child.generation);
            Err(ForkAbort { errno, unmap })
        },
    }
}

/// The threads without those of a process.
pub open spec fn threads_cleared(threads: Seq<Thread>, process_id: u64) -> Seq<Thread> {
    Seq::new(
        threads.len(),
        |i: int|
            if threads[i].owner_process_id == process_id {
                empty_thread()
            } else {
                threads[i]
            },
    )
}

/// Undoes a child: its address space, its record and its threads. `unmapped` are the frames that the
/// page tables gave back for its user pages.
pub fn abort_fork_child(
    registry: &mut ProcessRegistry,
    scheduler: &mut Scheduler,
    allocator: &mut PageAllocator,
    child_pid: u64,
    unmapped: &[Option<u64>],
)
    requires
        old(registry).wf(),
        old(scheduler).wf(),
        old(allocator).wf(),
        space_unmapped(old(registry).processes@, child_pid, unmapped@),
    ensures
        final(registry).wf(),
        final(scheduler).wf(),
        final(allocator).wf(),
        final(registry).next_instance_generation == old(registry).next_instance_generation,
        final(scheduler).model() == (SchedulerModel {
            threads: threads_cleared(old(scheduler).threads@, child_pid),
            ..old(scheduler).model()
        }),
        match process_from(old(registry).processes@, child_pid, 0) {
            None => {
                &&& final(registry).processes@ == old(registry).processes@
                &&& *final(allocator) == *old(allocator)
            },
            Some(i) => {
                &&& final(registry).processes@ == old(registry).processes@.update(i, empty_process())
                &&& match old(registry).processes@[i].resource_domain.address_space {
                    None => *final(allocator) == *old(allocator),
                    Some(space) => exists|torn: Result<(), &'static str>, k: int| #[trigger]
                        torn_down(
                            space.page_table_frames@,
                            space.user_mappings@,
                            unmapped@,
                            old(allocator),
                            final(allocator),
                            torn,
                            k,
                        ),
                }
            },
        },
{
    let ghost before = registry.processes@;
    proof {
        lemma_process_from(before, child_pid, 0);
    }
    let ghost at = process_from(before, child_pid, 0);
    let mut found: bool = false;
    match registry.get_mut(child_pid) {
        None => {},
        Some(record) => {
            found = true;
            match record.resource_domain.take_address_space() {
                Some(space) => {
                    let _ = destroy_process_address_space(&space, allocator, unmapped);
                },
                None => {},
            }
            record.live_threads = 0;
            let _ = reap_process_record(record);
        },
    }
    if found {
        proof {
            lemma_same_slots(before, registry.processes@, child_pid, 0);
        }
        let _ = registry.release_reaped(child_pid);
        assert(registry.processes@ =~= before.update(at->0, empty_process()));
    }
    let ghost threads = scheduler.threads@;
    let ghost m = scheduler.model();
    let mut i: usize = 0;
    while i < SCHEDULER_THREAD_SLOTS
        invariant
            0 <= i <= SCHEDULER_THREAD_SLOTS,
            scheduler.wf(),
            threads.len() == SCHEDULER_THREAD_SLOTS,
            scheduler.model() == (SchedulerModel { threads: scheduler.threads@, ..m }),
            forall|k: int|
                0 <= k < i ==> #[trigger] scheduler.threads@[k] == threads_cleared(
                    threads,
                    child_pid,
                )[k],
            forall|k: int|
                i <= k < SCHEDULER_THREAD_SLOTS ==> #[trigger] scheduler.threads@[k] == threads[k],
        decreases SCHEDULER_THREAD_SLOTS - i,
    {
        if scheduler.threads[i].owner_process_id == child_pid {
            scheduler.threads[i] = Thread::empty();
        }
        i += 1;
    }
    assert(scheduler.threads@ =~= threads_cleared(threads, child_pid));
}

/// The attempts to delegate before the first that failed or found no place, from `from` on.
pub open spec fn delegated_until(attempts: Seq<Option<u64>>, max_slots: int, from: int) -> int
    decreases attempts.len() - from,
{
    if from < 0 || from >= attempts.len() || from >= max_slots || attempts[from] is None {
        from
    } else {
        delegated_until(attempts, max_slots, from + 1)
    }
}

/// How delegating all of a parent's capabilities ends. `attempts` are the handles that the child got,
/// in order, with none where that failed. Returns the child's handles, or those that are to be revoked
/// again.
pub fn delegate_all_caps(attempts: &[Option<u64>], max_slots: usize) -> (r: Result<Vec<u64>, Vec<u64>>)
    ensures
        ({
            let n = delegated_until(attempts@, max_slots as int, 0);
            let handles = Seq::new(n as nat, |i: int| attempts@[i]->0);
            if n == attempts@.len() {
                r is Ok && r->Ok_0@ == handles
            } else {
                r is Err && r->Err_0@ == handles
            }
        }),
{
    let mut installed: Vec<u64> = Vec::new();
    let mut i: usize = 0;
    while i < attempts.len()
        invariant
            0 <= i <= attempts@.len(),
            installed@ == Seq::new(i as nat, |k: int| attempts@[k]->0),
            delegated_until(attempts@, max_slots as int, 0) == delegated_until(
                attempts@,
                max_slots as int,
                i as int,
            ),
        decreases attempts@.len() - i,
    {
        if i >= max_slots {
            return Err(installed);
        }
        match attempts[i] {
            Some(handle) => {
                installed.push(handle);
                assert(installed@ =~= Seq::new((i + 1) as nat, |k: int| attempts@[k]->0));
            },
            None => {
                return Err(installed);
            },
        }
        i += 1;
    }
    Ok(installed)
}

/// A fork that is given up after its child was registered leaves neither a record nor a thread of the
/// child, and every other record as it was.
pub proof fn law_aborted_fork_leaves_no_child(processes: Seq<Process>, threads: Seq<Thread>, pid: u64)
    requires
        pid != 0,
        process_from(processes, pid, 0) is Some,
        alone_with_id(processes, pid),
    ensures
        ({
            let i = process_from(processes, pid, 0)->0;
            let after = processes.update(i, empty_process());
            &&& process_from(after, pid, 0) is None
            &&& forall|k: int| 0 <= k < processes.len() && k != i ==> after[k] == processes[k]
        }),
        forall|k: int|
            0 <= k < threads.len() ==> (#[trigger] threads_cleared(threads, pid)[k]).owner_process_id
                != pid,
{
    lemma_process_from(processes, pid, 0);
    lemma_slot_emptied(processes, pid);
}

} // verus!
