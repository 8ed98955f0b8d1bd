//! Registration of a built image as a process with a scheduler thread.

use super::construct::{after_discard, discard_address_space, LinuxProcessImage};
use super::error::LinuxImageError;
use crate::mm::address_space::{
    destroy_process_address_space, law_teardown_frees_everything, owns_allocated, release_order,
    torn_down, ProcessAddressSpace,
};
use crate::mm::frame_allocator::PageAllocator;
use crate::process::id_allocator::IdAllocator;
use crate::process::lifecycle::{
    empty_process, free_from, insert_result, lemma_free_from, lemma_inserted, next_inserted,
    occupied, process_from, reap_process_record, Process, ProcessRegistry, ProcessState, ResourceDomain,
};
use crate::process::personality::ExecutionPersonality;
use crate::process::{InstanceGeneration, PROCESS_REGISTRY_CAPACITY};
use crate::scan::{count, lemma_count_full};
use crate::sched::{
    fresh_thread, Scheduler, SchedulerModel, ThreadKind, ThreadState, TASK_COUNT,
};
use vstd::prelude::*;

verus! {

/// A process that was launched.
#[derive(Clone, Copy, Debug, PartialEq, Eq, Structural)]
pub struct LaunchedLinuxProcess {
    pub pid: u64,
    pub tid: u64,
    pub instance_generation: InstanceGeneration,
    pub entry: u64,
    pub launch_rsp: u64,
    pub scheduler_slot: usize,
    pub image_pages: usize,
    /// Page-table frames of the address space, those of the carve-outs with them.
    pub page_table_frames: usize,
}

/// A record without its address space.
pub open spec fn without_space(process: Process) -> Process {
    Process {
        resource_domain: ResourceDomain {
            id: process.resource_domain.id,
            root_frame: 0,
            address_space: None,
        },
        ..process
    }
}

/// Whether the outcomes of unmapping are given for the address space that a process has, if it is
/// registered and has one.
pub open spec fn space_unmapped(processes: Seq<Process>, pid: u64, unmapped: Seq<Option<u64>>) -> bool {
    let i = process_from(processes, pid, 0);
    i is Some && processes[i->0].resource_domain.address_space is Some ==> {
        let space = processes[i->0].resource_domain.address_space->0;
        space.wf() && unmapped.len() >= space.user_mappings@.len()
    }
}

/// What removing a registered process does to the registry and the allocator.
pub open spec fn process_rolled_back(
    processes: Seq<Process>,
    after: Seq<Process>,
    pid: u64,
    unmapped: Seq<Option<u64>>,
    allocator: &PageAllocator,
    allocator_after: &PageAllocator,
    r: Result<(), &'static str>,
) -> bool {
    match process_from(processes, pid, 0) {
        None => {
            &&& r == Err::<(), &'static str>(
                "linux launch rollback: process missing from registry",
            )
            &&& after == processes
            &&& *allocator_after == *allocator
        },
        Some(i) => {
            let record = processes[i];
            match record.resource_domain.address_space {
                None => {
                    &&& r == Err::<(), &'static str>(
                        "linux launch rollback: process had no address space",
                    )
                    &&& after == processes.update(i, without_space(record))
                    &&& *allocator_after == *allocator
                },
                Some(space) => exists|torn: Result<(), &'static str>, k: int|
                    {
                        &&& #[trigger] torn_down(
                            space.page_table_frames@,
                            space.user_mappings@,
                            unmapped,
                            allocator,
                            allocator_after,
                            torn,
                            k,
                        )
                        &&& r == torn
                        &&& after == processes.update(
                            i,
                            match torn {
                                Ok(()) => empty_process(),
                                Err(_) => without_space(record),
                            },
                        )
                    },
            }
        },
    }
}

/// Removes a process that was registered: its address space, its record and its slot. `unmapped` are
/// the frames that the page tables gave back for its user pages.
pub fn rollback_registered_process(
    registry: &mut ProcessRegistry,
    pid: u64,
    allocator: &mut PageAllocator,
    unmapped: &[Option<u64>],
) -> (r: Result<(), &'static str>)
    requires
        old(registry).wf(),
        old(allocator).wf(),
        space_unmapped(old(registry).processes@, pid, unmapped@),
    ensures
        final(registry).wf(),
        final(allocator).wf(),
        final(registry).next_instance_generation == old(registry).next_instance_generation,
        process_rolled_back(
            old(registry).processes@,
            final(registry).processes@,
            pid,
            unmapped@,
            old(allocator),
            final(allocator),
            r,
        ),
{
    let ghost before = registry.processes@;
    proof {
        lemma_process_from(before, pid, 0);
    }
    let taken = match registry.get_mut(pid) {
        None => return Err("linux launch rollback: process missing from registry"),
        Some(record) => record.resource_domain.take_address_space(),
    };
    let ghost i = process_from(before, pid, 0)->0;
    let ghost bare = before.update(i, without_space(before[i]));
    assert(registry.processes@ =~= bare);
    let address_space = match taken {
        None => return Err("linux launch rollback: process had no address space"),
        Some(space) => space,
    };
    match destroy_process_address_space(&address_space, allocator, unmapped) {
        Ok(()) => {},
        Err(e) => return Err(e),
    }
    proof {
        lemma_same_slots(before, bare, pid, 0);
    }
    match registry.get_mut(pid) {
        None => {},
        Some(record) => {
            record.live_threads = 0;
            let _ = reap_process_record(record);
        },
    }
    let ghost reaped = registry.processes@;
    proof {
        lemma_same_slots(before, reaped, pid, 0);
    }
    let done = registry.release_reaped(pid);
    assert(registry.processes@ =~= before.update(i, empty_process()));
    done
}

/// A found slot is a slot, and its process has the id.
pub proof fn lemma_process_from(processes: Seq<Process>, id: u64, from: int)
    requires
        0 <= from <= processes.len(),
    ensures
        match process_from(processes, id, from) {
            Some(i) => from <= i < processes.len() && processes[i].id == id && occupied(
                processes[i],
            ),
            None => true,
        },
    decreases processes.len() - from,
{
    if from < processes.len() && !(processes[from].id == id && occupied(processes[from])) {
        lemma_process_from(processes, id, from + 1);
    }
}

/// Processes are found in the same slots where ids and occupancy are the same.
pub proof fn lemma_same_slots(a: Seq<Process>, b: Seq<Process>, id: u64, from: int)
    requires
        a.len() == b.len(),
        0 <= from <= a.len(),
        forall|i: int|
            0 <= i < a.len() ==> (#[trigger] a[i]).id == b[i].id && occupied(a[i]) == occupied(
                b[i],
            ),
    ensures
        process_from(a, id, from) == process_from(b, id, from),
    decreases a.len() - from,
{
    if from < a.len() {
        assert(a[from].id == b[from].id);
        lemma_same_slots(a, b, id, from + 1);
    }
}

/// Whether at most one slot has an id.
pub open spec fn alone_with_id(processes: Seq<Process>, id: u64) -> bool {
    forall|i: int, j: int|
        0 <= i < j < processes.len() && #[trigger] processes[i].id == id
            ==> #[trigger] processes[j].id != id
}

/// A process whose slot was emptied is not found any more.
pub proof fn lemma_slot_emptied(processes: Seq<Process>, id: u64)
    requires
        id != 0,
        process_from(processes, id, 0) is Some,
        alone_with_id(processes, id),
    ensures
        process_from(
            processes.update(process_from(processes, id, 0)->0, empty_process()),
            id,
            0,
        ) is None,
{
    lemma_process_from(processes, id, 0);
    let i = process_from(processes, id, 0)->0;
    let after = processes.update(i, empty_process());
    assert forall|k: int| 0 <= k < after.len() implies (#[trigger] after[k]).id != id by {
        if k < i {
            assert(processes[k].id != id || processes[i].id != id);
        } else if k > i {
            assert(processes[i].id == id);
            assert(processes[k].id != id);
        }
    }
    lemma_no_process(after, id, 0);
}

proof fn lemma_no_process(processes: Seq<Process>, id: u64, from: int)
    requires
        0 <= from <= processes.len(),
        forall|k: int| 0 <= k < processes.len() ==> (#[trigger] processes[k]).id != id,
    ensures
        process_from(processes, id, from) is None,
    decreases processes.len() - from,
{
    if from < processes.len() {
        lemma_no_process(processes, id, from + 1);
    }
}

/// Why an image cannot be registered, before anything was registered.
pub open spec fn launch_refused(
    m: SchedulerModel,
    processes: Seq<Process>,
    ids: IdAllocator,
    scheduler_slot: usize,
    entry_frame: Result<u64, &'static str>,
) -> Option<LinuxImageError> {
    if scheduler_slot >= TASK_COUNT {
        Some(
            LinuxImageError::Scheduler("linux launch: scheduler slot exceeded fixed capacity"),
        )
    } else if m.threads[scheduler_slot as int].state != ThreadState::Empty {
        Some(LinuxImageError::Scheduler("linux launch: scheduler slot was occupied"))
    } else if count(processes, |process: Process| occupied(process))
        >= PROCESS_REGISTRY_CAPACITY {
        Some(LinuxImageError::Registry("linux launch: process registry capacity exceeded"))
    } else if ids.next_pid == u64::MAX {
        Some(LinuxImageError::IdAllocation("process id space exhausted; IDs are not reused"))
    } else if ids.next_tid == u64::MAX {
        Some(LinuxImageError::IdAllocation("thread id space exhausted; IDs are not reused"))
    } else {
        match entry_frame {
            Err(message) => Some(LinuxImageError::EntryFrame(message)),
            Ok(_) => None,
        }
    }
}

/// The ids after an attempt to register an image. They are taken once the thread slot and a slot of
/// the registry are known to be free, the process id first.
pub open spec fn ids_after_launch(
    m: SchedulerModel,
    processes: Seq<Process>,
    ids: IdAllocator,
    scheduler_slot: usize,
) -> IdAllocator {
    if scheduler_slot >= TASK_COUNT || m.threads[scheduler_slot as int].state != ThreadState::Empty
        || count(processes, |process: Process| occupied(process)) >= PROCESS_REGISTRY_CAPACITY
        || ids.next_pid == u64::MAX {
        ids
    } else if ids.next_tid == u64::MAX {
        IdAllocator { next_pid: (ids.next_pid + 1) as u64, ..ids }
    } else {
        IdAllocator { next_pid: (ids.next_pid + 1) as u64, next_tid: (ids.next_tid + 1) as u64 }
    }
}

/// The process that an image becomes.
pub open spec fn linux_process(pid: u64, address_space: ProcessAddressSpace) -> Process {
    Process {
        id: pid,
        instance_generation: InstanceGeneration(0),
        state: ProcessState::Ready,
        resource_domain: ResourceDomain {
            id: pid,
            root_frame: address_space.root_frame,
            address_space: Some(address_space),
        },
        live_threads: 1,
        exit_status: None,
        execution_personality: ExecutionPersonality::LinuxX86_64,
    }
}

/// What registering an image does.
pub open spec fn registration_result(
    registry: ProcessRegistry,
    registry_after: ProcessRegistry,
    scheduler: SchedulerModel,
    scheduler_after: SchedulerModel,
    ids: IdAllocator,
    ids_after: IdAllocator,
    allocator: &PageAllocator,
    allocator_after: &PageAllocator,
    kernel_stack_top: u64,
    scheduler_slot: usize,
    image: LinuxProcessImage,
    page_table_frames: usize,
    entry_frame: Result<u64, &'static str>,
    unmapped: Seq<Option<u64>>,
    r: Result<LaunchedLinuxProcess, LinuxImageError>,
) -> bool {
    &&& ids_after == ids_after_launch(scheduler, registry.processes@, ids, scheduler_slot)
    &&& match launch_refused(
        scheduler,
        registry.processes@,
        ids,
        scheduler_slot,
        entry_frame,
    ) {
        Some(failure) => {
            &&& registry_after.processes@ == registry.processes@
            &&& registry_after.next_instance_generation == registry.next_instance_generation
            &&& scheduler_after == scheduler
            &&& exists|torn: Result<(), &'static str>, k: int| #[trigger]
                torn_down(
                    image.address_space.page_table_frames@,
                    image.address_space.user_mappings@,
                    unmapped,
                    allocator,
                    allocator_after,
                    torn,
                    k,
                ) && r == Err::<LaunchedLinuxProcess, LinuxImageError>(
                    after_discard(failure, torn),
                )
        },
        None => {
            let pid = ids.next_pid;
            let tid = ids.next_tid;
            let generation = registry.next_instance_generation;
            let process = linux_process(pid, image.address_space);
            &&& *allocator_after == *allocator
            &&& registry_after.next_instance_generation == next_inserted(
                registry.processes@,
                generation,
                process,
            )
            &&& match insert_result(registry.processes@, generation, process) {
                Err(e) => {
                    &&& r == Err::<LaunchedLinuxProcess, LinuxImageError>(
                        LinuxImageError::Registry(e),
                    )
                    &&& registry_after.processes@ == registry.processes@
                    &&& scheduler_after == scheduler
                },
                Ok(()) => {
                    &&& r == Ok::<LaunchedLinuxProcess, LinuxImageError>(
                        LaunchedLinuxProcess {
                            pid,
                            tid,
                            instance_generation: generation,
                            entry: image.entry,
                            launch_rsp: image.launch_rsp,
                            scheduler_slot,
                            image_pages: image.image_pages,
                            page_table_frames,
                        },
                    )
                    &&& registry_after.processes@ == registry.processes@.update(
                        free_from(registry.processes@, 0)->0,
                        Process { instance_generation: generation, ..process },
                    )
                    &&& scheduler_after == (SchedulerModel {
                        threads: scheduler.threads.update(
                            scheduler_slot as int,
                            fresh_thread(
                                tid,
                                pid,
                                ThreadKind::User,
                                kernel_stack_top,
                                entry_frame->Ok_0,
                                image.entry,
                                ThreadState::Ready,
                            ),
                        ),
                        ..scheduler
                    })
                },
            }
        },
    }
}

/// Registers a built image as a Linux process and sets its thread up. `entry_frame` is where the
/// frame lies from which the thread enters user mode, or why it could not be made. This is the one
/// place where a launched process gets the Linux personality.
pub fn register_linux_process(
    registry: &mut ProcessRegistry,
    scheduler: &mut Scheduler,
    ids: &mut IdAllocator,
    allocator: &mut PageAllocator,
    kernel_stack_top: u64,
    scheduler_slot: usize,
    image: LinuxProcessImage,
    page_table_frames: usize,
    entry_frame: Result<u64, &'static str>,
    unmapped: &[Option<u64>],
) -> (r: Result<LaunchedLinuxProcess, LinuxImageError>)
    requires
        old(registry).wf(),
        old(scheduler).wf(),
        old(allocator).wf(),
        image.address_space.wf(),
        unmapped@.len() >= image.address_space.user_mappings@.len(),
    ensures
        final(registry).wf(),
        final(scheduler).wf(),
        final(allocator).wf(),
        registration_result(
            *old(registry),
            *final(registry),
            old(scheduler).model(),
            final(scheduler).model(),
            *old(ids),
            *final(ids),
            old(allocator),
            final(allocator),
            kernel_stack_top,
            scheduler_slot,
            image,
            page_table_frames,
            entry_frame,
            unmapped@,
            r,
        ),
{
    let precondition: Option<LinuxImageError> = if scheduler_slot >= scheduler.thread_capacity() {
        Some(
            LinuxImageError::Scheduler("linux launch: scheduler slot exceeded fixed capacity"),
        )
    } else if scheduler.threads[scheduler_slot].state != ThreadState::Empty {
        Some(LinuxImageError::Scheduler("linux launch: scheduler slot was occupied"))
    } else if registry.occupied_slots() >= PROCESS_REGISTRY_CAPACITY {
        Some(LinuxImageError::Registry("linux launch: process registry capacity exceeded"))
    } else {
        None
    };
    match precondition {
        Some(failure) => {
            return Err(
                discard_address_space(&image.address_space, allocator, unmapped, failure),
            );
        },
        None => {},
    }
    let pid: u64 = match ids.allocate_pid() {
        Ok(pid) => pid,
        Err(message) => {
            return Err(
                discard_address_space(
                    &image.address_space,
                    allocator,
                    unmapped,
                    LinuxImageError::IdAllocation(message),
                ),
            );
        },
    };
    let tid: u64 = match ids.allocate_tid() {
        Ok(tid) => tid,
        Err(message) => {
            return Err(
                discard_address_space(
                    &image.address_space,
                    allocator,
                    unmapped,
                    LinuxImageError::IdAllocation(message),
                ),
            );
        },
    };
    let saved_stack_pointer: u64 = match entry_frame {
        Ok(frame) => frame,
        Err(message) => {
            return Err(
                discard_address_space(
                    &image.address_space,
                    allocator,
                    unmapped,
                    LinuxImageError::EntryFrame(message),
                ),
            );
        },
    };
    let entry: u64 = image.entry;
    let launch_rsp: u64 = image.launch_rsp;
    let image_pages: usize = image.image_pages;
    let ghost before = registry.processes@;
    let ghost next = registry.next_instance_generation;
    let process = Process {
        id: pid,
        instance_generation: InstanceGeneration(0),
        state: ProcessState::Ready,
        resource_domain: ResourceDomain::with_address_space(pid, image.address_space),
        live_threads: 1,
        exit_status: None,
        execution_personality: ExecutionPersonality::LinuxX86_64,
    };
    assert(process == linux_process(pid, image.address_space));
    match registry.insert(process) {
        Ok(()) => {},
        Err(e) => return Err(LinuxImageError::Registry(e)),
    }
    proof {
        lemma_free_from(before, 0);
        lemma_inserted(
            before,
            free_from(before, 0)->0,
            Process { instance_generation: next, ..process },
            0,
        );
    }
    let instance_generation = match registry.instance_generation(pid) {
        Some(generation) => generation,
        None => return Err(
            LinuxImageError::Registry("linux launch: inserted process had no instance generation"),
        ),
    };
    match scheduler.configure_thread(
        scheduler_slot,
        tid,
        pid,
        ThreadKind::User,
        kernel_stack_top,
        saved_stack_pointer,
        entry,
    ) {
        Ok(()) => {},
        Err(message) => {
            return Err(
                match rollback_registered_process(registry, pid, allocator, unmapped) {
                    Ok(()) => LinuxImageError::Scheduler(message),
                    Err(rollback) => LinuxImageError::Rollback(rollback),
                },
            );
        },
    }
    Ok(
        LaunchedLinuxProcess {
            pid,
            tid,
            instance_generation,
            entry,
            launch_rsp,
            scheduler_slot,
            image_pages,
            page_table_frames,
        },
    )
}

/// A launch that is refused leaves the processes and the scheduler as they were and gives every frame
/// of the image's address space back. Only where no instance generation is left, or a process has the
/// new id already, are the frames kept.
pub proof fn law_refused_launch_leaves_no_trace(
    registry: ProcessRegistry,
    registry_after: ProcessRegistry,
    scheduler: SchedulerModel,
    scheduler_after: SchedulerModel,
    ids: IdAllocator,
    ids_after: IdAllocator,
    allocator: &PageAllocator,
    allocator_after: &PageAllocator,
    kernel_stack_top: u64,
    scheduler_slot: usize,
    image: LinuxProcessImage,
    page_table_frames: usize,
    entry_frame: Result<u64, &'static str>,
    unmapped: Seq<Option<u64>>,
    r: Result<LaunchedLinuxProcess, LinuxImageError>,
)
    requires
        registration_result(
            registry,
            registry_after,
            scheduler,
            scheduler_after,
            ids,
            ids_after,
            allocator,
            allocator_after,
            kernel_stack_top,
            scheduler_slot,
            image,
            page_table_frames,
            entry_frame,
            unmapped,
            r,
        ),
        r is Err,
        registry.wf(),
        allocator.wf(),
        owns_allocated(
            image.address_space.page_table_frames@,
            image.address_space.user_mappings@,
            allocator,
        ),
        forall|j: int|
            0 <= j < image.address_space.user_mappings@.len() ==> #[trigger] unmapped[j] == Some(
                release_order(
                    image.address_space.page_table_frames@,
                    image.address_space.user_mappings@,
                )[j],
            ),
    ensures
        registry_after.processes@ == registry.processes@,
        scheduler_after == scheduler,
        registry.next_instance_generation.0 < u32::MAX && process_from(
            registry.processes@,
            ids.next_pid,
            0,
        ) is None ==> {
            &&& allocator_after.available_pages == allocator.available_pages
                + image.address_space.page_table_frames@.len()
                + image.address_space.user_mappings@.len()
            &&& forall|frame: u64| #[trigger]
                allocator_after.allocated(frame) == (allocator.allocated(frame) && !release_order(
                    image.address_space.page_table_frames@,
                    image.address_space.user_mappings@,
                ).contains(frame))
        },
{
    let frames = image.address_space.page_table_frames@;
    let mappings = image.address_space.user_mappings@;
    match launch_refused(scheduler, registry.processes@, ids, scheduler_slot, entry_frame) {
        Some(failure) => {
            let (torn, k) = choose|torn: Result<(), &'static str>, k: int| #[trigger]
                torn_down(frames, mappings, unmapped, allocator, allocator_after, torn, k) && r
                    == Err::<LaunchedLinuxProcess, LinuxImageError>(after_discard(failure, torn));
            law_teardown_frees_everything(
                frames,
                mappings,
                unmapped,
                allocator,
                allocator_after,
                torn,
                k,
            );
        },
        None => {
            lemma_room(registry.processes@);
        },
    }
}

/// Where fewer slots are taken than there are, one is free.
proof fn lemma_room(processes: Seq<Process>)
    requires
        processes.len() == PROCESS_REGISTRY_CAPACITY,
        count(processes, |process: Process| occupied(process)) < PROCESS_REGISTRY_CAPACITY,
    ensures
        free_from(processes, 0) is Some,
{
    if free_from(processes, 0) is None {
        lemma_none_free(processes, 0);
        lemma_count_full(processes, |process: Process| occupied(process));
    }
}

proof fn lemma_none_free(processes: Seq<Process>, from: int)
    requires
        0 <= from <= processes.len(),
        free_from(processes, from) is None,
    ensures
        forall|j: int| from <= j < processes.len() ==> occupied(#[trigger] processes[j]),
    decreases processes.len() - from,
{
    if from < processes.len() {
        lemma_none_free(processes, from + 1);
    }
}

} // verus!
