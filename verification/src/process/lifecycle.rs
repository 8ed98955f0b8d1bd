//! Process states, resource domains, the process registry, and the transitions of exit and reaping.

use super::personality::ExecutionPersonality;
use super::{InstanceGeneration, PROCESS_REGISTRY_CAPACITY};
use crate::mm::address_space::{AddressSpaceResourceCounts, ProcessAddressSpace};
use crate::scan::{count, lemma_count_step, lemma_count_whole};
use crate::sched::{Thread, ThreadState};
use vstd::prelude::*;

verus! {

#[derive(Clone, Copy, Debug, PartialEq, Eq, Structural)]
pub enum ProcessState {
    Empty,
    Creating,
    Ready,
    Running,
    Faulted,
    Exiting,
    Exited,
    Reaped,
}

/// What a process owns of the memory system. The root frame is zero where there is no address space.
#[derive(Debug, PartialEq, Eq)]
pub struct ResourceDomain {
    pub id: u64,
    pub root_frame: u64,
    pub address_space: Option<ProcessAddressSpace>,
}

impl ResourceDomain {
    pub fn new(id: u64) -> (r: ResourceDomain)
        ensures
            r == (ResourceDomain { id, root_frame: 0, address_space: None }),
    {
        ResourceDomain { id, root_frame: 0, address_space: None }
    }

    pub fn with_root_frame(id: u64, root_frame: u64) -> (r: ResourceDomain)
        ensures
            r == (ResourceDomain { id, root_frame, address_space: None }),
    {
        ResourceDomain { id, root_frame, address_space: None }
    }

    pub fn with_address_space(id: u64, address_space: ProcessAddressSpace) -> (r: ResourceDomain)
        ensures
            r.id == id,
            r.root_frame == address_space.root_frame,
            r.address_space == Some(address_space),
    {
        ResourceDomain {
            id,
            root_frame: address_space.root_frame,
            address_space: Some(address_space),
        }
    }

    pub fn address_space_root(&self) -> (r: u64)
        ensures
            r == self.root_frame,
    {
        self.root_frame
    }

    pub fn address_space(&self) -> (r: Option<&ProcessAddressSpace>)
        ensures
            match self.address_space {
                Some(space) => r == Some(&space),
                None => r is None,
            },
    {
        self.address_space.as_ref()
    }

    /// What the address space owns; nothing where there is none.
    pub open spec fn counts(&self) -> AddressSpaceResourceCounts {
        match self.address_space {
            Some(space) => space.counts(),
            None => AddressSpaceResourceCounts { user_pages: 0, page_table_frames: 0 },
        }
    }

    pub fn address_space_resource_counts(&self) -> (r: AddressSpaceResourceCounts)
        ensures
            r == self.counts(),
    {
        match &self.address_space {
            Some(space) => space.resource_counts(),
            None => AddressSpaceResourceCounts { user_pages: 0, page_table_frames: 0 },
        }
    }

    pub fn take_address_space(&mut self) -> (r: Option<ProcessAddressSpace>)
        ensures
            r == old(self).address_space,
            *final(self) == (ResourceDomain { id: old(self).id, root_frame: 0, address_space: None }),
    {
        self.root_frame = 0;
        self.address_space.take()
    }

    /// Puts another address space in place and hands out the one before.
    pub fn replace_address_space(&mut self, new_space: ProcessAddressSpace) -> (r: Option<
        ProcessAddressSpace,
    >)
        ensures
            r == old(self).address_space,
            final(self).id == old(self).id,
            final(self).root_frame == new_space.root_frame,
            final(self).address_space == Some(new_space),
    {
        let old_space = self.address_space.take();
        self.root_frame = new_space.root_frame;
        self.address_space = Some(new_space);
        old_space
    }
}

#[derive(Debug, PartialEq, Eq)]
pub struct Process {
    pub id: u64,
    pub instance_generation: InstanceGeneration,
    pub state: ProcessState,
    pub resource_domain: ResourceDomain,
    pub live_threads: u16,
    pub exit_status: Option<u64>,
    /// Trusted ABI personality; never taken from system-call arguments.
    pub execution_personality: ExecutionPersonality,
}

/// The process of an unused slot.
pub open spec fn empty_process() -> Process {
    Process {
        id: 0,
        instance_generation: InstanceGeneration(0),
        state: ProcessState::Empty,
        resource_domain: ResourceDomain { id: 0, root_frame: 0, address_space: None },
        live_threads: 0,
        exit_status: None,
        execution_personality: ExecutionPersonality::Native,
    }
}

impl Process {
    pub fn empty() -> (r: Process)
        ensures
            r == empty_process(),
    {
        Process {
            id: 0,
            instance_generation: InstanceGeneration(0),
            state: ProcessState::Empty,
            resource_domain: ResourceDomain::new(0),
            live_threads: 0,
            exit_status: None,
            execution_personality: ExecutionPersonality::Native,
        }
    }

    pub fn address_space_root(&self) -> (r: u64)
        ensures
            r == self.resource_domain.root_frame,
    {
        self.resource_domain.address_space_root()
    }
}

/// The process after one of its threads exited.
pub open spec fn thread_exited(process: Process, status: u64, faulted: bool) -> Process {
    let left = (process.live_threads - 1) as u16;
    if left == 0 {
        Process {
            live_threads: 0,
            exit_status: Some(status),
            state: ProcessState::Exited,
            ..process
        }
    } else {
        Process {
            live_threads: left,
            state: if faulted {
                ProcessState::Faulted
            } else {
                ProcessState::Running
            },
            ..process
        }
    }
}

/// A process and one of its threads after the thread's exit; true if it was the last.
pub open spec fn exit_begun(process: Process, thread: Thread, status: u64, faulted: bool) -> (
    Process,
    Thread,
    Result<bool, &'static str>,
) {
    if thread.owner_process_id != process.id {
        (process, thread, Err("thread owner did not match process during exit"))
    } else if process.live_threads == 0 {
        (process, thread, Err("process thread accounting underflow during exit"))
    } else {
        (
            thread_exited(process, status, faulted),
            Thread { state: ThreadState::Exited, ..thread },
            Ok(process.live_threads == 1),
        )
    }
}

/// A process record after its reaping.
pub open spec fn record_reaped(process: Process) -> (Process, Result<(), &'static str>) {
    if process.live_threads != 0 {
        (process, Err("process could not be reaped while threads remained"))
    } else {
        (Process { state: ProcessState::Reaped, ..process }, Ok(()))
    }
}

/// A process and one of its threads after the thread's reaping, which reaps the process with it.
pub open spec fn thread_reaped(process: Process, thread: Thread) -> (
    Process,
    Thread,
    Result<(), &'static str>,
) {
    if thread.owner_process_id != process.id {
        (process, thread, Err("thread owner did not match process during reap"))
    } else if thread.state != ThreadState::Exited {
        (process, thread, Err("thread must be exited before reap"))
    } else {
        (
            record_reaped(process).0,
            Thread { state: ThreadState::Reaped, ..thread },
            record_reaped(process).1,
        )
    }
}

/// A process after its exit was made final.
pub open spec fn exit_finalized(process: Process, status: u64) -> (Process, Result<(), &'static str>) {
    if process.live_threads != 0 {
        (process, Err("process could not finalize exit while threads remained"))
    } else {
        (Process { state: ProcessState::Exited, exit_status: Some(status), ..process }, Ok(()))
    }
}

/// Takes a thread out of its process. True if it was the last.
pub fn begin_thread_exit(process: &mut Process, thread: &mut Thread, status: u64, faulted: bool) -> (r:
    Result<bool, &'static str>)
    ensures
        (*final(process), *final(thread), r) == exit_begun(
            *old(process),
            *old(thread),
            status,
            faulted,
        ),
{
    if thread.owner_process_id != process.id {
        return Err("thread owner did not match process during exit");
    }
    if process.live_threads == 0 {
        return Err("process thread accounting underflow during exit");
    }
    process.state = if faulted {
        ProcessState::Faulted
    } else {
        ProcessState::Exiting
    };
    process.live_threads = process.live_threads - 1;
    thread.state = ThreadState::Exited;
    if process.live_threads == 0 {
        process.exit_status = Some(status);
        process.state = ProcessState::Exited;
        return Ok(true);
    }
    if !faulted {
        process.state = ProcessState::Running;
    }
    Ok(false)
}

/// Reaps an exited thread, and its process with it.
pub fn reap_process(process: &mut Process, thread: &mut Thread) -> (r: Result<(), &'static str>)
    ensures
        (*final(process), *final(thread), r) == thread_reaped(*old(process), *old(thread)),
{
    if thread.owner_process_id != process.id {
        return Err("thread owner did not match process during reap");
    }
    if thread.state != ThreadState::Exited {
        return Err("thread must be exited before reap");
    }
    thread.state = ThreadState::Reaped;
    reap_process_record(process)
}

pub fn reap_process_record(process: &mut Process) -> (r: Result<(), &'static str>)
    ensures
        (*final(process), r) == record_reaped(*old(process)),
{
    if process.live_threads != 0 {
        return Err("process could not be reaped while threads remained");
    }
    process.state = ProcessState::Reaped;
    Ok(())
}

pub fn finalize_process_exit(process: &mut Process, status: u64) -> (r: Result<(), &'static str>)
    ensures
        (*final(process), r) == exit_finalized(*old(process), status),
{
    if process.live_threads != 0 {
        return Err("process could not finalize exit while threads remained");
    }
    process.exit_status = Some(status);
    process.state = ProcessState::Exited;
    Ok(())
}

/// The processes, in slots, and the generation that the next process without one gets.
#[derive(Debug)]
pub struct ProcessRegistry {
    pub processes: Vec<Process>,
    pub next_instance_generation: InstanceGeneration,
}

pub open spec fn occupied(process: Process) -> bool {
    process.state != ProcessState::Empty
}

/// The first slot at or above `from` that a process with the id occupies.
pub open spec fn process_from(processes: Seq<Process>, id: u64, from: int) -> Option<int>
    decreases processes.len() - from,
{
    if from < 0 || from >= processes.len() {
        None
    } else if processes[from].id == id && occupied(processes[from]) {
        Some(from)
    } else {
        process_from(processes, id, from + 1)
    }
}

/// The first unused slot at or above `from`.
pub open spec fn free_from(processes: Seq<Process>, from: int) -> Option<int>
    decreases processes.len() - from,
{
    if from < 0 || from >= processes.len() {
        None
    } else if !occupied(processes[from]) {
        Some(from)
    } else {
        free_from(processes, from + 1)
    }
}

/// The first slot at or above `from` whose process is not reaped and has the root.
pub open spec fn root_from(processes: Seq<Process>, root_frame: u64, from: int) -> Option<int>
    decreases processes.len() - from,
{
    if from < 0 || from >= processes.len() {
        None
    } else if occupied(processes[from]) && processes[from].state != ProcessState::Reaped
        && processes[from].resource_domain.root_frame == root_frame {
        Some(from)
    } else {
        root_from(processes, root_frame, from + 1)
    }
}

/// The generation of the process with an id.
pub open spec fn generation_of(processes: Seq<Process>, id: u64) -> Option<InstanceGeneration> {
    match process_from(processes, id, 0) {
        Some(i) => Some(processes[i].instance_generation),
        None => None,
    }
}

/// The generation that an inserted process gets: its own, or the next one where it has none.
pub open spec fn assigned_generation(process: Process, next: InstanceGeneration) -> InstanceGeneration {
    if process.instance_generation.0 == 0 {
        next
    } else {
        process.instance_generation
    }
}

/// The registry's next generation after a process with the generation came in.
pub open spec fn next_after(generation: InstanceGeneration, next: InstanceGeneration) -> InstanceGeneration {
    if generation.0 >= next.0 {
        InstanceGeneration((generation.0 + 1) as u32)
    } else {
        next
    }
}

/// The result of an insertion. A full registry still moves the next generation on.
pub open spec fn insert_result(processes: Seq<Process>, next: InstanceGeneration, process: Process) -> Result<
    (),
    &'static str,
> {
    let generation = assigned_generation(process, next);
    if process_from(processes, process.id, 0) is Some {
        Err("process id already existed in registry")
    } else if generation.0 >= next.0 && generation.0 == u32::MAX {
        Err("process instance generation exhausted")
    } else if free_from(processes, 0) is None {
        Err("process registry capacity exceeded")
    } else {
        Ok(())
    }
}

/// The registry's next generation after an insertion, also one that failed.
pub open spec fn next_inserted(
    processes: Seq<Process>,
    next: InstanceGeneration,
    process: Process,
) -> InstanceGeneration {
    let generation = assigned_generation(process, next);
    if process_from(processes, process.id, 0) is Some || (generation.0 >= next.0 && generation.0
        == u32::MAX) {
        next
    } else {
        next_after(generation, next)
    }
}

/// The slots, the next generation and the result of an insertion.
pub open spec fn inserted(processes: Seq<Process>, next: InstanceGeneration, process: Process) -> (
    Seq<Process>,
    InstanceGeneration,
    Result<(), &'static str>,
) {
    let r = insert_result(processes, next, process);
    (
        if r is Ok {
            processes.update(
                free_from(processes, 0)->0,
                Process { instance_generation: assigned_generation(process, next), ..process },
            )
        } else {
            processes
        },
        next_inserted(processes, next, process),
        r,
    )
}

/// The slots after a reaped process gave its own back.
pub open spec fn slot_released(processes: Seq<Process>, process_id: u64) -> (
    Seq<Process>,
    Result<(), &'static str>,
) {
    match process_from(processes, process_id, 0) {
        None => (processes, Err("process missing from registry during release")),
        Some(i) => if processes[i].state != ProcessState::Reaped {
            (processes, Err("process registry slot could not be reused before reap"))
        } else {
            (processes.update(i, empty_process()), Ok(()))
        },
    }
}

impl ProcessRegistry {
    pub open spec fn wf(&self) -> bool {
        self.processes@.len() == PROCESS_REGISTRY_CAPACITY
    }

    pub fn new() -> (r: ProcessRegistry)
        ensures
            r.wf(),
            r.next_instance_generation == InstanceGeneration(1),
            forall|i: int|
                0 <= i < r.processes@.len() ==> #[trigger] r.processes@[i] == empty_process(),
    {
        let mut processes: Vec<Process> = Vec::new();
        let mut i: usize = 0;
        while i < PROCESS_REGISTRY_CAPACITY
            invariant
                0 <= i <= PROCESS_REGISTRY_CAPACITY,
                processes@.len() == i,
                forall|k: int| 0 <= k < i ==> #[trigger] processes@[k] == empty_process(),
            decreases PROCESS_REGISTRY_CAPACITY - i,
        {
            processes.push(Process::empty());
            i += 1;
        }
        ProcessRegistry { processes, next_instance_generation: InstanceGeneration(1) }
    }

    pub fn clear(&mut self)
        ensures
            final(self).wf(),
            final(self).next_instance_generation == InstanceGeneration(1),
            forall|i: int|
                0 <= i < final(self).processes@.len() ==> #[trigger] final(self).processes@[i] == empty_process(),
    {
        *self = ProcessRegistry::new();
    }

    fn position(&self, process_id: u64) -> (r: Option<usize>)
        ensures
            match process_from(self.processes@, process_id, 0) {
                Some(i) => r is Some && r->0 == i && i < self.processes@.len(),
                None => r is None,
            },
    {
        let mut i: usize = 0;
        while i < self.processes.len()
            invariant
                0 <= i <= self.processes@.len(),
                process_from(self.processes@, process_id, 0) == process_from(
                    self.processes@,
                    process_id,
                    i as int,
                ),
            decreases self.processes@.len() - i,
        {
            if self.processes[i].id == process_id && self.processes[i].state
                != ProcessState::Empty {
                return Some(i);
            }
            i += 1;
        }
        None
    }

    fn free_position(&self) -> (r: Option<usize>)
        ensures
            match free_from(self.processes@, 0) {
                Some(i) => r is Some && r->0 == i && i < self.processes@.len(),
                None => r is None,
            },
    {
        let mut i: usize = 0;
        while i < self.processes.len()
            invariant
                0 <= i <= self.processes@.len(),
                free_from(self.processes@, 0) == free_from(self.processes@, i as int),
            decreases self.processes@.len() - i,
        {
            if self.processes[i].state == ProcessState::Empty {
                return Some(i);
            }
            i += 1;
        }
        None
    }

    /// Puts a process into the first unused slot.
    pub fn insert(&mut self, process: Process) -> (r: Result<(), &'static str>)
        requires
            old(self).wf(),
        ensures
            final(self).wf(),
            (final(self).processes@, final(self).next_instance_generation, r) == inserted(
                old(self).processes@,
                old(self).next_instance_generation,
                process,
            ),
    {
        let mut process = process;
        match self.position(process.id) {
            Some(_) => {
                return Err("process id already existed in registry");
            },
            None => {},
        }
        if process.instance_generation.0 == 0 {
            process.instance_generation = self.next_instance_generation;
        }
        if process.instance_generation.0 >= self.next_instance_generation.0 {
            match process.instance_generation.0.checked_add(1) {
                Some(next) => {
                    self.next_instance_generation = InstanceGeneration(next);
                },
                None => {
                    return Err("process instance generation exhausted");
                },
            }
        }
        match self.free_position() {
            Some(i) => {
                self.processes.set(i, process);
                Ok(())
            },
            None => Err("process registry capacity exceeded"),
        }
    }

    pub fn get(&self, process_id: u64) -> (r: Option<&Process>)
        ensures
            match process_from(self.processes@, process_id, 0) {
                Some(i) => r == Some(&self.processes@[i]),
                None => r is None,
            },
    {
        match self.position(process_id) {
            Some(i) => Some(&self.processes[i]),
            None => None,
        }
    }

    pub fn get_mut(&mut self, process_id: u64) -> (r: Option<&mut Process>)
        ensures
            final(self).next_instance_generation == old(self).next_instance_generation,
            match process_from(old(self).processes@, process_id, 0) {
                Some(i) => {
                    &&& r is Some
                    &&& *r->0 == old(self).processes@[i]
                    &&& final(self).processes@ == old(self).processes@.update(i, *final(r->0))
                },
                None => r is None && final(self).processes@ == old(self).processes@,
            },
    {
        match self.position(process_id) {
            Some(i) => Some(&mut self.processes[i]),
            None => None,
        }
    }

    pub fn instance_generation(&self, process_id: u64) -> (r: Option<InstanceGeneration>)
        ensures
            r == generation_of(self.processes@, process_id),
    {
        match self.get(process_id) {
            Some(process) => Some(process.instance_generation),
            None => None,
        }
    }

    /// The generation of the process that has the pid now.
    pub fn live_instance_generation(&self, process_id: u64) -> (r: Option<InstanceGeneration>)
        ensures
            r == generation_of(self.processes@, process_id),
    {
        self.instance_generation(process_id)
    }

    /// Empties the slot of a reaped process.
    pub fn release_reaped(&mut self, process_id: u64) -> (r: Result<(), &'static str>)
        requires
            old(self).wf(),
        ensures
            final(self).wf(),
            final(self).next_instance_generation == old(self).next_instance_generation,
            (final(self).processes@, r) == slot_released(old(self).processes@, process_id),
    {
        let i: usize = match self.position(process_id) {
            Some(i) => i,
            None => return Err("process missing from registry during release"),
        };
        if self.processes[i].state != ProcessState::Reaped {
            return Err("process registry slot could not be reused before reap");
        }
        self.processes.set(i, Process::empty());
        Ok(())
    }

    pub fn occupied_slots(&self) -> (r: usize)
        ensures
            r == count(self.processes@, |process: Process| occupied(process)),
    {
        let ghost p = |process: Process| occupied(process);
        let mut n: usize = 0;
        let mut i: usize = 0;
        while i < self.processes.len()
            invariant
                0 <= i <= self.processes@.len(),
                n <= i,
                p == |process: Process| occupied(process),
                n == count(self.processes@.take(i as int), p),
            decreases self.processes@.len() - i,
        {
            proof {
                lemma_count_step(self.processes@, p, i as int);
            }
            if self.processes[i].state != ProcessState::Empty {
                n += 1;
            }
            i += 1;
        }
        proof {
            lemma_count_whole(self.processes@, p);
        }
        n
    }

    pub fn find_by_address_space_root(&self, root_frame: u64) -> (r: Option<&Process>)
        ensures
            match root_from(self.processes@, root_frame, 0) {
                Some(i) => r == Some(&self.processes@[i]),
                None => r is None,
            },
    {
        let mut i: usize = 0;
        while i < self.processes.len()
            invariant
                0 <= i <= self.processes@.len(),
                root_from(self.processes@, root_frame, 0) == root_from(
                    self.processes@,
                    root_frame,
                    i as int,
                ),
            decreases self.processes@.len() - i,
        {
            let process = &self.processes[i];
            if process.state != ProcessState::Empty && process.state != ProcessState::Reaped
                && process.address_space_root() == root_frame {
                return Some(process);
            }
            i += 1;
        }
        None
    }

    /// The root of a process that may be dispatched.
    pub fn userspace_process_root_frame(&self, process_id: u64) -> (r: Result<u64, &'static str>)
        ensures
            r == dispatch_root(self.processes@, process_id),
    {
        match self.get(process_id) {
            None => Err("userspace process id was not registered"),
            Some(process) => if process.state == ProcessState::Ready || process.state
                == ProcessState::Running {
                Ok(process.address_space_root())
            } else {
                Err("userspace process was not dispatchable")
            },
        }
    }
}

/// The root of a process that may be dispatched.
pub open spec fn dispatch_root(processes: Seq<Process>, process_id: u64) -> Result<u64, &'static str> {
    match process_from(processes, process_id, 0) {
        None => Err("userspace process id was not registered"),
        Some(i) => if processes[i].state == ProcessState::Ready || processes[i].state
            == ProcessState::Running {
            Ok(processes[i].resource_domain.root_frame)
        } else {
            Err("userspace process was not dispatchable")
        },
    }
}

/// Whether every generation in use lies below the next.
pub open spec fn generations_below(processes: Seq<Process>, next: InstanceGeneration) -> bool {
    forall|i: int|
        0 <= i < processes.len() && occupied(#[trigger] processes[i])
            ==> processes[i].instance_generation.0 < next.0
}

/// Insertion keeps every generation in use below the next, and a process that comes without a
/// generation gets one above all that were ever in use: a reused pid is a new instance.
pub proof fn law_generations_increase(
    processes: Seq<Process>,
    next: InstanceGeneration,
    process: Process,
)
    requires
        generations_below(processes, next),
        insert_result(processes, next, process) is Ok,
    ensures
        ({
            let generation = assigned_generation(process, next);
            let slot = free_from(processes, 0)->0;
            let after = processes.update(
                slot,
                Process { instance_generation: generation, ..process },
            );
            &&& generations_below(after, next_after(generation, next))
            &&& next_after(generation, next).0 >= next.0
            &&& process.instance_generation.0 == 0 ==> generation.0 == next.0 && next_after(
                generation,
                next,
            ).0 > next.0
        }),
{
    lemma_free_from(processes, 0);
    let generation = assigned_generation(process, next);
    let slot = free_from(processes, 0)->0;
    let after = processes.update(slot, Process { instance_generation: generation, ..process });
    assert forall|i: int| 0 <= i < after.len() && occupied(#[trigger] after[i]) implies after[i].instance_generation.0
        < next_after(generation, next).0 by {
        if i != slot {
            assert(after[i] == processes[i]);
        }
    }
}

/// A process that was put into a slot is found there by its id.
pub proof fn lemma_inserted(processes: Seq<Process>, slot: int, process: Process, from: int)
    requires
        0 <= from <= slot < processes.len(),
        process_from(processes, process.id, from) is None,
        occupied(process),
    ensures
        process_from(processes.update(slot, process), process.id, from) == Some(slot),
    decreases processes.len() - from,
{
    if from < slot {
        lemma_inserted(processes, slot, process, from + 1);
    }
}

/// The first unused slot is a slot, and unused.
pub proof fn lemma_free_from(processes: Seq<Process>, from: int)
    requires
        0 <= from <= processes.len(),
    ensures
        match free_from(processes, from) {
            Some(i) => from <= i < processes.len() && !occupied(processes[i]),
            None => true,
        },
    decreases processes.len() - from,
{
    if from < processes.len() && occupied(processes[from]) {
        lemma_free_from(processes, from + 1);
    }
}

/// A thread's exit, its reaping and the release of the slot leave nothing of a process with one
/// thread.
pub proof fn law_last_exit_reaches_reaped(process: Process, status: u64, faulted: bool)
    requires
        process.live_threads == 1,
    ensures
        ({
            let exited = thread_exited(process, status, faulted);
            &&& exited.state == ProcessState::Exited
            &&& exited.exit_status == Some(status)
            &&& exited.live_threads == 0
        }),
{
}

} // verus!
