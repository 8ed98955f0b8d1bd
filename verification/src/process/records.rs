//! What holds of process records from their insertion to their release, and across a fork.

use super::id_allocator::id_taken;
use super::lifecycle::{
    dispatch_root, empty_process, exit_begun, exit_finalized, free_from, generation_of,
    generations_below, inserted, lemma_free_from, lemma_inserted, occupied, process_from,
    record_reaped, root_from, slot_released, thread_reaped, Process, ProcessState,
};
use super::linux_fd::registry::FdRegistryModel;
use super::linux_image::launch::{
    alone_with_id, lemma_process_from, lemma_slot_emptied, linux_process,
};
use super::linux_mem::{mem_of, MemSlotModel};
use super::linux_proc::children::children_of;
use super::linux_proc::fork::{delegated_until, fork_admitted, fork_finished};
use super::linux_proc::table::{
    place_from, registered, slot_from, ChildState, ProcId, SlotModel, TableModel,
};
use super::linux_signal::{signals_of, SignalSlotModel};
use super::personality::ExecutionPersonality;
use super::signal_use::registry_wf;
use super::InstanceGeneration;
use crate::abi::{EAGAIN, EINVAL, ESRCH};
use crate::mm::address_space::ProcessAddressSpace;
use crate::sched::{Thread, ThreadState};
use vstd::prelude::*;

verus! {

/// What no exit changes of a process: who it is and what it owns.
pub open spec fn same_process(a: Process, b: Process) -> bool {
    &&& a.id == b.id
    &&& a.instance_generation == b.instance_generation
    &&& a.resource_domain == b.resource_domain
    &&& a.execution_personality == b.execution_personality
}

/// A thread's exit takes one thread from its process. The last one ends the process with the given
/// status; another leaves it running, or faulted where the thread faulted, without a status. A thread of
/// another process, and a process without threads, are refused.
pub proof fn law_exit_takes_one_thread(process: Process, thread: Thread, status: u64, faulted: bool)
    ensures
        ({
            let (p, t, r) = exit_begun(process, thread, status, faulted);
            &&& r is Ok <==> thread.owner_process_id == process.id && process.live_threads > 0
            &&& r is Err ==> p == process && t == thread
            &&& r matches Ok(last) ==> {
                &&& p.live_threads + 1 == process.live_threads
                &&& last <==> p.live_threads == 0
                &&& last ==> p.state == ProcessState::Exited && p.exit_status == Some(status)
                &&& !last ==> p.exit_status == process.exit_status
                &&& !last && faulted ==> p.state == ProcessState::Faulted
                &&& !last && !faulted ==> p.state == ProcessState::Running
                &&& same_process(p, process)
                &&& t.state == ThreadState::Exited
                &&& t.id == thread.id && t.owner_process_id == thread.owner_process_id
            }
        }),
{
}

/// The exit of the last thread, its reaping and the release of the slot end a process; each step is
/// refused before the one that comes first, and the status stays until the slot is released.
pub proof fn law_exit_comes_before_reaping(process: Process, thread: Thread, status: u64, faulted: bool)
    requires
        thread.owner_process_id == process.id,
        process.live_threads > 0,
        thread.state != ThreadState::Exited,
    ensures
        thread_reaped(process, thread).2 is Err,
        thread_reaped(process, thread).0 == process,
        record_reaped(process).1 is Err,
        exit_finalized(process, status).1 is Err,
        ({
            let (p, t, r) = exit_begun(process, thread, status, faulted);
            let (reaped, gone, done) = thread_reaped(p, t);
            &&& done is Ok <==> process.live_threads == 1
            &&& gone.state == ThreadState::Reaped
            &&& done is Ok ==> reaped.state == ProcessState::Reaped && reaped.exit_status == Some(
                status,
            ) && same_process(reaped, process)
            &&& done is Err ==> reaped == p
        }),
{
}

proof fn lemma_others_found(processes: Seq<Process>, slot: int, process: Process, id: u64, from: int)
    requires
        0 <= slot < processes.len(),
        0 <= from <= processes.len(),
        !(processes[slot].id == id && occupied(processes[slot])),
        !(process.id == id && occupied(process)),
    ensures
        process_from(processes.update(slot, process), id, from) == process_from(
            processes,
            id,
            from,
        ),
    decreases processes.len() - from,
{
    if from < processes.len() {
        lemma_others_found(processes, slot, process, id, from + 1);
    }
}

/// A process that is put in is found under its id as it came in, with a generation; the slot it took was
/// unused, and every other process is found where it was.
pub proof fn law_inserted_process_is_found(
    processes: Seq<Process>,
    next: InstanceGeneration,
    process: Process,
    other: u64,
)
    requires
        inserted(processes, next, process).2 is Ok,
        occupied(process),
        other != process.id,
    ensures
        ({
            let (after, later, _) = inserted(processes, next, process);
            let i = process_from(after, process.id, 0)->0;
            &&& process_from(processes, process.id, 0) is None
            &&& process_from(after, process.id, 0) is Some
            &&& 0 <= i < processes.len() && !occupied(processes[i])
            &&& after[i] == (Process {
                instance_generation: after[i].instance_generation,
                ..process
            })
            &&& generation_of(after, process.id) == Some(
                if process.instance_generation.0 == 0 {
                    next
                } else {
                    process.instance_generation
                },
            )
            &&& after[i].instance_generation.0 < later.0
            &&& generation_of(after, other) == generation_of(processes, other)
            &&& process_from(after, other, 0) == process_from(processes, other, 0)
            &&& process_from(processes, other, 0) matches Some(k) ==> after[k] == processes[k]
        }),
{
    lemma_free_from(processes, 0);
    lemma_process_from(processes, other, 0);
    let slot = free_from(processes, 0)->0;
    let after = inserted(processes, next, process).0;
    let put = after[slot];
    lemma_inserted(processes, slot, put, 0);
    lemma_others_found(processes, slot, put, other, 0);
}

/// A process whose slot was released is not found under its id, and every other is found as it was. A
/// process that was not reaped keeps its slot.
pub proof fn law_released_process_is_gone(processes: Seq<Process>, id: u64, other: u64)
    requires
        id != 0,
        other != id,
        other != 0,
        alone_with_id(processes, id),
    ensures
        ({
            let (after, r) = slot_released(processes, id);
            &&& r is Ok ==> process_from(after, id, 0) is None
            &&& r is Ok <==> process_from(processes, id, 0) is Some && processes[process_from(
                processes,
                id,
                0,
            )->0].state == ProcessState::Reaped
            &&& r is Err ==> after == processes
            &&& process_from(after, other, 0) == process_from(processes, other, 0)
            &&& generation_of(after, other) == generation_of(processes, other)
        }),
{
    lemma_process_from(processes, id, 0);
    lemma_process_from(processes, other, 0);
    if slot_released(processes, id).1 is Ok {
        lemma_slot_emptied(processes, id);
        lemma_others_found(processes, process_from(processes, id, 0)->0, empty_process(), other, 0);
    }
}

/// A pid that is used again is a new instance: the second process has a later generation than the first.
pub proof fn law_reused_pid_is_a_new_instance(
    processes: Seq<Process>,
    next: InstanceGeneration,
    id: u64,
    process: Process,
)
    requires
        id != 0,
        alone_with_id(processes, id),
        generations_below(processes, next),
        slot_released(processes, id).1 is Ok,
        process.id == id,
        process.instance_generation.0 == 0,
        occupied(process),
        inserted(slot_released(processes, id).0, next, process).2 is Ok,
    ensures
        ({
            let after = inserted(slot_released(processes, id).0, next, process).0;
            &&& generation_of(processes, id) is Some && generation_of(after, id) is Some
            &&& (generation_of(processes, id)->0).0 < (generation_of(after, id)->0).0
        }),
{
    lemma_process_from(processes, id, 0);
    law_inserted_process_is_found(
        slot_released(processes, id).0,
        next,
        process,
        if id == 1 {
            2u64
        } else {
            1u64
        },
    );
    assert(occupied(processes[process_from(processes, id, 0)->0]));
}

/// A process made for an address space is ready, has one thread and no status, runs under the Linux
/// personality, and is dispatched with the root of that space; one that ended is not dispatched.
pub proof fn law_new_process_can_be_dispatched(
    processes: Seq<Process>,
    next: InstanceGeneration,
    pid: u64,
    space: ProcessAddressSpace,
)
    requires
        inserted(processes, next, linux_process(pid, space)).2 is Ok,
    ensures
        ({
            let made = linux_process(pid, space);
            let after = inserted(processes, next, made).0;
            let i = process_from(after, pid, 0)->0;
            &&& made.id == pid
            &&& made.live_threads == 1
            &&& made.exit_status is None
            &&& made.state == ProcessState::Ready
            &&& made.execution_personality == ExecutionPersonality::LinuxX86_64
            &&& made.resource_domain.address_space == Some(space)
            &&& dispatch_root(after, pid) == Ok::<u64, &'static str>(space.root_frame)
            &&& dispatch_root(processes, pid) is Err
            &&& forall|ended: Process|
                ended.id == pid && (ended.state == ProcessState::Exited || ended.state
                    == ProcessState::Faulted || ended.state == ProcessState::Reaped)
                    ==> #[trigger] dispatch_root(after.update(i, ended), pid) is Err
        }),
{
    let made = linux_process(pid, space);
    let after = inserted(processes, next, made).0;
    law_inserted_process_is_found(
        processes,
        next,
        made,
        if pid == 1 {
            2u64
        } else {
            1u64
        },
    );
    lemma_free_from(processes, 0);
    let i = process_from(after, pid, 0)->0;
    assert forall|ended: Process|
        ended.id == pid && (ended.state == ProcessState::Exited || ended.state
            == ProcessState::Faulted || ended.state
            == ProcessState::Reaped) implies #[trigger] dispatch_root(after.update(i, ended), pid) is Err by {
        super::linux_image::launch::lemma_same_slots(after, after.update(i, ended), pid, 0);
    }
}

/// Only a registered process with an address space is forked, and only while there is room.
pub proof fn law_fork_needs_room_and_a_parent(slots: Seq<SlotModel>, processes: Seq<Process>, pid: u64)
    requires
        slots.len() == 6,
    ensures
        fork_admitted(slots, processes, pid) is Ok ==> {
            &&& process_from(processes, pid, 0) is Some
            &&& processes[process_from(processes, pid, 0)->0].resource_domain.address_space is Some
            &&& exists|i: int| 0 <= i < slots.len() && !(#[trigger] slots[i]).live
        },
        (exists|i: int| 0 <= i < slots.len() && !(#[trigger] slots[i]).live) ==> {
            &&& process_from(processes, pid, 0) is None ==> fork_admitted(slots, processes, pid)
                == Err::<(), crate::abi::LinuxErrno>(ESRCH)
            &&& process_from(processes, pid, 0) matches Some(k)
                ==> processes[k].resource_domain.address_space is None ==> fork_admitted(
                slots,
                processes,
                pid,
            ) == Err::<(), crate::abi::LinuxErrno>(EINVAL)
        },
        (forall|i: int| 0 <= i < slots.len() ==> (#[trigger] slots[i]).live) ==> fork_admitted(
            slots,
            processes,
            pid,
        ) == Err::<(), crate::abi::LinuxErrno>(EAGAIN),
{
    let p = |slot: SlotModel| slot.live;
    crate::scan::lemma_count_full(slots, p);
    crate::scan::lemma_count_bound(slots, p);
    if crate::scan::count(slots, p) != slots.len() {
        let i = choose|i: int| 0 <= i < slots.len() && !p(#[trigger] slots[i]);
        assert(!slots[i].live);
    } else {
        assert forall|i: int| 0 <= i < slots.len() implies (#[trigger] slots[i]).live by {
            assert(p(slots[i]));
        }
    }
}

/// A fork that ends well gives the parent the child's pid. The child is then the parent's running child,
/// in its group; it has the parent's memory and signals, and the parent keeps its own; descriptors are
/// left to what was inherited.
pub proof fn law_fork_gives_a_copy(
    table: TableModel,
    fds: FdRegistryModel,
    mem: Seq<Option<MemSlotModel>>,
    signals: Seq<Option<SignalSlotModel>>,
    parent: ProcId,
    child: ProcId,
    inherited: bool,
    delegated: bool,
    j: int,
)
    requires
        parent.pid != 0,
        parent.pid != child.pid,
        registry_wf(signals),
        0 <= j < children_of(table, parent).len(),
        fork_finished(table, fds, mem, signals, parent, child, inherited, delegated).4 is Ok,
    ensures
        ({
            let (t, f, m, s, r) = fork_finished(
                table,
                fds,
                mem,
                signals,
                parent,
                child,
                inherited,
                delegated,
            );
            let c = place_from(children_of(table, parent), 0)->0;
            &&& inherited && delegated
            &&& r->Ok_0 == child.pid
            &&& slot_from(t.slots, child, 0) is Some
            &&& t.slots[slot_from(t.slots, child, 0)->0].parent == parent
            &&& children_of(t, parent)[c] matches Some(entry) && entry.child == child && entry.state
                == ChildState::Running
            &&& j != c ==> children_of(t, parent)[j] == children_of(table, parent)[j]
            &&& f == fds
            &&& mem_of(m, child.pid, child.generation) == mem_of(mem, parent.pid, parent.generation)
            &&& mem_of(m, parent.pid, parent.generation) == mem_of(
                mem,
                parent.pid,
                parent.generation,
            )
            &&& signals_of(s, child.pid, child.generation) == signals_of(
                signals,
                parent.pid,
                parent.generation,
            )
        }),
{
    super::linux_proc::children::law_registered_child_is_running(table, child, parent, j);
    super::linux_mem::law_fork_copies_memory(
        mem,
        parent.pid,
        parent.generation,
        child.pid,
        child.generation,
    );
    super::linux_signal::law_fork_copies_signals(
        signals,
        parent.pid,
        parent.generation,
        child.pid,
        child.generation,
    );
}

/// A fork that was refused before its child had state changes nothing but what it registered, and has
/// nothing to unmap.
pub proof fn law_refused_fork_leaves_state_alone(
    table: TableModel,
    fds: FdRegistryModel,
    mem: Seq<Option<MemSlotModel>>,
    signals: Seq<Option<SignalSlotModel>>,
    parent: ProcId,
    child: ProcId,
    inherited: bool,
    delegated: bool,
)
    requires
        !inherited || !delegated || registered(table, child, parent).1 is Err,
    ensures
        ({
            let (t, f, m, s, r) = fork_finished(
                table,
                fds,
                mem,
                signals,
                parent,
                child,
                inherited,
                delegated,
            );
            &&& r is Err && (r->Err_0).0 == EAGAIN && (r->Err_0).1.len() == 0
            &&& f == fds && m == mem && s == signals
            &&& !inherited || !delegated ==> t == table
        }),
{
}

/// A root frame leads to the first process that has it and was not reaped, and to none only where no such
/// process is there.
pub proof fn law_root_leads_to_its_process(processes: Seq<Process>, root_frame: u64, from: int, j: int)
    requires
        0 <= from <= processes.len(),
    ensures
        root_from(processes, root_frame, from) matches Some(i) ==> {
            &&& from <= i < processes.len()
            &&& occupied(processes[i])
            &&& processes[i].state != ProcessState::Reaped
            &&& processes[i].resource_domain.root_frame == root_frame
        },
        from <= j < processes.len() && occupied(processes[j]) && processes[j].state
            != ProcessState::Reaped && processes[j].resource_domain.root_frame == root_frame ==> (root_from(
            processes,
            root_frame,
            from,
        ) is Some && root_from(processes, root_frame, from)->0 <= j),
    decreases processes.len() - from,
{
    if from < processes.len() {
        law_root_leads_to_its_process(processes, root_frame, from + 1, j);
    }
}

/// Ids are never given twice: what is taken later is larger than all that was taken before, and once they
/// have run out none is given any more.
pub proof fn law_ids_are_not_reused(next: u64, exhausted: &'static str, earlier: u64)
    requires
        earlier < next,
    ensures
        ({
            let (after, r) = id_taken(next, exhausted);
            let (_, again) = id_taken(after, exhausted);
            &&& r is Ok ==> earlier < r->Ok_0 && r->Ok_0 < after
            &&& r is Ok && again is Ok ==> r->Ok_0 < again->Ok_0
            &&& r is Err ==> again is Err && after == next
            &&& r is Err <==> next == u64::MAX
        }),
{
}

/// Capabilities are handed on in order up to the first that cannot be.
pub proof fn law_delegation_stops_at_the_first_failure(
    attempts: Seq<Option<u64>>,
    max_slots: int,
    from: int,
    k: int,
)
    requires
        0 <= from <= attempts.len(),
        from <= max_slots,
    ensures
        ({
            let n = delegated_until(attempts, max_slots, from);
            &&& from <= n <= attempts.len() && n <= max_slots
            &&& from <= k < n ==> attempts[k] is Some
            &&& n < attempts.len() && n < max_slots ==> attempts[n] is None
        }),
    decreases attempts.len() - from,
{
    if from < attempts.len() && from < max_slots && attempts[from] is Some {
        law_delegation_stops_at_the_first_failure(attempts, max_slots, from + 1, k);
    }
}

} // verus!
