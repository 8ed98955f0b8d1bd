//! Publication of exits: by `exit` and `exit_group`, and by a signal.
//!
//! Linux processes have one thread, so each of these ends the process.

use super::pipe::wait_key_for_parent;
use super::table::{
    children_finalized, exit_published, exit_status_word, retired, slot_from, LinuxProcessTable,
    ProcId, TableModel,
};
use crate::abi::{exit_code_status, signalled_status};
use crate::process::lifecycle::ProcessRegistry;
use crate::sched::wait::{
    awaited, swept, wake_recorded, wakes, WaitKey, WaitModel, WaitOutcome, WaitTable, WakeState,
};
use crate::sched::{Scheduler, SchedulerModel};
use vstd::prelude::*;

verus! {

/// The table after an exit was published and the process gave its slot up.
pub open spec fn exit_recorded(m: TableModel, id: ProcId, status: i32, finalize_children: bool) -> TableModel {
    let published = exit_published(m, id, status);
    let settled = if finalize_children {
        match slot_from(published.slots, id, 0) {
            None => published,
            Some(p) => children_finalized(published, published.slots[p].children, 0),
        }
    } else {
        published
    };
    TableModel { slots: retired(settled.slots, id), ..settled }
}

/// The key on which a process's parent waits for it.
pub open spec fn parent_key(m: TableModel, id: ProcId) -> WaitKey {
    WaitKey(
        (0x50u64 << 56) | match slot_from(m.slots, id, 0) {
            Some(i) => m.slots[i].parent.pid,
            None => id.pid,
        },
    )
}

/// Every thread that waits on `key` was woken; where none did, the wake is kept for the next one.
pub open spec fn parent_woken(
    key: WaitKey,
    registry: &ProcessRegistry,
    waits: &WaitTable,
    waits_after: &WaitTable,
    scheduler: SchedulerModel,
    scheduler_after: SchedulerModel,
) -> bool {
    let after = swept(
        WakeState { slots: waits.slots@, threads: scheduler.threads, woken: 0 },
        wakes(key, registry.processes@),
        WaitOutcome::Woken,
        true,
        0,
    );
    &&& waits_after.model() == (WaitModel {
        slots: after.slots,
        pending: if awaited(waits.slots@, key) {
            waits.pending_wake_keys@
        } else {
            wake_recorded(waits.pending_wake_keys@, key.0)
        },
        ..waits.model()
    })
    &&& scheduler_after == (SchedulerModel { threads: after.threads, ..scheduler })
}

/// Publishes an exit, gives the slot up and wakes the parent. The process must hold a slot.
pub fn publish_linux_exit(
    table: &mut LinuxProcessTable,
    waits: &mut WaitTable,
    scheduler: &mut Scheduler,
    registry: &ProcessRegistry,
    id: ProcId,
    status: u32,
    finalize_children: bool,
)
    requires
        slot_from(old(table).model().slots, id, 0) is Some,
        old(waits).wf(),
        old(scheduler).wf(),
    ensures
        final(waits).wf(),
        final(scheduler).wf(),
        final(table).model() == exit_recorded(
            old(table).model(),
            id,
            exit_code_status(status),
            finalize_children,
        ),
        parent_woken(
            parent_key(old(table).model(), id),
            registry,
            old(waits),
            final(waits),
            old(scheduler).model(),
            final(scheduler).model(),
        ),
{
    let parent_pid: u64 = match table.parent_of(id) {
        Some(parent) => parent.pid,
        None => id.pid,
    };
    table.publish_exit(id, exit_status_word(status, None));
    if finalize_children {
        table.finalize_children_on_parent_exit(id);
    }
    table.retire_slot(id);
    let _ = waits.wake_all(scheduler, registry, wait_key_for_parent(parent_pid));
}

/// Publishes that a signal ended a process, settles its children, gives the slot up and wakes the
/// parent. The process must hold a slot.
pub fn publish_linux_signalled_exit(
    table: &mut LinuxProcessTable,
    waits: &mut WaitTable,
    scheduler: &mut Scheduler,
    registry: &ProcessRegistry,
    id: ProcId,
    signal: u32,
)
    requires
        slot_from(old(table).model().slots, id, 0) is Some,
        old(waits).wf(),
        old(scheduler).wf(),
    ensures
        final(waits).wf(),
        final(scheduler).wf(),
        final(table).model() == exit_recorded(
            old(table).model(),
            id,
            signalled_status(signal),
            true,
        ),
        parent_woken(
            parent_key(old(table).model(), id),
            registry,
            old(waits),
            final(waits),
            old(scheduler).model(),
            final(scheduler).model(),
        ),
{
    let parent_pid: u64 = match table.parent_of(id) {
        Some(parent) => parent.pid,
        None => id.pid,
    };
    table.publish_exit(id, exit_status_word(0, Some(signal)));
    table.finalize_children_on_parent_exit(id);
    table.retire_slot(id);
    let _ = waits.wake_all(scheduler, registry, wait_key_for_parent(parent_pid));
}

} // verus!
