//! What holds between parents and children: registering, exiting and waiting.

use super::exit_publish::{exit_recorded, parent_key};
use super::table::{
    child_awaited, child_from, child_matches, children_finalized, exit_published, forgotten,
    lemma_child_from, lemma_slot_filled, lemma_slot_from, lemma_slot_kept, lemma_unused_from,
    place_from, ppid_of, registered, retired, slot_from, stale_retired, superseded, unused_from,
    without, zombie_found, zombie_from, ChildSlot, ChildState, ProcId, SlotModel, TableModel,
};
use super::wait::{waited, WaitAction, WNOHANG};
use crate::abi::{exit_code_status, signalled_status, ECHILD, EFAULT};
use crate::process::lifecycle::{process_from, Process};
use vstd::prelude::*;

verus! {

/// The children that a process's slot records; none where it has no slot.
pub open spec fn children_of(m: TableModel, parent: ProcId) -> Seq<Option<ChildSlot>> {
    match slot_from(m.slots, parent, 0) {
        Some(p) => m.slots[p].children,
        None => seq![],
    }
}

/// Whether a wait is for a child: a positive number asks for the child with that pid, any other for
/// every child.
pub open spec fn asked_for(wait_pid: i64, entry: ChildSlot) -> bool {
    wait_pid > 0 ==> entry.child.pid == wait_pid
}

/// A child that ended, was not reaped, and whose pid no other process has by now.
pub open spec fn reportable(entry: Option<ChildSlot>, processes: Seq<Process>) -> bool {
    entry is Some && entry->0.state is Zombie && !superseded(processes, entry->0.child)
}

/// Looking for a zombie touches only zombies that were asked for, and finds the first that can be
/// reported.
proof fn lemma_zombie_from(
    children: Seq<Option<ChildSlot>>,
    wait_pid: i64,
    pgid: u64,
    processes: Seq<Process>,
    from: int,
)
    requires
        0 <= from <= children.len(),
    ensures
        ({
            let (after, found) = zombie_from(children, wait_pid, pgid, processes, from);
            &&& after.len() == children.len()
            &&& forall|j: int|
                0 <= j < children.len() && #[trigger] after[j] != children[j] ==> from <= j
                    && children[j] is Some && child_matches(children[j]->0, wait_pid, pgid)
                    && children[j]->0.state is Zombie && after[j] == Some(
                    ChildSlot { state: ChildState::Reaped, ..children[j]->0 },
                ) && (superseded(processes, children[j]->0.child) || found == Some(
                    (children[j]->0.child, children[j]->0.state->status),
                ))
            &&& match found {
                Some((child, status)) => exists|c: int|
                    from <= c < children.len() && reportable(#[trigger] children[c], processes)
                        && child_matches(children[c]->0, wait_pid, pgid) && children[c]->0.child
                        == child && children[c]->0.state->status == status,
                None => forall|c: int|
                    from <= c < children.len() && child_matches(children[c]->0, wait_pid, pgid)
                        ==> !reportable(#[trigger] children[c], processes),
            }
        }),
    decreases children.len() - from,
{
    if from < children.len() {
        let entry = children[from];
        if entry is Some && child_matches(entry->0, wait_pid, pgid) && entry->0.state is Zombie {
            let marked = children.update(
                from,
                Some(ChildSlot { state: ChildState::Reaped, ..entry->0 }),
            );
            if superseded(processes, entry->0.child) {
                lemma_zombie_from(marked, wait_pid, pgid, processes, from + 1);
                let (after, found) = zombie_from(marked, wait_pid, pgid, processes, from + 1);
                assert forall|c: int| from + 1 <= c < children.len() implies marked[c]
                    == #[trigger] children[c] by {}
                if found is Some {
                    let c = choose|c: int|
                        from + 1 <= c < marked.len() && reportable(#[trigger] marked[c], processes)
                            && child_matches(marked[c]->0, wait_pid, pgid) && marked[c]->0.child
                            == (found->0).0 && marked[c]->0.state->status == (found->0).1;
                    assert(reportable(children[c], processes));
                }
            } else {
                assert(reportable(children[from], processes));
            }
        } else {
            lemma_zombie_from(children, wait_pid, pgid, processes, from + 1);
        }
    }
}

/// A wait that reaps gives the pid and, where it is wanted, the status of a child that ended; a wait
/// for one pid gives no other. That child is forgotten. Every other child stays as it is, except that
/// an ended one whose pid went to another process is given up; one that was not asked for is never
/// touched.
pub proof fn law_wait_reaps_whom_it_asks_for(
    m: TableModel,
    parent: ProcId,
    wait_pid: i64,
    wants_status: bool,
    options: u64,
    status_writable: bool,
    processes: Seq<Process>,
    j: int,
)
    requires
        0 <= j < children_of(m, parent).len(),
    ensures
        ({
            let (after, action) = waited(
                m,
                parent,
                wait_pid,
                wants_status,
                options,
                status_writable,
                processes,
            );
            let before = children_of(m, parent);
            match action {
                WaitAction::Reaped { pid, status } => {
                    &&& wait_pid > 0 ==> pid == wait_pid
                    &&& exists|c: int|
                        0 <= c < before.len() && reportable(#[trigger] before[c], processes)
                            && before[c]->0.child.pid == pid && status == (if wants_status {
                            Some(before[c]->0.state->status)
                        } else {
                            None
                        })
                    &&& before[j] is Some && before[j]->0.child.pid != pid && !(
                    before[j]->0.state is Zombie && asked_for(wait_pid, before[j]->0) && superseded(
                        processes,
                        before[j]->0.child,
                    )) && parent.pid != pid ==> children_of(after, parent)[j] == before[j]
                },
                _ => !(before[j] is Some && before[j]->0.state is Zombie && asked_for(
                    wait_pid,
                    before[j]->0,
                )) ==> children_of(after, parent)[j] == before[j],
            }
        }),
{
    let p = slot_from(m.slots, parent, 0)->0;
    lemma_slot_from(m.slots, parent, 0);
    let filter = super::wait::wait_filter(wait_pid);
    let pgid = m.slots[p].pgid;
    let before = m.slots[p].children;
    lemma_zombie_from(before, filter, pgid, processes, 0);
    let (kids, found) = zombie_from(before, filter, pgid, processes, 0);
    let marked = zombie_found(m, parent, filter, processes).0;
    lemma_slot_kept(m.slots, marked.slots, p, parent, 0);
    assert(marked.slots[p].children == kids);
    if found is Some {
        let child = (found->0).0;
        if child != parent {
            lemma_forgotten_children(marked.slots, child, parent);
        }
        let c = choose|c: int|
            0 <= c < before.len() && reportable(#[trigger] before[c], processes) && child_matches(
                before[c]->0,
                filter,
                pgid,
            ) && before[c]->0.child == child && before[c]->0.state->status == (found->0).1;
        assert(reportable(before[c], processes));
    }
}

/// Forgetting a process leaves the other children of a parent that keeps its slot as they are.
proof fn lemma_forgotten_children(slots: Seq<SlotModel>, id: ProcId, parent: ProcId)
    requires
        slot_from(slots, parent, 0) is Some,
        id != parent,
    ensures
        slot_from(forgotten(slots, id), parent, 0) == slot_from(slots, parent, 0),
        ({
            let p = slot_from(slots, parent, 0)->0;
            &&& 0 <= p < slots.len()
            &&& forgotten(slots, id)[p].children == without(slots[p].children, id)
            &&& forgotten(slots, id)[p].pgid == slots[p].pgid
        }),
{
    lemma_slot_from(slots, parent, 0);
    lemma_slot_from(slots, id, 0);
    lemma_forgotten_slot(slots, id, parent, 0);
    let gone = retired(slots, id);
    assert(gone[slot_from(slots, parent, 0)->0].children == slots[slot_from(slots, parent, 0)->0].children);
}

proof fn lemma_forgotten_slot(slots: Seq<SlotModel>, id: ProcId, other: ProcId, from: int)
    requires
        0 <= from <= slots.len(),
        id != other,
    ensures
        slot_from(forgotten(slots, id), other, from) == slot_from(slots, other, from),
    decreases slots.len() - from,
{
    lemma_slot_from(slots, id, 0);
    if from < slots.len() {
        lemma_forgotten_slot(slots, id, other, from + 1);
    }
}

/// A wait for a child that ended does not block: it reaps, or fails because the status could not be
/// written.
pub proof fn law_ended_child_ends_the_wait(
    m: TableModel,
    parent: ProcId,
    wait_pid: i64,
    wants_status: bool,
    options: u64,
    status_writable: bool,
    processes: Seq<Process>,
    c: int,
)
    requires
        0 <= c < children_of(m, parent).len(),
        reportable(children_of(m, parent)[c], processes),
        asked_for(wait_pid, children_of(m, parent)[c]->0),
    ensures
        ({
            let action = waited(
                m,
                parent,
                wait_pid,
                wants_status,
                options,
                status_writable,
                processes,
            ).1;
            if wants_status && !status_writable {
                action == WaitAction::Fail(EFAULT)
            } else {
                action is Reaped
            }
        }),
{
    let p = slot_from(m.slots, parent, 0)->0;
    let before = m.slots[p].children;
    let filter = super::wait::wait_filter(wait_pid);
    lemma_zombie_from(before, filter, m.slots[p].pgid, processes, 0);
    assert(child_matches(before[c]->0, filter, m.slots[p].pgid));
    assert(child_matches(before[c]->0, -1i64, m.slots[p].pgid));
}

/// A wait that does not reap: it blocks on the parent's own key only where it may, a child it asks
/// for is there, and none of those can be reported; it gives nothing only where it must not block; and
/// it is `ECHILD` where the parent has no child at all, or, where it may block, none that it asks for.
pub proof fn law_wait_without_an_ended_child(
    m: TableModel,
    parent: ProcId,
    wait_pid: i64,
    wants_status: bool,
    options: u64,
    status_writable: bool,
    processes: Seq<Process>,
    j: int,
)
    requires
        0 <= j < children_of(m, parent).len(),
    ensures
        ({
            let action = waited(
                m,
                parent,
                wait_pid,
                wants_status,
                options,
                status_writable,
                processes,
            ).1;
            let kids = children_of(m, parent);
            match action {
                WaitAction::Reaped { .. } => true,
                WaitAction::NothingYet => options & WNOHANG != 0 && (asked_for(wait_pid, kids[j]->0)
                    ==> !reportable(kids[j], processes)),
                WaitAction::Block(key) => {
                    &&& options & WNOHANG == 0
                    &&& key.0 == ((0x50u64 << 56) | parent.pid)
                    &&& asked_for(wait_pid, kids[j]->0) ==> !reportable(kids[j], processes)
                    &&& exists|k: int|
                        0 <= k < kids.len() && (#[trigger] kids[k]) is Some && asked_for(
                            wait_pid,
                            kids[k]->0,
                        ) && kids[k]->0.state != ChildState::Reaped
                },
                WaitAction::Fail(e) => {
                    ||| e == EFAULT && wants_status && !status_writable
                    ||| e == ECHILD && (kids[j] is Some && kids[j]->0.state == ChildState::Running
                        ==> options & WNOHANG == 0 && !asked_for(wait_pid, kids[j]->0))
                },
            }
        }),
{
    let p = slot_from(m.slots, parent, 0)->0;
    lemma_slot_from(m.slots, parent, 0);
    let before = m.slots[p].children;
    let filter = super::wait::wait_filter(wait_pid);
    let pgid = m.slots[p].pgid;
    lemma_zombie_from(before, filter, pgid, processes, 0);
    let (kids, found) = zombie_from(before, filter, pgid, processes, 0);
    let marked = zombie_found(m, parent, filter, processes).0;
    lemma_slot_kept(m.slots, marked.slots, p, parent, 0);
    assert(marked.slots[p].children == kids);
    if before[j] is Some {
        assert(child_matches(before[j]->0, -1i64, pgid));
        assert(asked_for(wait_pid, before[j]->0) ==> child_matches(before[j]->0, filter, pgid));
    }
    if before[j] is Some && before[j]->0.state == ChildState::Running {
        assert(kids[j] == before[j]);
    }
    if child_awaited(marked, parent, filter) {
        let k = choose|k: int|
            0 <= k < kids.len() && (#[trigger] kids[k]) is Some && child_matches(
                kids[k]->0,
                filter,
                pgid,
            ) && kids[k]->0.state != ChildState::Reaped;
        assert(kids[k] == before[k]);
        assert(before[k] is Some);
    }
}

/// A wait concerns the caller and its child alone: the slot and the children of any other process stay
/// as they are, whatever comes of it.
pub proof fn law_wait_leaves_other_families_alone(
    m: TableModel,
    parent: ProcId,
    wait_pid: i64,
    wants_status: bool,
    options: u64,
    status_writable: bool,
    processes: Seq<Process>,
    other: ProcId,
    j: int,
)
    requires
        other != parent,
        0 <= j < children_of(m, other).len(),
    ensures
        ({
            let (after, action) = waited(
                m,
                parent,
                wait_pid,
                wants_status,
                options,
                status_writable,
                processes,
            );
            let s = slot_from(m.slots, other, 0)->0;
            match action {
                WaitAction::Reaped { pid, .. } => other.pid != pid ==> {
                    &&& slot_from(after.slots, other, 0) == Some(s)
                    &&& after.slots[s].parent == m.slots[s].parent
                    &&& after.slots[s].pgid == m.slots[s].pgid
                    &&& children_of(m, other)[j]->0.child.pid != pid ==> children_of(
                        after,
                        other,
                    )[j] == children_of(m, other)[j]
                },
                _ => slot_from(after.slots, other, 0) == Some(s) && after.slots[s] == m.slots[s],
            }
        }),
{
    let filter = super::wait::wait_filter(wait_pid);
    lemma_slot_from(m.slots, parent, 0);
    lemma_slot_from(m.slots, other, 0);
    let s = slot_from(m.slots, other, 0)->0;
    if slot_from(m.slots, parent, 0) is Some {
        let p = slot_from(m.slots, parent, 0)->0;
        lemma_zombie_from(m.slots[p].children, filter, m.slots[p].pgid, processes, 0);
        let (marked, found) = zombie_found(m, parent, filter, processes);
        lemma_slot_kept(m.slots, marked.slots, p, other, 0);
        assert(marked.slots[s] == m.slots[s]);
        if found is Some && (found->0).0 != other {
            lemma_forgotten_children(marked.slots, (found->0).0, other);
            let gone = forgotten(marked.slots, (found->0).0);
            lemma_slot_from(marked.slots, (found->0).0, 0);
            assert(gone[s].parent == m.slots[s].parent);
        }
    }
}

/// A child is reported once: where no two children have the same pid, a second wait for the pid that
/// was just reaped finds no such child.
pub proof fn law_child_is_waited_for_once(
    m: TableModel,
    parent: ProcId,
    wait_pid: i64,
    wants_status: bool,
    options: u64,
    processes: Seq<Process>,
)
    requires
        wait_pid > 0,
        parent.pid != wait_pid,
        slot_from(m.slots, parent, 0) is Some,
        ({
            let kids = children_of(m, parent);
            forall|a: int, b: int|
                0 <= a < kids.len() && 0 <= b < kids.len() && (#[trigger] kids[a]) is Some && (
                #[trigger] kids[b]) is Some && kids[a]->0.child.pid == kids[b]->0.child.pid ==> a
                    == b
        }),
        waited(m, parent, wait_pid, wants_status, options, true, processes).1 is Reaped,
    ensures
        ({
            let after = waited(m, parent, wait_pid, wants_status, options, true, processes).0;
            let again = waited(after, parent, wait_pid, wants_status, options, true, processes).1;
            again == WaitAction::NothingYet || again == WaitAction::Fail(ECHILD)
        }),
{
    let p = slot_from(m.slots, parent, 0)->0;
    lemma_slot_from(m.slots, parent, 0);
    let before = m.slots[p].children;
    let filter = super::wait::wait_filter(wait_pid);
    let pgid = m.slots[p].pgid;
    lemma_zombie_from(before, filter, pgid, processes, 0);
    let (kids, found) = zombie_from(before, filter, pgid, processes, 0);
    let marked = zombie_found(m, parent, filter, processes).0;
    lemma_slot_kept(m.slots, marked.slots, p, parent, 0);
    let child = (found->0).0;
    let c = choose|c: int|
        0 <= c < before.len() && reportable(#[trigger] before[c], processes) && child_matches(
            before[c]->0,
            filter,
            pgid,
        ) && before[c]->0.child == child && before[c]->0.state->status == (found->0).1;
    assert(before[c] is Some);
    lemma_forgotten_children(marked.slots, child, parent);
    let after = waited(m, parent, wait_pid, wants_status, options, true, processes).0;
    let left = without(kids, child);
    assert(after.slots[p].children == left);
    assert forall|j: int| 0 <= j < left.len() && (#[trigger] left[j]) is Some implies left[j]->0.child.pid
        != wait_pid by {
        assert(before[j] is Some);
        if left[j]->0.child.pid == wait_pid {
            assert(before == children_of(m, parent));
            assert(before[j]->0.child.pid == before[c]->0.child.pid);
            assert(children_of(m, parent)[j] is Some && children_of(m, parent)[c] is Some);
            assert(j == c);
        }
    }
    lemma_zombie_from(left, filter, pgid, processes, 0);
    let (same, none) = zombie_from(left, filter, pgid, processes, 0);
    let seen = zombie_found(after, parent, filter, processes).0;
    lemma_slot_from(after.slots, parent, 0);
    lemma_slot_kept(after.slots, seen.slots, p, parent, 0);
    if none is Some {
        let d = choose|d: int|
            0 <= d < left.len() && reportable(#[trigger] left[d], processes) && child_matches(
                left[d]->0,
                filter,
                pgid,
            ) && left[d]->0.child == (none->0).0 && left[d]->0.state->status == (none->0).1;
        assert(left[d] is Some);
    }
    assert forall|j: int| 0 <= j < same.len() implies same[j] == #[trigger] left[j] by {}
}

/// A child's exit reaches the parent that waits for it, with the status that was published. Until then
/// the same wait has nothing to report, and where it blocks, it does so on the key that the exit wakes.
pub proof fn law_exit_reaches_the_wait(
    m: TableModel,
    id: ProcId,
    parent: ProcId,
    status: i32,
    options: u64,
    processes: Seq<Process>,
    finalize_children: bool,
)
    requires
        0 < id.pid <= i64::MAX,
        parent.pid != 0,
        id != parent,
        slot_from(m.slots, id, 0) is Some,
        m.slots[slot_from(m.slots, id, 0)->0].parent == parent,
        slot_from(m.slots, parent, 0) is Some,
        child_from(children_of(m, parent), id, 0) is Some,
        children_of(m, parent)[child_from(children_of(m, parent), id, 0)->0]->0.state
            == ChildState::Running,
        forall|j: int|
            0 <= j < children_of(m, parent).len() && j != child_from(
                children_of(m, parent),
                id,
                0,
            )->0 && (#[trigger] children_of(m, parent)[j]) is Some ==> children_of(
                m,
                parent,
            )[j]->0.child.pid != id.pid,
        forall|j: int|
            0 <= j < children_of(m, id).len() ==> (#[trigger] children_of(m, id)[j]) is None,
        !superseded(processes, id),
    ensures
        ({
            let after = exit_recorded(m, id, status, finalize_children);
            &&& waited(after, parent, id.pid as i64, true, options, true, processes).1 == (
            WaitAction::Reaped { pid: id.pid, status: Some(status) })
            &&& !(waited(m, parent, id.pid as i64, true, options, true, processes).1 is Reaped)
            &&& waited(m, parent, id.pid as i64, true, options, true, processes).1 matches WaitAction::Block(
                key,
            ) ==> key == parent_key(m, id)
        }),
{
    let p = slot_from(m.slots, parent, 0)->0;
    let s = slot_from(m.slots, id, 0)->0;
    lemma_slot_from(m.slots, parent, 0);
    lemma_slot_from(m.slots, id, 0);
    let kids = m.slots[p].children;
    lemma_child_from(kids, id, 0);
    let c = child_from(kids, id, 0)->0;
    let told = exit_published(m, id, status);
    lemma_slot_kept(m.slots, told.slots, p, parent, 0);
    lemma_slot_kept(m.slots, told.slots, p, id, 0);
    let own = told.slots[s].children;
    assert(own == children_of(m, id));
    assert forall|j: int| 0 <= j < own.len() implies (#[trigger] own[j]) is None by {
        assert(children_of(m, id)[j] is None);
    }
    super::table::lemma_none_finalized(told, own, 0);
    let after = exit_recorded(m, id, status, finalize_children);
    assert(after.slots == retired(told.slots, id));
    lemma_retired_slot(told.slots, id, parent, 0);
    lemma_slot_from(after.slots, id, 0);
    assert(after.slots[p].children == told.slots[p].children);
    let now = after.slots[p].children;
    let wait_pid = id.pid as i64;
    lemma_zombie_from(now, wait_pid, m.slots[p].pgid, processes, 0);
    lemma_zombie_from(kids, wait_pid, m.slots[p].pgid, processes, 0);
    assert(reportable(now[c], processes));
    assert(child_matches(now[c]->0, wait_pid, m.slots[p].pgid));
    assert(child_matches(now[c]->0, -1i64, m.slots[p].pgid));
    assert forall|j: int| 0 <= j < now.len() && j != c implies now[j] == #[trigger] kids[j] by {}
    law_wait_reaps_whom_it_asks_for(after, parent, wait_pid, true, options, true, processes, c);
    law_ended_child_ends_the_wait(after, parent, wait_pid, true, options, true, processes, c);
    let action = waited(after, parent, wait_pid, true, options, true, processes).1;
    let d = choose|d: int|
        0 <= d < now.len() && reportable(#[trigger] now[d], processes) && now[d]->0.child.pid
            == id.pid && action->status == Some(now[d]->0.state->status);
    assert(d == c) by {
        if d != c {
            assert(now[d] == kids[d]);
            assert(kids[d] is Some);
        }
    }
    if waited(m, parent, wait_pid, true, options, true, processes).1 is Reaped {
        law_wait_reaps_whom_it_asks_for(m, parent, wait_pid, true, options, true, processes, c);
        let e = choose|e: int|
            0 <= e < kids.len() && reportable(#[trigger] kids[e], processes)
                && kids[e]->0.child.pid == id.pid && waited(
                m,
                parent,
                wait_pid,
                true,
                options,
                true,
                processes,
            ).1->status == Some(kids[e]->0.state->status);
        assert(kids[e] is Some);
        assert(e == c);
    }
}

proof fn lemma_retired_slot(slots: Seq<SlotModel>, id: ProcId, other: ProcId, from: int)
    requires
        0 <= from <= slots.len(),
        id != other,
    ensures
        slot_from(retired(slots, id), other, from) == slot_from(slots, other, from),
    decreases slots.len() - from,
{
    lemma_slot_from(slots, id, 0);
    if from < slots.len() {
        lemma_retired_slot(slots, id, other, from + 1);
    }
}

/// A child that was registered belongs to its parent: its slot names the parent and has the parent's
/// group, the parent records it once, as running, and the parent's other children stay.
pub proof fn law_registered_child_is_running(m: TableModel, id: ProcId, parent: ProcId, j: int)
    requires
        parent.pid != 0,
        parent != id,
        registered(m, id, parent).1 is Ok,
        0 <= j < children_of(m, parent).len(),
    ensures
        ({
            let after = registered(m, id, parent).0;
            let s = slot_from(after.slots, id, 0)->0;
            let c = place_from(children_of(m, parent), 0)->0;
            let now = children_of(after, parent);
            &&& slot_from(m.slots, id, 0) is None
            &&& slot_from(after.slots, id, 0) is Some
            &&& after.slots[s].parent == parent
            &&& after.slots[s].pgid == m.slots[slot_from(m.slots, parent, 0)->0].pgid
            &&& now.len() == children_of(m, parent).len()
            &&& 0 <= c < now.len() && children_of(m, parent)[c] is None
            &&& now[c] is Some && now[c]->0.child == id && now[c]->0.state == ChildState::Running
            &&& j != c ==> now[j] == children_of(m, parent)[j]
        }),
{
    let free = unused_from(m.slots, 0)->0;
    lemma_unused_from(m.slots, 0);
    lemma_slot_from(m.slots, id, 0);
    let p = slot_from(m.slots, parent, 0)->0;
    lemma_slot_from(m.slots, parent, 0);
    lemma_place_from(m.slots[p].children, 0);
    let after = registered(m, id, parent).0;
    let held = m.slots.update(free, after.slots[free]);
    lemma_slot_filled(m.slots, held, free, parent, 0);
    lemma_slot_kept(held, after.slots, p, parent, 0);
    lemma_slot_from(after.slots, id, 0);
    assert(after.slots[free].live && after.slots[free].id == id);
    let s = slot_from(after.slots, id, 0)->0;
    if s != free {
        if s == p {
        } else {
            assert(after.slots[s] == m.slots[s]);
        }
    }
}

/// A child's parent is the one it was registered with, as long as that one is there; a process whose parent
/// is gone is a child of the first process that was registered.
pub proof fn law_parent_is_the_registered_one(m: TableModel, id: ProcId, parent: ProcId)
    requires
        parent.pid != 0,
        parent != id,
        registered(m, id, parent).1 is Ok,
        children_of(m, parent).len() > 0,
    ensures
        ppid_of(registered(m, id, parent).0, id) == parent.pid,
        ({
            let after = registered(m, id, parent).0;
            let left = TableModel { slots: retired(after.slots, parent), ..after };
            let first = if m.init_pid == 0 {
                id.pid
            } else {
                m.init_pid
            };
            slot_from(left.slots, parent, 0) is None ==> {
                &&& first >= 1 ==> ppid_of(left, id) == first
                &&& first == 0 ==> ppid_of(left, id) == 1
            }
        }),
{
    law_registered_child_is_running(m, id, parent, 0);
    let after = registered(m, id, parent).0;
    lemma_slot_from(m.slots, parent, 0);
    lemma_unused_from(m.slots, 0);
    let free = unused_from(m.slots, 0)->0;
    let p = slot_from(m.slots, parent, 0)->0;
    let held = m.slots.update(free, after.slots[free]);
    lemma_slot_filled(m.slots, held, free, parent, 0);
    lemma_slot_kept(held, after.slots, p, parent, 0);
    lemma_slot_from(after.slots, parent, 0);
    lemma_retired_slot(after.slots, parent, id, 0);
    lemma_slot_from(after.slots, id, 0);
}

proof fn lemma_place_from(children: Seq<Option<ChildSlot>>, from: int)
    requires
        0 <= from <= children.len(),
    ensures
        match place_from(children, from) {
            Some(c) => from <= c < children.len() && children[c] is None,
            None => true,
        },
    decreases children.len() - from,
{
    if from < children.len() && children[from] is Some {
        lemma_place_from(children, from + 1);
    }
}

/// A wait status tells how a process ended: an exit keeps the low byte of its code, and a signal its
/// number, and neither looks like the other.
pub proof fn law_status_tells_how_it_ended(code: u32, signal: u32)
    ensures
        exit_code_status(code) as int / 256 == code as int % 256,
        exit_code_status(code) as int % 256 == 0,
        signalled_status(signal) as int == signal as int % 128,
        signal % 128 != 0 ==> signalled_status(signal) != exit_code_status(code),
{
}

/// A slot whose pid no process has any more is given up; every other one stays.
pub proof fn law_slots_of_the_gone_are_given_up(slots: Seq<SlotModel>, processes: Seq<Process>, i: int)
    requires
        0 <= i < slots.len(),
    ensures
        ({
            let after = stale_retired(slots, processes);
            let there = process_from(processes, slots[i].id.pid, 0) is Some;
            &&& after.len() == slots.len()
            &&& there ==> after[i] == slots[i]
            &&& !there ==> !after[i].live
            &&& slot_from(after, slots[i].id, 0) is Some ==> there
        }),
{
    let after = stale_retired(slots, processes);
    lemma_slot_from(after, slots[i].id, 0);
}

/// Every live slot is that of another process.
pub open spec fn slots_apart(slots: Seq<SlotModel>) -> bool {
    forall|a: int, b: int|
        0 <= a < slots.len() && 0 <= b < slots.len() && (#[trigger] slots[a]).live && (
        #[trigger] slots[b]).live && slots[a].id == slots[b].id ==> a == b
}

proof fn lemma_gone_with_its_slot(slots: Seq<SlotModel>, id: ProcId, other: ProcId)
    requires
        slots_apart(slots),
    ensures
        slots_apart(forgotten(slots, id)),
        slot_from(forgotten(slots, id), id, 0) is None,
        slot_from(slots, other, 0) is None ==> slot_from(forgotten(slots, id), other, 0) is None,
{
    let after = forgotten(slots, id);
    lemma_slot_from(slots, id, 0);
    lemma_slot_from(after, id, 0);
    lemma_slot_from(slots, other, 0);
    lemma_slot_from(after, other, 0);
    assert forall|a: int, b: int|
        0 <= a < after.len() && 0 <= b < after.len() && (#[trigger] after[a]).live && (
        #[trigger] after[b]).live && after[a].id == after[b].id implies a == b by {
        assert(slots[a].live && slots[b].live);
    }
    if let Some(k) = slot_from(after, id, 0) {
        assert(slots[k].live && slots[k].id == id);
        let i = slot_from(slots, id, 0)->0;
        assert(slots[i].live);
        assert(k == i);
    }
    if let Some(k) = slot_from(after, other, 0) {
        assert(slots[k].live && slots[k].id == other);
    }
}

proof fn lemma_stays_forgotten(m: TableModel, children: Seq<Option<ChildSlot>>, from: int, id: ProcId)
    requires
        slots_apart(m.slots),
        0 <= from <= children.len(),
        slot_from(m.slots, id, 0) is None,
    ensures
        slot_from(children_finalized(m, children, from).slots, id, 0) is None,
    decreases children.len() - from,
{
    if from < children.len() {
        if children[from] is Some && children[from]->0.state != ChildState::Reaped {
            let c = children[from]->0.child;
            lemma_gone_with_its_slot(m.slots, c, id);
            lemma_stays_forgotten(
                TableModel { slots: forgotten(m.slots, c), ..m },
                children,
                from + 1,
                id,
            );
        } else {
            lemma_stays_forgotten(m, children, from + 1, id);
        }
    }
}

/// When a parent ends, each child that nobody has waited for loses its slot.
pub proof fn law_children_go_with_their_parent(
    m: TableModel,
    children: Seq<Option<ChildSlot>>,
    from: int,
    k: int,
)
    requires
        slots_apart(m.slots),
        0 <= from <= k < children.len(),
        children[k] is Some,
        children[k]->0.state != ChildState::Reaped,
    ensures
        slot_from(children_finalized(m, children, from).slots, children[k]->0.child, 0) is None,
    decreases children.len() - from,
{
    let goes = children[from] is Some && children[from]->0.state != ChildState::Reaped;
    let next = if goes {
        TableModel { slots: forgotten(m.slots, children[from]->0.child), ..m }
    } else {
        m
    };
    if goes {
        lemma_gone_with_its_slot(m.slots, children[from]->0.child, children[k]->0.child);
    }
    if from == k {
        lemma_stays_forgotten(next, children, from + 1, children[k]->0.child);
    } else {
        law_children_go_with_their_parent(next, children, from + 1, k);
    }
}

} // verus!
