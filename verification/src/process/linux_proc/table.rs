//! Who is whose parent, keyed by pid and generation, and how children ended.

use crate::abi::{
    exit_code_status, signalled_status, w_exitcode, w_signalled_status, LinuxErrno, EINVAL,
};
use crate::process::lifecycle::{generation_of, process_from, Process, ProcessRegistry};
use crate::process::InstanceGeneration;
use crate::scan::{count, lemma_count_step, lemma_count_whole};
use vstd::prelude::*;

verus! {

pub const LINUX_MAX_PROC_ENTRIES: usize = 6;

pub const LINUX_PROC_MAX_CHILDREN_PER_PARENT: usize = 4;

#[derive(Clone, Copy, Debug, PartialEq, Eq, Structural)]
pub struct ProcId {
    pub pid: u64,
    pub generation: InstanceGeneration,
}

/// The parent of a process that was launched, not forked.
pub open spec fn no_parent() -> ProcId {
    ProcId { pid: 0, generation: InstanceGeneration(0) }
}

#[derive(Clone, Copy, Debug, PartialEq, Eq, Structural)]
pub enum ChildState {
    Running,
    Zombie { status: i32 },
    Reaped,
}

#[derive(Clone, Copy, Debug, PartialEq, Eq, Structural)]
pub struct ChildSlot {
    pub child: ProcId,
    /// Process group at registration; it stays after the child's own slot is retired.
    pub pgid: u64,
    pub state: ChildState,
}

#[derive(Clone, Copy, Debug)]
pub struct ProcSlot {
    pub live: bool,
    pub id: ProcId,
    pub parent: ProcId,
    /// Process group: one for each launched tree, inherited by children.
    pub pgid: u64,
    pub children: [Option<ChildSlot>; LINUX_PROC_MAX_CHILDREN_PER_PARENT],
}

#[derive(Clone, Copy, Debug)]
pub struct LinuxProcessTable {
    pub slots: [ProcSlot; LINUX_MAX_PROC_ENTRIES],
    pub init_pid: u64,
    /// How many exits found a parent and child that did not know of each other.
    pub invariant_violations: u32,
}

#[verifier::ext_equal]
pub struct SlotModel {
    pub live: bool,
    pub id: ProcId,
    pub parent: ProcId,
    pub pgid: u64,
    pub children: Seq<Option<ChildSlot>>,
}

#[verifier::ext_equal]
pub struct TableModel {
    pub slots: Seq<SlotModel>,
    pub init_pid: u64,
    pub invariant_violations: u32,
}

impl ProcSlot {
    pub open spec fn model(&self) -> SlotModel {
        SlotModel {
            live: self.live,
            id: self.id,
            parent: self.parent,
            pgid: self.pgid,
            children: self.children@,
        }
    }
}

/// A slot that was never used.
pub open spec fn empty_slot() -> SlotModel {
    SlotModel {
        live: false,
        id: no_parent(),
        parent: no_parent(),
        pgid: 0,
        children: seq![None, None, None, None],
    }
}

/// The first slot at or above `from` that the process holds.
pub open spec fn slot_from(slots: Seq<SlotModel>, id: ProcId, from: int) -> Option<int>
    decreases slots.len() - from,
{
    if from < 0 || from >= slots.len() {
        None
    } else if slots[from].live && slots[from].id == id {
        Some(from)
    } else {
        slot_from(slots, id, from + 1)
    }
}

/// The first slot at or above `from` that no process holds.
pub open spec fn unused_from(slots: Seq<SlotModel>, from: int) -> Option<int>
    decreases slots.len() - from,
{
    if from < 0 || from >= slots.len() {
        None
    } else if !slots[from].live {
        Some(from)
    } else {
        unused_from(slots, from + 1)
    }
}

/// The first place at or above `from` without a child.
pub open spec fn place_from(children: Seq<Option<ChildSlot>>, from: int) -> Option<int>
    decreases children.len() - from,
{
    if from < 0 || from >= children.len() {
        None
    } else if children[from] is None {
        Some(from)
    } else {
        place_from(children, from + 1)
    }
}

/// The first place at or above `from` of a child.
pub open spec fn child_from(children: Seq<Option<ChildSlot>>, id: ProcId, from: int) -> Option<int>
    decreases children.len() - from,
{
    if from < 0 || from >= children.len() {
        None
    } else if children[from] is Some && children[from]->0.child == id {
        Some(from)
    } else {
        child_from(children, id, from + 1)
    }
}

/// The table and the result of registering a process under a parent. A parent without room for the
/// child leaves the child registered.
pub open spec fn registered(m: TableModel, id: ProcId, parent: ProcId) -> (
    TableModel,
    Result<(), &'static str>,
) {
    if slot_from(m.slots, id, 0) is Some {
        (m, Err("linux proc already registered"))
    } else if unused_from(m.slots, 0) is None {
        (m, Err("linux proc table full"))
    } else {
        let free = unused_from(m.slots, 0)->0;
        let init_pid = if m.init_pid == 0 {
            id.pid
        } else {
            m.init_pid
        };
        if parent.pid == 0 {
            (
                TableModel {
                    slots: m.slots.update(free, fresh_slot(id, parent, id.pid)),
                    init_pid,
                    ..m
                },
                Ok(()),
            )
        } else {
            match slot_from(m.slots, parent, 0) {
                None => (m, Err("linux proc parent missing")),
                Some(p) => {
                    let pgid = m.slots[p].pgid;
                    let held = m.slots.update(free, fresh_slot(id, parent, pgid));
                    match place_from(m.slots[p].children, 0) {
                        None => (
                            TableModel { slots: held, ..m },
                            Err("linux proc child capacity exceeded"),
                        ),
                        Some(c) => (
                            TableModel {
                                slots: held.update(
                                    p,
                                    with_child(
                                        m.slots[p],
                                        c,
                                        Some(
                                            ChildSlot { child: id, pgid, state: ChildState::Running },
                                        ),
                                    ),
                                ),
                                init_pid,
                                ..m
                            },
                            Ok(()),
                        ),
                    }
                },
            }
        }
    }
}

/// A slot with one child changed.
pub open spec fn with_child(slot: SlotModel, place: int, child: Option<ChildSlot>) -> SlotModel {
    SlotModel { children: slot.children.update(place, child), ..slot }
}

pub open spec fn fresh_slot(id: ProcId, parent: ProcId, pgid: u64) -> SlotModel {
    SlotModel { live: true, id, parent, pgid, children: seq![None, None, None, None] }
}

/// The slots after a process gave its own up.
pub open spec fn retired(slots: Seq<SlotModel>, id: ProcId) -> Seq<SlotModel> {
    match slot_from(slots, id, 0) {
        Some(i) => slots.update(i, SlotModel { live: false, ..slots[i] }),
        None => slots,
    }
}

/// The children without one of them.
pub open spec fn without(children: Seq<Option<ChildSlot>>, id: ProcId) -> Seq<Option<ChildSlot>> {
    Seq::new(
        children.len(),
        |j: int|
            if children[j] is Some && children[j]->0.child == id {
                None
            } else {
                children[j]
            },
    )
}

/// The slots after a process gave its own up and every parent forgot it.
pub open spec fn forgotten(slots: Seq<SlotModel>, id: ProcId) -> Seq<SlotModel> {
    let gone = retired(slots, id);
    Seq::new(
        gone.len(),
        |i: int| SlotModel { children: without(gone[i].children, id), ..gone[i] },
    )
}

/// The table after a process's exit was published.
pub open spec fn exit_published(m: TableModel, id: ProcId, status: i32) -> TableModel {
    let broken = TableModel {
        slots: forgotten(m.slots, id),
        invariant_violations: m.invariant_violations.wrapping_add(1),
        ..m
    };
    match slot_from(m.slots, id, 0) {
        None => broken,
        Some(s) => {
            let parent = m.slots[s].parent;
            if parent.pid == 0 {
                TableModel { slots: forgotten(m.slots, id), ..m }
            } else {
                match slot_from(m.slots, parent, 0) {
                    None => broken,
                    Some(p) => match child_from(m.slots[p].children, id, 0) {
                        None => broken,
                        Some(c) => TableModel {
                            slots: m.slots.update(
                                p,
                                with_child(
                                    m.slots[p],
                                    c,
                                    Some(
                                        ChildSlot {
                                            state: ChildState::Zombie { status },
                                            ..m.slots[p].children[c]->0
                                        },
                                    ),
                                ),
                            ),
                            ..m
                        },
                    },
                }
            }
        },
    }
}

/// Whether a child is one that a wait asks for: any, one of the parent's group, one of a group, or
/// one pid.
pub open spec fn child_matches(entry: ChildSlot, wait_pid: i64, parent_pgid: u64) -> bool {
    if wait_pid == -1 {
        true
    } else if wait_pid == 0 {
        entry.pgid == parent_pgid
    } else if wait_pid < -1 {
        entry.pgid == -wait_pid
    } else {
        entry.child.pid == wait_pid
    }
}

/// Whether another process has the pid of a child by now.
pub open spec fn superseded(processes: Seq<Process>, child: ProcId) -> bool {
    match generation_of(processes, child.pid) {
        Some(generation) => generation != child.generation,
        None => false,
    }
}

/// Looks for a zombie from place `from` on. It, and zombies whose pid another process has by now, are
/// marked as reaped.
pub open spec fn zombie_from(
    children: Seq<Option<ChildSlot>>,
    wait_pid: i64,
    parent_pgid: u64,
    processes: Seq<Process>,
    from: int,
) -> (Seq<Option<ChildSlot>>, Option<(ProcId, i32)>)
    decreases children.len() - from,
{
    if from < 0 || from >= children.len() {
        (children, None)
    } else if children[from] is Some && child_matches(children[from]->0, wait_pid, parent_pgid)
        && children[from]->0.state is Zombie {
        let entry = children[from]->0;
        let marked = children.update(
            from,
            Some(ChildSlot { state: ChildState::Reaped, ..entry }),
        );
        if superseded(processes, entry.child) {
            zombie_from(marked, wait_pid, parent_pgid, processes, from + 1)
        } else {
            (marked, Some((entry.child, entry.state->status)))
        }
    } else {
        zombie_from(children, wait_pid, parent_pgid, processes, from + 1)
    }
}

/// The result of looking for a zombie of a parent.
pub open spec fn zombie_found(
    m: TableModel,
    parent: ProcId,
    wait_pid: i64,
    processes: Seq<Process>,
) -> (TableModel, Option<(ProcId, i32)>) {
    match slot_from(m.slots, parent, 0) {
        None => (m, None),
        Some(p) => {
            let (children, found) = zombie_from(
                m.slots[p].children,
                wait_pid,
                m.slots[p].pgid,
                processes,
                0,
            );
            (
                TableModel {
                    slots: m.slots.update(p, SlotModel { children, ..m.slots[p] }),
                    ..m
                },
                found,
            )
        },
    }
}

/// Whether a parent has a child that a wait asks for and that was not reaped.
pub open spec fn child_awaited(m: TableModel, parent: ProcId, wait_pid: i64) -> bool {
    match slot_from(m.slots, parent, 0) {
        None => false,
        Some(p) => exists|j: int|
            0 <= j < m.slots[p].children.len() && (#[trigger] m.slots[p].children[j]) is Some
                && child_matches(m.slots[p].children[j]->0, wait_pid, m.slots[p].pgid)
                && m.slots[p].children[j]->0.state != ChildState::Reaped,
    }
}

/// The table after the children of a process, from place `from` on, were forgotten.
pub open spec fn children_finalized(
    m: TableModel,
    children: Seq<Option<ChildSlot>>,
    from: int,
) -> TableModel
    decreases children.len() - from,
{
    if from < 0 || from >= children.len() {
        m
    } else if children[from] is Some && children[from]->0.state != ChildState::Reaped {
        children_finalized(
            TableModel { slots: forgotten(m.slots, children[from]->0.child), ..m },
            children,
            from + 1,
        )
    } else {
        children_finalized(m, children, from + 1)
    }
}

/// The pid of a process's parent; of the first process where the parent is gone.
pub open spec fn ppid_of(m: TableModel, id: ProcId) -> u64 {
    let orphan = if m.init_pid > 1 {
        m.init_pid
    } else {
        1
    };
    match slot_from(m.slots, id, 0) {
        Some(i) => if slot_from(m.slots, m.slots[i].parent, 0) is Some {
            m.slots[i].parent.pid
        } else {
            orphan
        },
        None => orphan,
    }
}

impl LinuxProcessTable {
    pub open spec fn model(&self) -> TableModel {
        TableModel {
            slots: Seq::new(LINUX_MAX_PROC_ENTRIES as nat, |i: int| self.slots@[i].model()),
            init_pid: self.init_pid,
            invariant_violations: self.invariant_violations,
        }
    }

    pub fn new() -> (r: LinuxProcessTable)
        ensures
            r.init_pid == 0,
            r.invariant_violations == 0,
            forall|i: int|
                0 <= i < LINUX_MAX_PROC_ENTRIES ==> #[trigger] r.model().slots[i] == empty_slot(),
    {
        let none = ProcId { pid: 0, generation: InstanceGeneration(0) };
        let slot = ProcSlot {
            live: false,
            id: none,
            parent: none,
            pgid: 0,
            children: [None, None, None, None],
        };
        assert(slot.model() =~= empty_slot());
        LinuxProcessTable {
            slots: [slot, slot, slot, slot, slot, slot],
            init_pid: 0,
            invariant_violations: 0,
        }
    }

    fn slot_index(&self, id: ProcId) -> (r: Option<usize>)
        ensures
            match slot_from(self.model().slots, id, 0) {
                Some(i) => r is Some && r->0 == i && i < LINUX_MAX_PROC_ENTRIES,
                None => r is None,
            },
    {
        let mut i: usize = 0;
        while i < LINUX_MAX_PROC_ENTRIES
            invariant
                0 <= i <= LINUX_MAX_PROC_ENTRIES,
                slot_from(self.model().slots, id, 0) == slot_from(
                    self.model().slots,
                    id,
                    i as int,
                ),
            decreases LINUX_MAX_PROC_ENTRIES - i,
        {
            if self.slots[i].live && self.slots[i].id == id {
                return Some(i);
            }
            i += 1;
        }
        None
    }

    fn unused_index(&self) -> (r: Option<usize>)
        ensures
            match unused_from(self.model().slots, 0) {
                Some(i) => r is Some && r->0 == i && i < LINUX_MAX_PROC_ENTRIES,
                None => r is None,
            },
    {
        let mut i: usize = 0;
        while i < LINUX_MAX_PROC_ENTRIES
            invariant
                0 <= i <= LINUX_MAX_PROC_ENTRIES,
                unused_from(self.model().slots, 0) == unused_from(self.model().slots, i as int),
            decreases LINUX_MAX_PROC_ENTRIES - i,
        {
            if !self.slots[i].live {
                return Some(i);
            }
            i += 1;
        }
        None
    }

    fn place_index(&self, slot: usize) -> (r: Option<usize>)
        requires
            slot < LINUX_MAX_PROC_ENTRIES,
        ensures
            match place_from(self.slots@[slot as int].children@, 0) {
                Some(i) => r is Some && r->0 == i && i < LINUX_PROC_MAX_CHILDREN_PER_PARENT,
                None => r is None,
            },
    {
        let children = self.slots[slot].children;
        let mut i: usize = 0;
        while i < LINUX_PROC_MAX_CHILDREN_PER_PARENT
            invariant
                0 <= i <= LINUX_PROC_MAX_CHILDREN_PER_PARENT,
                slot < LINUX_MAX_PROC_ENTRIES,
                children == self.slots@[slot as int].children,
                place_from(children@, 0) == place_from(children@, i as int),
            decreases LINUX_PROC_MAX_CHILDREN_PER_PARENT - i,
        {
            if children[i].is_none() {
                return Some(i);
            }
            i += 1;
        }
        None
    }

    fn child_index(&self, slot: usize, id: ProcId) -> (r: Option<usize>)
        requires
            slot < LINUX_MAX_PROC_ENTRIES,
        ensures
            match child_from(self.slots@[slot as int].children@, id, 0) {
                Some(i) => r is Some && r->0 == i && i < LINUX_PROC_MAX_CHILDREN_PER_PARENT
                    && self.slots@[slot as int].children@[i] is Some,
                None => r is None,
            },
    {
        let children = self.slots[slot].children;
        let mut i: usize = 0;
        while i < LINUX_PROC_MAX_CHILDREN_PER_PARENT
            invariant
                0 <= i <= LINUX_PROC_MAX_CHILDREN_PER_PARENT,
                slot < LINUX_MAX_PROC_ENTRIES,
                children == self.slots@[slot as int].children,
                child_from(children@, id, 0) == child_from(children@, id, i as int),
            decreases LINUX_PROC_MAX_CHILDREN_PER_PARENT - i,
        {
            match children[i] {
                Some(entry) => {
                    if entry.child == id {
                        return Some(i);
                    }
                },
                None => {},
            }
            i += 1;
        }
        None
    }

    /// Changes one child of a slot.
    fn set_child(&mut self, slot: usize, place: usize, child: Option<ChildSlot>)
        requires
            slot < LINUX_MAX_PROC_ENTRIES,
            place < LINUX_PROC_MAX_CHILDREN_PER_PARENT,
        ensures
            final(self).model() == (TableModel {
                slots: old(self).model().slots.update(
                    slot as int,
                    with_child(old(self).model().slots[slot as int], place as int, child),
                ),
                ..old(self).model()
            }),
    {
        let mut children = self.slots[slot].children;
        children[place] = child;
        self.set_children(slot, children);
        assert(self.model().slots[slot as int].children =~= with_child(
            old(self).model().slots[slot as int],
            place as int,
            child,
        ).children);
        assert(self.model() =~~= (TableModel {
            slots: old(self).model().slots.update(
                slot as int,
                with_child(old(self).model().slots[slot as int], place as int, child),
            ),
            ..old(self).model()
        }));
    }

    fn set_children(
        &mut self,
        slot: usize,
        children: [Option<ChildSlot>; LINUX_PROC_MAX_CHILDREN_PER_PARENT],
    )
        requires
            slot < LINUX_MAX_PROC_ENTRIES,
        ensures
            final(self).model() == (TableModel {
                slots: old(self).model().slots.update(
                    slot as int,
                    SlotModel {
                        children: children@,
                        ..old(self).model().slots[slot as int]
                    },
                ),
                ..old(self).model()
            }),
    {
        let before = self.slots[slot];
        self.slots[slot] = ProcSlot { children, ..before };
        assert(self.model() =~~= (TableModel {
            slots: old(self).model().slots.update(
                slot as int,
                SlotModel { children: children@, ..old(self).model().slots[slot as int] },
            ),
            ..old(self).model()
        }));
    }

    /// Registers a process under its parent; a pid of zero stands for no parent.
    pub fn register(&mut self, id: ProcId, parent: ProcId) -> (r: Result<(), &'static str>)
        ensures
            (final(self).model(), r) == registered(old(self).model(), id, parent),
    {
        if self.slot_index(id).is_some() {
            return Err("linux proc already registered");
        }
        let free: usize = match self.unused_index() {
            Some(free) => free,
            None => return Err("linux proc table full"),
        };
        let pgid: u64 = if parent.pid == 0 {
            id.pid
        } else {
            match self.slot_index(parent) {
                Some(p) => self.slots[p].pgid,
                None => return Err("linux proc parent missing"),
            }
        };
        let ghost before = self.model();
        proof {
            lemma_unused_from(before.slots, 0);
            lemma_slot_from(before.slots, parent, 0);
        }
        self.slots[free] = ProcSlot {
            live: true,
            id,
            parent,
            pgid,
            children: [None, None, None, None],
        };
        let ghost held = before.slots.update(free as int, fresh_slot(id, parent, pgid));
        assert(self.slots@[free as int].model() =~= fresh_slot(id, parent, pgid));
        assert(self.model() =~~= (TableModel { slots: held, ..before }));
        if parent.pid != 0 {
            proof {
                lemma_slot_filled(before.slots, held, free as int, parent, 0);
            }
            let p: usize = match self.slot_index(parent) {
                Some(p) => p,
                None => return Err("linux proc parent missing"),
            };
            let place: usize = match self.place_index(p) {
                Some(place) => place,
                None => return Err("linux proc child capacity exceeded"),
            };
            self.set_child(
                p,
                place,
                Some(ChildSlot { child: id, pgid, state: ChildState::Running }),
            );
        }
        if self.init_pid == 0 {
            self.init_pid = id.pid;
        }
        Ok(())
    }

    /// Forgets the children of a process that are not reaped yet.
    pub fn finalize_children_on_parent_exit(&mut self, parent: ProcId)
        ensures
            final(self).model() == match slot_from(old(self).model().slots, parent, 0) {
                None => old(self).model(),
                Some(p) => children_finalized(
                    old(self).model(),
                    old(self).model().slots[p].children,
                    0,
                ),
            },
    {
        let p: usize = match self.slot_index(parent) {
            Some(p) => p,
            None => return,
        };
        let children = self.slots[p].children;
        let mut i: usize = 0;
        while i < LINUX_PROC_MAX_CHILDREN_PER_PARENT
            invariant
                0 <= i <= LINUX_PROC_MAX_CHILDREN_PER_PARENT,
                children_finalized(old(self).model(), children@, 0) == children_finalized(
                    self.model(),
                    children@,
                    i as int,
                ),
            decreases LINUX_PROC_MAX_CHILDREN_PER_PARENT - i,
        {
            match children[i] {
                Some(entry) => {
                    if entry.state != ChildState::Reaped {
                        self.reap_zombie(entry.child);
                    }
                },
                None => {},
            }
            i += 1;
        }
    }

    /// Publishes how a process ended: its parent sees a zombie. Without a parent, or where parent and
    /// child do not know of each other, it is forgotten at once.
    pub fn publish_exit(&mut self, id: ProcId, status: i32)
        ensures
            final(self).model() == exit_published(old(self).model(), id, status),
    {
        match self.parent_of(id) {
            Some(parent) => {
                if parent.pid == 0 {
                    self.reap_zombie(id);
                    return;
                }
                match self.slot_index(parent) {
                    Some(p) => match self.child_index(p, id) {
                        Some(c) => {
                            match self.slots[p].children[c] {
                                Some(entry) => {
                                    self.set_child(
                                        p,
                                        c,
                                        Some(
                                            ChildSlot {
                                                state: ChildState::Zombie { status },
                                                ..entry
                                            },
                                        ),
                                    );
                                },
                                None => {},
                            }
                            return;
                        },
                        None => {},
                    },
                    None => {},
                }
            },
            None => {},
        }
        self.invariant_violations = self.invariant_violations.wrapping_add(1);
        assert(self.model().slots =~= old(self).model().slots);
        self.reap_zombie(id);
    }

    pub fn parent_of(&self, id: ProcId) -> (r: Option<ProcId>)
        ensures
            r == match slot_from(self.model().slots, id, 0) {
                Some(i) => Some(self.model().slots[i].parent),
                None => None,
            },
    {
        match self.slot_index(id) {
            Some(i) => Some(self.slots[i].parent),
            None => None,
        }
    }

    /// The pid of a process's parent; of the first process where the parent is gone.
    pub fn getppid(&self, id: ProcId) -> (r: u64)
        ensures
            r == ppid_of(self.model(), id),
    {
        match self.parent_of(id) {
            Some(parent) => {
                if self.slot_index(parent).is_some() {
                    return parent.pid;
                }
            },
            None => {},
        }
        if self.init_pid > 1 {
            self.init_pid
        } else {
            1
        }
    }

    /// Takes a zombie that a wait asks for. It stays recorded, as reaped.
    pub fn find_zombie_child(
        &mut self,
        parent: ProcId,
        wait_pid: i64,
        registry: &ProcessRegistry,
    ) -> (r: Option<(ProcId, i32)>)
        requires
            wait_pid != i64::MIN,
        ensures
            (final(self).model(), r) == zombie_found(
                old(self).model(),
                parent,
                wait_pid,
                registry.processes@,
            ),
    {
        let p: usize = match self.slot_index(parent) {
            Some(p) => p,
            None => return None,
        };
        let pgid: u64 = self.slots[p].pgid;
        let first = self.slots[p].children;
        let mut children = first;
        let mut i: usize = 0;
        while i < LINUX_PROC_MAX_CHILDREN_PER_PARENT
            invariant
                0 <= i <= LINUX_PROC_MAX_CHILDREN_PER_PARENT,
                p < LINUX_MAX_PROC_ENTRIES,
                wait_pid != i64::MIN,
                *self == *old(self),
                slot_from(old(self).model().slots, parent, 0) == Some(p as int),
                pgid == old(self).model().slots[p as int].pgid,
                first@ == old(self).model().slots[p as int].children,
                zombie_from(first@, wait_pid, pgid, registry.processes@, 0) == zombie_from(
                    children@,
                    wait_pid,
                    pgid,
                    registry.processes@,
                    i as int,
                ),
            decreases LINUX_PROC_MAX_CHILDREN_PER_PARENT - i,
        {
            match children[i] {
                Some(entry) => {
                    if child_matches_wait(entry, wait_pid, pgid) {
                        match entry.state {
                            ChildState::Zombie { status } => {
                                let ghost before = children@;
                                let marked = Some(
                                    ChildSlot { state: ChildState::Reaped, ..entry },
                                );
                                children[i] = marked;
                                assert(children@ =~= before.update(i as int, marked));
                                let stale: bool = match registry.live_instance_generation(
                                    entry.child.pid,
                                ) {
                                    Some(generation) => generation.0 != entry.child.generation.0,
                                    None => false,
                                };
                                if !stale {
                                    self.set_children(p, children);
                                    return Some((entry.child, status));
                                }
                            },
                            _ => {},
                        }
                    }
                },
                None => {},
            }
            i += 1;
        }
        self.set_children(p, children);
        None
    }

    /// Fails unless the process holds a slot.
    pub fn require_proc_slot(&self, id: ProcId) -> (r: Result<(), LinuxErrno>)
        ensures
            r == (if slot_from(self.model().slots, id, 0) is Some {
                Ok::<(), LinuxErrno>(())
            } else {
                Err(EINVAL)
            }),
    {
        if self.slot_index(id).is_some() {
            Ok(())
        } else {
            Err(EINVAL)
        }
    }

    pub fn pgid_of(&self, id: ProcId) -> (r: Option<u64>)
        ensures
            r == match slot_from(self.model().slots, id, 0) {
                Some(i) => Some(self.model().slots[i].pgid),
                None => None,
            },
    {
        match self.slot_index(id) {
            Some(i) => Some(self.slots[i].pgid),
            None => None,
        }
    }

    /// Whether a wait by the parent could still be answered.
    pub fn has_waitable_children(&self, parent: ProcId, wait_pid: i64) -> (r: bool)
        requires
            wait_pid != i64::MIN,
        ensures
            r == child_awaited(self.model(), parent, wait_pid),
    {
        self.has_child_in_wait_set(parent, wait_pid)
    }

    pub fn has_child_in_wait_set(&self, parent: ProcId, wait_pid: i64) -> (r: bool)
        requires
            wait_pid != i64::MIN,
        ensures
            r == child_awaited(self.model(), parent, wait_pid),
    {
        let p: usize = match self.slot_index(parent) {
            Some(p) => p,
            None => return false,
        };
        let slot = self.slots[p];
        let mut j: usize = 0;
        while j < LINUX_PROC_MAX_CHILDREN_PER_PARENT
            invariant
                0 <= j <= LINUX_PROC_MAX_CHILDREN_PER_PARENT,
                wait_pid != i64::MIN,
                slot_from(self.model().slots, parent, 0) == Some(p as int),
                p < LINUX_MAX_PROC_ENTRIES,
                slot == self.slots@[p as int],
                forall|k: int|
                    0 <= k < j ==> !((#[trigger] self.model().slots[p as int].children[k]) is Some
                        && child_matches(
                        self.model().slots[p as int].children[k]->0,
                        wait_pid,
                        slot.pgid,
                    ) && self.model().slots[p as int].children[k]->0.state != ChildState::Reaped),
            decreases LINUX_PROC_MAX_CHILDREN_PER_PARENT - j,
        {
            assert(self.model().slots[p as int].children[j as int] == slot.children@[j as int]);
            match slot.children[j] {
                Some(entry) => {
                    if child_matches_wait(entry, wait_pid, slot.pgid) && entry.state
                        != ChildState::Reaped {
                        return true;
                    }
                },
                None => {},
            }
            j += 1;
        }
        false
    }

    /// Gives a process's slot up; a parent keeps the zombie.
    pub fn retire_slot(&mut self, id: ProcId)
        ensures
            final(self).model() == (TableModel {
                slots: retired(old(self).model().slots, id),
                ..old(self).model()
            }),
    {
        match self.slot_index(id) {
            Some(i) => {
                self.slots[i].live = false;
                assert(self.model() =~~= (TableModel {
                    slots: old(self).model().slots.update(
                        i as int,
                        SlotModel { live: false, ..old(self).model().slots[i as int] },
                    ),
                    ..old(self).model()
                }));
            },
            None => {},
        }
    }

    /// Gives a process's slot up and has every parent forget it.
    pub fn reap_zombie(&mut self, id: ProcId)
        ensures
            final(self).model() == (TableModel {
                slots: forgotten(old(self).model().slots, id),
                ..old(self).model()
            }),
    {
        self.retire_slot(id);
        let ghost gone = self.model().slots;
        let mut i: usize = 0;
        while i < LINUX_MAX_PROC_ENTRIES
            invariant
                0 <= i <= LINUX_MAX_PROC_ENTRIES,
                gone == retired(old(self).model().slots, id),
                gone.len() == LINUX_MAX_PROC_ENTRIES,
                self.init_pid == old(self).init_pid,
                self.invariant_violations == old(self).invariant_violations,
                forall|k: int|
                    0 <= k < i ==> #[trigger] self.model().slots[k] == (SlotModel {
                        children: without(gone[k].children, id),
                        ..gone[k]
                    }),
                forall|k: int|
                    i <= k < LINUX_MAX_PROC_ENTRIES ==> #[trigger] self.model().slots[k]
                        == gone[k],
            decreases LINUX_MAX_PROC_ENTRIES - i,
        {
            let kept = without_child(self.slots[i].children, id);
            assert(self.model().slots[i as int] == gone[i as int]);
            assert(gone[i as int].children == self.slots@[i as int].children@);
            self.set_children(i, kept);
            i += 1;
        }
        assert(self.model().slots =~= forgotten(old(self).model().slots, id));
    }

    pub fn occupied(&self) -> (r: usize)
        ensures
            r == count(self.model().slots, |slot: SlotModel| slot.live),
    {
        let ghost live = |slot: SlotModel| slot.live;
        let mut n: usize = 0;
        let mut i: usize = 0;
        while i < LINUX_MAX_PROC_ENTRIES
            invariant
                0 <= i <= LINUX_MAX_PROC_ENTRIES,
                n <= i,
                live == |slot: SlotModel| slot.live,
                n == count(self.model().slots.take(i as int), live),
            decreases LINUX_MAX_PROC_ENTRIES - i,
        {
            proof {
                lemma_count_step(self.model().slots, live, i as int);
            }
            if self.slots[i].live {
                n += 1;
            }
            i += 1;
        }
        proof {
            lemma_count_whole(self.model().slots, live);
        }
        n
    }

    /// Gives the slots up whose pid no process has any more.
    pub fn retire_stale_live_slots(&mut self, registry: &ProcessRegistry)
        ensures
            final(self).model() == (TableModel {
                slots: stale_retired(old(self).model().slots, registry.processes@),
                ..old(self).model()
            }),
    {
        let ghost before = self.model().slots;
        let mut i: usize = 0;
        while i < LINUX_MAX_PROC_ENTRIES
            invariant
                0 <= i <= LINUX_MAX_PROC_ENTRIES,
                before == old(self).model().slots,
                self.init_pid == old(self).init_pid,
                self.invariant_violations == old(self).invariant_violations,
                forall|k: int|
                    0 <= k < i ==> #[trigger] self.model().slots[k] == stale_retired(
                        before,
                        registry.processes@,
                    )[k],
                forall|k: int|
                    i <= k < LINUX_MAX_PROC_ENTRIES ==> #[trigger] self.model().slots[k]
                        == before[k],
            decreases LINUX_MAX_PROC_ENTRIES - i,
        {
            assert(self.model().slots[i as int] == before[i as int]);
            let ghost held = self.model().slots;
            if self.slots[i].live && registry.get(self.slots[i].id.pid).is_none() {
                self.slots[i].live = false;
                assert(self.model().slots =~~= held.update(
                    i as int,
                    SlotModel { live: false, ..held[i as int] },
                ));
            }
            i += 1;
        }
        assert(self.model().slots =~= stale_retired(before, registry.processes@));
    }
}

/// The slots without those whose pid no process has any more.
pub open spec fn stale_retired(slots: Seq<SlotModel>, processes: Seq<Process>) -> Seq<SlotModel> {
    Seq::new(
        slots.len(),
        |i: int|
            if slots[i].live && process_from(processes, slots[i].id.pid, 0) is None {
                SlotModel { live: false, ..slots[i] }
            } else {
                slots[i]
            },
    )
}

fn child_matches_wait(entry: ChildSlot, wait_pid: i64, parent_pgid: u64) -> (r: bool)
    requires
        wait_pid != i64::MIN,
    ensures
        r == child_matches(entry, wait_pid, parent_pgid),
{
    if wait_pid == -1 {
        true
    } else if wait_pid == 0 {
        entry.pgid == parent_pgid
    } else if wait_pid < -1 {
        entry.pgid == (-wait_pid) as u64
    } else {
        entry.child.pid == wait_pid as u64
    }
}

fn without_child(
    children: [Option<ChildSlot>; LINUX_PROC_MAX_CHILDREN_PER_PARENT],
    id: ProcId,
) -> (r: [Option<ChildSlot>; LINUX_PROC_MAX_CHILDREN_PER_PARENT])
    ensures
        r@ == without(children@, id),
{
    let mut kept = children;
    let mut j: usize = 0;
    while j < LINUX_PROC_MAX_CHILDREN_PER_PARENT
        invariant
            0 <= j <= LINUX_PROC_MAX_CHILDREN_PER_PARENT,
            forall|k: int| 0 <= k < j ==> #[trigger] kept@[k] == without(children@, id)[k],
            forall|k: int|
                j <= k < LINUX_PROC_MAX_CHILDREN_PER_PARENT ==> #[trigger] kept@[k]
                    == children@[k],
        decreases LINUX_PROC_MAX_CHILDREN_PER_PARENT - j,
    {
        match kept[j] {
            Some(entry) => {
                if entry.child == id {
                    kept[j] = None;
                }
            },
            None => {},
        }
        j += 1;
    }
    assert(kept@ =~= without(children@, id));
    kept
}

/// Registers a process that was launched, not forked.
pub fn register_launched_linux_process(
    table: &mut LinuxProcessTable,
    pid: u64,
    generation: InstanceGeneration,
) -> (r: Result<(), &'static str>)
    ensures
        (final(table).model(), r) == registered(
            old(table).model(),
            (ProcId { pid, generation }),
            no_parent(),
        ),
{
    table.register(
        ProcId { pid, generation },
        ProcId { pid: 0, generation: InstanceGeneration(0) },
    )
}

/// The wait status of a process that exited, or that a fault's signal ended.
pub fn exit_status_word(exit_code: u32, fault_signal: Option<u32>) -> (r: i32)
    ensures
        r == match fault_signal {
            Some(signal) => signalled_status(signal),
            None => exit_code_status(exit_code),
        },
{
    match fault_signal {
        Some(signal) => w_signalled_status(signal),
        None => w_exitcode(exit_code),
    }
}

pub proof fn lemma_slot_from(slots: Seq<SlotModel>, id: ProcId, from: int)
    requires
        0 <= from <= slots.len(),
    ensures
        match slot_from(slots, id, from) {
            Some(i) => from <= i < slots.len() && slots[i].live && slots[i].id == id,
            None => forall|k: int| from <= k < slots.len() ==> !(slots[k].live && slots[k].id == id),
        },
    decreases slots.len() - from,
{
    if from < slots.len() && !(slots[from].live && slots[from].id == id) {
        lemma_slot_from(slots, id, from + 1);
    }
}

pub proof fn lemma_unused_from(slots: Seq<SlotModel>, from: int)
    requires
        0 <= from <= slots.len(),
    ensures
        match unused_from(slots, from) {
            Some(i) => from <= i < slots.len() && !slots[i].live,
            None => true,
        },
    decreases slots.len() - from,
{
    if from < slots.len() && slots[from].live {
        lemma_unused_from(slots, from + 1);
    }
}

/// Filling an unused slot with another process does not move a process's slot.
pub proof fn lemma_slot_filled(
    before: Seq<SlotModel>,
    after: Seq<SlotModel>,
    free: int,
    id: ProcId,
    from: int,
)
    requires
        0 <= from <= before.len(),
        0 <= free < before.len(),
        !before[free].live,
        after == before.update(free, after[free]),
        after[free].live,
    ensures
        after[free].id != id ==> slot_from(after, id, from) == slot_from(before, id, from),
    decreases before.len() - from,
{
    if from < before.len() {
        lemma_slot_filled(before, after, free, id, from + 1);
    }
}

/// An exit is reported to a parent that waits for the child's pid: the status that was published.
pub proof fn law_exit_is_reported(
    m: TableModel,
    id: ProcId,
    parent: ProcId,
    status: i32,
    processes: Seq<Process>,
)
    requires
        0 < id.pid <= i64::MAX,
        parent.pid != 0,
        slot_from(m.slots, id, 0) is Some,
        m.slots[slot_from(m.slots, id, 0)->0].parent == parent,
        slot_from(m.slots, parent, 0) is Some,
        ({
            let children = m.slots[slot_from(m.slots, parent, 0)->0].children;
            &&& child_from(children, id, 0) is Some
            &&& forall|j: int|
                0 <= j < children.len() && j != child_from(children, id, 0)->0 && (
                #[trigger] children[j]) is Some ==> children[j]->0.child.pid != id.pid
        }),
        !superseded(processes, id),
    ensures
        zombie_found(exit_published(m, id, status), parent, id.pid as i64, processes).1 == Some(
            (id, status),
        ),
{
    let p = slot_from(m.slots, parent, 0)->0;
    lemma_slot_from(m.slots, parent, 0);
    let children = m.slots[p].children;
    let c = child_from(children, id, 0)->0;
    lemma_child_from(children, id, 0);
    let after = exit_published(m, id, status);
    assert(after.slots[p].live && after.slots[p].id == parent);
    lemma_slot_kept(m.slots, after.slots, p, parent, 0);
    let now = after.slots[p].children;
    assert forall|j: int| 0 <= j < c implies !(now[j] is Some && now[j]->0.child.pid == id.pid) by {
        assert(now[j] == children[j]);
    }
    lemma_zombie_at(now, id, status, m.slots[p].pgid, processes, c, 0);
}

/// Changing what a slot records leaves it where it is.
pub proof fn lemma_slot_kept(
    before: Seq<SlotModel>,
    after: Seq<SlotModel>,
    p: int,
    id: ProcId,
    from: int,
)
    requires
        0 <= from <= before.len(),
        0 <= p < before.len(),
        after == before.update(p, after[p]),
        after[p].live == before[p].live,
        after[p].id == before[p].id,
    ensures
        slot_from(after, id, from) == slot_from(before, id, from),
    decreases before.len() - from,
{
    if from < before.len() {
        lemma_slot_kept(before, after, p, id, from + 1);
    }
}

pub proof fn lemma_child_from(children: Seq<Option<ChildSlot>>, id: ProcId, from: int)
    requires
        0 <= from <= children.len(),
    ensures
        match child_from(children, id, from) {
            Some(c) => from <= c < children.len() && children[c] is Some && children[c]->0.child
                == id,
            None => true,
        },
    decreases children.len() - from,
{
    if from < children.len() && !(children[from] is Some && children[from]->0.child == id) {
        lemma_child_from(children, id, from + 1);
    }
}

pub proof fn lemma_zombie_at(
    children: Seq<Option<ChildSlot>>,
    id: ProcId,
    status: i32,
    pgid: u64,
    processes: Seq<Process>,
    c: int,
    from: int,
)
    requires
        0 < id.pid <= i64::MAX,
        0 <= from <= c < children.len(),
        children[c] is Some,
        children[c]->0.child == id,
        children[c]->0.state == (ChildState::Zombie { status }),
        forall|j: int|
            0 <= j < c ==> !((#[trigger] children[j]) is Some && children[j]->0.child.pid == id.pid),
        !superseded(processes, id),
    ensures
        zombie_from(children, id.pid as i64, pgid, processes, from).1 == Some((id, status)),
    decreases c - from,
{
    if from < c {
        assert(!(children[from] is Some && children[from]->0.child.pid == id.pid));
        lemma_zombie_at(children, id, status, pgid, processes, c, from + 1);
    }
}

/// A zombie is reported once: what a wait took is marked as reaped.
pub proof fn law_zombie_is_reported_once(
    children: Seq<Option<ChildSlot>>,
    wait_pid: i64,
    pgid: u64,
    processes: Seq<Process>,
    from: int,
)
    requires
        0 <= from <= children.len(),
    ensures
        ({
            let (after, found) = zombie_from(children, wait_pid, pgid, processes, from);
            &&& after.len() == children.len()
            &&& found is Some ==> exists|c: int|
                from <= c < children.len() && (#[trigger] children[c]) is Some && (found->0).0
                    == children[c]->0.child && children[c]->0.state == (ChildState::Zombie {
                    status: (found->0).1,
                }) && after[c] == Some(
                    ChildSlot { state: ChildState::Reaped, ..children[c]->0 },
                )
        }),
    decreases children.len() - from,
{
    if from < children.len() {
        let entry = children[from];
        if entry is Some && child_matches(entry->0, wait_pid, pgid) && entry->0.state is Zombie {
            let marked = children.update(
                from,
                Some(ChildSlot { state: ChildState::Reaped, ..entry->0 }),
            );
            if superseded(processes, entry->0.child) {
                law_zombie_is_reported_once(marked, wait_pid, pgid, processes, from + 1);
                let (after, found) = zombie_from(marked, wait_pid, pgid, processes, from + 1);
                if found is Some {
                    let c = choose|c: int|
                        from + 1 <= c < marked.len() && (#[trigger] marked[c]) is Some && (
                        found->0).0 == marked[c]->0.child && marked[c]->0.state == (
                        ChildState::Zombie { status: (found->0).1 }) && after[c] == Some(
                            ChildSlot { state: ChildState::Reaped, ..marked[c]->0 },
                        );
                    assert(children[c] == marked[c]);
                }
            }
        } else {
            law_zombie_is_reported_once(children, wait_pid, pgid, processes, from + 1);
        }
    }
}

/// Where there are no children none is forgotten.
pub proof fn lemma_none_finalized(m: TableModel, children: Seq<Option<ChildSlot>>, from: int)
    requires
        forall|j: int| 0 <= j < children.len() ==> (#[trigger] children[j]) is None,
    ensures
        children_finalized(m, children, from) == m,
    decreases children.len() - from,
{
    if 0 <= from < children.len() {
        lemma_none_finalized(m, children, from + 1);
    }
}

/// A process that was reaped is no parent's child any more.
pub proof fn law_reaped_is_forgotten(slots: Seq<SlotModel>, id: ProcId, i: int, j: int)
    requires
        0 <= i < slots.len(),
        0 <= j < slots[i].children.len(),
    ensures
        forgotten(slots, id).len() == slots.len(),
        !(forgotten(slots, id)[i].children[j] is Some && forgotten(
            slots,
            id,
        )[i].children[j]->0.child == id),
{
    lemma_slot_from(slots, id, 0);
    let gone = retired(slots, id);
    assert(gone[i].children == slots[i].children);
}

} // verus!
