//! What holds of a process's descriptors across the calls that change them.

use super::open_description::{
    allocated, description_of, finalized, names_live, pool_wf, ref_added, ConsoleSinkRef,
    DescriptorKind, OpenAccess, OpenDescription, OpenDescriptionId, OpenStatus, PipeEnd,
    PipeRef, PoolModel, SocketRef, OPEN_DESCRIPTION_REF_MAX,
};
use super::registry::{
    cloexec_done, cloexec_of, cloexec_set, console_behind, description_opened, dropped,
    empty_from, ensured, fd_closed, fd_description, fd_duplicated, fd_duplicated_above, fd_open,
    fd_opened, fd_written, inherited_by, is_among, lemma_empty_from, lemma_table_from,
    lemma_table_kept, offset_set, pid_dropped_from, pipe_end_opened, pipe_read_behind,
    pipe_write_behind, projection_of, read_kind_of, socket_installed, stale_dropped_from,
    status_set, table_from, with_table, FdRegistryModel, LinuxFdProjection, LinuxReadKind,
};
use super::table::{
    cloexec_closed_from, closed, closed_from, console, console_status, inherited_from,
    lemma_fresh_ref, no_entries, opened_at, rebound, stdio_installed, FdEntries, FdEntry,
    FdFlags, LINUX_FD_TABLE_CAPACITY,
};
use crate::abi::{LinuxErrno, EACCES, EBADF, EMFILE};
use crate::ipc::{IpcSendError, IpcSendResult};
use crate::process::personality::ExecutionPersonality;
use crate::process::InstanceGeneration;
use vstd::prelude::*;

verus! {

/// Every table of the registry has its fds, and the descriptions are in order.
pub open spec fn registry_wf(m: FdRegistryModel) -> bool {
    &&& pool_wf(m.pool)
    &&& forall|i: int|
        0 <= i < m.slots.len() && (#[trigger] m.slots[i]) is Some ==> m.slots[i]->0.entries.len()
            == LINUX_FD_TABLE_CAPACITY
}

/// Whether an fd is the same in two states: closed in both, or open on the same description with the
/// same flag.
pub open spec fn same_fd(
    a: FdRegistryModel,
    b: FdRegistryModel,
    pid: u64,
    generation: InstanceGeneration,
    fd: u64,
) -> bool {
    &&& fd_open(a, pid, generation, fd) == fd_open(b, pid, generation, fd)
    &&& cloexec_of(a, pid, generation, fd) == cloexec_of(b, pid, generation, fd)
}

/// The table that was replaced is found, and the others are where they were.
proof fn lemma_replaced(
    m: FdRegistryModel,
    pid: u64,
    generation: InstanceGeneration,
    t: FdEntries,
    p: PoolModel,
)
    requires
        table_from(m.slots, pid, generation, 0) is Some,
    ensures
        ({
            let i = table_from(m.slots, pid, generation, 0)->0;
            let after = with_table(m, i, t, p);
            &&& 0 <= i < m.slots.len()
            &&& m.slots[i] is Some
            &&& table_from(after.slots, pid, generation, 0) == Some(i)
            &&& after.slots[i]->0.entries == t
        }),
{
    lemma_table_from(m.slots, pid, generation, 0);
    let i = table_from(m.slots, pid, generation, 0)->0;
    lemma_table_kept(m.slots, with_table(m, i, t, p).slots, pid, generation, 0);
}

/// The fds after those that an exec closes were closed: the others stay as they are.
proof fn lemma_cloexec_entries(t: FdEntries, p: PoolModel, from: int, fd: int)
    requires
        0 <= from <= t.len(),
        t.len() <= LINUX_FD_TABLE_CAPACITY,
        0 <= fd < t.len(),
    ensures
        cloexec_closed_from(t, p, from).0.len() == t.len(),
        cloexec_closed_from(t, p, from).0[fd] == (if fd >= from && t[fd] is Some
            && t[fd]->0.flags.cloexec {
            None
        } else {
            t[fd]
        }),
    decreases t.len() - from,
{
    if from < t.len() {
        if t[from] is Some && t[from]->0.flags.cloexec {
            let (t1, p1, _) = closed(t, p, from as u64);
            lemma_cloexec_entries(t1, p1, from + 1, fd);
        } else {
            lemma_cloexec_entries(t, p, from + 1, fd);
        }
    }
}

/// An exec closes exactly the fds whose flag says so; the others stay open on what they were.
pub proof fn law_exec_closes_the_marked(
    m: FdRegistryModel,
    pid: u64,
    generation: InstanceGeneration,
    fd: u64,
)
    requires
        registry_wf(m),
    ensures
        cloexec_of(m, pid, generation, fd) == Ok::<bool, LinuxErrno>(true) ==> fd_open(
            cloexec_done(m, pid, generation),
            pid,
            generation,
            fd,
        ) == Err::<OpenDescriptionId, LinuxErrno>(EBADF),
        cloexec_of(m, pid, generation, fd) != Ok::<bool, LinuxErrno>(true) ==> same_fd(
            m,
            cloexec_done(m, pid, generation),
            pid,
            generation,
            fd,
        ),
{
    if let Some(i) = table_from(m.slots, pid, generation, 0) {
        lemma_table_from(m.slots, pid, generation, 0);
        let (t, p) = cloexec_closed_from(m.slots[i]->0.entries, m.pool, 0);
        lemma_replaced(m, pid, generation, t, p);
        lemma_cloexec_entries(m.slots[i]->0.entries, m.pool, 0, 0);
        if fd < LINUX_FD_TABLE_CAPACITY {
            lemma_cloexec_entries(m.slots[i]->0.entries, m.pool, 0, fd as int);
        }
    }
}

/// `dup2` to another fd: the new fd is open on the description of the old one and survives an exec,
/// whatever the old one's flag; every other fd, the old one among them, stays as it is. It fails with
/// `EBADF` where the old fd is closed, and changes nothing then.
pub proof fn law_dup2_shares(
    m: FdRegistryModel,
    pid: u64,
    generation: InstanceGeneration,
    old_fd: u64,
    new_fd: u64,
    fd: u64,
)
    requires
        registry_wf(m),
    ensures
        ({
            let (after, result) = fd_duplicated(m, pid, generation, old_fd, new_fd);
            let execed = cloexec_done(after, pid, generation);
            &&& fd_open(m, pid, generation, old_fd) is Err ==> result == Err::<(), LinuxErrno>(EBADF)
                && same_fd(m, after, pid, generation, fd)
            &&& fd != new_fd ==> same_fd(m, after, pid, generation, fd)
            &&& old_fd == new_fd ==> same_fd(m, after, pid, generation, fd) && (result is Ok
                <==> fd_open(m, pid, generation, old_fd) is Ok)
            &&& result is Ok && old_fd != new_fd ==> {
                &&& fd_open(m, pid, generation, old_fd) is Ok
                &&& fd_open(after, pid, generation, new_fd) == fd_open(m, pid, generation, old_fd)
                &&& cloexec_of(after, pid, generation, new_fd) == Ok::<bool, LinuxErrno>(false)
                &&& fd_open(execed, pid, generation, new_fd) == fd_open(m, pid, generation, old_fd)
            }
        }),
{
    let (after, result) = fd_duplicated(m, pid, generation, old_fd, new_fd);
    if let Some(i) = table_from(m.slots, pid, generation, 0) {
        lemma_table_from(m.slots, pid, generation, 0);
        let t0 = m.slots[i]->0.entries;
        let (t, p, _) = super::table::duplicated(t0, m.pool, old_fd, new_fd);
        lemma_replaced(m, pid, generation, t, p);
        lemma_cloexec_entries(t, p, 0, 0);
        lemma_replaced(
            after,
            pid,
            generation,
            cloexec_closed_from(t, p, 0).0,
            cloexec_closed_from(t, p, 0).1,
        );
        if new_fd < LINUX_FD_TABLE_CAPACITY {
            lemma_cloexec_entries(t, p, 0, new_fd as int);
        }
    }
}

proof fn lemma_closed_from(t: FdEntries, from: int)
    requires
        0 <= from <= t.len(),
    ensures
        match closed_from(t, from) {
            Some(i) => from <= i < t.len() && t[i] is None && forall|k: int|
                from <= k < i ==> (#[trigger] t[k]) is Some,
            None => forall|k: int| from <= k < t.len() ==> (#[trigger] t[k]) is Some,
        },
    decreases t.len() - from,
{
    if from < t.len() && t[from] is Some {
        lemma_closed_from(t, from + 1);
    }
}

/// Duplicating at or above a bound takes the lowest fd from there on that was closed. It is open on
/// the same description and does not survive an exec; every other fd stays as it is.
pub proof fn law_dup_above_takes_the_lowest(
    m: FdRegistryModel,
    pid: u64,
    generation: InstanceGeneration,
    old_fd: u64,
    min_fd: u64,
    fd: u64,
)
    requires
        registry_wf(m),
        min_fd < LINUX_FD_TABLE_CAPACITY,
    ensures
        ({
            let (after, result) = fd_duplicated_above(m, pid, generation, old_fd, min_fd);
            let execed = cloexec_done(after, pid, generation);
            let new_fd = result->Ok_0 as u64;
            &&& result is Err ==> same_fd(m, after, pid, generation, fd)
            &&& result is Ok ==> {
                &&& min_fd <= result->Ok_0 < LINUX_FD_TABLE_CAPACITY
                &&& fd_open(m, pid, generation, new_fd) is Err
                &&& min_fd <= fd < new_fd ==> fd_open(m, pid, generation, fd) is Ok
                &&& fd != new_fd ==> same_fd(m, after, pid, generation, fd)
                &&& fd_open(after, pid, generation, new_fd) == fd_open(m, pid, generation, old_fd)
                &&& fd_open(m, pid, generation, old_fd) is Ok
                &&& cloexec_of(after, pid, generation, new_fd) == Ok::<bool, LinuxErrno>(true)
                &&& fd_open(execed, pid, generation, new_fd) is Err
            }
        }),
{
    let (after, result) = fd_duplicated_above(m, pid, generation, old_fd, min_fd);
    if let Some(i) = table_from(m.slots, pid, generation, 0) {
        lemma_table_from(m.slots, pid, generation, 0);
        let t0 = m.slots[i]->0.entries;
        lemma_closed_from(t0, min_fd as int);
        let (t, p, _) = super::registry::duplicated_above(t0, m.pool, old_fd, min_fd);
        lemma_replaced(m, pid, generation, t, p);
        lemma_replaced(
            after,
            pid,
            generation,
            cloexec_closed_from(t, p, 0).0,
            cloexec_closed_from(t, p, 0).1,
        );
        if result is Ok {
            lemma_cloexec_entries(t, p, 0, result->Ok_0 as int);
        }
    }
}

/// Opening takes the lowest closed fd, which is then open on the description with the flag given;
/// every other fd stays as it is. Where all are open the answer is `EMFILE`.
pub proof fn law_open_takes_the_lowest(
    m: FdRegistryModel,
    pid: u64,
    generation: InstanceGeneration,
    open: OpenDescriptionId,
    flags: FdFlags,
    fd: u64,
)
    requires
        registry_wf(m),
    ensures
        ({
            let (after, result) = fd_opened(m, pid, generation, open, flags);
            let new_fd = result->Ok_0 as u64;
            &&& result is Err ==> same_fd(m, after, pid, generation, fd)
            &&& result == Err::<i32, LinuxErrno>(EMFILE) && names_live(m.pool, open)
                && description_of(m.pool, open).refcount < OPEN_DESCRIPTION_REF_MAX && fd
                < LINUX_FD_TABLE_CAPACITY ==> fd_open(m, pid, generation, fd) is Ok
            &&& result is Ok ==> {
                &&& 0 <= result->Ok_0 < LINUX_FD_TABLE_CAPACITY
                &&& fd_open(m, pid, generation, new_fd) is Err
                &&& fd < new_fd ==> fd_open(m, pid, generation, fd) is Ok
                &&& fd != new_fd ==> same_fd(m, after, pid, generation, fd)
                &&& fd_open(after, pid, generation, new_fd) == Ok::<OpenDescriptionId, LinuxErrno>(
                    open,
                )
                &&& cloexec_of(after, pid, generation, new_fd) == Ok::<bool, LinuxErrno>(
                    flags.cloexec,
                )
            }
        }),
{
    if let Some(i) = table_from(m.slots, pid, generation, 0) {
        lemma_table_from(m.slots, pid, generation, 0);
        let t0 = m.slots[i]->0.entries;
        lemma_closed_from(t0, 0);
        let (t, p, _) = super::table::opened_lowest(t0, m.pool, open, flags);
        lemma_replaced(m, pid, generation, t, p);
    }
}

/// A new description is what it was opened as, at offset zero, with the one reference of its fd; the
/// descriptions that were there stay as they are.
pub proof fn law_new_description_is_as_asked(
    m: FdRegistryModel,
    pid: u64,
    generation: InstanceGeneration,
    kind: DescriptorKind,
    status: OpenStatus,
    flags: FdFlags,
    other: OpenDescriptionId,
)
    requires
        registry_wf(m),
        description_opened(m, pid, generation, kind, status, flags).1 is Ok,
    ensures
        ({
            let (after, result) = description_opened(m, pid, generation, kind, status, flags);
            let seen = fd_description(after, pid, generation, result->Ok_0 as u64);
            &&& seen is Ok
            &&& seen->Ok_0.kind == kind
            &&& seen->Ok_0.status == status
            &&& seen->Ok_0.offset == 0
            &&& seen->Ok_0.refcount == 1
            &&& names_live(m.pool, other) ==> names_live(after.pool, other) && description_of(
                after.pool,
                other,
            ) == description_of(m.pool, other)
        }),
{
    lemma_fresh_ref(m.pool, pid, kind, status);
    let (p, made) = allocated(m.pool, pid, kind, status);
    let open = made->Ok_0;
    let m1 = FdRegistryModel { slots: m.slots, pool: p };
    super::open_description::lemma_free_slot(m.pool.slots, 0);
    law_open_takes_the_lowest(m1, pid, generation, open, flags, 0);
    if names_live(m.pool, other) {
        assert(names_live(p, other));
        assert(other.index != open.index);
    }
}

/// Closing an fd closes it and no other. Where another fd has the description open too it stays, one
/// reference lighter; with its last reference it goes. Closing a closed fd is `EBADF`.
pub proof fn law_close_closes_one(
    m: FdRegistryModel,
    pid: u64,
    generation: InstanceGeneration,
    fd: u64,
    other: u64,
)
    requires
        registry_wf(m),
    ensures
        ({
            let (after, result) = fd_closed(m, pid, generation, fd);
            let open = fd_open(m, pid, generation, fd)->Ok_0;
            &&& fd_open(m, pid, generation, fd) is Err ==> result == Err::<(), LinuxErrno>(EBADF)
            &&& fd_open(after, pid, generation, fd) == Err::<OpenDescriptionId, LinuxErrno>(EBADF)
            &&& fd_closed(after, pid, generation, fd).1 == Err::<(), LinuxErrno>(EBADF)
            &&& other != fd ==> same_fd(m, after, pid, generation, other)
            &&& fd_open(m, pid, generation, fd) is Ok && names_live(m.pool, open)
                && description_of(m.pool, open).refcount > 0 ==> {
                &&& result is Ok
                &&& description_of(m.pool, open).refcount > 1 ==> names_live(after.pool, open)
                    && description_of(after.pool, open) == (OpenDescription {
                    refcount: (description_of(m.pool, open).refcount - 1) as u16,
                    ..description_of(m.pool, open)
                })
                &&& description_of(m.pool, open).refcount == 1 ==> !after.pool.slots[open.index as int].live
            }
        }),
{
    let (after, result) = fd_closed(m, pid, generation, fd);
    if let Some(i) = table_from(m.slots, pid, generation, 0) {
        lemma_table_from(m.slots, pid, generation, 0);
        let t0 = m.slots[i]->0.entries;
        let (t, p, _) = closed(t0, m.pool, fd);
        lemma_replaced(m, pid, generation, t, p);
    }
}

/// A closed fd below which all are open is the next to be opened.
pub proof fn law_closed_fd_is_reused(
    m: FdRegistryModel,
    pid: u64,
    generation: InstanceGeneration,
    fd: u64,
    open: OpenDescriptionId,
    flags: FdFlags,
)
    requires
        registry_wf(m),
        fd < LINUX_FD_TABLE_CAPACITY,
        fd_open(m, pid, generation, fd) is Ok,
        forall|k: u64| k < fd ==> (#[trigger] fd_open(m, pid, generation, k)) is Ok,
        ref_added(fd_closed(m, pid, generation, fd).0.pool, open).1 is Ok,
    ensures
        fd_opened(fd_closed(m, pid, generation, fd).0, pid, generation, open, flags).1 == Ok::<
            i32,
            LinuxErrno,
        >(fd as i32),
{
    let after = fd_closed(m, pid, generation, fd).0;
    let i = table_from(m.slots, pid, generation, 0)->0;
    lemma_table_from(m.slots, pid, generation, 0);
    let t0 = m.slots[i]->0.entries;
    let (t, p, _) = closed(t0, m.pool, fd);
    lemma_replaced(m, pid, generation, t, p);
    lemma_closed_from(t, 0);
    assert forall|k: int| 0 <= k < fd implies (#[trigger] t[k]) is Some by {
        assert(fd_open(m, pid, generation, k as u64) is Ok);
        assert(t[k] == t0[k]);
    }
    assert(t[fd as int] is None);
    let lowest = closed_from(t, 0);
    if lowest is Some && lowest->0 < fd {
        assert(t[lowest->0] is Some);
    }
    assert(lowest == Some(fd as int));
}

proof fn lemma_inherited_entries(parent: FdEntries, child: FdEntries, p: PoolModel, from: int, fd: int)
    requires
        0 <= from <= parent.len(),
        child.len() == parent.len(),
        0 <= fd < parent.len(),
        forall|k: int| from <= k < child.len() ==> (#[trigger] child[k]) is None,
        inherited_from(parent, child, p, from).2 is Ok,
    ensures
        inherited_from(parent, child, p, from).0.len() == parent.len(),
        inherited_from(parent, child, p, from).0[fd] == (if fd >= from {
            parent[fd]
        } else {
            child[fd]
        }),
    decreases parent.len() - from,
{
    if from < parent.len() {
        match parent[from] {
            None => lemma_inherited_entries(parent, child, p, from + 1, fd),
            Some(entry) => lemma_inherited_entries(
                parent,
                child.update(from, Some(entry)),
                ref_added(p, entry.open).0,
                from + 1,
                fd,
            ),
        }
    }
}

/// A forked child has open exactly what its parent has, on the same descriptions and with the same
/// flags, and the parent keeps its own.
pub proof fn law_child_inherits_all(
    m: FdRegistryModel,
    parent_pid: u64,
    parent_gen: InstanceGeneration,
    child_pid: u64,
    child_gen: InstanceGeneration,
    fd: u64,
)
    requires
        registry_wf(m),
        (parent_pid, parent_gen) != (child_pid, child_gen),
        inherited_by(m, parent_pid, parent_gen, child_pid, child_gen).1 is Ok,
    ensures
        ({
            let after = inherited_by(m, parent_pid, parent_gen, child_pid, child_gen).0;
            &&& fd_open(after, child_pid, child_gen, fd) == fd_open(m, parent_pid, parent_gen, fd)
            &&& cloexec_of(after, child_pid, child_gen, fd) == cloexec_of(
                m,
                parent_pid,
                parent_gen,
                fd,
            )
            &&& same_fd(m, after, parent_pid, parent_gen, fd)
        }),
{
    let i = table_from(m.slots, parent_pid, parent_gen, 0)->0;
    lemma_table_from(m.slots, parent_pid, parent_gen, 0);
    lemma_table_from(m.slots, child_pid, child_gen, 0);
    lemma_empty_from(m.slots, 0);
    let (m1, slot) = ensured(m, child_pid, child_gen);
    let k = slot->Ok_0;
    let t0 = m.slots[i]->0.entries;
    let (t, p, _) = inherited_from(t0, no_entries(), m1.pool, 0);
    let after = with_table(m1, k, t, p);
    lemma_table_placed(m, m1, child_pid, child_gen);
    lemma_replaced(m1, child_pid, child_gen, t, p);
    lemma_table_kept(m.slots, m1.slots, parent_pid, parent_gen, 0);
    lemma_table_kept(m1.slots, after.slots, parent_pid, parent_gen, 0);
    lemma_inherited_entries(t0, no_entries(), m1.pool, 0, 0);
    if fd < LINUX_FD_TABLE_CAPACITY {
        lemma_inherited_entries(t0, no_entries(), m1.pool, 0, fd as int);
    }
}

/// The table that a process was given is found where it was put.
proof fn lemma_table_placed(
    m: FdRegistryModel,
    after: FdRegistryModel,
    pid: u64,
    generation: InstanceGeneration,
)
    requires
        ensured(m, pid, generation).1 is Ok,
        after == ensured(m, pid, generation).0,
    ensures
        table_from(after.slots, pid, generation, 0) == Some(ensured(m, pid, generation).1->Ok_0),
{
    lemma_table_from(m.slots, pid, generation, 0);
    if table_from(m.slots, pid, generation, 0) is None {
        let k = empty_from(m.slots, 0)->0;
        lemma_empty_from(m.slots, 0);
        lemma_table_from(after.slots, pid, generation, 0);
        assert(after.slots[k] is Some && after.slots[k]->0.pid == pid && after.slots[k]->0.generation
            == generation);
        if table_from(after.slots, pid, generation, 0) is Some {
            let j = table_from(after.slots, pid, generation, 0)->0;
            if j != k {
                assert(after.slots[j] == m.slots[j]);
            }
        }
    }
}

/// The offset and the status belong to the description: set through one fd, they are seen through
/// every fd, of whatever process, that shares it, and through no other.
pub proof fn law_offset_and_status_are_shared(
    m: FdRegistryModel,
    pid: u64,
    generation: InstanceGeneration,
    fd: u64,
    offset: u64,
    status: OpenStatus,
    other_pid: u64,
    other_gen: InstanceGeneration,
    other_fd: u64,
)
    requires
        registry_wf(m),
        fd_description(m, pid, generation, fd) is Ok,
        fd_description(m, other_pid, other_gen, other_fd) is Ok,
    ensures
        ({
            let before = fd_description(m, other_pid, other_gen, other_fd)->Ok_0;
            let shared = fd_open(m, pid, generation, fd) == fd_open(
                m,
                other_pid,
                other_gen,
                other_fd,
            );
            let (moved, first) = offset_set(m, pid, generation, fd, offset);
            let (changed, second) = status_set(m, pid, generation, fd, status);
            &&& first is Ok && second is Ok
            &&& fd_description(moved, other_pid, other_gen, other_fd) == Ok::<
                OpenDescription,
                LinuxErrno,
            >(
                if shared {
                    OpenDescription { offset, ..before }
                } else {
                    before
                },
            )
            &&& fd_description(changed, other_pid, other_gen, other_fd) == Ok::<
                OpenDescription,
                LinuxErrno,
            >(
                if shared {
                    OpenDescription { status, ..before }
                } else {
                    before
                },
            )
        }),
{
}

/// Whether an fd survives an exec belongs to the fd alone: it reads back as it was set, and no other
/// fd changes, not even one that shares the description.
pub proof fn law_exec_flag_is_per_fd(
    m: FdRegistryModel,
    pid: u64,
    generation: InstanceGeneration,
    fd: u64,
    cloexec: bool,
    other: u64,
)
    requires
        registry_wf(m),
        fd_open(m, pid, generation, fd) is Ok,
    ensures
        ({
            let (after, result) = cloexec_set(m, pid, generation, fd, cloexec);
            &&& result is Ok
            &&& cloexec_of(after, pid, generation, fd) == Ok::<bool, LinuxErrno>(cloexec)
            &&& fd_open(after, pid, generation, fd) == fd_open(m, pid, generation, fd)
            &&& other != fd ==> same_fd(m, after, pid, generation, other)
            &&& after.pool == m.pool
        }),
{
    let i = table_from(m.slots, pid, generation, 0)->0;
    lemma_table_from(m.slots, pid, generation, 0);
    let open = fd_open(m, pid, generation, fd)->Ok_0;
    lemma_replaced(
        m,
        pid,
        generation,
        m.slots[i]->0.entries.update(fd as int, Some(FdEntry { open, flags: FdFlags { cloexec } })),
        m.pool,
    );
}

/// The calls of one process on its descriptors leave every fd of another process as it is.
pub proof fn law_calls_touch_own_descriptors(
    m: FdRegistryModel,
    pid: u64,
    generation: InstanceGeneration,
    a: u64,
    b: u64,
    other_pid: u64,
    other_gen: InstanceGeneration,
    fd: u64,
)
    requires
        (pid, generation) != (other_pid, other_gen),
    ensures
        same_fd(m, fd_closed(m, pid, generation, a).0, other_pid, other_gen, fd),
        same_fd(m, fd_duplicated(m, pid, generation, a, b).0, other_pid, other_gen, fd),
        same_fd(m, fd_duplicated_above(m, pid, generation, a, b).0, other_pid, other_gen, fd),
        same_fd(m, cloexec_done(m, pid, generation), other_pid, other_gen, fd),
{
    if let Some(i) = table_from(m.slots, pid, generation, 0) {
        lemma_table_from(m.slots, pid, generation, 0);
        let t0 = m.slots[i]->0.entries;
        lemma_elsewhere(m, i, closed(t0, m.pool, a).0, closed(t0, m.pool, a).1, other_pid, other_gen, fd);
        let d = super::table::duplicated(t0, m.pool, a, b);
        lemma_elsewhere(m, i, d.0, d.1, other_pid, other_gen, fd);
        let u = super::registry::duplicated_above(t0, m.pool, a, b);
        lemma_elsewhere(m, i, u.0, u.1, other_pid, other_gen, fd);
        let c = cloexec_closed_from(t0, m.pool, 0);
        lemma_elsewhere(m, i, c.0, c.1, other_pid, other_gen, fd);
    }
}

proof fn lemma_elsewhere(
    m: FdRegistryModel,
    i: int,
    t: FdEntries,
    p: PoolModel,
    pid: u64,
    generation: InstanceGeneration,
    fd: u64,
)
    requires
        0 <= i < m.slots.len(),
        m.slots[i] is Some,
        (m.slots[i]->0.pid, m.slots[i]->0.generation) != (pid, generation),
    ensures
        same_fd(m, with_table(m, i, t, p), pid, generation, fd),
{
    lemma_table_from(m.slots, pid, generation, 0);
    lemma_table_kept(m.slots, with_table(m, i, t, p).slots, pid, generation, 0);
}

/// A process starts with nothing open but standard output and standard error, each a console of its
/// own with the handle given, open for writing and kept over an exec.
pub proof fn law_stdio_starts_with_two_consoles(
    p: PoolModel,
    pid: u64,
    stdout: u64,
    stderr: u64,
    fd: int,
)
    requires
        pool_wf(p),
        stdio_installed(p, pid, stdout, stderr).2 is Ok,
        0 <= fd < LINUX_FD_TABLE_CAPACITY,
    ensures
        ({
            let (t, after, _) = stdio_installed(p, pid, stdout, stderr);
            let out = t[1]->0;
            let err = t[2]->0;
            &&& t.len() == LINUX_FD_TABLE_CAPACITY
            &&& t[fd] is Some <==> fd == 1 || fd == 2
            &&& out.open != err.open
            &&& !out.flags.cloexec && !err.flags.cloexec
            &&& names_live(after, out.open) && names_live(after, err.open)
            &&& description_of(after, out.open).kind == DescriptorKind::Console(
                ConsoleSinkRef { capability_handle: stdout },
            )
            &&& description_of(after, err.open).kind == DescriptorKind::Console(
                ConsoleSinkRef { capability_handle: stderr },
            )
            &&& description_of(after, out.open).refcount == 1
            &&& description_of(after, err.open).refcount == 1
        }),
{
    let kind = super::table::console(stdout);
    let status = super::table::console_status();
    lemma_fresh_ref(p, pid, kind, status);
    let p1 = allocated(p, pid, kind, status).0;
    lemma_fresh_ref(p1, pid, super::table::console(stderr), status);
    super::open_description::lemma_free_slot(p.slots, 0);
    super::open_description::lemma_free_slot(p1.slots, 0);
}

/// A fd of one end of a pipe leads to that end of that pipe: the end that is read cannot be written and the
/// other way round, reads and writes of it wait, and an exec keeps it open.
pub proof fn law_pipe_fd_leads_to_its_end(
    m: FdRegistryModel,
    pid: u64,
    generation: InstanceGeneration,
    pipe: PipeRef,
)
    requires
        registry_wf(m),
        pipe_end_opened(m, pid, generation, pipe).1 is Ok,
    ensures
        ({
            let (after, r) = pipe_end_opened(m, pid, generation, pipe);
            let fd = r->Ok_0 as u64;
            let seen = fd_description(after, pid, generation, fd);
            &&& pid != 0
            &&& pipe.end == PipeEnd::Read ==> pipe_read_behind(after, pid, generation, fd) == Some(
                pipe,
            ) && pipe_write_behind(after, pid, generation, fd) is None
            &&& pipe.end == PipeEnd::Write ==> pipe_write_behind(after, pid, generation, fd) == Some(
                pipe,
            ) && pipe_read_behind(after, pid, generation, fd) is None
            &&& seen is Ok && !seen->Ok_0.status.nonblock && !seen->Ok_0.status.append
            &&& pipe.end == PipeEnd::Read ==> seen->Ok_0.status.access == OpenAccess::ReadOnly
            &&& pipe.end == PipeEnd::Write ==> seen->Ok_0.status.access == OpenAccess::WriteOnly
            &&& console_behind(after, pid, generation, fd) is Err
        }),
{
    let held = ensured(m, pid, generation).0;
    lemma_empty_from(m.slots, 0);
    let kind = super::open_description::OpenDescriptionPool::pipe_kind(pipe);
    let status = super::open_description::OpenDescriptionPool::pipe_status(pipe.end);
    law_new_description_is_as_asked(
        held,
        pid,
        generation,
        kind,
        status,
        FdFlags { cloexec: false },
        OpenDescriptionId { index: 0, generation: 0 },
    );
}

/// Writing to an fd goes to a console or is refused: a closed fd and one that is no console are `EBADF`,
/// whatever became of the sending.
pub proof fn law_writes_reach_consoles_only(
    m: FdRegistryModel,
    pid: u64,
    generation: InstanceGeneration,
    fd: u64,
    bytes: Seq<u8>,
    authorized: bool,
    sent: Result<IpcSendResult, IpcSendError>,
    personality: ExecutionPersonality,
)
    ensures
        ({
            let (r, shown) = fd_written(
                m,
                pid,
                generation,
                fd,
                bytes,
                authorized,
                sent,
                personality,
            );
            &&& console_behind(m, pid, generation, fd) is Err ==> r == Err::<usize, LinuxErrno>(
                EBADF,
            ) && shown is None
            &&& fd_open(m, pid, generation, fd) is Err ==> console_behind(
                m,
                pid,
                generation,
                fd,
            ) is Err
            &&& console_behind(m, pid, generation, fd) is Ok && bytes.len() == 0 ==> r == Ok::<
                usize,
                LinuxErrno,
            >(0)
            &&& console_behind(m, pid, generation, fd) is Ok && bytes.len() > 0 && !authorized
                ==> r == Err::<usize, LinuxErrno>(EACCES) && shown is None
            &&& console_behind(m, pid, generation, fd) is Ok && bytes.len() > 0 && authorized
                && sent is Ok ==> r == Ok::<usize, LinuxErrno>(sent->Ok_0.bytes_sent)
            &&& authorized && sent is Err && bytes.len() > 0 ==> r is Err && shown is None
        }),
{
}

/// What a read of an fd does is told by what the fd has open: a console and a socket are told apart from
/// everything else, and a socket is the one that was opened.
pub proof fn law_reads_are_told_apart(kind: DescriptorKind)
    ensures
        read_kind_of(kind) == LinuxReadKind::Console <==> kind is Console,
        read_kind_of(kind) is Socket <==> kind is Socket,
        kind matches DescriptorKind::Socket(socket) ==> read_kind_of(kind) == LinuxReadKind::Socket(
            socket,
        ),
        kind matches DescriptorKind::Console(sink) ==> projection_of(kind) == (
        LinuxFdProjection::ConsoleEndpoint { capability_handle: sink.capability_handle }),
        projection_of(kind) == LinuxFdProjection::PipeBackend <==> kind is PipeRead || kind
            is PipeWrite,
        projection_of(kind) == LinuxFdProjection::FileBackend <==> kind is File,
        projection_of(kind) == LinuxFdProjection::DirBackend <==> kind is Dir,
{
}

/// A fd of a socket leads to that socket, may be read and written, waits unless it was asked not to, and
/// stays open across an exec.
pub proof fn law_socket_fd_leads_to_the_socket(
    m: FdRegistryModel,
    pid: u64,
    generation: InstanceGeneration,
    socket: SocketRef,
    nonblock: bool,
)
    requires
        registry_wf(m),
        socket_installed(m, pid, generation, socket, nonblock).1 is Ok,
    ensures
        ({
            let (after, r) = socket_installed(m, pid, generation, socket, nonblock);
            let fd = r->Ok_0 as u64;
            let seen = fd_description(after, pid, generation, fd);
            &&& pid != 0
            &&& 0 <= r->Ok_0 < LINUX_FD_TABLE_CAPACITY
            &&& fd_open(m, pid, generation, fd) is Err
            &&& seen is Ok
            &&& seen->Ok_0.kind == DescriptorKind::Socket(socket)
            &&& seen->Ok_0.status.access == OpenAccess::ReadWrite
            &&& seen->Ok_0.status.nonblock == nonblock
            &&& !seen->Ok_0.status.append
            &&& cloexec_of(after, pid, generation, fd) == Ok::<bool, LinuxErrno>(false)
        }),
{
    let held = ensured(m, pid, generation).0;
    lemma_empty_from(m.slots, 0);
    lemma_table_from(m.slots, pid, generation, 0);
    lemma_table_from(held.slots, pid, generation, 0);
    let kind = DescriptorKind::Socket(socket);
    let status = OpenStatus { access: OpenAccess::ReadWrite, nonblock, append: false };
    lemma_fresh_ref(held.pool, pid, kind, status);
    super::open_description::lemma_free_slot(held.pool.slots, 0);
    let (p, made) = allocated(held.pool, pid, kind, status);
    let open = made->Ok_0;
    let m1 = FdRegistryModel { slots: held.slots, pool: ref_added(p, open).0 };
    law_open_takes_the_lowest(m1, pid, generation, open, FdFlags { cloexec: false }, 0);
    let fd = socket_installed(m, pid, generation, socket, nonblock).1->Ok_0 as u64;
    assert(fd_open(m1, pid, generation, fd) is Err);
}

/// Once the last reference to a description went, no id names it any more: one that named it names
/// nothing, as long as its slot's generation can still grow. A socket is given up with its description,
/// anything else gives up none, and the other descriptions stay.
pub proof fn law_last_reference_ends_the_description(
    m: PoolModel,
    id: OpenDescriptionId,
    other: OpenDescriptionId,
)
    requires
        names_live(m, id),
        other.index != id.index,
    ensures
        ({
            let after = finalized(m, id.index as int);
            &&& !names_live(after, id)
            &&& names_live(after, other) <==> names_live(m, other)
            &&& names_live(m, other) ==> description_of(after, other) == description_of(m, other)
            &&& description_of(m, id).kind matches DescriptorKind::Socket(socket) ==> after.released
                == m.released.push(socket)
            &&& !(description_of(m, id).kind is Socket) ==> after.released == m.released
            &&& id.generation < u32::MAX ==> after.slots[id.index as int].generation > id.generation
        }),
{
}

proof fn lemma_pid_dropped(m: FdRegistryModel, pid: u64, from: int, j: int)
    requires
        0 <= from <= m.slots.len(),
        0 <= j < m.slots.len(),
    ensures
        pid_dropped_from(m, pid, from).slots.len() == m.slots.len(),
        from <= j && m.slots[j] is Some && m.slots[j]->0.pid == pid ==> pid_dropped_from(
            m,
            pid,
            from,
        ).slots[j] is None,
        !(from <= j && m.slots[j] is Some && m.slots[j]->0.pid == pid) ==> pid_dropped_from(
            m,
            pid,
            from,
        ).slots[j] == m.slots[j],
    decreases m.slots.len() - from,
{
    if from < m.slots.len() {
        if m.slots[from] is Some && m.slots[from]->0.pid == pid {
            lemma_pid_dropped(dropped(m, from), pid, from + 1, j);
        } else {
            lemma_pid_dropped(m, pid, from + 1, j);
        }
    }
}

/// Dropping what processes left behind takes the tables of those that are gone and no other's: the table
/// of a pid that is still among the live ones stays as it is.
pub proof fn law_tables_of_the_gone_are_dropped(m: FdRegistryModel, live: Seq<u64>, from: int, j: int)
    requires
        0 <= from <= m.slots.len(),
        0 <= j < m.slots.len(),
    ensures
        ({
            let after = stale_dropped_from(m, live, from);
            &&& after.slots.len() == m.slots.len()
            &&& m.slots[j] is Some && live.contains(m.slots[j]->0.pid) ==> after.slots[j]
                == m.slots[j]
            &&& from <= j && m.slots[j] is Some && !live.contains(m.slots[j]->0.pid)
                ==> after.slots[j] is None
            &&& m.slots[j] is None ==> after.slots[j] is None
        }),
    decreases m.slots.len() - from,
{
    if from < m.slots.len() {
        if m.slots[from] is Some && !is_among(live, m.slots[from]->0.pid) {
            let pid = m.slots[from]->0.pid;
            lemma_pid_dropped(m, pid, 0, from);
            lemma_pid_dropped(m, pid, 0, j);
            law_tables_of_the_gone_are_dropped(
                pid_dropped_from(m, pid, 0),
                live,
                from + 1,
                j,
            );
        } else {
            law_tables_of_the_gone_are_dropped(m, live, from + 1, j);
        }
    }
}

/// A console fd that is bound anew has a console of its own, reached through the new handle, and keeps its
/// flag; the other fds of the table stay as they are, and so does an fd that is closed or no console.
pub proof fn law_rebound_fd_has_its_own_console(
    t: FdEntries,
    p: PoolModel,
    owner: u64,
    fd: u64,
    handle: u64,
    other: int,
)
    requires
        pool_wf(p),
        t.len() == LINUX_FD_TABLE_CAPACITY,
        0 <= other < t.len(),
    ensures
        ({
            let (after, pool, r) = rebound(t, p, owner, fd, handle);
            &&& other != fd ==> after[other] == t[other]
            &&& after.len() == t.len()
            &&& r is Ok && fd < t.len() && t[fd as int] is Some && description_of(
                p,
                t[fd as int]->0.open,
            ).kind is Console ==> {
                &&& after[fd as int] is Some
                &&& after[fd as int]->0.flags == t[fd as int]->0.flags
                &&& names_live(pool, after[fd as int]->0.open)
                &&& description_of(pool, after[fd as int]->0.open).kind is Console
                &&& (description_of(
                    pool,
                    after[fd as int]->0.open,
                ).kind->Console_0).capability_handle == handle
                &&& description_of(pool, after[fd as int]->0.open).refcount == 1
                &&& description_of(pool, after[fd as int]->0.open).status == (OpenStatus {
                    access: OpenAccess::WriteOnly,
                    nonblock: false,
                    append: false,
                })
            }
            &&& fd >= t.len() || t[fd as int] is None || !(description_of(
                p,
                t[fd as int]->0.open,
            ).kind is Console) ==> after == t && pool == p
        }),
{
    let (t1, p1, _) = closed(t, p, fd);
    assert(pool_wf(p1));
    lemma_fresh_ref(p1, owner, console(handle), console_status());
    super::open_description::lemma_free_slot(p1.slots, 0);
}

/// A description is put at a given fd only where that fd is closed and there is room for one more reference;
/// it is then open there, with the flags that were given, and every other fd stays.
pub proof fn law_fd_is_set_where_it_is_closed(
    t: FdEntries,
    p: PoolModel,
    fd: u64,
    open: OpenDescriptionId,
    flags: FdFlags,
    other: int,
)
    requires
        t.len() == LINUX_FD_TABLE_CAPACITY,
        0 <= other < t.len(),
    ensures
        ({
            let (after, pool, r) = opened_at(t, p, fd, open, flags);
            &&& r is Ok <==> fd < t.len() && t[fd as int] is None && names_live(p, open)
                && description_of(p, open).refcount < OPEN_DESCRIPTION_REF_MAX
            &&& r is Ok ==> after[fd as int] == Some(FdEntry { open, flags })
            &&& r is Err ==> after == t && pool == p
            &&& other != fd ==> after[other] == t[other]
        }),
{
}

} // verus!
