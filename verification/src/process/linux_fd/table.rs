//! Per-process Linux fd table (compatibility integers to open descriptions).

use super::open_description::{
    allocated, description_of, names_live, ref_added, ref_released, ConsoleSinkRef,
    DescriptorKind, OpenAccess, OpenDescriptionId, OpenDescriptionPool, OpenStatus, PoolModel,
};
use crate::abi::{LinuxErrno, EBADF, EMFILE};
use vstd::prelude::*;

verus! {

/// Per-process fd table size.
pub const LINUX_FD_TABLE_CAPACITY: usize = 16;

/// Linux stdout.
pub const LINUX_STDOUT_FD: u64 = 1;

/// Linux stderr.
pub const LINUX_STDERR_FD: u64 = 2;

/// Per-fd flags (`FD_CLOEXEC` is per integer slot, not on the open description).
#[derive(Clone, Copy, Debug, PartialEq, Eq, Structural)]
pub struct FdFlags {
    pub cloexec: bool,
}

#[derive(Clone, Copy, Debug, PartialEq, Eq, Structural)]
pub struct FdEntry {
    pub open: OpenDescriptionId,
    pub flags: FdFlags,
}

#[derive(Clone, Copy, Debug, PartialEq, Eq)]
pub struct LinuxFdTable {
    pub entries: [Option<FdEntry>; 16],
}

/// The entries of one fd table.
pub type FdEntries = Seq<Option<FdEntry>>;

/// A table without open fds.
pub open spec fn no_entries() -> FdEntries {
    Seq::new(16, |i: int| None::<FdEntry>)
}

/// The entry of an fd, if it is open.
pub open spec fn entry_at(t: FdEntries, fd: u64) -> Option<FdEntry> {
    if fd < t.len() {
        t[fd as int]
    } else {
        None
    }
}

/// The least closed fd at or above `from`.
pub open spec fn closed_from(t: FdEntries, from: int) -> Option<int>
    decreases t.len() - from,
{
    if from < 0 || from >= t.len() {
        None
    } else if t[from] is None {
        Some(from)
    } else {
        closed_from(t, from + 1)
    }
}

/// Opening the description at the lowest closed fd.
pub open spec fn opened_lowest(
    t: FdEntries,
    p: PoolModel,
    open: OpenDescriptionId,
    flags: FdFlags,
) -> (FdEntries, PoolModel, Result<i32, LinuxErrno>) {
    match closed_from(t, 0) {
        None => (t, p, Err(EMFILE)),
        Some(i) => match ref_added(p, open).1 {
            Err(e) => (t, p, Err(e)),
            Ok(()) => (
                t.update(i, Some(FdEntry { open, flags })),
                ref_added(p, open).0,
                Ok(i as i32),
            ),
        },
    }
}

/// Opening the description at a given closed fd.
pub open spec fn opened_at(
    t: FdEntries,
    p: PoolModel,
    fd: u64,
    open: OpenDescriptionId,
    flags: FdFlags,
) -> (FdEntries, PoolModel, Result<(), LinuxErrno>) {
    if fd >= t.len() {
        (t, p, Err(EBADF))
    } else if t[fd as int] is Some {
        (t, p, Err(EMFILE))
    } else {
        match ref_added(p, open).1 {
            Err(e) => (t, p, Err(e)),
            Ok(()) => (
                t.update(fd as int, Some(FdEntry { open, flags })),
                ref_added(p, open).0,
                Ok(()),
            ),
        }
    }
}

/// Closing an fd: its entry goes and its description has one reference fewer.
pub open spec fn closed(t: FdEntries, p: PoolModel, fd: u64) -> (
    FdEntries,
    PoolModel,
    Result<(), LinuxErrno>,
) {
    match entry_at(t, fd) {
        None => (t, p, Err(EBADF)),
        Some(entry) => {
            let (p1, r) = ref_released(p, entry.open);
            (t.update(fd as int, None), p1, r)
        },
    }
}

/// `dup2`: `new_fd` is closed if open, then shares the description of `old_fd`, without cloexec.
pub open spec fn duplicated(t: FdEntries, p: PoolModel, old_fd: u64, new_fd: u64) -> (
    FdEntries,
    PoolModel,
    Result<(), LinuxErrno>,
) {
    match entry_at(t, old_fd) {
        None => (t, p, Err(EBADF)),
        Some(entry) => if old_fd == new_fd {
            (t, p, Ok(()))
        } else {
            let (t1, p1, r1) = if entry_at(t, new_fd) is Some {
                closed(t, p, new_fd)
            } else {
                (t, p, Ok::<(), LinuxErrno>(()))
            };
            match r1 {
                Err(e) => (t1, p1, Err(e)),
                Ok(()) => if new_fd >= t.len() {
                    (t1, p1, Err(EBADF))
                } else {
                    match ref_added(p1, entry.open).1 {
                        Err(e) => (t1, p1, Err(e)),
                        Ok(()) => (
                            t1.update(
                                new_fd as int,
                                Some(
                                    FdEntry {
                                        open: entry.open,
                                        flags: FdFlags { cloexec: false },
                                    },
                                ),
                            ),
                            ref_added(p1, entry.open).0,
                            Ok(()),
                        ),
                    }
                },
            }
        },
    }
}

/// Giving a child the parent's entries at or above `from`, each with one more reference.
pub open spec fn inherited_from(parent: FdEntries, child: FdEntries, p: PoolModel, from: int) -> (
    FdEntries,
    PoolModel,
    Result<(), LinuxErrno>,
)
    decreases parent.len() - from,
{
    if from < 0 || from >= parent.len() {
        (child, p, Ok(()))
    } else {
        match parent[from] {
            None => inherited_from(parent, child, p, from + 1),
            Some(entry) => match ref_added(p, entry.open).1 {
                Err(e) => (child, p, Err(e)),
                Ok(()) => inherited_from(
                    parent,
                    child.update(from, Some(entry)),
                    ref_added(p, entry.open).0,
                    from + 1,
                ),
            },
        }
    }
}

/// Closing the cloexec fds at or above `from`.
pub open spec fn cloexec_closed_from(t: FdEntries, p: PoolModel, from: int) -> (FdEntries, PoolModel)
    decreases t.len() - from,
{
    if from < 0 || from >= t.len() {
        (t, p)
    } else if t[from] is Some && t[from]->0.flags.cloexec {
        cloexec_closed_from(
            closed(t, p, from as u64).0,
            closed(t, p, from as u64).1,
            from + 1,
        )
    } else {
        cloexec_closed_from(t, p, from + 1)
    }
}

/// Closing every fd at or above `from`, up to the first that fails.
pub open spec fn released_from(t: FdEntries, p: PoolModel, from: int) -> (
    FdEntries,
    PoolModel,
    Result<(), LinuxErrno>,
)
    decreases t.len() - from,
{
    if from < 0 || from >= t.len() {
        (t, p, Ok(()))
    } else if t[from] is None {
        released_from(t, p, from + 1)
    } else {
        let (t1, p1, r) = closed(t, p, from as u64);
        match r {
            Err(e) => (t1, p1, Err(e)),
            Ok(()) => released_from(t1, p1, from + 1),
        }
    }
}

/// The status of a console description.
pub open spec fn console_status() -> OpenStatus {
    OpenStatus { access: OpenAccess::WriteOnly, nonblock: false, append: false }
}

pub open spec fn console(handle: u64) -> DescriptorKind {
    DescriptorKind::Console(ConsoleSinkRef { capability_handle: handle })
}

/// A fresh table with consoles of their own at stdout and stderr.
pub open spec fn stdio_installed(p: PoolModel, pid: u64, stdout: u64, stderr: u64) -> (
    FdEntries,
    PoolModel,
    Result<(), LinuxErrno>,
) {
    let (p1, out) = allocated(p, pid, console(stdout), console_status());
    match out {
        Err(e) => (no_entries(), p, Err(e)),
        Ok(out_id) => {
            let (p2, err) = allocated(p1, pid, console(stderr), console_status());
            match err {
                Err(e) => (no_entries(), p1, Err(e)),
                Ok(err_id) => {
                    let p3 = ref_added(p2, out_id).0;
                    let p4 = ref_added(p3, err_id).0;
                    let flags = FdFlags { cloexec: false };
                    (
                        no_entries().update(1, Some(FdEntry { open: out_id, flags })).update(
                            2,
                            Some(FdEntry { open: err_id, flags }),
                        ),
                        p4,
                        Ok(()),
                    )
                },
            }
        },
    }
}

/// Replaces an fd that still shares a console by one with a console description of its own; any
/// other fd stays.
pub open spec fn rebound(t: FdEntries, p: PoolModel, owner: u64, fd: u64, handle: u64) -> (
    FdEntries,
    PoolModel,
    Result<(), LinuxErrno>,
) {
    match entry_at(t, fd) {
        None => (t, p, Ok(())),
        Some(entry) => if !names_live(p, entry.open) {
            (t, p, Err(EBADF))
        } else if !(description_of(p, entry.open).kind is Console) {
            (t, p, Ok(()))
        } else {
            let (t1, p1, r1) = closed(t, p, fd);
            match r1 {
                Err(e) => (t1, p1, Err(e)),
                Ok(()) => {
                    let (p2, made) = allocated(p1, owner, console(handle), console_status());
                    match made {
                        Err(e) => (t1, p2, Err(e)),
                        Ok(open) => (
                            t1.update(fd as int, Some(FdEntry { open, flags: entry.flags })),
                            ref_added(p2, open).0,
                            Ok(()),
                        ),
                    }
                },
            }
        },
    }
}

/// The first reference to a new description always succeeds.
pub proof fn lemma_fresh_ref(p: PoolModel, owner: u64, kind: DescriptorKind, status: OpenStatus)
    requires
        super::open_description::pool_wf(p),
    ensures
        super::open_description::pool_wf(allocated(p, owner, kind, status).0),
        allocated(p, owner, kind, status).1 matches Ok(id) ==> {
            let after = allocated(p, owner, kind, status).0;
            &&& id.index < after.slots.len()
            &&& !p.slots[id.index as int].live
            &&& names_live(after, id)
            &&& description_of(after, id).refcount == 0
            &&& ref_added(after, id).1 is Ok
            &&& forall|other: OpenDescriptionId|
                names_live(p, other) ==> #[trigger] names_live(after, other) && other.index
                    != id.index && description_of(after, other) == description_of(p, other)
        },
{
    super::open_description::lemma_free_slot(p.slots, 0);
}

impl LinuxFdTable {
    /// A table without open fds.
    pub fn empty() -> (r: LinuxFdTable)
        ensures
            r.entries@ == no_entries(),
    {
        let r = LinuxFdTable { entries: [None; 16] };
        assert(r.entries@ =~= no_entries());
        r
    }

    /// The entry of an fd, if it is open.
    pub fn get(&self, fd: u64) -> (r: Option<FdEntry>)
        ensures
            r == entry_at(self.entries@, fd),
    {
        if fd < LINUX_FD_TABLE_CAPACITY as u64 {
            self.entries[fd as usize]
        } else {
            None
        }
    }

    /// Drops the entry of an fd.
    pub fn clear_entry(&mut self, fd: u64)
        ensures
            final(self).entries@ == (if fd < 16 {
                old(self).entries@.update(fd as int, None)
            } else {
                old(self).entries@
            }),
    {
        if fd < LINUX_FD_TABLE_CAPACITY as u64 {
            self.entries[fd as usize] = None;
        }
    }

    /// Opens the description at the lowest closed fd.
    pub fn alloc_lowest(
        &mut self,
        pool: &mut OpenDescriptionPool,
        open: OpenDescriptionId,
        flags: FdFlags,
    ) -> (r: Result<i32, LinuxErrno>)
        requires
            old(pool).wf(),
        ensures
            final(pool).wf(),
            (final(self).entries@, final(pool).model(), r) == opened_lowest(
                old(self).entries@,
                old(pool).model(),
                open,
                flags,
            ),
    {
        let mut index: usize = 0;
        while index < LINUX_FD_TABLE_CAPACITY
            invariant
                0 <= index <= 16,
                *self == *old(self),
                *pool == *old(pool),
                pool.wf(),
                closed_from(self.entries@, 0) == closed_from(self.entries@, index as int),
            decreases 16 - index,
        {
            if self.entries[index].is_none() {
                match pool.attach_first_ref(open) {
                    Ok(()) => {},
                    Err(e) => return Err(e),
                }
                self.entries[index] = Some(FdEntry { open, flags });
                return Ok(index as i32);
            }
            index += 1;
        }
        Err(EMFILE)
    }

    /// Opens the description at a given closed fd.
    pub fn set_at(
        &mut self,
        pool: &mut OpenDescriptionPool,
        fd: u64,
        open: OpenDescriptionId,
        flags: FdFlags,
    ) -> (r: Result<(), LinuxErrno>)
        requires
            old(pool).wf(),
        ensures
            final(pool).wf(),
            (final(self).entries@, final(pool).model(), r) == opened_at(
                old(self).entries@,
                old(pool).model(),
                fd,
                open,
                flags,
            ),
    {
        if fd >= LINUX_FD_TABLE_CAPACITY as u64 {
            return Err(EBADF);
        }
        if self.entries[fd as usize].is_some() {
            return Err(EMFILE);
        }
        match pool.attach_first_ref(open) {
            Ok(()) => {},
            Err(e) => return Err(e),
        }
        self.entries[fd as usize] = Some(FdEntry { open, flags });
        Ok(())
    }
}

/// Closes an fd.
pub fn close_fd_entry(table: &mut LinuxFdTable, pool: &mut OpenDescriptionPool, fd: u64) -> (r:
    Result<(), LinuxErrno>)
    requires
        old(pool).wf(),
    ensures
        final(pool).wf(),
        (final(table).entries@, final(pool).model(), r) == closed(
            old(table).entries@,
            old(pool).model(),
            fd,
        ),
{
    let open = match table.get(fd) {
        Some(entry) => entry.open,
        None => return Err(EBADF),
    };
    table.clear_entry(fd);
    pool.release_ref(open)
}

/// Makes `new_fd` share the description of `old_fd`.
pub fn dup2_fd(
    table: &mut LinuxFdTable,
    pool: &mut OpenDescriptionPool,
    old_fd: u64,
    new_fd: u64,
) -> (r: Result<(), LinuxErrno>)
    requires
        old(pool).wf(),
    ensures
        final(pool).wf(),
        (final(table).entries@, final(pool).model(), r) == duplicated(
            old(table).entries@,
            old(pool).model(),
            old_fd,
            new_fd,
        ),
{
    let open = match table.get(old_fd) {
        Some(entry) => entry.open,
        None => return Err(EBADF),
    };
    if old_fd == new_fd {
        return Ok(());
    }
    if table.get(new_fd).is_some() {
        match close_fd_entry(table, pool, new_fd) {
            Ok(()) => {},
            Err(e) => return Err(e),
        }
    }
    if new_fd >= LINUX_FD_TABLE_CAPACITY as u64 {
        return Err(EBADF);
    }
    match pool.add_ref(open) {
        Ok(()) => {},
        Err(e) => return Err(e),
    }
    table.entries[new_fd as usize] = Some(FdEntry { open, flags: FdFlags { cloexec: false } });
    Ok(())
}

/// Gives a child the parent's open fds.
pub fn inherit_table(
    parent: &LinuxFdTable,
    pool: &mut OpenDescriptionPool,
    child: &mut LinuxFdTable,
) -> (r: Result<(), LinuxErrno>)
    requires
        old(pool).wf(),
    ensures
        final(pool).wf(),
        (final(child).entries@, final(pool).model(), r) == inherited_from(
            parent.entries@,
            no_entries(),
            old(pool).model(),
            0,
        ),
{
    *child = LinuxFdTable::empty();
    let mut index: usize = 0;
    while index < LINUX_FD_TABLE_CAPACITY
        invariant
            0 <= index <= 16,
            pool.wf(),
            inherited_from(parent.entries@, no_entries(), old(pool).model(), 0) == inherited_from(
                parent.entries@,
                child.entries@,
                pool.model(),
                index as int,
            ),
        decreases 16 - index,
    {
        if let Some(entry) = parent.entries[index] {
            match pool.add_ref(entry.open) {
                Ok(()) => {},
                Err(e) => return Err(e),
            }
            child.entries[index] = Some(entry);
        }
        index += 1;
    }
    Ok(())
}

/// Closes the fds that do not survive an exec.
pub fn close_on_exec(table: &mut LinuxFdTable, pool: &mut OpenDescriptionPool)
    requires
        old(pool).wf(),
    ensures
        final(pool).wf(),
        (final(table).entries@, final(pool).model()) == cloexec_closed_from(
            old(table).entries@,
            old(pool).model(),
            0,
        ),
{
    let mut index: usize = 0;
    while index < LINUX_FD_TABLE_CAPACITY
        invariant
            0 <= index <= 16,
            pool.wf(),
            cloexec_closed_from(old(table).entries@, old(pool).model(), 0) == cloexec_closed_from(
                table.entries@,
                pool.model(),
                index as int,
            ),
        decreases 16 - index,
    {
        if let Some(entry) = table.entries[index] {
            if entry.flags.cloexec {
                let _ = close_fd_entry(table, pool, index as u64);
            }
        }
        index += 1;
    }
}

/// Closes every open fd.
pub fn release_table(table: &mut LinuxFdTable, pool: &mut OpenDescriptionPool) -> (r: Result<
    (),
    LinuxErrno,
>)
    requires
        old(pool).wf(),
    ensures
        final(pool).wf(),
        (final(table).entries@, final(pool).model(), r) == released_from(
            old(table).entries@,
            old(pool).model(),
            0,
        ),
{
    let mut index: usize = 0;
    while index < LINUX_FD_TABLE_CAPACITY
        invariant
            0 <= index <= 16,
            pool.wf(),
            released_from(old(table).entries@, old(pool).model(), 0) == released_from(
                table.entries@,
                pool.model(),
                index as int,
            ),
        decreases 16 - index,
    {
        if table.entries[index].is_some() {
            match close_fd_entry(table, pool, index as u64) {
                Ok(()) => {},
                Err(e) => return Err(e),
            }
        }
        index += 1;
    }
    Ok(())
}

/// Empties the table and opens consoles at stdout and stderr.
pub fn install_stdio_entries(
    table: &mut LinuxFdTable,
    pool: &mut OpenDescriptionPool,
    pid: u64,
    stdout_handle: u64,
    stderr_handle: u64,
) -> (r: Result<(), LinuxErrno>)
    requires
        old(pool).wf(),
    ensures
        final(pool).wf(),
        (final(table).entries@, final(pool).model(), r) == stdio_installed(
            old(pool).model(),
            pid,
            stdout_handle,
            stderr_handle,
        ),
{
    *table = LinuxFdTable::empty();
    let write_status = OpenStatus { access: OpenAccess::WriteOnly, nonblock: false, append: false };
    proof {
        lemma_fresh_ref(pool.model(), pid, console(stdout_handle), console_status());
    }
    let stdout_open = match pool.alloc_console(
        pid,
        ConsoleSinkRef { capability_handle: stdout_handle },
        write_status,
    ) {
        Ok(id) => id,
        Err(e) => return Err(e),
    };
    proof {
        lemma_fresh_ref(pool.model(), pid, console(stderr_handle), console_status());
    }
    let ghost p1 = pool.model();
    let stderr_open = match pool.alloc_console(
        pid,
        ConsoleSinkRef { capability_handle: stderr_handle },
        write_status,
    ) {
        Ok(id) => id,
        Err(e) => return Err(e),
    };
    assert(names_live(p1, stdout_open));
    assert(names_live(pool.model(), stdout_open));
    match pool.attach_first_ref(stdout_open) {
        Ok(()) => {},
        Err(e) => return Err(e),
    }
    match pool.attach_first_ref(stderr_open) {
        Ok(()) => {},
        Err(e) => return Err(e),
    }
    let flags = FdFlags { cloexec: false };
    table.entries[1] = Some(FdEntry { open: stdout_open, flags });
    table.entries[2] = Some(FdEntry { open: stderr_open, flags });
    Ok(())
}

/// Gives an inherited console fd a console description of the child's own.
pub fn rebind_console_stdio_if_console(
    table: &mut LinuxFdTable,
    pool: &mut OpenDescriptionPool,
    owner_pid: u64,
    fd: u64,
    capability_handle: u64,
) -> (r: Result<(), LinuxErrno>)
    requires
        old(pool).wf(),
    ensures
        final(pool).wf(),
        (final(table).entries@, final(pool).model(), r) == rebound(
            old(table).entries@,
            old(pool).model(),
            owner_pid,
            fd,
            capability_handle,
        ),
{
    let entry = match table.get(fd) {
        Some(entry) => entry,
        None => return Ok(()),
    };
    let description = match pool.get(entry.open) {
        Ok(d) => d,
        Err(e) => return Err(e),
    };
    match description.kind {
        DescriptorKind::Console(_) => {},
        _ => return Ok(()),
    }
    match close_fd_entry(table, pool, fd) {
        Ok(()) => {},
        Err(e) => return Err(e),
    }
    proof {
        lemma_fresh_ref(pool.model(), owner_pid, console(capability_handle), console_status());
    }
    let open = match pool.alloc_console(
        owner_pid,
        ConsoleSinkRef { capability_handle },
        OpenStatus { access: OpenAccess::WriteOnly, nonblock: false, append: false },
    ) {
        Ok(id) => id,
        Err(e) => return Err(e),
    };
    match pool.attach_first_ref(open) {
        Ok(()) => {},
        Err(e) => return Err(e),
    }
    table.entries[fd as usize] = Some(FdEntry { open, flags: entry.flags });
    Ok(())
}

} // verus!
