//! Linux fd tables of all processes over one open-description pool.

use super::console::{console_written, write_console, ConsoleSinkRenderStyle};
use super::open_description::{
    allocated, description_of, names_live, ref_added, with_description, ConsoleSinkRef,
    DescriptorKind, DirHandleRef, FileHandleRef, OpenAccess, OpenDescription, OpenDescriptionId,
    OpenDescriptionPool, OpenStatus, PipeRef, PoolModel, SocketRef,
};
use super::table::{
    cloexec_closed_from, close_fd_entry, closed, closed_from, dup2_fd, duplicated, entry_at,
    inherit_table, inherited_from, install_stdio_entries, no_entries, opened_lowest, rebound,
    release_table, released_from, stdio_installed, FdEntries, FdEntry, FdFlags, LinuxFdTable,
    LINUX_FD_TABLE_CAPACITY,
};
use crate::abi::{LinuxErrno, EBADF, EMFILE};
use crate::ipc::{IpcSendError, IpcSendResult};
use crate::process::linux_fs::namespace::NodeId;
use crate::process::personality::ExecutionPersonality;
use crate::process::{InstanceGeneration, KERNEL_PROCESS_ID, PROCESS_REGISTRY_CAPACITY};
use vstd::prelude::*;

verus! {

/// Registry slots: one fd table per process.
pub const LINUX_FD_REGISTRY_CAPACITY: usize = PROCESS_REGISTRY_CAPACITY;

/// Kind dispatch of `read(2)`.
#[derive(Clone, Copy, Debug, PartialEq, Eq, Structural)]
pub enum LinuxReadKind {
    Console,
    Socket(SocketRef),
    Unsupported,
}

/// What an fd stands for.
#[derive(Clone, Copy, Debug, PartialEq, Eq, Structural)]
pub enum LinuxFdProjection {
    Closed,
    ConsoleEndpoint { capability_handle: u64 },
    FileBackend,
    DirBackend,
    PipeBackend,
}

#[derive(Clone, Copy, Debug, PartialEq, Eq)]
pub struct LinuxFdRegistrySlot {
    pub pid: u64,
    pub generation: InstanceGeneration,
    pub table: LinuxFdTable,
}

/// Per-process fd tables and the open-description pool that they share.
pub struct LinuxFdRegistry {
    pub slots: [Option<LinuxFdRegistrySlot>; 8],
    pub pool: OpenDescriptionPool,
}

/// An open description as seen through an fd.
#[derive(Clone, Copy, Debug, PartialEq, Eq, Structural)]
pub struct OpenDescriptionSnapshot {
    pub kind: DescriptorKind,
    pub offset: u64,
}

/// One process's fd table.
pub struct FdSlotModel {
    pub pid: u64,
    pub generation: InstanceGeneration,
    pub entries: FdEntries,
}

pub struct FdRegistryModel {
    pub slots: Seq<Option<FdSlotModel>>,
    pub pool: PoolModel,
}

pub open spec fn slot_model(s: Option<LinuxFdRegistrySlot>) -> Option<FdSlotModel> {
    match s {
        None => None,
        Some(slot) => Some(
            FdSlotModel {
                pid: slot.pid,
                generation: slot.generation,
                entries: slot.table.entries@,
            },
        ),
    }
}

/// The least index at or above `from` of the table of a process instance.
pub open spec fn table_from(
    slots: Seq<Option<FdSlotModel>>,
    pid: u64,
    generation: InstanceGeneration,
    from: int,
) -> Option<int>
    decreases slots.len() - from,
{
    if from < 0 || from >= slots.len() {
        None
    } else if slots[from] is Some && slots[from]->0.pid == pid && slots[from]->0.generation
        == generation {
        Some(from)
    } else {
        table_from(slots, pid, generation, from + 1)
    }
}

/// The least index at or above `from` of a table of a pid, of whatever instance.
pub open spec fn pid_from(slots: Seq<Option<FdSlotModel>>, pid: u64, from: int) -> Option<int>
    decreases slots.len() - from,
{
    if from < 0 || from >= slots.len() {
        None
    } else if slots[from] is Some && slots[from]->0.pid == pid {
        Some(from)
    } else {
        pid_from(slots, pid, from + 1)
    }
}

/// The least index at or above `from` of an empty slot.
pub open spec fn empty_from(slots: Seq<Option<FdSlotModel>>, from: int) -> Option<int>
    decreases slots.len() - from,
{
    if from < 0 || from >= slots.len() {
        None
    } else if slots[from] is None {
        Some(from)
    } else {
        empty_from(slots, from + 1)
    }
}

/// The registry after the descriptors of a process that an exec closes were closed.
pub open spec fn cloexec_done(m: FdRegistryModel, pid: u64, generation: InstanceGeneration) -> FdRegistryModel {
    match table_from(m.slots, pid, generation, 0) {
        None => m,
        Some(i) => {
            let (t, p) = cloexec_closed_from(m.slots[i]->0.entries, m.pool, 0);
            with_table(m, i, t, p)
        },
    }
}

/// The registry with the table at slot `i` and the pool replaced.
pub open spec fn with_table(m: FdRegistryModel, i: int, t: FdEntries, p: PoolModel) -> FdRegistryModel {
    FdRegistryModel {
        slots: m.slots.update(i, Some(FdSlotModel { entries: t, ..m.slots[i]->0 })),
        pool: p,
    }
}

/// The slot of a process instance, taken if it has none; never of the kernel.
pub open spec fn ensured(m: FdRegistryModel, pid: u64, generation: InstanceGeneration) -> (
    FdRegistryModel,
    Result<int, &'static str>,
) {
    if pid == KERNEL_PROCESS_ID {
        (m, Err("linux fd table cannot be installed for the kernel process"))
    } else {
        match table_from(m.slots, pid, generation, 0) {
            Some(i) => (m, Ok(i)),
            None => match empty_from(m.slots, 0) {
                None => (m, Err("linux fd registry capacity exceeded")),
                Some(i) => (
                    FdRegistryModel {
                        slots: m.slots.update(
                            i,
                            Some(FdSlotModel { pid, generation, entries: no_entries() }),
                        ),
                        pool: m.pool,
                    },
                    Ok(i),
                ),
            },
        }
    }
}

/// The open fd of a process instance.
pub open spec fn open_entry(m: FdRegistryModel, pid: u64, generation: InstanceGeneration, fd: u64) -> Result<
    Option<FdEntry>,
    LinuxErrno,
> {
    if fd >= LINUX_FD_TABLE_CAPACITY {
        Err(EBADF)
    } else {
        match table_from(m.slots, pid, generation, 0) {
            None => Err(EBADF),
            Some(i) => Ok(entry_at(m.slots[i]->0.entries, fd)),
        }
    }
}

/// The id of the description that an fd of a process instance has open.
pub open spec fn fd_open(m: FdRegistryModel, pid: u64, generation: InstanceGeneration, fd: u64) -> Result<
    OpenDescriptionId,
    LinuxErrno,
> {
    match table_from(m.slots, pid, generation, 0) {
        None => Err(EBADF),
        Some(i) => match entry_at(m.slots[i]->0.entries, fd) {
            None => Err(EBADF),
            Some(entry) => Ok(entry.open),
        },
    }
}

/// The description that an fd of a process instance has open.
pub open spec fn fd_description(
    m: FdRegistryModel,
    pid: u64,
    generation: InstanceGeneration,
    fd: u64,
) -> Result<OpenDescription, LinuxErrno> {
    match fd_open(m, pid, generation, fd) {
        Err(e) => Err(e),
        Ok(open) => if names_live(m.pool, open) {
            Ok(description_of(m.pool, open))
        } else {
            Err(EBADF)
        },
    }
}

/// The console that a write to an fd goes to.
pub open spec fn console_behind(
    m: FdRegistryModel,
    pid: u64,
    generation: InstanceGeneration,
    fd: u64,
) -> Result<ConsoleSinkRef, LinuxErrno> {
    match fd_description(m, pid, generation, fd) {
        Err(e) => Err(e),
        Ok(d) => match d.kind {
            DescriptorKind::Console(sink) => Ok(sink),
            _ => Err(EBADF),
        },
    }
}

/// How a write to an fd ends, and how its bytes are rendered if at all.
pub open spec fn fd_written(
    m: FdRegistryModel,
    pid: u64,
    generation: InstanceGeneration,
    fd: u64,
    bytes: Seq<u8>,
    authorized: bool,
    sent: Result<IpcSendResult, IpcSendError>,
    personality: ExecutionPersonality,
) -> (Result<usize, LinuxErrno>, Option<ConsoleSinkRenderStyle>) {
    match fd_description(m, pid, generation, fd) {
        Err(e) => (Err(e), None),
        Ok(d) => if d.kind is Console {
            console_written(bytes, authorized, sent, personality)
        } else {
            (Err(EBADF), None)
        },
    }
}

/// The pipe whose read end an fd has open.
pub open spec fn pipe_read_behind(
    m: FdRegistryModel,
    pid: u64,
    generation: InstanceGeneration,
    fd: u64,
) -> Option<PipeRef> {
    match fd_description(m, pid, generation, fd) {
        Ok(d) => match d.kind {
            DescriptorKind::PipeRead(pipe) => Some(pipe),
            _ => None,
        },
        Err(_) => None,
    }
}

/// The pipe whose write end an fd has open.
pub open spec fn pipe_write_behind(
    m: FdRegistryModel,
    pid: u64,
    generation: InstanceGeneration,
    fd: u64,
) -> Option<PipeRef> {
    match fd_description(m, pid, generation, fd) {
        Ok(d) => match d.kind {
            DescriptorKind::PipeWrite(pipe) => Some(pipe),
            _ => None,
        },
        Err(_) => None,
    }
}

/// Opening one end of a pipe at the lowest closed fd.
pub open spec fn pipe_end_opened(
    m: FdRegistryModel,
    pid: u64,
    generation: InstanceGeneration,
    pipe: PipeRef,
) -> (FdRegistryModel, Result<i32, LinuxErrno>) {
    let (held, slot) = ensured(m, pid, generation);
    match slot {
        Err(_) => (held, Err(EBADF)),
        Ok(_) => description_opened(
            held,
            pid,
            generation,
            OpenDescriptionPool::pipe_kind(pipe),
            OpenDescriptionPool::pipe_status(pipe.end),
            FdFlags { cloexec: false },
        ),
    }
}

pub open spec fn projection_of(kind: DescriptorKind) -> LinuxFdProjection {
    match kind {
        DescriptorKind::Console(sink) => LinuxFdProjection::ConsoleEndpoint {
            capability_handle: sink.capability_handle,
        },
        DescriptorKind::File(_) => LinuxFdProjection::FileBackend,
        DescriptorKind::Dir(_) => LinuxFdProjection::DirBackend,
        DescriptorKind::PipeRead(_) => LinuxFdProjection::PipeBackend,
        DescriptorKind::PipeWrite(_) => LinuxFdProjection::PipeBackend,
        DescriptorKind::Socket(_) => LinuxFdProjection::Closed,
    }
}

pub open spec fn read_kind_of(kind: DescriptorKind) -> LinuxReadKind {
    match kind {
        DescriptorKind::Console(_) => LinuxReadKind::Console,
        DescriptorKind::Socket(socket) => LinuxReadKind::Socket(socket),
        _ => LinuxReadKind::Unsupported,
    }
}

/// Dropping the table at slot `i`, its fds closed first.
pub open spec fn dropped(m: FdRegistryModel, i: int) -> FdRegistryModel {
    FdRegistryModel {
        slots: m.slots.update(i, None),
        pool: released_from(m.slots[i]->0.entries, m.pool, 0).1,
    }
}

/// Dropping every table of a pid at or above `from`.
pub open spec fn pid_dropped_from(m: FdRegistryModel, pid: u64, from: int) -> FdRegistryModel
    decreases m.slots.len() - from,
{
    if from < 0 || from >= m.slots.len() {
        m
    } else if m.slots[from] is Some && m.slots[from]->0.pid == pid {
        pid_dropped_from(dropped(m, from), pid, from + 1)
    } else {
        pid_dropped_from(m, pid, from + 1)
    }
}

/// Whether a pid is among those given.
pub open spec fn is_among(live: Seq<u64>, pid: u64) -> bool {
    exists|k: int| 0 <= k < live.len() && live[k] == pid
}

/// Dropping the tables at or above `from` whose pid is not among the live ones.
pub open spec fn stale_dropped_from(m: FdRegistryModel, live: Seq<u64>, from: int) -> FdRegistryModel
    decreases m.slots.len() - from,
{
    if from < 0 || from >= m.slots.len() {
        m
    } else if m.slots[from] is Some && !is_among(live, m.slots[from]->0.pid) {
        let next = pid_dropped_from(m, m.slots[from]->0.pid, 0);
        if next.slots.len() == m.slots.len() {
            stale_dropped_from(next, live, from + 1)
        } else {
            next
        }
    } else {
        stale_dropped_from(m, live, from + 1)
    }
}

/// What `release` does: the table of the instance, else the first of the pid.
pub open spec fn instance_released(m: FdRegistryModel, pid: u64, generation: InstanceGeneration) -> (
    FdRegistryModel,
    bool,
) {
    match table_from(m.slots, pid, generation, 0) {
        Some(i) => (dropped(m, i), true),
        None => match pid_from(m.slots, pid, 0) {
            Some(i) => (dropped(m, i), true),
            None => (m, false),
        },
    }
}

/// The descriptors after a process gave its own up.
pub open spec fn fds_released(m: FdRegistryModel, pid: u64, generation: InstanceGeneration) -> FdRegistryModel {
    let (after, found) = instance_released(m, pid, generation);
    if found {
        after
    } else {
        pid_dropped_from(after, pid, 0)
    }
}

/// Opening the description at the process instance's lowest closed fd.
pub open spec fn fd_opened(
    m: FdRegistryModel,
    pid: u64,
    generation: InstanceGeneration,
    open: OpenDescriptionId,
    flags: FdFlags,
) -> (FdRegistryModel, Result<i32, LinuxErrno>) {
    match table_from(m.slots, pid, generation, 0) {
        None => (m, Err(EBADF)),
        Some(i) => {
            let (t, p, r) = opened_lowest(m.slots[i]->0.entries, m.pool, open, flags);
            (with_table(m, i, t, p), r)
        },
    }
}

/// A new description opened at the process instance's lowest closed fd. One for which there is no fd
/// stays in the pool without references.
pub open spec fn description_opened(
    m: FdRegistryModel,
    pid: u64,
    generation: InstanceGeneration,
    kind: DescriptorKind,
    status: OpenStatus,
    flags: FdFlags,
) -> (FdRegistryModel, Result<i32, LinuxErrno>) {
    match table_from(m.slots, pid, generation, 0) {
        None => (m, Err(EBADF)),
        Some(_) => {
            let (p, made) = allocated(m.pool, pid, kind, status);
            match made {
                Err(e) => (m, Err(e)),
                Ok(open) => fd_opened(
                    FdRegistryModel { slots: m.slots, pool: p },
                    pid,
                    generation,
                    open,
                    flags,
                ),
            }
        },
    }
}

/// Duplicating to the lowest closed fd at or above `min_fd` (from 0 when `min_fd` is out of range),
/// with cloexec set.
pub open spec fn duplicated_above(t: FdEntries, p: PoolModel, old_fd: u64, min_fd: u64) -> (
    FdEntries,
    PoolModel,
    Result<i32, LinuxErrno>,
) {
    match entry_at(t, old_fd) {
        None => (t, p, Err(EBADF)),
        Some(entry) => match closed_from(
            t,
            if min_fd < LINUX_FD_TABLE_CAPACITY {
                min_fd as int
            } else {
                0
            },
        ) {
            None => (t, p, Err(EMFILE)),
            Some(i) => match ref_added(p, entry.open).1 {
                Err(e) => (t, p, Err(e)),
                Ok(()) => (
                    t.update(
                        i,
                        Some(FdEntry { open: entry.open, flags: FdFlags { cloexec: true } }),
                    ),
                    ref_added(p, entry.open).0,
                    Ok(i as i32),
                ),
            },
        },
    }
}

pub proof fn lemma_table_from(
    slots: Seq<Option<FdSlotModel>>,
    pid: u64,
    generation: InstanceGeneration,
    from: int,
)
    requires
        0 <= from <= slots.len(),
    ensures
        table_from(slots, pid, generation, from) matches Some(i) ==> from <= i < slots.len()
            && slots[i] is Some && slots[i]->0.pid == pid && slots[i]->0.generation == generation,
        table_from(slots, pid, generation, from) is None ==> forall|i: int|
            from <= i < slots.len() ==> !(#[trigger] slots[i] is Some && slots[i]->0.pid == pid
                && slots[i]->0.generation == generation),
    decreases slots.len() - from,
{
    if from < slots.len() && !(slots[from] is Some && slots[from]->0.pid == pid
        && slots[from]->0.generation == generation) {
        lemma_table_from(slots, pid, generation, from + 1);
    }
}

pub proof fn lemma_empty_from(slots: Seq<Option<FdSlotModel>>, from: int)
    requires
        0 <= from <= slots.len(),
    ensures
        empty_from(slots, from) matches Some(i) ==> from <= i < slots.len() && slots[i] is None,
    decreases slots.len() - from,
{
    if from < slots.len() && slots[from] is Some {
        lemma_empty_from(slots, from + 1);
    }
}

impl LinuxFdRegistry {
    pub open spec fn model(&self) -> FdRegistryModel {
        FdRegistryModel {
            slots: Seq::new(8, |i: int| slot_model(self.slots@[i])),
            pool: self.pool.model(),
        }
    }

    pub open spec fn wf(&self) -> bool {
        self.pool.wf()
    }

    /// A registry without tables.
    pub fn new() -> (r: LinuxFdRegistry)
        ensures
            r.wf(),
            forall|i: int| 0 <= i < 8 ==> r.slots@[i] is None,
            r.pool.live_count == 0,
            r.pool.released_sockets@.len() == 0,
            forall|i: int|
                0 <= i < 48 ==> !(#[trigger] r.pool.slots@[i]).live && r.pool.slots@[i].generation == 1,
    {
        LinuxFdRegistry { slots: [None; 8], pool: OpenDescriptionPool::new() }
    }

    /// The number of tables.
    pub fn occupied(&self) -> (r: usize)
        ensures
            r == crate::scan::count(self.model().slots, |s: Option<FdSlotModel>| s is Some),
    {
        let ghost slots = self.model().slots;
        let ghost p = |s: Option<FdSlotModel>| s is Some;
        let mut n: usize = 0;
        let mut index: usize = 0;
        assert(slots.take(0) =~= Seq::<Option<FdSlotModel>>::empty());
        while index < LINUX_FD_REGISTRY_CAPACITY
            invariant
                0 <= index <= 8,
                slots == self.model().slots,
                p == (|s: Option<FdSlotModel>| s is Some),
                n == crate::scan::count(slots.take(index as int), p),
                n <= index,
            decreases 8 - index,
        {
            proof {
                crate::scan::lemma_count_step(slots, p, index as int);
            }
            if self.slots[index].is_some() {
                n += 1;
            }
            index += 1;
        }
        assert(slots.take(8) =~= slots);
        n
    }

    /// The number of live open descriptions.
    pub fn open_description_live_count(&self) -> (r: u16)
        requires
            self.wf(),
        ensures
            r == super::open_description::live_slots(self.model().pool.slots),
    {
        self.pool.live_count()
    }

    /// The slot of a process instance.
    pub fn slot_index(&self, pid: u64, generation: InstanceGeneration) -> (r: Option<usize>)
        ensures
            match table_from(self.model().slots, pid, generation, 0) {
                Some(i) => r == Some(i as usize) && 0 <= i < 8 && self.slots@[i] is Some,
                None => r is None,
            },
    {
        let ghost slots = self.model().slots;
        let mut index: usize = 0;
        while index < LINUX_FD_REGISTRY_CAPACITY
            invariant
                0 <= index <= 8,
                slots == self.model().slots,
                table_from(slots, pid, generation, 0) == table_from(
                    slots,
                    pid,
                    generation,
                    index as int,
                ),
            decreases 8 - index,
        {
            assert(slots[index as int] == slot_model(self.slots@[index as int]));
            if let Some(entry) = &self.slots[index] {
                if entry.pid == pid && entry.generation == generation {
                    return Some(index);
                }
            }
            index += 1;
        }
        None
    }

    /// The table of the slot at an index.
    fn table_at(&self, index: usize) -> (r: LinuxFdTable)
        requires
            index < 8,
            self.slots@[index as int] is Some,
        ensures
            r.entries@ == self.model().slots[index as int]->0.entries,
    {
        match &self.slots[index] {
            Some(slot) => slot.table,
            None => LinuxFdTable::empty(),
        }
    }

    /// Puts a table back at its slot.
    fn put_table(&mut self, index: usize, table: LinuxFdTable)
        requires
            index < 8,
            old(self).slots@[index as int] is Some,
            old(self).wf(),
        ensures
            final(self).wf(),
            final(self).slots@[index as int] is Some,
            final(self).model() == with_table(
                old(self).model(),
                index as int,
                table.entries@,
                old(self).model().pool,
            ),
    {
        let ghost m = self.model();
        if let Some(slot) = self.slots[index] {
            self.slots[index] = Some(LinuxFdRegistrySlot { table, ..slot });
        }
        assert(self.model().slots =~= with_table(m, index as int, table.entries@, m.pool).slots);
    }

    /// The slot of a process instance, taken if it has none.
    pub fn ensure_slot_index(&mut self, pid: u64, generation: InstanceGeneration) -> (r: Result<
        usize,
        &'static str,
    >)
        requires
            old(self).wf(),
        ensures
            final(self).wf(),
            final(self).model() == ensured(old(self).model(), pid, generation).0,
            match ensured(old(self).model(), pid, generation).1 {
                Ok(i) => r == Ok::<usize, &'static str>(i as usize) && 0 <= i < 8 && final(self).slots@[i] is Some && table_from(final(self).model().slots, pid, generation, 0)
                    is Some,
                Err(e) => r == Err::<usize, &'static str>(e),
            },
    {
        if pid == KERNEL_PROCESS_ID {
            return Err("linux fd table cannot be installed for the kernel process");
        }
        if let Some(index) = self.slot_index(pid, generation) {
            return Ok(index);
        }
        let ghost m = self.model();
        let mut index: usize = 0;
        while index < LINUX_FD_REGISTRY_CAPACITY
            invariant
                0 <= index <= 8,
                self.wf(),
                *self == *old(self),
                m == self.model(),
                pid != KERNEL_PROCESS_ID,
                table_from(m.slots, pid, generation, 0) is None,
                empty_from(m.slots, 0) == empty_from(m.slots, index as int),
            decreases 8 - index,
        {
            assert(m.slots[index as int] == slot_model(self.slots@[index as int]));
            if self.slots[index].is_none() {
                self.slots[index] = Some(
                    LinuxFdRegistrySlot { pid, generation, table: LinuxFdTable::empty() },
                );
                proof {
                    assert(self.model().slots =~= ensured(m, pid, generation).0.slots);
                    lemma_table_from(self.model().slots, pid, generation, 0);
                    assert(self.model().slots[index as int] is Some);
                }
                return Ok(index);
            }
            index += 1;
        }
        Err("linux fd registry capacity exceeded")
    }

    /// Gives a process instance a fresh table with consoles at stdout and stderr.
    pub fn install(
        &mut self,
        pid: u64,
        generation: InstanceGeneration,
        stdout_handle: u64,
        stderr_handle: u64,
    ) -> (r: Result<(), &'static str>)
        requires
            old(self).wf(),
        ensures
            final(self).wf(),
            ({
                let (m, slot) = ensured(old(self).model(), pid, generation);
                match slot {
                    Err(e) => r == Err::<(), &'static str>(e) && final(self).model() == m,
                    Ok(i) => {
                        let (t, p, done) = stdio_installed(m.pool, pid, stdout_handle, stderr_handle);
                        &&& final(self).model() == with_table(m, i, t, p)
                        &&& r == match done {
                            Ok(()) => Ok::<(), &'static str>(()),
                            Err(_) => Err("linux fd stdio install failed"),
                        }
                    },
                }
            }),
    {
        let index: usize = match self.ensure_slot_index(pid, generation) {
            Ok(index) => index,
            Err(e) => return Err(e),
        };
        let ghost m = self.model();
        let mut table = self.table_at(index);
        let done = install_stdio_entries(
            &mut table,
            &mut self.pool,
            pid,
            stdout_handle,
            stderr_handle,
        );
        assert(self.model().slots =~= m.slots);
        self.put_table(index, table);
        match done {
            Ok(()) => Ok(()),
            Err(_) => Err("linux fd stdio install failed"),
        }
    }

    /// The open fd of a process instance.
    pub fn open_fd_entry(&self, pid: u64, generation: InstanceGeneration, fd: u64) -> (r: Result<
        Option<FdEntry>,
        LinuxErrno,
    >)
        ensures
            r == open_entry(self.model(), pid, generation, fd),
    {
        if fd >= LINUX_FD_TABLE_CAPACITY as u64 {
            return Err(EBADF);
        }
        match self.slot_index(pid, generation) {
            None => Err(EBADF),
            Some(index) => Ok(self.table_at(index).get(fd)),
        }
    }

    /// Succeeds when the fd is open on a live description.
    pub fn ensure_open_fd(&self, pid: u64, generation: InstanceGeneration, fd: u64) -> (r: Result<
        (),
        LinuxErrno,
    >)
        ensures
            r == match open_entry(self.model(), pid, generation, fd) {
                Ok(Some(entry)) => if names_live(self.model().pool, entry.open) {
                    Ok::<(), LinuxErrno>(())
                } else {
                    Err(EBADF)
                },
                Ok(None) => Err(EBADF),
                Err(e) => Err(e),
            },
    {
        match self.open_fd_entry(pid, generation, fd) {
            Err(e) => Err(e),
            Ok(None) => Err(EBADF),
            Ok(Some(entry)) => match self.pool.get(entry.open) {
                Ok(_) => Ok(()),
                Err(e) => Err(e),
            },
        }
    }

    /// What an fd stands for.
    pub fn projection_for(&self, pid: u64, generation: InstanceGeneration, fd: u64) -> (r: Result<
        LinuxFdProjection,
        LinuxErrno,
    >)
        ensures
            r == match open_entry(self.model(), pid, generation, fd) {
                Ok(Some(entry)) => if names_live(self.model().pool, entry.open) {
                    Ok::<LinuxFdProjection, LinuxErrno>(
                        projection_of(description_of(self.model().pool, entry.open).kind),
                    )
                } else {
                    Err(EBADF)
                },
                Ok(None) => Ok(LinuxFdProjection::Closed),
                Err(e) => Err(e),
            },
    {
        let entry = match self.open_fd_entry(pid, generation, fd) {
            Err(e) => return Err(e),
            Ok(None) => return Ok(LinuxFdProjection::Closed),
            Ok(Some(entry)) => entry,
        };
        let description = match self.pool.get(entry.open) {
            Ok(d) => d,
            Err(e) => return Err(e),
        };
        match description.kind {
            DescriptorKind::Console(sink) => Ok(
                LinuxFdProjection::ConsoleEndpoint { capability_handle: sink.capability_handle },
            ),
            DescriptorKind::File(_) => Ok(LinuxFdProjection::FileBackend),
            DescriptorKind::Dir(_) => Ok(LinuxFdProjection::DirBackend),
            DescriptorKind::PipeRead(_) => Ok(LinuxFdProjection::PipeBackend),
            DescriptorKind::PipeWrite(_) => Ok(LinuxFdProjection::PipeBackend),
            DescriptorKind::Socket(_) => Ok(LinuxFdProjection::Closed),
        }
    }

    /// Drops the table at an index, closing its fds.
    fn drop_table(&mut self, index: usize)
        requires
            index < 8,
            old(self).slots@[index as int] is Some,
            old(self).wf(),
        ensures
            final(self).wf(),
            final(self).model() == dropped(old(self).model(), index as int),
    {
        let ghost m = self.model();
        let mut table = self.table_at(index);
        let _ = release_table(&mut table, &mut self.pool);
        self.slots[index] = None;
        assert(self.model().slots =~= m.slots.update(index as int, None));
    }

    /// The first slot of a pid.
    fn pid_index(&self, pid: u64) -> (r: Option<usize>)
        ensures
            match pid_from(self.model().slots, pid, 0) {
                Some(i) => r == Some(i as usize) && 0 <= i < 8 && self.slots@[i] is Some,
                None => r is None,
            },
    {
        let ghost slots = self.model().slots;
        let mut index: usize = 0;
        while index < LINUX_FD_REGISTRY_CAPACITY
            invariant
                0 <= index <= 8,
                slots == self.model().slots,
                pid_from(slots, pid, 0) == pid_from(slots, pid, index as int),
            decreases 8 - index,
        {
            assert(slots[index as int] == slot_model(self.slots@[index as int]));
            if let Some(entry) = &self.slots[index] {
                if entry.pid == pid {
                    return Some(index);
                }
            }
            index += 1;
        }
        None
    }

    /// Drops the table of a process instance, or failing that the first table of its pid.
    pub fn release(&mut self, pid: u64, generation: InstanceGeneration) -> (r: bool)
        requires
            old(self).wf(),
        ensures
            final(self).wf(),
            (final(self).model(), r) == instance_released(old(self).model(), pid, generation),
    {
        let index = match self.slot_index(pid, generation) {
            Some(index) => Some(index),
            None => self.pid_index(pid),
        };
        match index {
            Some(index) => {
                self.drop_table(index);
                true
            },
            None => false,
        }
    }

    /// Drops every table of a pid.
    pub fn release_by_pid(&mut self, pid: u64)
        requires
            old(self).wf(),
        ensures
            final(self).wf(),
            final(self).model() == pid_dropped_from(old(self).model(), pid, 0),
    {
        let mut index: usize = 0;
        while index < LINUX_FD_REGISTRY_CAPACITY
            invariant
                0 <= index <= 8,
                self.wf(),
                pid_dropped_from(old(self).model(), pid, 0) == pid_dropped_from(
                    self.model(),
                    pid,
                    index as int,
                ),
            decreases 8 - index,
        {
            assert(self.model().slots[index as int] == slot_model(self.slots@[index as int]));
            if let Some(entry) = self.slots[index] {
                if entry.pid == pid {
                    self.drop_table(index);
                }
            }
            index += 1;
        }
    }

    /// Drops the table of a process instance, or failing that every table of its pid.
    pub fn release_for_process(&mut self, pid: u64, generation: InstanceGeneration)
        requires
            old(self).wf(),
        ensures
            final(self).wf(),
            final(self).model() == fds_released(old(self).model(), pid, generation),
    {
        if self.release(pid, generation) {
            return;
        }
        self.release_by_pid(pid);
    }

    /// Drops the tables whose pid is not among the live ones.
    pub fn release_stale_registry_slots(&mut self, live: &[u64])
        requires
            old(self).wf(),
        ensures
            final(self).wf(),
            final(self).model() == stale_dropped_from(old(self).model(), live@, 0),
    {
        let mut index: usize = 0;
        while index < LINUX_FD_REGISTRY_CAPACITY
            invariant
                0 <= index <= 8,
                self.wf(),
                stale_dropped_from(old(self).model(), live@, 0) == stale_dropped_from(
                    self.model(),
                    live@,
                    index as int,
                ),
            decreases 8 - index,
        {
            assert(self.model().slots[index as int] == slot_model(self.slots@[index as int]));
            if let Some(entry) = self.slots[index] {
                if !pid_among(live, entry.pid) {
                    self.release_by_pid(entry.pid);
                }
            }
            index += 1;
        }
    }

    /// Kind dispatch of `read(2)`.
    pub fn read_kind_for_fd(&self, pid: u64, generation: InstanceGeneration, fd: u64) -> (r: Result<
        LinuxReadKind,
        LinuxErrno,
    >)
        ensures
            r == match fd_description(self.model(), pid, generation, fd) {
                Ok(d) => Ok::<LinuxReadKind, LinuxErrno>(read_kind_of(d.kind)),
                Err(e) => Err(e),
            },
    {
        match self.description_for(pid, generation, fd) {
            Err(e) => Err(e),
            Ok(d) => match d.kind {
                DescriptorKind::Console(_) => Ok(LinuxReadKind::Console),
                DescriptorKind::Socket(socket) => Ok(LinuxReadKind::Socket(socket)),
                _ => Ok(LinuxReadKind::Unsupported),
            },
        }
    }

    /// The description that an fd has open.
    pub fn description_for(&self, pid: u64, generation: InstanceGeneration, fd: u64) -> (r: Result<
        OpenDescription,
        LinuxErrno,
    >)
        ensures
            r == fd_description(self.model(), pid, generation, fd),
    {
        match self.open_description_for_fd(pid, generation, fd) {
            Err(e) => Err(e),
            Ok(open) => self.pool.get(open),
        }
    }

    /// The id of the description that an fd has open.
    pub fn open_description_for_fd(&self, pid: u64, generation: InstanceGeneration, fd: u64) -> (r:
        Result<OpenDescriptionId, LinuxErrno>)
        ensures
            r == fd_open(self.model(), pid, generation, fd),
    {
        match self.slot_index(pid, generation) {
            None => Err(EBADF),
            Some(index) => match self.table_at(index).get(fd) {
                None => Err(EBADF),
                Some(entry) => Ok(entry.open),
            },
        }
    }

    /// The console that a write to an fd goes to.
    pub fn console_for_write(&self, pid: u64, generation: InstanceGeneration, fd: u64) -> (r: Result<
        ConsoleSinkRef,
        LinuxErrno,
    >)
        ensures
            r == console_behind(self.model(), pid, generation, fd),
    {
        match self.description_for(pid, generation, fd) {
            Err(e) => Err(e),
            Ok(d) => match d.kind {
                DescriptorKind::Console(sink) => Ok(sink),
                _ => Err(EBADF),
            },
        }
    }

    /// Ends a write to an fd; the last three arguments are as for `write_console`.
    pub fn write_fd(
        &self,
        pid: u64,
        generation: InstanceGeneration,
        fd: u64,
        bytes: &[u8],
        authorized: bool,
        sent: Result<IpcSendResult, IpcSendError>,
        personality: ExecutionPersonality,
    ) -> (r: (Result<usize, LinuxErrno>, Option<ConsoleSinkRenderStyle>))
        ensures
            r == fd_written(
                self.model(),
                pid,
                generation,
                fd,
                bytes@,
                authorized,
                sent,
                personality,
            ),
    {
        match self.console_for_write(pid, generation, fd) {
            Err(e) => (Err(e), None),
            Ok(_) => write_console(bytes, authorized, sent, personality),
        }
    }

    /// A new description of one end of a pipe.
    pub fn alloc_pipe_description(&mut self, owner_pid: u64, pipe: PipeRef) -> (r: Result<
        OpenDescriptionId,
        LinuxErrno,
    >)
        requires
            old(self).wf(),
        ensures
            final(self).wf(),
            final(self).model().slots == old(self).model().slots,
            (final(self).model().pool, r) == allocated(
                old(self).model().pool,
                owner_pid,
                OpenDescriptionPool::pipe_kind(pipe),
                OpenDescriptionPool::pipe_status(pipe.end),
            ),
    {
        self.pool.alloc_pipe(owner_pid, pipe)
    }

    /// Opens one end of a pipe at the lowest closed fd.
    pub fn alloc_pipe_end(&mut self, pid: u64, generation: InstanceGeneration, pipe: PipeRef) -> (r:
        Result<i32, LinuxErrno>)
        requires
            old(self).wf(),
        ensures
            final(self).wf(),
            (final(self).model(), r) == pipe_end_opened(old(self).model(), pid, generation, pipe),
    {
        match self.ensure_slot_index(pid, generation) {
            Ok(_) => {},
            Err(_) => return Err(EBADF),
        }
        let open = match self.alloc_pipe_description(pid, pipe) {
            Ok(open) => open,
            Err(e) => return Err(e),
        };
        self.alloc_lowest_fd(pid, generation, open, FdFlags { cloexec: false })
    }

    /// The kind of the description that an fd has open.
    pub fn open_description_kind(&self, pid: u64, generation: InstanceGeneration, fd: u64) -> (r:
        Result<DescriptorKind, LinuxErrno>)
        ensures
            r == match fd_description(self.model(), pid, generation, fd) {
                Ok(d) => Ok::<DescriptorKind, LinuxErrno>(d.kind),
                Err(e) => Err(e),
            },
    {
        match self.description_for(pid, generation, fd) {
            Ok(d) => Ok(d.kind),
            Err(e) => Err(e),
        }
    }

    /// The pipe whose read end an fd has open.
    pub fn pipe_read_ref(&self, pid: u64, generation: InstanceGeneration, fd: u64) -> (r: Option<
        PipeRef,
    >)
        ensures
            r == pipe_read_behind(self.model(), pid, generation, fd),
    {
        match self.open_description_kind(pid, generation, fd) {
            Ok(DescriptorKind::PipeRead(pipe)) => Some(pipe),
            _ => None,
        }
    }

    /// The pipe whose write end an fd has open.
    pub fn pipe_write_ref(&self, pid: u64, generation: InstanceGeneration, fd: u64) -> (r: Option<
        PipeRef,
    >)
        ensures
            r == pipe_write_behind(self.model(), pid, generation, fd),
    {
        match self.open_description_kind(pid, generation, fd) {
            Ok(DescriptorKind::PipeWrite(pipe)) => Some(pipe),
            _ => None,
        }
    }

    /// Closes an fd.
    pub fn close_fd(&mut self, pid: u64, generation: InstanceGeneration, fd: u64) -> (r: Result<
        (),
        LinuxErrno,
    >)
        requires
            old(self).wf(),
        ensures
            final(self).wf(),
            (final(self).model(), r) == fd_closed(old(self).model(), pid, generation, fd),
    {
        let index: usize = match self.slot_index(pid, generation) {
            Some(index) => index,
            None => return Err(EBADF),
        };
        let ghost m = self.model();
        let mut table = self.table_at(index);
        let done = close_fd_entry(&mut table, &mut self.pool, fd);
        assert(self.model().slots =~= m.slots);
        self.put_table(index, table);
        done
    }

    /// Makes `new_fd` share the description of `old_fd`.
    pub fn dup2(&mut self, pid: u64, generation: InstanceGeneration, old_fd: u64, new_fd: u64) -> (r:
        Result<(), LinuxErrno>)
        requires
            old(self).wf(),
        ensures
            final(self).wf(),
            (final(self).model(), r) == fd_duplicated(
                old(self).model(),
                pid,
                generation,
                old_fd,
                new_fd,
            ),
    {
        let index: usize = match self.slot_index(pid, generation) {
            Some(index) => index,
            None => return Err(EBADF),
        };
        let ghost m = self.model();
        let mut table = self.table_at(index);
        let done = dup2_fd(&mut table, &mut self.pool, old_fd, new_fd);
        assert(self.model().slots =~= m.slots);
        self.put_table(index, table);
        done
    }

    /// Sets whether an fd survives an exec.
    pub fn set_fd_cloexec(
        &mut self,
        pid: u64,
        generation: InstanceGeneration,
        fd: u64,
        cloexec: bool,
    ) -> (r: Result<(), LinuxErrno>)
        requires
            old(self).wf(),
        ensures
            final(self).wf(),
            (final(self).model(), r) == cloexec_set(
                old(self).model(),
                pid,
                generation,
                fd,
                cloexec,
            ),
    {
        let index: usize = match self.slot_index(pid, generation) {
            Some(index) => index,
            None => return Err(EBADF),
        };
        let mut table = self.table_at(index);
        match table.get(fd) {
            None => Err(EBADF),
            Some(entry) => {
                table.entries[fd as usize] = Some(
                    FdEntry { open: entry.open, flags: FdFlags { cloexec } },
                );
                self.put_table(index, table);
                Ok(())
            },
        }
    }

    /// Whether an fd is closed by an exec.
    pub fn get_fd_cloexec(&self, pid: u64, generation: InstanceGeneration, fd: u64) -> (r: Result<
        bool,
        LinuxErrno,
    >)
        ensures
            r == cloexec_of(self.model(), pid, generation, fd),
    {
        match self.slot_index(pid, generation) {
            None => Err(EBADF),
            Some(index) => match self.table_at(index).get(fd) {
                None => Err(EBADF),
                Some(entry) => Ok(entry.flags.cloexec),
            },
        }
    }

    /// The status of the description that an fd has open.
    pub fn open_description_status(&self, pid: u64, generation: InstanceGeneration, fd: u64) -> (r:
        Result<OpenStatus, LinuxErrno>)
        ensures
            r == match fd_description(self.model(), pid, generation, fd) {
                Ok(d) => Ok::<OpenStatus, LinuxErrno>(d.status),
                Err(e) => Err(e),
            },
    {
        match self.description_for(pid, generation, fd) {
            Ok(d) => Ok(d.status),
            Err(e) => Err(e),
        }
    }

    /// Sets the status of the description that an fd has open, for every fd that shares it.
    pub fn set_open_description_status(
        &mut self,
        pid: u64,
        generation: InstanceGeneration,
        fd: u64,
        status: OpenStatus,
    ) -> (r: Result<(), LinuxErrno>)
        requires
            old(self).wf(),
        ensures
            final(self).wf(),
            (final(self).model(), r) == status_set(
                old(self).model(),
                pid,
                generation,
                fd,
                status,
            ),
    {
        let open = match self.open_description_for_fd(pid, generation, fd) {
            Ok(open) => open,
            Err(e) => return Err(e),
        };
        let description = match self.pool.get(open) {
            Ok(d) => d,
            Err(e) => return Err(e),
        };
        self.pool.put(open, OpenDescription { status, ..description });
        Ok(())
    }

    /// Gives a child the parent's open fds.
    pub fn inherit_for_child(
        &mut self,
        parent_pid: u64,
        parent_gen: InstanceGeneration,
        child_pid: u64,
        child_gen: InstanceGeneration,
    ) -> (r: Result<(), LinuxErrno>)
        requires
            old(self).wf(),
        ensures
            final(self).wf(),
            (final(self).model(), r) == inherited_by(
                old(self).model(),
                parent_pid,
                parent_gen,
                child_pid,
                child_gen,
            ),
    {
        let parent_table = match self.slot_index(parent_pid, parent_gen) {
            Some(index) => self.table_at(index),
            None => return Err(EBADF),
        };
        let child_index: usize = match self.ensure_slot_index(child_pid, child_gen) {
            Ok(index) => index,
            Err(_) => return Err(EBADF),
        };
        let ghost m = self.model();
        let mut table = self.table_at(child_index);
        let done = inherit_table(&parent_table, &mut self.pool, &mut table);
        assert(self.model().slots =~= m.slots);
        self.put_table(child_index, table);
        done
    }

    /// Closes the fds that do not survive an exec; a process without a table has none.
    pub fn close_on_exec_for_process(&mut self, pid: u64, generation: InstanceGeneration) -> (r:
        Result<(), LinuxErrno>)
        requires
            old(self).wf(),
        ensures
            final(self).wf(),
            r is Ok,
            final(self).model() == cloexec_done(old(self).model(), pid, generation),
    {
        let index: usize = match self.slot_index(pid, generation) {
            Some(index) => index,
            None => return Ok(()),
        };
        let ghost m = self.model();
        let mut table = self.table_at(index);
        super::table::close_on_exec(&mut table, &mut self.pool);
        assert(self.model().slots =~= m.slots);
        self.put_table(index, table);
        Ok(())
    }

    /// The id of the description that an fd has open; an fd out of range is `EBADF`.
    pub fn open_description_id_for_fd(&self, pid: u64, generation: InstanceGeneration, fd: u64) -> (r:
        Result<OpenDescriptionId, LinuxErrno>)
        ensures
            r == fd_open(self.model(), pid, generation, fd),
    {
        proof {
            lemma_table_from(self.model().slots, pid, generation, 0);
        }
        match self.open_fd_entry(pid, generation, fd) {
            Err(e) => Err(e),
            Ok(None) => Err(EBADF),
            Ok(Some(entry)) => Ok(entry.open),
        }
    }

    /// The socket behind a description.
    pub fn socket_ref_for_open(&self, open: OpenDescriptionId) -> (r: Result<SocketRef, LinuxErrno>)
        ensures
            r == (if !names_live(self.model().pool, open) {
                Err::<SocketRef, LinuxErrno>(EBADF)
            } else {
                match description_of(self.model().pool, open).kind {
                    DescriptorKind::Socket(socket) => Ok(socket),
                    _ => Err(EBADF),
                }
            }),
    {
        match self.pool.get(open) {
            Err(e) => Err(e),
            Ok(d) => match d.kind {
                DescriptorKind::Socket(socket) => Ok(socket),
                _ => Err(EBADF),
            },
        }
    }

    /// Makes sure that a process instance has a table.
    pub fn ensure_fd_table(&mut self, pid: u64, generation: InstanceGeneration) -> (r: Result<
        (),
        LinuxErrno,
    >)
        requires
            old(self).wf(),
        ensures
            final(self).wf(),
            final(self).model() == ensured(old(self).model(), pid, generation).0,
            r == match ensured(old(self).model(), pid, generation).1 {
                Ok(_) => Ok::<(), LinuxErrno>(()),
                Err(_) => Err(EBADF),
            },
    {
        match self.ensure_slot_index(pid, generation) {
            Ok(_) => Ok(()),
            Err(_) => Err(EBADF),
        }
    }

    /// Opens a socket at the lowest closed fd. The description holds a reference of its own besides
    /// that of the fd.
    pub fn install_socket_description(
        &mut self,
        pid: u64,
        generation: InstanceGeneration,
        socket: SocketRef,
        nonblock: bool,
    ) -> (r: Result<i32, LinuxErrno>)
        requires
            old(self).wf(),
        ensures
            final(self).wf(),
            (final(self).model(), r) == socket_installed(
                old(self).model(),
                pid,
                generation,
                socket,
                nonblock,
            ),
    {
        match self.ensure_fd_table(pid, generation) {
            Ok(()) => {},
            Err(e) => return Err(e),
        }
        let ghost m = self.model();
        let status = OpenStatus { access: OpenAccess::ReadWrite, nonblock, append: false };
        proof {
            super::table::lemma_fresh_ref(
                m.pool,
                pid,
                DescriptorKind::Socket(socket),
                status,
            );
        }
        let open = match self.pool.alloc_socket(pid, socket, status) {
            Ok(open) => open,
            Err(e) => return Err(e),
        };
        match self.pool.attach_first_ref(open) {
            Ok(()) => {},
            Err(e) => return Err(e),
        }
        assert(self.model().slots =~= m.slots);
        self.alloc_lowest_fd(pid, generation, open, FdFlags { cloexec: false })
    }

    /// Opens a description at the lowest closed fd.
    pub fn alloc_lowest_fd(
        &mut self,
        pid: u64,
        generation: InstanceGeneration,
        open: OpenDescriptionId,
        flags: FdFlags,
    ) -> (r: Result<i32, LinuxErrno>)
        requires
            old(self).wf(),
        ensures
            final(self).wf(),
            (final(self).model(), r) == fd_opened(
                old(self).model(),
                pid,
                generation,
                open,
                flags,
            ),
    {
        let index: usize = match self.slot_index(pid, generation) {
            Some(index) => index,
            None => return Err(EBADF),
        };
        let ghost m = self.model();
        let mut table = self.table_at(index);
        let done = table.alloc_lowest(&mut self.pool, open, flags);
        assert(self.model().slots =~= m.slots);
        self.put_table(index, table);
        done
    }

    /// Duplicates an fd to the lowest closed one at or above a bound, with cloexec set.
    pub fn dup_to_lowest_at_or_above(
        &mut self,
        pid: u64,
        generation: InstanceGeneration,
        old_fd: u64,
        min_fd: u64,
    ) -> (r: Result<i32, LinuxErrno>)
        requires
            old(self).wf(),
        ensures
            final(self).wf(),
            (final(self).model(), r) == fd_duplicated_above(
                old(self).model(),
                pid,
                generation,
                old_fd,
                min_fd,
            ),
    {
        let index: usize = match self.slot_index(pid, generation) {
            Some(index) => index,
            None => return Err(EBADF),
        };
        let ghost m = self.model();
        let mut table = self.table_at(index);
        let ghost t0 = table.entries@;
        assert(with_table(m, index as int, t0, m.pool).slots =~= m.slots);
        let open = match table.get(old_fd) {
            Some(entry) => entry.open,
            None => return Err(EBADF),
        };
        let start: usize = if min_fd < LINUX_FD_TABLE_CAPACITY as u64 {
            min_fd as usize
        } else {
            0
        };
        let mut slot: usize = start;
        while slot < LINUX_FD_TABLE_CAPACITY
            invariant
                start <= slot <= 16,
                start == (if min_fd < 16 { min_fd as int } else { 0 }),
                self.wf(),
                *self == *old(self),
                m == self.model(),
                index < 8,
                self.slots@[index as int] is Some,
                table_from(m.slots, pid, generation, 0) == Some(index as int),
                table.entries@ == t0,
                t0 == m.slots[index as int]->0.entries,
                entry_at(t0, old_fd) is Some,
                entry_at(t0, old_fd)->0.open == open,
                with_table(m, index as int, t0, m.pool).slots == m.slots,
                closed_from(t0, start as int) == closed_from(t0, slot as int),
            decreases 16 - slot,
        {
            if table.entries[slot].is_none() {
                match self.pool.add_ref(open) {
                    Ok(()) => {},
                    Err(e) => {
                        assert(self.model().slots =~= m.slots);
                        return Err(e);
                    },
                }
                table.entries[slot] = Some(FdEntry { open, flags: FdFlags { cloexec: true } });
                assert(self.model().slots =~= m.slots);
                self.put_table(index, table);
                return Ok(slot as i32);
            }
            slot += 1;
        }
        Err(EMFILE)
    }

    /// Opens a new description at the lowest closed fd.
    pub fn alloc_description_and_fd(
        &mut self,
        pid: u64,
        generation: InstanceGeneration,
        kind: DescriptorKind,
        status: OpenStatus,
        flags: FdFlags,
    ) -> (r: Result<i32, LinuxErrno>)
        requires
            old(self).wf(),
        ensures
            final(self).wf(),
            (final(self).model(), r) == description_opened(
                old(self).model(),
                pid,
                generation,
                kind,
                status,
                flags,
            ),
    {
        if self.slot_index(pid, generation).is_none() {
            return Err(EBADF);
        }
        let ghost m = self.model();
        let open = match self.pool.alloc_description(pid, kind, status) {
            Ok(open) => open,
            Err(e) => return Err(e),
        };
        assert(self.model().slots =~= m.slots);
        self.alloc_lowest_fd(pid, generation, open, flags)
    }

    /// Opens a file at the lowest closed fd.
    pub fn alloc_file_description(
        &mut self,
        pid: u64,
        generation: InstanceGeneration,
        file: FileHandleRef,
        status: OpenStatus,
    ) -> (r: Result<i32, LinuxErrno>)
        requires
            old(self).wf(),
        ensures
            final(self).wf(),
            (final(self).model(), r) == description_opened(
                old(self).model(),
                pid,
                generation,
                DescriptorKind::File(file),
                status,
                FdFlags { cloexec: false },
            ),
    {
        self.alloc_description_and_fd(
            pid,
            generation,
            DescriptorKind::File(file),
            status,
            FdFlags { cloexec: false },
        )
    }

    /// Opens a directory at the lowest closed fd.
    pub fn alloc_dir_description(
        &mut self,
        pid: u64,
        generation: InstanceGeneration,
        dir: DirHandleRef,
        status: OpenStatus,
    ) -> (r: Result<i32, LinuxErrno>)
        requires
            old(self).wf(),
        ensures
            final(self).wf(),
            (final(self).model(), r) == description_opened(
                old(self).model(),
                pid,
                generation,
                DescriptorKind::Dir(dir),
                status,
                FdFlags { cloexec: false },
            ),
    {
        self.alloc_description_and_fd(
            pid,
            generation,
            DescriptorKind::Dir(dir),
            status,
            FdFlags { cloexec: false },
        )
    }

    /// Opens a read-only file of a given node at the lowest closed fd, making the table if there is
    /// none.
    pub fn alloc_placeholder_file(
        &mut self,
        pid: u64,
        generation: InstanceGeneration,
        node: NodeId,
    ) -> (r: Result<i32, LinuxErrno>)
        requires
            old(self).wf(),
        ensures
            final(self).wf(),
            (final(self).model(), r) == ({
                let (m, slot) = ensured(old(self).model(), pid, generation);
                match slot {
                    Err(_) => (m, Err::<i32, LinuxErrno>(EBADF)),
                    Ok(_) => description_opened(
                        m,
                        pid,
                        generation,
                        DescriptorKind::File(FileHandleRef { node }),
                        OpenStatus {
                            access: OpenAccess::ReadOnly,
                            nonblock: false,
                            append: false,
                        },
                        FdFlags { cloexec: false },
                    ),
                }
            }),
    {
        match self.ensure_slot_index(pid, generation) {
            Ok(_) => {},
            Err(_) => return Err(EBADF),
        }
        let ghost m = self.model();
        let open = match self.pool.alloc_placeholder_file(pid, FileHandleRef { node }) {
            Ok(open) => open,
            Err(e) => return Err(e),
        };
        assert(self.model().slots =~= m.slots);
        self.alloc_lowest_fd(pid, generation, open, FdFlags { cloexec: false })
    }

    /// The kind and offset of a description.
    pub fn open_description_snapshot(&self, open: OpenDescriptionId) -> (r: Result<
        OpenDescriptionSnapshot,
        LinuxErrno,
    >)
        ensures
            r == (if names_live(self.model().pool, open) {
                let d = description_of(self.model().pool, open);
                Ok::<OpenDescriptionSnapshot, LinuxErrno>(
                    OpenDescriptionSnapshot { kind: d.kind, offset: d.offset },
                )
            } else {
                Err(EBADF)
            }),
    {
        match self.pool.get(open) {
            Ok(d) => Ok(OpenDescriptionSnapshot { kind: d.kind, offset: d.offset }),
            Err(e) => Err(e),
        }
    }

    /// Sets the offset of a description, for every fd that shares it.
    pub fn set_description_offset(&mut self, open: OpenDescriptionId, offset: u64) -> (r: Result<
        (),
        LinuxErrno,
    >)
        requires
            old(self).wf(),
        ensures
            final(self).wf(),
            final(self).model().slots == old(self).model().slots,
            if names_live(old(self).model().pool, open) {
                r is Ok && final(self).model().pool == with_description(
                    old(self).model().pool,
                    open,
                    (OpenDescription { offset, ..description_of(old(self).model().pool, open) }),
                )
            } else {
                r == Err::<(), LinuxErrno>(EBADF) && final(self).model().pool == old(self).model().pool
            },
    {
        let description = match self.pool.get(open) {
            Ok(d) => d,
            Err(e) => return Err(e),
        };
        self.pool.put(open, OpenDescription { offset, ..description });
        Ok(())
    }

    /// Sets the offset of the description that an fd has open.
    pub fn set_open_description_offset(
        &mut self,
        pid: u64,
        generation: InstanceGeneration,
        fd: u64,
        offset: u64,
    ) -> (r: Result<(), LinuxErrno>)
        requires
            old(self).wf(),
        ensures
            final(self).wf(),
            (final(self).model(), r) == offset_set(
                old(self).model(),
                pid,
                generation,
                fd,
                offset,
            ),
    {
        let open = match self.open_description_for_fd(pid, generation, fd) {
            Ok(open) => open,
            Err(e) => return Err(e),
        };
        match self.set_description_offset(open, offset) {
            Ok(()) => Ok(()),
            Err(e) => Err(e),
        }
    }

    /// Gives a process instance's inherited console fd a console description of its own.
    pub fn rebind_console_stdio(
        &mut self,
        pid: u64,
        generation: InstanceGeneration,
        fd: u64,
        capability_handle: u64,
    ) -> (r: Result<(), LinuxErrno>)
        requires
            old(self).wf(),
        ensures
            final(self).wf(),
            (final(self).model(), r) == match table_from(
                old(self).model().slots,
                pid,
                generation,
                0,
            ) {
                None => (old(self).model(), Err::<(), LinuxErrno>(EBADF)),
                Some(i) => {
                    let m = old(self).model();
                    let (t, p, done) = rebound(
                        m.slots[i]->0.entries,
                        m.pool,
                        pid,
                        fd,
                        capability_handle,
                    );
                    (with_table(m, i, t, p), done)
                },
            },
    {
        let index: usize = match self.slot_index(pid, generation) {
            Some(index) => index,
            None => return Err(EBADF),
        };
        let ghost m = self.model();
        let mut table = self.table_at(index);
        let done = super::table::rebind_console_stdio_if_console(
            &mut table,
            &mut self.pool,
            pid,
            fd,
            capability_handle,
        );
        assert(self.model().slots =~= m.slots);
        self.put_table(index, table);
        done
    }
}

/// What `close_fd` does.
pub open spec fn fd_closed(m: FdRegistryModel, pid: u64, generation: InstanceGeneration, fd: u64) -> (
    FdRegistryModel,
    Result<(), LinuxErrno>,
) {
    match table_from(m.slots, pid, generation, 0) {
        None => (m, Err(EBADF)),
        Some(i) => {
            let (t, p, done) = closed(m.slots[i]->0.entries, m.pool, fd);
            (with_table(m, i, t, p), done)
        },
    }
}

/// What `dup2` does.
pub open spec fn fd_duplicated(
    m: FdRegistryModel,
    pid: u64,
    generation: InstanceGeneration,
    old_fd: u64,
    new_fd: u64,
) -> (FdRegistryModel, Result<(), LinuxErrno>) {
    match table_from(m.slots, pid, generation, 0) {
        None => (m, Err(EBADF)),
        Some(i) => {
            let (t, p, done) = duplicated(m.slots[i]->0.entries, m.pool, old_fd, new_fd);
            (with_table(m, i, t, p), done)
        },
    }
}

/// What `dup_to_lowest_at_or_above` does.
pub open spec fn fd_duplicated_above(
    m: FdRegistryModel,
    pid: u64,
    generation: InstanceGeneration,
    old_fd: u64,
    min_fd: u64,
) -> (FdRegistryModel, Result<i32, LinuxErrno>) {
    match table_from(m.slots, pid, generation, 0) {
        None => (m, Err(EBADF)),
        Some(i) => {
            let (t, p, done) = duplicated_above(m.slots[i]->0.entries, m.pool, old_fd, min_fd);
            (with_table(m, i, t, p), done)
        },
    }
}

/// Whether an exec closes an fd of a process instance.
pub open spec fn cloexec_of(m: FdRegistryModel, pid: u64, generation: InstanceGeneration, fd: u64) -> Result<
    bool,
    LinuxErrno,
> {
    match table_from(m.slots, pid, generation, 0) {
        None => Err(EBADF),
        Some(i) => match entry_at(m.slots[i]->0.entries, fd) {
            None => Err(EBADF),
            Some(entry) => Ok(entry.flags.cloexec),
        },
    }
}

/// What `set_fd_cloexec` does.
pub open spec fn cloexec_set(
    m: FdRegistryModel,
    pid: u64,
    generation: InstanceGeneration,
    fd: u64,
    cloexec: bool,
) -> (FdRegistryModel, Result<(), LinuxErrno>) {
    match fd_open(m, pid, generation, fd) {
        Err(e) => (m, Err(e)),
        Ok(open) => {
            let i = table_from(m.slots, pid, generation, 0)->0;
            (
                with_table(
                    m,
                    i,
                    m.slots[i]->0.entries.update(
                        fd as int,
                        Some(FdEntry { open, flags: FdFlags { cloexec } }),
                    ),
                    m.pool,
                ),
                Ok(()),
            )
        },
    }
}

/// What `set_open_description_status` does.
pub open spec fn status_set(
    m: FdRegistryModel,
    pid: u64,
    generation: InstanceGeneration,
    fd: u64,
    status: OpenStatus,
) -> (FdRegistryModel, Result<(), LinuxErrno>) {
    match fd_description(m, pid, generation, fd) {
        Err(e) => (m, Err(e)),
        Ok(d) => (
            FdRegistryModel {
                slots: m.slots,
                pool: with_description(
                    m.pool,
                    fd_open(m, pid, generation, fd)->Ok_0,
                    OpenDescription { status, ..d },
                ),
            },
            Ok(()),
        ),
    }
}

/// What `set_open_description_offset` does.
pub open spec fn offset_set(
    m: FdRegistryModel,
    pid: u64,
    generation: InstanceGeneration,
    fd: u64,
    offset: u64,
) -> (FdRegistryModel, Result<(), LinuxErrno>) {
    match fd_description(m, pid, generation, fd) {
        Err(e) => (m, Err(e)),
        Ok(d) => (
            FdRegistryModel {
                slots: m.slots,
                pool: with_description(
                    m.pool,
                    fd_open(m, pid, generation, fd)->Ok_0,
                    OpenDescription { offset, ..d },
                ),
            },
            Ok(()),
        ),
    }
}

/// What `inherit_for_child` does.
pub open spec fn inherited_by(
    m: FdRegistryModel,
    parent_pid: u64,
    parent_gen: InstanceGeneration,
    child_pid: u64,
    child_gen: InstanceGeneration,
) -> (FdRegistryModel, Result<(), LinuxErrno>) {
    match table_from(m.slots, parent_pid, parent_gen, 0) {
        None => (m, Err(EBADF)),
        Some(i) => {
            let (m1, slot) = ensured(m, child_pid, child_gen);
            match slot {
                Err(_) => (m1, Err(EBADF)),
                Ok(k) => {
                    let (t, p, done) = inherited_from(
                        m.slots[i]->0.entries,
                        no_entries(),
                        m1.pool,
                        0,
                    );
                    (with_table(m1, k, t, p), done)
                },
            }
        },
    }
}

/// What `install_socket_description` does.
pub open spec fn socket_installed(
    m: FdRegistryModel,
    pid: u64,
    generation: InstanceGeneration,
    socket: SocketRef,
    nonblock: bool,
) -> (FdRegistryModel, Result<i32, LinuxErrno>) {
    let (m1, slot) = ensured(m, pid, generation);
    match slot {
        Err(_) => (m1, Err(EBADF)),
        Ok(_) => {
            let (p, made) = allocated(
                m1.pool,
                pid,
                DescriptorKind::Socket(socket),
                OpenStatus { access: OpenAccess::ReadWrite, nonblock, append: false },
            );
            match made {
                Err(e) => (m1, Err(e)),
                Ok(open) => fd_opened(
                    FdRegistryModel { slots: m1.slots, pool: ref_added(p, open).0 },
                    pid,
                    generation,
                    open,
                    FdFlags { cloexec: false },
                ),
            }
        },
    }
}

/// Whether a pid is among those given.
pub fn pid_among(live: &[u64], pid: u64) -> (r: bool)
    ensures
        r == is_among(live@, pid),
{
    let mut k: usize = 0;
    while k < live.len()
        invariant
            0 <= k <= live@.len(),
            forall|j: int| 0 <= j < k ==> live@[j] != pid,
        decreases live@.len() - k,
    {
        if live[k] == pid {
            return true;
        }
        k += 1;
    }
    false
}

pub proof fn lemma_table_kept(
    before: Seq<Option<FdSlotModel>>,
    after: Seq<Option<FdSlotModel>>,
    pid: u64,
    generation: InstanceGeneration,
    from: int,
)
    requires
        0 <= from <= before.len(),
        after.len() == before.len(),
        forall|k: int|
            0 <= k < before.len() ==> (#[trigger] after[k] is Some && after[k]->0.pid == pid
                && after[k]->0.generation == generation) == (before[k] is Some && before[k]->0.pid
                == pid && before[k]->0.generation == generation),
    ensures
        table_from(after, pid, generation, from) == table_from(before, pid, generation, from),
    decreases before.len() - from,
{
    if from < before.len() {
        assert((after[from] is Some && after[from]->0.pid == pid && after[from]->0.generation
            == generation) == (before[from] is Some && before[from]->0.pid == pid
            && before[from]->0.generation == generation));
        lemma_table_kept(before, after, pid, generation, from + 1);
    }
}

/// The descriptors of a process instance are its own: whatever becomes of the table of another
/// instance, its fds stay open for what they were.
pub proof fn law_descriptors_are_private(
    m: FdRegistryModel,
    i: int,
    t: FdEntries,
    p: PoolModel,
    pid: u64,
    generation: InstanceGeneration,
    fd: u64,
)
    requires
        0 <= i < m.slots.len(),
        m.slots[i] is Some,
        m.slots[i]->0.pid != pid || m.slots[i]->0.generation != generation,
    ensures
        fd_open(with_table(m, i, t, p), pid, generation, fd) == fd_open(m, pid, generation, fd),
        fd_open(dropped(m, i), pid, generation, fd) == fd_open(m, pid, generation, fd),
{
    lemma_table_from(m.slots, pid, generation, 0);
    lemma_table_kept(m.slots, with_table(m, i, t, p).slots, pid, generation, 0);
    lemma_table_kept(m.slots, dropped(m, i).slots, pid, generation, 0);
}

/// A new process instance has nothing open, also where its pid was another's before: it inherits no
/// descriptor, neither before nor after it gets a table.
pub proof fn law_new_instance_has_nothing_open(
    m: FdRegistryModel,
    pid: u64,
    generation: InstanceGeneration,
    fd: u64,
)
    requires
        table_from(m.slots, pid, generation, 0) is None,
    ensures
        fd_open(m, pid, generation, fd) == Err::<OpenDescriptionId, LinuxErrno>(EBADF),
        fd_open(ensured(m, pid, generation).0, pid, generation, fd) == Err::<
            OpenDescriptionId,
            LinuxErrno,
        >(EBADF),
{
    let after = ensured(m, pid, generation).0;
    if after != m {
        let k = empty_from(m.slots, 0)->0;
        lemma_empty_from(m.slots, 0);
        lemma_table_from(m.slots, pid, generation, 0);
        lemma_table_from(after.slots, pid, generation, 0);
        match table_from(after.slots, pid, generation, 0) {
            Some(i) => {
                if i != k {
                    assert(after.slots[i] == m.slots[i]);
                }
            },
            None => {},
        }
    }
}

} // verus!
