//! Linux stdio projection onto IPC capabilities.
//!
//! Linux `fd` integers are compatibility-local references only. They are not capabilities and never
//! confer authority by themselves: each open projection stores the handle of a send capability that
//! was granted to the owning pid, and a write goes through that capability. Tables are keyed by pid
//! and instance, so a replacement process cannot inherit a prior instance's projections.

use crate::abi::{LinuxErrno, EBADF};
use crate::ipc::{IpcEndpointKind, IpcSendError, IpcSendResult};
use crate::process::linux_fd::console::{console_written, write_console, ConsoleSinkRenderStyle};
use crate::process::personality::ExecutionPersonality;
use crate::process::{InstanceGeneration, KERNEL_PROCESS_ID, PROCESS_REGISTRY_CAPACITY};
use vstd::prelude::*;

verus! {

/// Per-process table size: stdin, stdout, stderr and one spare.
pub const STDIO_TABLE_CAPACITY: usize = 4;

/// One table per process registry entry.
pub const STDIO_REGISTRY_CAPACITY: usize = PROCESS_REGISTRY_CAPACITY;

/// Projection of a Linux fd onto authority (or closed).
#[derive(Clone, Copy, Debug, PartialEq, Eq, Structural)]
pub enum LinuxFdProjection {
    /// The descriptor is not open.
    Closed,
    /// Handle of the granted send capability, never a Linux fd.
    ConsoleEndpoint { capability_handle: u64 },
}

impl LinuxFdProjection {
    pub fn closed() -> (r: LinuxFdProjection)
        ensures
            r == LinuxFdProjection::Closed,
    {
        LinuxFdProjection::Closed
    }
}

/// Bounded per-process fd table.
#[derive(Clone, Copy, Debug, PartialEq, Eq)]
pub struct LinuxFdTable {
    pub entries: [LinuxFdProjection; 4],
}

#[derive(Clone, Copy, Debug, PartialEq, Eq)]
pub struct LinuxFdRegistrySlot {
    pub pid: u64,
    pub generation: InstanceGeneration,
    pub table: LinuxFdTable,
}

/// Fd tables keyed by process instance.
pub struct LinuxFdRegistry {
    pub slots: [Option<LinuxFdRegistrySlot>; 8],
}

/// One process instance's table.
pub struct StdioSlot {
    pub pid: u64,
    pub generation: InstanceGeneration,
    pub entries: Seq<LinuxFdProjection>,
}

pub open spec fn stdio_slot(s: Option<LinuxFdRegistrySlot>) -> Option<StdioSlot> {
    match s {
        None => None,
        Some(slot) => Some(
            StdioSlot {
                pid: slot.pid,
                generation: slot.generation,
                entries: slot.table.entries@,
            },
        ),
    }
}

/// The entries of a table whose stdout and stderr are open.
pub open spec fn stdio_entries(stdout: u64, stderr: u64) -> Seq<LinuxFdProjection> {
    seq![
        LinuxFdProjection::Closed,
        LinuxFdProjection::ConsoleEndpoint { capability_handle: stdout },
        LinuxFdProjection::ConsoleEndpoint { capability_handle: stderr },
        LinuxFdProjection::Closed,
    ]
}

/// The least index at or above `from` of a process instance's table.
pub open spec fn instance_from(
    slots: Seq<Option<StdioSlot>>,
    pid: u64,
    generation: InstanceGeneration,
    from: int,
) -> Option<int>
    decreases slots.len() - from,
{
    if from < 0 || from >= slots.len() {
        None
    } else if slots[from] is Some && slots[from]->0.pid == pid && slots[from]->0.generation
        == generation {
        Some(from)
    } else {
        instance_from(slots, pid, generation, from + 1)
    }
}

/// The least index at or above `from` of an empty slot.
pub open spec fn vacant_from(slots: Seq<Option<StdioSlot>>, from: int) -> Option<int>
    decreases slots.len() - from,
{
    if from < 0 || from >= slots.len() {
        None
    } else if slots[from] is None {
        Some(from)
    } else {
        vacant_from(slots, from + 1)
    }
}

/// Installing stdout and stderr for a process instance: its table is replaced, or a free slot taken.
pub open spec fn installed(
    slots: Seq<Option<StdioSlot>>,
    pid: u64,
    generation: InstanceGeneration,
    stdout: u64,
    stderr: u64,
) -> (Seq<Option<StdioSlot>>, Result<(), &'static str>) {
    let slot = Some(StdioSlot { pid, generation, entries: stdio_entries(stdout, stderr) });
    if pid == KERNEL_PROCESS_ID {
        (slots, Err("linux fd table cannot be installed for the kernel process"))
    } else {
        match instance_from(slots, pid, generation, 0) {
            Some(i) => (slots.update(i, slot), Ok(())),
            None => match vacant_from(slots, 0) {
                Some(i) => (slots.update(i, slot), Ok(())),
                None => (slots, Err("linux fd registry capacity exceeded")),
            },
        }
    }
}

/// The slots after a process instance gave its table up, and whether it had one.
pub open spec fn released(
    slots: Seq<Option<StdioSlot>>,
    pid: u64,
    generation: InstanceGeneration,
) -> (Seq<Option<StdioSlot>>, bool) {
    match instance_from(slots, pid, generation, 0) {
        Some(i) => (slots.update(i, None), true),
        None => (slots, false),
    }
}

/// The projection of an fd of a process instance.
pub open spec fn projected(
    slots: Seq<Option<StdioSlot>>,
    pid: u64,
    generation: InstanceGeneration,
    fd: u64,
) -> Result<LinuxFdProjection, LinuxErrno> {
    match instance_from(slots, pid, generation, 0) {
        None => Err(EBADF),
        Some(i) => if fd < STDIO_TABLE_CAPACITY {
            Ok(slots[i]->0.entries[fd as int])
        } else {
            Err(EBADF)
        },
    }
}

/// The capability that a write to an fd goes through.
pub open spec fn write_handle(
    slots: Seq<Option<StdioSlot>>,
    pid: u64,
    generation: InstanceGeneration,
    fd: u64,
) -> Result<u64, LinuxErrno> {
    match projected(slots, pid, generation, fd) {
        Ok(LinuxFdProjection::ConsoleEndpoint { capability_handle }) => Ok(capability_handle),
        Ok(LinuxFdProjection::Closed) => Err(EBADF),
        Err(e) => Err(e),
    }
}

/// How a write to an fd ends, and how its bytes are rendered if at all.
pub open spec fn fd_written(
    slots: Seq<Option<StdioSlot>>,
    pid: u64,
    generation: InstanceGeneration,
    fd: u64,
    bytes: Seq<u8>,
    sent: Result<IpcSendResult, IpcSendError>,
    personality: ExecutionPersonality,
) -> (Result<usize, LinuxErrno>, Option<ConsoleSinkRenderStyle>) {
    match projected(slots, pid, generation, fd) {
        Ok(LinuxFdProjection::ConsoleEndpoint { capability_handle: _ }) => console_written(
            bytes,
            true,
            sent,
            personality,
        ),
        Ok(LinuxFdProjection::Closed) => (Err(EBADF), None),
        Err(e) => (Err(e), None),
    }
}

impl LinuxFdTable {
    pub fn empty() -> (r: LinuxFdTable)
        ensures
            forall|i: int| 0 <= i < 4 ==> r.entries@[i] == LinuxFdProjection::Closed,
    {
        LinuxFdTable { entries: [LinuxFdProjection::Closed; 4] }
    }

    /// The projection of an fd in range.
    pub fn get(&self, fd: u64) -> (r: Option<LinuxFdProjection>)
        ensures
            r == (if fd < 4 {
                Some(self.entries@[fd as int])
            } else {
                None
            }),
    {
        if fd < STDIO_TABLE_CAPACITY as u64 {
            Some(self.entries[fd as usize])
        } else {
            None
        }
    }

    /// Sets the projection of an fd; one out of range is ignored.
    pub fn set(&mut self, fd: usize, projection: LinuxFdProjection)
        ensures
            final(self).entries@ == (if fd < 4 {
                old(self).entries@.update(fd as int, projection)
            } else {
                old(self).entries@
            }),
    {
        if fd < STDIO_TABLE_CAPACITY {
            self.entries[fd] = projection;
        }
    }
}

proof fn lemma_instance_from(
    slots: Seq<Option<StdioSlot>>,
    pid: u64,
    generation: InstanceGeneration,
    from: int,
)
    requires
        0 <= from <= slots.len(),
    ensures
        match instance_from(slots, pid, generation, from) {
            Some(i) => from <= i < slots.len() && slots[i] is Some && slots[i]->0.pid == pid
                && slots[i]->0.generation == generation,
            None => forall|i: int|
                from <= i < slots.len() ==> !(#[trigger] slots[i] is Some && slots[i]->0.pid == pid
                    && slots[i]->0.generation == generation),
        },
    decreases slots.len() - from,
{
    if from < slots.len() && !(slots[from] is Some && slots[from]->0.pid == pid
        && slots[from]->0.generation == generation) {
        lemma_instance_from(slots, pid, generation, from + 1);
    }
}

impl LinuxFdRegistry {
    pub open spec fn model(&self) -> Seq<Option<StdioSlot>> {
        Seq::new(8, |i: int| stdio_slot(self.slots@[i]))
    }

    pub fn new() -> (r: LinuxFdRegistry)
        ensures
            forall|i: int| 0 <= i < 8 ==> r.slots@[i] is None,
    {
        LinuxFdRegistry { slots: [None; 8] }
    }

    /// The number of tables.
    pub fn occupied(&self) -> (r: usize)
        ensures
            r == crate::scan::count(self.model(), |s: Option<StdioSlot>| s is Some),
    {
        let ghost slots = self.model();
        let ghost p = |s: Option<StdioSlot>| s is Some;
        let mut n: usize = 0;
        let mut index: usize = 0;
        assert(slots.take(0) =~= Seq::<Option<StdioSlot>>::empty());
        while index < STDIO_REGISTRY_CAPACITY
            invariant
                0 <= index <= 8,
                slots == self.model(),
                p == (|s: Option<StdioSlot>| s is Some),
                n == crate::scan::count(slots.take(index as int), p),
                n <= index,
            decreases 8 - index,
        {
            proof {
                crate::scan::lemma_count_step(slots, p, index as int);
            }
            if self.slots[index].is_some() {
                n += 1;
            }
            index += 1;
        }
        assert(slots.take(8) =~= slots);
        n
    }

    /// The slot of a process instance.
    pub fn find_slot(&self, pid: u64, generation: InstanceGeneration) -> (r: Option<usize>)
        ensures
            match instance_from(self.model(), pid, generation, 0) {
                Some(i) => r == Some(i as usize) && 0 <= i < 8 && self.slots@[i] is Some,
                None => r is None,
            },
    {
        let ghost slots = self.model();
        let mut index: usize = 0;
        while index < STDIO_REGISTRY_CAPACITY
            invariant
                0 <= index <= 8,
                slots == self.model(),
                instance_from(slots, pid, generation, 0) == instance_from(
                    slots,
                    pid,
                    generation,
                    index as int,
                ),
            decreases 8 - index,
        {
            assert(slots[index as int] == stdio_slot(self.slots@[index as int]));
            if let Some(entry) = &self.slots[index] {
                if entry.pid == pid && entry.generation == generation {
                    return Some(index);
                }
            }
            index += 1;
        }
        None
    }

    /// The lowest empty slot.
    fn find_vacant(&self) -> (r: Option<usize>)
        ensures
            match vacant_from(self.model(), 0) {
                Some(i) => r == Some(i as usize) && 0 <= i < 8,
                None => r is None,
            },
    {
        let ghost slots = self.model();
        let mut index: usize = 0;
        while index < STDIO_REGISTRY_CAPACITY
            invariant
                0 <= index <= 8,
                slots == self.model(),
                vacant_from(slots, 0) == vacant_from(slots, index as int),
            decreases 8 - index,
        {
            assert(slots[index as int] == stdio_slot(self.slots@[index as int]));
            if self.slots[index].is_none() {
                return Some(index);
            }
            index += 1;
        }
        None
    }

    /// Install stdout (fd 1) and stderr (fd 2) projections; both may name one capability. Whether
    /// the pid holds the capability is checked when it is used.
    pub fn install(
        &mut self,
        pid: u64,
        generation: InstanceGeneration,
        stdout_handle: u64,
        stderr_handle: u64,
    ) -> (r: Result<(), &'static str>)
        ensures
            (final(self).model(), r) == installed(
                old(self).model(),
                pid,
                generation,
                stdout_handle,
                stderr_handle,
            ),
    {
        let ghost slots = self.model();
        if pid == KERNEL_PROCESS_ID {
            return Err("linux fd table cannot be installed for the kernel process");
        }
        let index: usize = match self.find_slot(pid, generation) {
            Some(index) => index,
            None => match self.find_vacant() {
                Some(index) => index,
                None => return Err("linux fd registry capacity exceeded"),
            },
        };
        let mut table = LinuxFdTable::empty();
        table.set(1, LinuxFdProjection::ConsoleEndpoint { capability_handle: stdout_handle });
        table.set(2, LinuxFdProjection::ConsoleEndpoint { capability_handle: stderr_handle });
        self.slots[index] = Some(LinuxFdRegistrySlot { pid, generation, table });
        proof {
            assert(table.entries@ =~= stdio_entries(stdout_handle, stderr_handle));
            assert(self.model() =~= installed(
                slots,
                pid,
                generation,
                stdout_handle,
                stderr_handle,
            ).0);
        }
        Ok(())
    }

    /// Look up the projection for `fd` of a process instance.
    pub fn projection_for(&self, pid: u64, generation: InstanceGeneration, fd: u64) -> (r: Result<
        LinuxFdProjection,
        LinuxErrno,
    >)
        ensures
            r == projected(self.model(), pid, generation, fd),
    {
        let index: usize = match self.find_slot(pid, generation) {
            Some(index) => index,
            None => return Err(EBADF),
        };
        match &self.slots[index] {
            None => Err(EBADF),
            Some(slot) => match slot.table.get(fd) {
                Some(projection) => Ok(projection),
                None => Err(EBADF),
            },
        }
    }

    /// Release the table of a process instance if present.
    pub fn release(&mut self, pid: u64, generation: InstanceGeneration) -> (r: bool)
        ensures
            (final(self).model(), r) == released(old(self).model(), pid, generation),
    {
        let ghost slots = self.model();
        match self.find_slot(pid, generation) {
            Some(index) => {
                self.slots[index] = None;
                assert(self.model() =~= slots.update(index as int, None));
                true
            },
            None => false,
        }
    }

    /// The capability that a write to an fd goes through.
    pub fn handle_for_write(&self, pid: u64, generation: InstanceGeneration, fd: u64) -> (r: Result<
        u64,
        LinuxErrno,
    >)
        ensures
            r == write_handle(self.model(), pid, generation, fd),
    {
        match self.projection_for(pid, generation, fd) {
            Ok(LinuxFdProjection::ConsoleEndpoint { capability_handle }) => Ok(capability_handle),
            Ok(LinuxFdProjection::Closed) => Err(EBADF),
            Err(e) => Err(e),
        }
    }

    /// Ends a write of `bytes` to an fd. `sent` is what sending the payload through the projected
    /// capability gave (it counts only for an open fd and a write that is not empty).
    pub fn write_fd(
        &self,
        pid: u64,
        generation: InstanceGeneration,
        fd: u64,
        bytes: &[u8],
        sent: Result<IpcSendResult, IpcSendError>,
        personality: ExecutionPersonality,
    ) -> (r: (Result<usize, LinuxErrno>, Option<ConsoleSinkRenderStyle>))
        ensures
            r == fd_written(self.model(), pid, generation, fd, bytes@, sent, personality),
    {
        match self.handle_for_write(pid, generation, fd) {
            Ok(_) => write_console(bytes, true, sent, personality),
            Err(e) => (Err(e), None),
        }
    }
}

/// Whether no process instance has two tables.
pub open spec fn instances_distinct(slots: Seq<Option<StdioSlot>>) -> bool {
    forall|i: int, j: int|
        0 <= i < slots.len() && 0 <= j < slots.len() && i != j && #[trigger] slots[i] is Some
            && #[trigger] slots[j] is Some ==> slots[i]->0.pid != slots[j]->0.pid
            || slots[i]->0.generation != slots[j]->0.generation
}

/// A successful install gives stdout and stderr their capabilities and keeps stdin closed; no other
/// process instance sees a change.
pub proof fn law_install_projects(
    slots: Seq<Option<StdioSlot>>,
    pid: u64,
    generation: InstanceGeneration,
    stdout: u64,
    stderr: u64,
)
    requires
        slots.len() == 8,
        instances_distinct(slots),
        installed(slots, pid, generation, stdout, stderr).1 is Ok,
    ensures
        ({
            let after = installed(slots, pid, generation, stdout, stderr).0;
            &&& instances_distinct(after)
            &&& projected(after, pid, generation, 1) == Ok::<LinuxFdProjection, LinuxErrno>(
                LinuxFdProjection::ConsoleEndpoint { capability_handle: stdout },
            )
            &&& projected(after, pid, generation, 2) == Ok::<LinuxFdProjection, LinuxErrno>(
                LinuxFdProjection::ConsoleEndpoint { capability_handle: stderr },
            )
            &&& projected(after, pid, generation, 0) == Ok::<LinuxFdProjection, LinuxErrno>(
                LinuxFdProjection::Closed,
            )
            &&& forall|other: u64, g: InstanceGeneration, fd: u64|
                other != pid || g != generation ==> #[trigger] projected(after, other, g, fd)
                    == projected(slots, other, g, fd)
        }),
{
    let after = installed(slots, pid, generation, stdout, stderr).0;
    lemma_instance_from(slots, pid, generation, 0);
    lemma_vacant_from(slots, 0);
    let k = match instance_from(slots, pid, generation, 0) {
        Some(i) => i,
        None => vacant_from(slots, 0)->0,
    };
    lemma_instance_unique(after, pid, generation, k, 0);
    assert forall|other: u64, g: InstanceGeneration, fd: u64|
        other != pid || g != generation implies #[trigger] projected(after, other, g, fd)
        == projected(slots, other, g, fd) by {
        lemma_instance_elsewhere(slots, after, k, other, g, 0);
    }
}

proof fn lemma_vacant_from(slots: Seq<Option<StdioSlot>>, from: int)
    requires
        0 <= from <= slots.len(),
    ensures
        vacant_from(slots, from) matches Some(i) ==> from <= i < slots.len() && slots[i] is None,
    decreases slots.len() - from,
{
    if from < slots.len() && slots[from] is Some {
        lemma_vacant_from(slots, from + 1);
    }
}

proof fn lemma_instance_unique(
    slots: Seq<Option<StdioSlot>>,
    pid: u64,
    generation: InstanceGeneration,
    k: int,
    from: int,
)
    requires
        instances_distinct(slots),
        0 <= from <= k < slots.len(),
        slots[k] is Some,
        slots[k]->0.pid == pid,
        slots[k]->0.generation == generation,
    ensures
        instance_from(slots, pid, generation, from) == Some(k),
    decreases k - from,
{
    if from < k {
        lemma_instance_unique(slots, pid, generation, k, from + 1);
    }
}

proof fn lemma_instance_elsewhere(
    before: Seq<Option<StdioSlot>>,
    after: Seq<Option<StdioSlot>>,
    k: int,
    pid: u64,
    generation: InstanceGeneration,
    from: int,
)
    requires
        before.len() == after.len(),
        0 <= k < before.len(),
        0 <= from <= before.len(),
        after == before.update(k, after[k]),
        !(before[k] is Some && before[k]->0.pid == pid && before[k]->0.generation == generation),
        !(after[k] is Some && after[k]->0.pid == pid && after[k]->0.generation == generation),
    ensures
        instance_from(before, pid, generation, from) == instance_from(after, pid, generation, from),
        instance_from(before, pid, generation, from) matches Some(i) ==> from <= i < before.len() && before[i] == after[i],
    decreases before.len() - from,
{
    if from < before.len() {
        lemma_instance_elsewhere(before, after, k, pid, generation, from + 1);
    }
}

/// A write to stdout or stderr goes through the capability that was installed for it and ends as the
/// sending did: with as many bytes as were sent, rendered without framing for a Linux process. Stdin, an fd
/// beyond the table, and a process without a table have nothing to write to.
pub proof fn law_writes_go_through_the_capability(
    slots: Seq<Option<StdioSlot>>,
    pid: u64,
    generation: InstanceGeneration,
    stdout: u64,
    stderr: u64,
    fd: u64,
    bytes: Seq<u8>,
    sent: IpcSendResult,
    error: IpcSendError,
    personality: ExecutionPersonality,
)
    requires
        slots.len() == 8,
        instances_distinct(slots),
        installed(slots, pid, generation, stdout, stderr).1 is Ok,
        bytes.len() > 0,
    ensures
        ({
            let after = installed(slots, pid, generation, stdout, stderr).0;
            let (r, style) = fd_written(after, pid, generation, 1, bytes, Ok(sent), personality);
            let (failed, unshown) = fd_written(
                after,
                pid,
                generation,
                2,
                bytes,
                Err(error),
                personality,
            );
            &&& write_handle(after, pid, generation, 1) == Ok::<u64, LinuxErrno>(stdout)
            &&& write_handle(after, pid, generation, 2) == Ok::<u64, LinuxErrno>(stderr)
            &&& write_handle(after, pid, generation, 0) == Err::<u64, LinuxErrno>(EBADF)
            &&& fd >= 3 ==> write_handle(after, pid, generation, fd) == Err::<u64, LinuxErrno>(
                EBADF,
            )
            &&& r == Ok::<usize, LinuxErrno>(sent.bytes_sent)
            &&& sent.endpoint_kind != IpcEndpointKind::ConsoleSink ==> style is None
            &&& sent.endpoint_kind == IpcEndpointKind::ConsoleSink && personality
                == ExecutionPersonality::LinuxX86_64 ==> style == Some(
                ConsoleSinkRenderStyle::Verbatim,
            )
            &&& sent.endpoint_kind == IpcEndpointKind::ConsoleSink && personality
                == ExecutionPersonality::Native ==> style == Some(
                ConsoleSinkRenderStyle::NativeFramed,
            )
            &&& failed is Err && unshown is None
            &&& error == IpcSendError::StaleCapability ==> failed->Err_0 == EBADF
            &&& fd_written(after, pid, generation, 1, seq![], Err(error), personality) == (
                Ok::<usize, LinuxErrno>(0),
                None::<ConsoleSinkRenderStyle>,
            )
            &&& fd_written(after, pid, generation, 0, bytes, Ok(sent), personality).0 == Err::<
                usize,
                LinuxErrno,
            >(EBADF)
        }),
{
    law_install_projects(slots, pid, generation, stdout, stderr);
    let after = installed(slots, pid, generation, stdout, stderr).0;
    lemma_instance_from(slots, pid, generation, 0);
    lemma_vacant_from(slots, 0);
    let k = match instance_from(slots, pid, generation, 0) {
        Some(i) => i,
        None => vacant_from(slots, 0)->0,
    };
    lemma_instance_unique(after, pid, generation, k, 0);
}

/// A released instance fails closed: none of its fds is open any more. Releasing it again changes
/// nothing, and no other instance sees a change.
pub proof fn law_release_fails_closed(
    slots: Seq<Option<StdioSlot>>,
    pid: u64,
    generation: InstanceGeneration,
)
    requires
        slots.len() == 8,
        instances_distinct(slots),
    ensures
        ({
            let after = released(slots, pid, generation).0;
            &&& instances_distinct(after)
            &&& released(after, pid, generation) == (after, false)
            &&& forall|fd: u64| #[trigger]
                projected(after, pid, generation, fd) == Err::<LinuxFdProjection, LinuxErrno>(EBADF)
            &&& forall|other: u64, g: InstanceGeneration, fd: u64|
                other != pid || g != generation ==> #[trigger] projected(after, other, g, fd)
                    == projected(slots, other, g, fd)
        }),
{
    let after = released(slots, pid, generation).0;
    lemma_instance_from(slots, pid, generation, 0);
    lemma_instance_from(after, pid, generation, 0);
    if let Some(k) = instance_from(slots, pid, generation, 0) {
        if let Some(i) = instance_from(after, pid, generation, 0) {
            assert(slots[i] is Some && slots[k] is Some);
        }
        assert forall|other: u64, g: InstanceGeneration, fd: u64|
            other != pid || g != generation implies #[trigger] projected(after, other, g, fd)
            == projected(slots, other, g, fd) by {
            lemma_instance_elsewhere(slots, after, k, other, g, 0);
        }
    }
}

} // verus!
