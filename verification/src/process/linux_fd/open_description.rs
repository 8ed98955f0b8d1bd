//! Bounded pool of Linux open descriptions (shared offset, status and backend).

use crate::abi::{LinuxErrno, EBADF, EINVAL, EMFILE, ENFILE};
use crate::process::linux_fs::namespace::NodeId;
use vstd::prelude::*;

verus! {

/// Generation-safe handle into the open-description pool.
#[derive(Clone, Copy, Debug, PartialEq, Eq, Structural)]
pub struct OpenDescriptionId {
    pub index: u16,
    pub generation: u32,
}

/// Opaque console backend reference (IPC send-capability handle).
#[derive(Clone, Copy, Debug, PartialEq, Eq, Structural)]
pub struct ConsoleSinkRef {
    pub capability_handle: u64,
}

/// The namespace node behind an open file.
#[derive(Clone, Copy, Debug, PartialEq, Eq, Structural)]
pub struct FileHandleRef {
    pub node: NodeId,
}

/// The namespace node behind an open directory.
#[derive(Clone, Copy, Debug, PartialEq, Eq, Structural)]
pub struct DirHandleRef {
    pub node: NodeId,
}

#[derive(Clone, Copy, Debug, PartialEq, Eq, Structural)]
pub struct PipeId {
    pub index: u16,
    pub generation: u32,
}

#[derive(Clone, Copy, Debug, PartialEq, Eq, Structural)]
pub enum PipeEnd {
    Read,
    Write,
}

/// One end of a pipe.
#[derive(Clone, Copy, Debug, PartialEq, Eq, Structural)]
pub struct PipeRef {
    pub pipe: PipeId,
    pub end: PipeEnd,
}

#[derive(Clone, Copy, Debug, PartialEq, Eq, Structural)]
pub struct SocketRef {
    pub index: u16,
    pub generation: u32,
}

#[derive(Clone, Copy, Debug, PartialEq, Eq, Structural)]
pub enum DescriptorKind {
    Console(ConsoleSinkRef),
    File(FileHandleRef),
    Dir(DirHandleRef),
    PipeRead(PipeRef),
    PipeWrite(PipeRef),
    Socket(SocketRef),
}

#[derive(Clone, Copy, Debug, PartialEq, Eq, Structural)]
pub enum OpenAccess {
    ReadOnly,
    WriteOnly,
    ReadWrite,
}

/// Shared open-file status bits (Linux `fcntl` F_GETFL/F_SETFL surface).
#[derive(Clone, Copy, Debug, PartialEq, Eq, Structural)]
pub struct OpenStatus {
    pub access: OpenAccess,
    pub nonblock: bool,
    pub append: bool,
}

#[derive(Clone, Copy, Debug, PartialEq, Eq, Structural)]
pub struct OpenDescription {
    pub kind: DescriptorKind,
    pub status: OpenStatus,
    pub offset: u64,
    pub refcount: u16,
    pub generation: u32,
    pub owner_pid_for_audit: u64,
}

/// Open-description slots; a full pool is `ENFILE`.
pub const OPEN_DESCRIPTION_CAPACITY: usize = 48;

/// References that one open description can have; one more is `EMFILE`.
pub const OPEN_DESCRIPTION_REF_MAX: u16 = 4096;

/// `O_NONBLOCK` in a flags word.
pub const FL_NONBLOCK: u32 = 0x800;

/// `O_APPEND` in a flags word.
pub const FL_APPEND: u32 = 0x400;

#[derive(Clone, Copy, Debug, PartialEq, Eq, Structural)]
pub struct PoolSlot {
    pub live: bool,
    pub generation: u32,
    pub description: OpenDescription,
}

/// The open descriptions. A socket whose last reference goes is put in `released_sockets`, in order,
/// for the caller to close.
pub struct OpenDescriptionPool {
    pub slots: [PoolSlot; 48],
    pub live_count: u16,
    pub released_sockets: Vec<SocketRef>,
}

/// The pool as its rules see it.
pub struct PoolModel {
    pub slots: Seq<PoolSlot>,
    pub released: Seq<SocketRef>,
}

/// The number of live descriptions.
pub open spec fn live_slots(slots: Seq<PoolSlot>) -> nat {
    crate::scan::count(slots, |s: PoolSlot| s.live)
}

/// The least index at or above `from` of a free slot.
pub open spec fn free_slot_from(slots: Seq<PoolSlot>, from: int) -> Option<int>
    decreases slots.len() - from,
{
    if from < 0 || from >= slots.len() {
        None
    } else if !slots[from].live {
        Some(from)
    } else {
        free_slot_from(slots, from + 1)
    }
}

/// A description that nobody refers to yet.
pub open spec fn fresh_description(
    kind: DescriptorKind,
    status: OpenStatus,
    generation: u32,
    owner: u64,
) -> OpenDescription {
    OpenDescription {
        kind,
        status,
        offset: 0,
        refcount: 0,
        generation,
        owner_pid_for_audit: owner,
    }
}

/// Takes the lowest free slot for a new description.
pub open spec fn allocated(
    m: PoolModel,
    owner: u64,
    kind: DescriptorKind,
    status: OpenStatus,
) -> (PoolModel, Result<OpenDescriptionId, LinuxErrno>) {
    match free_slot_from(m.slots, 0) {
        None => (m, Err(ENFILE)),
        Some(i) => {
            let generation = m.slots[i].generation;
            (
                PoolModel {
                    slots: m.slots.update(
                        i,
                        PoolSlot {
                            live: true,
                            generation,
                            description: fresh_description(kind, status, generation, owner),
                        },
                    ),
                    released: m.released,
                },
                Ok(OpenDescriptionId { index: i as u16, generation }),
            )
        },
    }
}

/// Whether an id names a live description.
pub open spec fn names_live(m: PoolModel, id: OpenDescriptionId) -> bool {
    &&& id.index < m.slots.len()
    &&& m.slots[id.index as int].live
    &&& m.slots[id.index as int].generation == id.generation
    &&& m.slots[id.index as int].description.generation == id.generation
}

/// The description that a live id names.
pub open spec fn description_of(m: PoolModel, id: OpenDescriptionId) -> OpenDescription {
    m.slots[id.index as int].description
}

/// The pool with one description replaced.
pub open spec fn with_description(m: PoolModel, id: OpenDescriptionId, d: OpenDescription) -> PoolModel {
    PoolModel {
        slots: m.slots.update(
            id.index as int,
            PoolSlot { description: d, ..m.slots[id.index as int] },
        ),
        released: m.released,
    }
}

/// The pool with the reference count of one description replaced.
pub open spec fn with_refcount(m: PoolModel, id: OpenDescriptionId, n: int) -> PoolModel {
    with_description(m, id, OpenDescription { refcount: n as u16, ..description_of(m, id) })
}

/// One more reference to a description.
pub open spec fn ref_added(m: PoolModel, id: OpenDescriptionId) -> (PoolModel, Result<
    (),
    LinuxErrno,
>) {
    if !names_live(m, id) {
        (m, Err(EBADF))
    } else if description_of(m, id).refcount >= OPEN_DESCRIPTION_REF_MAX {
        (m, Err(EMFILE))
    } else {
        (with_refcount(m, id, description_of(m, id).refcount + 1), Ok(()))
    }
}

/// The pool after the last reference to the description at `index` went.
pub open spec fn finalized(m: PoolModel, index: int) -> PoolModel {
    let slot = m.slots[index];
    if !slot.live {
        m
    } else {
        PoolModel {
            slots: m.slots.update(
                index,
                PoolSlot {
                    live: false,
                    generation: if slot.generation == u32::MAX {
                        u32::MAX
                    } else {
                        (slot.generation + 1) as u32
                    },
                    description: slot.description,
                },
            ),
            released: match slot.description.kind {
                DescriptorKind::Socket(s) => m.released.push(s),
                _ => m.released,
            },
        }
    }
}

/// One reference fewer to a description; it goes with its last reference.
pub open spec fn ref_released(m: PoolModel, id: OpenDescriptionId) -> (PoolModel, Result<
    (),
    LinuxErrno,
>) {
    if !(id.index < m.slots.len() && m.slots[id.index as int].live && m.slots[id.index as int].generation
        == id.generation) || description_of(m, id).refcount == 0 {
        (m, Err(EBADF))
    } else {
        let fewer = with_refcount(m, id, description_of(m, id).refcount - 1);
        if description_of(m, id).refcount == 1 {
            (finalized(fewer, id.index as int), Ok(()))
        } else {
            (fewer, Ok(()))
        }
    }
}

/// A description carries its slot's generation, and its references are within bounds.
pub open spec fn pool_wf(m: PoolModel) -> bool {
    &&& m.slots.len() == OPEN_DESCRIPTION_CAPACITY
    &&& forall|i: int|
        0 <= i < m.slots.len() ==> (#[trigger] m.slots[i]).live ==> m.slots[i].description.generation
            == m.slots[i].generation && m.slots[i].description.refcount <= OPEN_DESCRIPTION_REF_MAX
}

pub proof fn lemma_free_slot(slots: Seq<PoolSlot>, from: int)
    requires
        0 <= from <= slots.len(),
    ensures
        match free_slot_from(slots, from) {
            Some(i) => from <= i < slots.len() && !slots[i].live,
            None => forall|i: int| from <= i < slots.len() ==> (#[trigger] slots[i]).live,
        },
    decreases slots.len() - from,
{
    if from < slots.len() && slots[from].live {
        lemma_free_slot(slots, from + 1);
    }
}

impl OpenDescriptionPool {
    pub open spec fn model(&self) -> PoolModel {
        PoolModel { slots: self.slots@, released: self.released_sockets@ }
    }

    /// The model is well formed and the live descriptions are counted.
    pub open spec fn wf(&self) -> bool {
        pool_wf(self.model()) && self.live_count == live_slots(self.slots@)
    }

    /// A pool without descriptions.
    pub fn new() -> (r: OpenDescriptionPool)
        ensures
            r.wf(),
            r.live_count == 0,
            r.released_sockets@.len() == 0,
            forall|i: int|
                0 <= i < 48 ==> !(#[trigger] r.slots@[i]).live && r.slots@[i].generation == 1,
    {
        let empty = PoolSlot {
            live: false,
            generation: 1,
            description: OpenDescription {
                kind: DescriptorKind::File(
                    FileHandleRef { node: NodeId { index: 0, generation: 0 } },
                ),
                status: OpenStatus {
                    access: OpenAccess::ReadOnly,
                    nonblock: false,
                    append: false,
                },
                offset: 0,
                refcount: 0,
                generation: 0,
                owner_pid_for_audit: 0,
            },
        };
        let r = OpenDescriptionPool {
            slots: [empty; 48],
            live_count: 0,
            released_sockets: Vec::new(),
        };
        proof {
            crate::scan::lemma_count_zero(r.slots@, |s: PoolSlot| s.live);
        }
        r
    }

    /// The number of live descriptions.
    pub fn live_count(&self) -> (r: u16)
        requires
            self.wf(),
        ensures
            r == live_slots(self.slots@),
    {
        self.live_count
    }

    /// The lowest free slot.
    pub fn find_free_slot(&self) -> (r: Option<usize>)
        ensures
            match free_slot_from(self.slots@, 0) {
                Some(i) => r == Some(i as usize) && 0 <= i < 48,
                None => r is None,
            },
    {
        let mut index: usize = 0;
        while index < OPEN_DESCRIPTION_CAPACITY
            invariant
                0 <= index <= 48,
                free_slot_from(self.slots@, 0) == free_slot_from(self.slots@, index as int),
            decreases 48 - index,
        {
            if !self.slots[index].live {
                return Some(index);
            }
            index += 1;
        }
        None
    }

    /// Takes the lowest free slot for a new description.
    pub fn alloc_description(&mut self, owner_pid: u64, kind: DescriptorKind, status: OpenStatus) -> (r: Result<
        OpenDescriptionId,
        LinuxErrno,
    >)
        requires
            old(self).wf(),
        ensures
            final(self).wf(),
            (final(self).model(), r) == allocated(old(self).model(), owner_pid, kind, status),
    {
        proof {
            lemma_free_slot(self.slots@, 0);
        }
        let index: usize = match self.find_free_slot() {
            Some(index) => index,
            None => return Err(ENFILE),
        };
        let generation: u32 = self.slots[index].generation;
        let slot = PoolSlot {
            live: true,
            generation,
            description: OpenDescription {
                kind,
                status,
                offset: 0,
                refcount: 0,
                generation,
                owner_pid_for_audit: owner_pid,
            },
        };
        proof {
            let p = |s: PoolSlot| s.live;
            crate::scan::lemma_count_update(self.slots@, p, index as int, slot);
            crate::scan::lemma_count_bound(self.slots@.update(index as int, slot), p);
        }
        self.slots[index] = slot;
        self.live_count = self.live_count + 1;
        Ok(OpenDescriptionId { index: index as u16, generation })
    }

    /// A new description of a console.
    pub fn alloc_console(&mut self, owner_pid: u64, sink: ConsoleSinkRef, status: OpenStatus) -> (r:
        Result<OpenDescriptionId, LinuxErrno>)
        requires
            old(self).wf(),
        ensures
            final(self).wf(),
            (final(self).model(), r) == allocated(
                old(self).model(),
                owner_pid,
                DescriptorKind::Console(sink),
                status,
            ),
    {
        self.alloc_description(owner_pid, DescriptorKind::Console(sink), status)
    }

    /// A new description of a socket.
    pub fn alloc_socket(&mut self, owner_pid: u64, socket: SocketRef, status: OpenStatus) -> (r:
        Result<OpenDescriptionId, LinuxErrno>)
        requires
            old(self).wf(),
        ensures
            final(self).wf(),
            (final(self).model(), r) == allocated(
                old(self).model(),
                owner_pid,
                DescriptorKind::Socket(socket),
                status,
            ),
    {
        self.alloc_description(owner_pid, DescriptorKind::Socket(socket), status)
    }

    /// A new read-only description of a file.
    pub fn alloc_placeholder_file(&mut self, owner_pid: u64, file: FileHandleRef) -> (r: Result<
        OpenDescriptionId,
        LinuxErrno,
    >)
        requires
            old(self).wf(),
        ensures
            final(self).wf(),
            (final(self).model(), r) == allocated(
                old(self).model(),
                owner_pid,
                DescriptorKind::File(file),
                (OpenStatus { access: OpenAccess::ReadOnly, nonblock: false, append: false }),
            ),
    {
        self.alloc_description(
            owner_pid,
            DescriptorKind::File(file),
            OpenStatus { access: OpenAccess::ReadOnly, nonblock: false, append: false },
        )
    }

    /// The status of one end of a pipe.
    pub open spec fn pipe_status(end: PipeEnd) -> OpenStatus {
        OpenStatus {
            access: match end {
                PipeEnd::Read => OpenAccess::ReadOnly,
                PipeEnd::Write => OpenAccess::WriteOnly,
            },
            nonblock: false,
            append: false,
        }
    }

    pub open spec fn pipe_kind(pipe: PipeRef) -> DescriptorKind {
        match pipe.end {
            PipeEnd::Read => DescriptorKind::PipeRead(pipe),
            PipeEnd::Write => DescriptorKind::PipeWrite(pipe),
        }
    }

    /// A new description of one end of a pipe.
    pub fn alloc_pipe(&mut self, owner_pid: u64, pipe: PipeRef) -> (r: Result<
        OpenDescriptionId,
        LinuxErrno,
    >)
        requires
            old(self).wf(),
        ensures
            final(self).wf(),
            (final(self).model(), r) == allocated(
                old(self).model(),
                owner_pid,
                OpenDescriptionPool::pipe_kind(pipe),
                OpenDescriptionPool::pipe_status(pipe.end),
            ),
    {
        match pipe.end {
            PipeEnd::Read => self.alloc_description(
                owner_pid,
                DescriptorKind::PipeRead(pipe),
                OpenStatus { access: OpenAccess::ReadOnly, nonblock: false, append: false },
            ),
            PipeEnd::Write => self.alloc_description(
                owner_pid,
                DescriptorKind::PipeWrite(pipe),
                OpenStatus { access: OpenAccess::WriteOnly, nonblock: false, append: false },
            ),
        }
    }

    /// The description that an id names.
    pub fn get(&self, id: OpenDescriptionId) -> (r: Result<OpenDescription, LinuxErrno>)
        ensures
            r == (if names_live(self.model(), id) {
                Ok::<OpenDescription, LinuxErrno>(description_of(self.model(), id))
            } else {
                Err(EBADF)
            }),
    {
        if id.index as usize >= OPEN_DESCRIPTION_CAPACITY {
            return Err(EBADF);
        }
        let slot = self.slots[id.index as usize];
        if !slot.live || slot.generation != id.generation || slot.description.generation
            != id.generation {
            return Err(EBADF);
        }
        Ok(slot.description)
    }

    /// Replaces the description that an id names by one of the same generation and references.
    pub fn put(&mut self, id: OpenDescriptionId, description: OpenDescription)
        requires
            old(self).wf(),
            names_live(old(self).model(), id),
            description.generation == id.generation,
            description.refcount <= OPEN_DESCRIPTION_REF_MAX,
        ensures
            final(self).wf(),
            final(self).model() == with_description(old(self).model(), id, description),
    {
        let slot = self.slots[id.index as usize];
        let next = PoolSlot { description, ..slot };
        proof {
            crate::scan::lemma_count_update(
                self.slots@,
                |s: PoolSlot| s.live,
                id.index as int,
                next,
            );
        }
        self.slots[id.index as usize] = next;
    }

    /// The first reference to a description, or one more.
    pub fn attach_first_ref(&mut self, id: OpenDescriptionId) -> (r: Result<(), LinuxErrno>)
        requires
            old(self).wf(),
        ensures
            final(self).wf(),
            (final(self).model(), r) == ref_added(old(self).model(), id),
    {
        let description = match self.get(id) {
            Ok(d) => d,
            Err(e) => return Err(e),
        };
        if description.refcount == 0 {
            self.put(id, OpenDescription { refcount: 1, ..description });
            Ok(())
        } else {
            self.add_ref(id)
        }
    }

    /// One more reference to a description.
    pub fn add_ref(&mut self, id: OpenDescriptionId) -> (r: Result<(), LinuxErrno>)
        requires
            old(self).wf(),
        ensures
            final(self).wf(),
            (final(self).model(), r) == ref_added(old(self).model(), id),
    {
        let description = match self.get(id) {
            Ok(d) => d,
            Err(e) => return Err(e),
        };
        if description.refcount >= OPEN_DESCRIPTION_REF_MAX {
            return Err(EMFILE);
        }
        self.put(id, OpenDescription { refcount: description.refcount + 1, ..description });
        Ok(())
    }

    /// One reference fewer to a description; it goes with its last reference.
    pub fn release_ref(&mut self, id: OpenDescriptionId) -> (r: Result<(), LinuxErrno>)
        requires
            old(self).wf(),
        ensures
            final(self).wf(),
            (final(self).model(), r) == ref_released(old(self).model(), id),
    {
        if id.index as usize >= OPEN_DESCRIPTION_CAPACITY {
            return Err(EBADF);
        }
        let slot = self.slots[id.index as usize];
        if !slot.live || slot.generation != id.generation {
            return Err(EBADF);
        }
        if slot.description.refcount == 0 {
            return Err(EBADF);
        }
        let left: u16 = slot.description.refcount - 1;
        self.put(id, OpenDescription { refcount: left, ..slot.description });
        if left == 0 {
            self.finalize_slot(id.index as usize);
        }
        Ok(())
    }

    /// Frees the slot of a description without references.
    pub fn finalize_slot(&mut self, index: usize)
        requires
            old(self).wf(),
            index < OPEN_DESCRIPTION_CAPACITY,
        ensures
            final(self).wf(),
            final(self).model() == finalized(old(self).model(), index as int),
    {
        let slot = self.slots[index];
        if !slot.live {
            return;
        }
        if let DescriptorKind::Socket(socket) = slot.description.kind {
            self.released_sockets.push(socket);
        }
        let next = PoolSlot {
            live: false,
            generation: if slot.generation == u32::MAX {
                u32::MAX
            } else {
                slot.generation + 1
            },
            description: slot.description,
        };
        proof {
            crate::scan::lemma_count_update(self.slots@, |s: PoolSlot| s.live, index as int, next);
            crate::scan::lemma_count_bound(
                self.slots@.update(index as int, next),
                |s: PoolSlot| s.live,
            );
        }
        self.slots[index] = next;
        self.live_count = self.live_count - 1;
    }
}

/// The `F_GETFL` word of a status.
pub open spec fn status_word(status: OpenStatus) -> u32 {
    let access = match status.access {
        OpenAccess::ReadOnly => 0u32,
        OpenAccess::WriteOnly => 1u32,
        OpenAccess::ReadWrite => 2u32,
    };
    let nonblock = if status.nonblock {
        access | FL_NONBLOCK
    } else {
        access
    };
    if status.append {
        nonblock | FL_APPEND
    } else {
        nonblock
    }
}

pub fn open_status_to_linux_fl(status: &OpenStatus) -> (r: u32)
    ensures
        r == status_word(*status),
{
    let mut fl: u32 = match status.access {
        OpenAccess::ReadOnly => 0,
        OpenAccess::WriteOnly => 1,
        OpenAccess::ReadWrite => 2,
    };
    if status.nonblock {
        fl = fl | FL_NONBLOCK;
    }
    if status.append {
        fl = fl | FL_APPEND;
    }
    fl
}

/// The status that an `F_SETFL` word describes.
pub open spec fn status_of_word(fl: u32) -> Option<OpenStatus> {
    let nonblock = (fl & FL_NONBLOCK) != 0;
    let append = (fl & FL_APPEND) != 0;
    if (fl & 3) == 0 {
        Some(OpenStatus { access: OpenAccess::ReadOnly, nonblock, append })
    } else if (fl & 3) == 1 {
        Some(OpenStatus { access: OpenAccess::WriteOnly, nonblock, append })
    } else if (fl & 3) == 2 {
        Some(OpenStatus { access: OpenAccess::ReadWrite, nonblock, append })
    } else {
        None
    }
}

pub fn apply_linux_fl_to_status(fl: u32, status: &mut OpenStatus) -> (r: Result<(), LinuxErrno>)
    ensures
        match status_of_word(fl) {
            Some(s) => r is Ok && *final(status) == s,
            None => r == Err::<(), LinuxErrno>(EINVAL) && *final(status) == *old(status),
        },
{
    let access = if (fl & 3) == 0 {
        OpenAccess::ReadOnly
    } else if (fl & 3) == 1 {
        OpenAccess::WriteOnly
    } else if (fl & 3) == 2 {
        OpenAccess::ReadWrite
    } else {
        return Err(EINVAL);
    };
    status.access = access;
    status.nonblock = (fl & FL_NONBLOCK) != 0;
    status.append = (fl & FL_APPEND) != 0;
    Ok(())
}

/// Setting the status from the word that describes it gives it back.
pub proof fn law_status_word_round_trip(status: OpenStatus)
    ensures
        status_of_word(status_word(status)) == Some(status),
{
    let a: u32 = match status.access {
        OpenAccess::ReadOnly => 0u32,
        OpenAccess::WriteOnly => 1u32,
        OpenAccess::ReadWrite => 2u32,
    };
    assert(a <= 2 ==> a & 3 == a && a & 0x800 == 0 && a & 0x400 == 0) by (bit_vector);
    assert(a <= 2 ==> (a | 0x800) & 3 == a && (a | 0x800) & 0x800 != 0 && (a | 0x800) & 0x400 == 0)
        by (bit_vector);
    assert(a <= 2 ==> (a | 0x400) & 3 == a && (a | 0x400) & 0x800 == 0 && (a | 0x400) & 0x400 != 0)
        by (bit_vector);
    assert(a <= 2 ==> ((a | 0x800) | 0x400) & 3 == a && ((a | 0x800) | 0x400) & 0x800 != 0 && ((a
        | 0x800) | 0x400) & 0x400 != 0) by (bit_vector);
}

/// A new reference and its release cancel out.
pub proof fn law_add_then_release(m: PoolModel, id: OpenDescriptionId)
    requires
        pool_wf(m),
        names_live(m, id),
        0 < description_of(m, id).refcount < OPEN_DESCRIPTION_REF_MAX,
    ensures
        ref_added(m, id).1 is Ok,
        ref_released(ref_added(m, id).0, id) == (m, Ok::<(), LinuxErrno>(())),
{
    let after = ref_released(ref_added(m, id).0, id).0;
    assert(after.slots =~= m.slots);
}

/// An id of a description that went stays dead: its slot has a later generation, unless generations
/// ran out.
pub proof fn law_released_id_is_stale(m: PoolModel, id: OpenDescriptionId)
    requires
        pool_wf(m),
        names_live(m, id),
        description_of(m, id).refcount == 1,
        id.generation < u32::MAX,
    ensures
        ref_released(m, id).1 is Ok,
        !names_live(ref_released(m, id).0, id),
        ref_released(m, id).0.slots[id.index as int].generation == id.generation + 1,
{
}

} // verus!
