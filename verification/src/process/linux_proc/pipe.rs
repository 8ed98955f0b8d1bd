//! Bounded pipe ring storage.

use crate::abi::{LinuxErrno, EAGAIN, EBADF, EPIPE};
use crate::process::linux_fd::open_description::{PipeEnd, PipeId, PipeRef};
use crate::scan::overwritten;
use crate::sched::wait::WaitKey;
use vstd::prelude::*;

verus! {

pub const LINUX_PIPE_MAX: usize = 8;

pub const LINUX_PIPE_CAPACITY: usize = 1024;

#[derive(Clone, Copy, Debug, PartialEq, Eq, Structural)]
pub struct PipeHandle {
    pub index: u16,
    pub generation: u32,
}

#[derive(Clone, Copy, Debug, PartialEq, Eq)]
pub struct PipeSlot {
    pub live: bool,
    pub generation: u32,
    pub buffer: [u8; 1024],
    pub head: usize,
    pub len: usize,
    pub readers: u16,
    pub writers: u16,
}

#[derive(Clone, Copy, Debug, PartialEq, Eq, Structural)]
pub enum PipeReadOutcome {
    Block,
    Stale,
}

#[derive(Clone, Copy, Debug, PartialEq, Eq, Structural)]
pub enum PipeWriteOutcome {
    Block,
    Epipe,
    Stale,
}

/// The pipes. A key whose waiters are to be woken is put in `wakes`, in order, for the caller.
pub struct PipePool {
    pub slots: [PipeSlot; 8],
    pub next_generation: u32,
    pub wakes: Vec<WaitKey>,
}

/// A pipe as its rules see it: the bytes in it, oldest first.
pub struct PipeModel {
    pub live: bool,
    pub generation: u32,
    pub bytes: Seq<u8>,
    pub readers: u16,
    pub writers: u16,
}

pub struct PipesModel {
    pub pipes: Seq<PipeModel>,
    pub next_generation: u32,
    pub wakes: Seq<WaitKey>,
}

/// The slot of ring position `i` counted from `head`.
pub open spec fn ring(head: int, i: int) -> int {
    (head + i) % 1024
}

impl PipeSlot {
    pub open spec fn bytes(self) -> Seq<u8> {
        Seq::new(self.len as nat, |i: int| self.buffer@[ring(self.head as int, i)])
    }

    pub open spec fn wf(self) -> bool {
        self.head < LINUX_PIPE_CAPACITY && self.len <= LINUX_PIPE_CAPACITY
    }

    pub open spec fn model(self) -> PipeModel {
        PipeModel {
            live: self.live,
            generation: self.generation,
            bytes: self.bytes(),
            readers: self.readers,
            writers: self.writers,
        }
    }
}

/// The wait key of a pipe's readers.
pub open spec fn reader_key(handle: PipeHandle) -> WaitKey {
    WaitKey(
        (0x50u64 << 56) | (0x01u64 << 48) | ((handle.index as u64) << 32) | (
        handle.generation as u64),
    )
}

/// The wait key of a pipe's writers.
pub open spec fn writer_key(handle: PipeHandle) -> WaitKey {
    WaitKey(
        (0x50u64 << 56) | (0x02u64 << 48) | ((handle.index as u64) << 32) | (
        handle.generation as u64),
    )
}

pub fn reader_wait_key(handle: PipeHandle) -> (r: WaitKey)
    ensures
        r == reader_key(handle),
{
    WaitKey(
        (0x50u64 << 56) | (0x01u64 << 48) | ((handle.index as u64) << 32) | (
        handle.generation as u64),
    )
}

pub fn writer_wait_key(handle: PipeHandle) -> (r: WaitKey)
    ensures
        r == writer_key(handle),
{
    WaitKey(
        (0x50u64 << 56) | (0x02u64 << 48) | ((handle.index as u64) << 32) | (
        handle.generation as u64),
    )
}

/// The wait key of a parent that waits for its children.
pub fn wait_key_for_parent(pid: u64) -> (r: WaitKey)
    ensures
        r.0 == ((0x50u64 << 56) | pid),
{
    WaitKey((0x50u64 << 56) | pid)
}

/// Two pipes, or the two ends of one, never share a wait key.
pub proof fn law_wait_keys_distinct(a: PipeHandle, b: PipeHandle)
    ensures
        reader_key(a) == reader_key(b) <==> a == b,
        writer_key(a) == writer_key(b) <==> a == b,
        reader_key(a) != writer_key(b),
{
    let (ai, ag, bi, bg) = (a.index as u64, a.generation as u64, b.index as u64, b.generation as u64);
    assert(ai < 0x1_0000 && bi < 0x1_0000 && ag < 0x1_0000_0000 && bg < 0x1_0000_0000 ==> (
    (0x50u64 << 56) | (0x01u64 << 48) | (ai << 32) | ag == (0x50u64 << 56) | (0x01u64 << 48) | (bi
        << 32) | bg ==> ai == bi && ag == bg)) by (bit_vector);
    assert(ai < 0x1_0000 && bi < 0x1_0000 && ag < 0x1_0000_0000 && bg < 0x1_0000_0000 ==> (
    (0x50u64 << 56) | (0x02u64 << 48) | (ai << 32) | ag == (0x50u64 << 56) | (0x02u64 << 48) | (bi
        << 32) | bg ==> ai == bi && ag == bg)) by (bit_vector);
    assert(ai < 0x1_0000 && bi < 0x1_0000 && ag < 0x1_0000_0000 && bg < 0x1_0000_0000 ==> (0x50u64
        << 56) | (0x01u64 << 48) | (ai << 32) | ag != (0x50u64 << 56) | (0x02u64 << 48) | (bi << 32)
        | bg) by (bit_vector);
}

/// Whether a handle names a live pipe.
pub open spec fn names_pipe(m: PipesModel, handle: PipeHandle) -> bool {
    &&& handle.index < m.pipes.len()
    &&& m.pipes[handle.index as int].live
    &&& m.pipes[handle.index as int].generation == handle.generation
}

pub open spec fn pipe_at(m: PipesModel, handle: PipeHandle) -> PipeModel {
    m.pipes[handle.index as int]
}

pub open spec fn with_pipe(m: PipesModel, handle: PipeHandle, p: PipeModel) -> PipesModel {
    PipesModel { pipes: m.pipes.update(handle.index as int, p), ..m }
}

pub open spec fn with_wake(m: PipesModel, key: WaitKey) -> PipesModel {
    PipesModel { wakes: m.wakes.push(key), ..m }
}

/// The least index at or above `from` of a pipe that is not live.
pub open spec fn free_pipe_from(pipes: Seq<PipeModel>, from: int) -> Option<int>
    decreases pipes.len() - from,
{
    if from < 0 || from >= pipes.len() {
        None
    } else if !pipes[from].live {
        Some(from)
    } else {
        free_pipe_from(pipes, from + 1)
    }
}

pub open spec fn inc(n: u16) -> u16 {
    if n == u16::MAX {
        n
    } else {
        (n + 1) as u16
    }
}

pub open spec fn dec(n: u16) -> u16 {
    if n == 0 {
        0
    } else {
        (n - 1) as u16
    }
}

/// The pipes after an empty pipe without ends was made.
pub open spec fn pipe_made(m: PipesModel) -> (PipesModel, Result<PipeHandle, LinuxErrno>) {
    match free_pipe_from(m.pipes, 0) {
        None => (m, Err(EAGAIN)),
        Some(i) => (
            PipesModel {
                pipes: m.pipes.update(
                    i,
                    PipeModel {
                        live: true,
                        generation: m.next_generation,
                        bytes: seq![],
                        readers: 0,
                        writers: 0,
                    },
                ),
                next_generation: if m.next_generation == u32::MAX {
                    u32::MAX
                } else {
                    (m.next_generation + 1) as u32
                },
                wakes: m.wakes,
            },
            Ok(PipeHandle { index: i as u16, generation: m.next_generation }),
        ),
    }
}

/// The pipes after one end was released. The last reader wakes the writers, every writer the
/// readers; a pipe without ends is gone.
pub open spec fn end_released(m: PipesModel, handle: PipeHandle, end: PipeEnd) -> PipesModel {
    if !names_pipe(m, handle) {
        m
    } else {
        let p = pipe_at(m, handle);
        let fewer = match end {
            PipeEnd::Read => PipeModel { readers: dec(p.readers), ..p },
            PipeEnd::Write => PipeModel { writers: dec(p.writers), ..p },
        };
        let woken = match end {
            PipeEnd::Read => if fewer.readers == 0 {
                with_wake(m, writer_key(handle))
            } else {
                m
            },
            PipeEnd::Write => with_wake(m, reader_key(handle)),
        };
        with_pipe(
            woken,
            handle,
            PipeModel { live: fewer.live && !(fewer.readers == 0 && fewer.writers == 0), ..fewer },
        )
    }
}

/// The pipes after one end was added.
pub open spec fn end_added(m: PipesModel, handle: PipeHandle, end: PipeEnd) -> PipesModel {
    if !names_pipe(m, handle) {
        m
    } else {
        let p = pipe_at(m, handle);
        with_pipe(
            m,
            handle,
            match end {
                PipeEnd::Read => PipeModel { readers: inc(p.readers), ..p },
                PipeEnd::Write => PipeModel { writers: inc(p.writers), ..p },
            },
        )
    }
}

/// The pipes after a pipe with one end of each kind was made, and its ends.
pub open spec fn pipe_opened(m: PipesModel) -> (PipesModel, Result<(PipeRef, PipeRef), LinuxErrno>) {
    match pipe_made(m).1 {
        Err(e) => (m, Err(e)),
        Ok(handle) => {
            let id = PipeId { index: handle.index, generation: handle.generation };
            (
                with_pipe(
                    pipe_made(m).0,
                    handle,
                    PipeModel {
                        live: true,
                        generation: handle.generation,
                        bytes: seq![],
                        readers: 1,
                        writers: 1,
                    },
                ),
                Ok(
                    (
                        PipeRef { pipe: id, end: PipeEnd::Read },
                        PipeRef { pipe: id, end: PipeEnd::Write },
                    ),
                ),
            )
        },
    }
}

/// Whether a read would not block.
pub open spec fn can_read(m: PipesModel, handle: PipeHandle) -> bool {
    names_pipe(m, handle) && (pipe_at(m, handle).bytes.len() > 0 || pipe_at(m, handle).writers == 0)
}

/// Whether a write would not block.
pub open spec fn can_write(m: PipesModel, handle: PipeHandle) -> bool {
    names_pipe(m, handle) && (pipe_at(m, handle).bytes.len() < LINUX_PIPE_CAPACITY || pipe_at(
        m,
        handle,
    ).readers == 0)
}

pub open spec fn least(a: int, b: int) -> int {
    if a < b {
        a
    } else {
        b
    }
}

/// Reading up to `room` of the oldest bytes: the pipes after it, the bytes read, and the outcome. An
/// empty pipe blocks while it has a writer and is at its end without one.
pub open spec fn pipe_read(m: PipesModel, handle: PipeHandle, room: int) -> (
    PipesModel,
    Seq<u8>,
    Result<usize, PipeReadOutcome>,
) {
    let p = pipe_at(m, handle);
    let n = least(p.bytes.len() as int, room);
    if !names_pipe(m, handle) {
        (m, seq![], Err(PipeReadOutcome::Stale))
    } else if p.bytes.len() > 0 {
        (
            with_wake(
                with_pipe(m, handle, PipeModel { bytes: p.bytes.skip(n), ..p }),
                writer_key(handle),
            ),
            p.bytes.take(n),
            Ok(n as usize),
        )
    } else if p.writers > 0 {
        (m, seq![], Err(PipeReadOutcome::Block))
    } else {
        (m, seq![], Ok(0))
    }
}

/// Appending as many of `bytes` as there is room for. A pipe without readers is broken; a full pipe
/// blocks.
pub open spec fn pipe_written(m: PipesModel, handle: PipeHandle, bytes: Seq<u8>) -> (
    PipesModel,
    Result<usize, PipeWriteOutcome>,
) {
    let p = pipe_at(m, handle);
    let n = least(bytes.len() as int, LINUX_PIPE_CAPACITY - p.bytes.len());
    if !names_pipe(m, handle) {
        (m, Err(PipeWriteOutcome::Stale))
    } else if p.readers == 0 {
        (m, Err(PipeWriteOutcome::Epipe))
    } else if p.bytes.len() >= LINUX_PIPE_CAPACITY {
        (m, Err(PipeWriteOutcome::Block))
    } else {
        (
            with_wake(
                with_pipe(m, handle, PipeModel { bytes: p.bytes + bytes.take(n), ..p }),
                reader_key(handle),
            ),
            Ok(n as usize),
        )
    }
}

impl PipePool {
    pub open spec fn model(&self) -> PipesModel {
        PipesModel {
            pipes: Seq::new(8, |i: int| self.slots@[i].model()),
            next_generation: self.next_generation,
            wakes: self.wakes@,
        }
    }

    pub open spec fn wf(&self) -> bool {
        forall|i: int| 0 <= i < 8 ==> (#[trigger] self.slots@[i]).wf()
    }

    /// A pool without pipes.
    pub fn new() -> (r: PipePool)
        ensures
            r.wf(),
            r.next_generation == 1,
            r.wakes@.len() == 0,
            forall|i: int| 0 <= i < 8 ==> !(#[trigger] r.slots@[i]).live,
    {
        let empty = PipeSlot {
            live: false,
            generation: 0,
            buffer: [0u8; 1024],
            head: 0,
            len: 0,
            readers: 0,
            writers: 0,
        };
        PipePool { slots: [empty; 8], next_generation: 1, wakes: Vec::new() }
    }

    /// Makes an empty pipe without ends.
    pub fn alloc_pipe(&mut self) -> (r: Result<PipeHandle, LinuxErrno>)
        requires
            old(self).wf(),
        ensures
            final(self).wf(),
            (final(self).model(), r) == pipe_made(old(self).model()),
    {
        let ghost m = self.model();
        let mut index: usize = 0;
        while index < LINUX_PIPE_MAX
            invariant
                0 <= index <= 8,
                self.wf(),
                *self == *old(self),
                m == self.model(),
                free_pipe_from(m.pipes, 0) == free_pipe_from(m.pipes, index as int),
            decreases 8 - index,
        {
            assert(m.pipes[index as int] == self.slots@[index as int].model());
            if !self.slots[index].live {
                let generation: u32 = self.next_generation;
                if self.next_generation < u32::MAX {
                    self.next_generation = self.next_generation + 1;
                }
                let fresh = PipeSlot {
                    live: true,
                    generation,
                    buffer: [0u8; 1024],
                    head: 0,
                    len: 0,
                    readers: 0,
                    writers: 0,
                };
                self.slots[index] = fresh;
                assert(fresh.bytes() =~= Seq::<u8>::empty());
                assert(self.model().pipes =~= m.pipes.update(index as int, fresh.model()));
                return Ok(PipeHandle { index: index as u16, generation });
            }
            index += 1;
        }
        Err(EAGAIN)
    }

    /// Whether a handle names a live pipe.
    fn names(&self, handle: PipeHandle) -> (r: bool)
        ensures
            r == names_pipe(self.model(), handle),
            r ==> handle.index < 8 && pipe_at(self.model(), handle)
                == self.slots@[handle.index as int].model(),
    {
        if handle.index as usize >= LINUX_PIPE_MAX {
            return false;
        }
        assert(self.model().pipes[handle.index as int] == self.slots@[handle.index as int].model());
        self.slots[handle.index as usize].live && self.slots[handle.index as usize].generation
            == handle.generation
    }

    /// Puts a slot's ends in place of those of a live pipe.
    fn set_ends(&mut self, handle: PipeHandle, live: bool, readers: u16, writers: u16)
        requires
            old(self).wf(),
            names_pipe(old(self).model(), handle),
        ensures
            final(self).wf(),
            final(self).model() == with_pipe(
                old(self).model(),
                handle,
                (PipeModel { live, readers, writers, ..pipe_at(old(self).model(), handle) }),
            ),
    {
        let ghost m = self.model();
        let slot = self.slots[handle.index as usize];
        assert(m.pipes[handle.index as int] == slot.model());
        let next = PipeSlot { live, readers, writers, ..slot };
        self.slots[handle.index as usize] = next;
        assert(next.bytes() =~= slot.bytes());
        assert(self.model().pipes =~= m.pipes.update(handle.index as int, next.model()));
    }

    /// One more read end.
    pub fn add_reader(&mut self, handle: PipeHandle)
        requires
            old(self).wf(),
        ensures
            final(self).wf(),
            final(self).model() == end_added(old(self).model(), handle, PipeEnd::Read),
    {
        if self.names(handle) {
            let slot = self.slots[handle.index as usize];
            let readers: u16 = if slot.readers == u16::MAX {
                slot.readers
            } else {
                slot.readers + 1
            };
            self.set_ends(handle, slot.live, readers, slot.writers);
        }
    }

    /// One more write end.
    pub fn add_writer(&mut self, handle: PipeHandle)
        requires
            old(self).wf(),
        ensures
            final(self).wf(),
            final(self).model() == end_added(old(self).model(), handle, PipeEnd::Write),
    {
        if self.names(handle) {
            let slot = self.slots[handle.index as usize];
            let writers: u16 = if slot.writers == u16::MAX {
                slot.writers
            } else {
                slot.writers + 1
            };
            self.set_ends(handle, slot.live, slot.readers, writers);
        }
    }

    /// Releases one end of a pipe.
    pub fn release_end(&mut self, handle: PipeHandle, end: PipeEnd)
        requires
            old(self).wf(),
        ensures
            final(self).wf(),
            final(self).model() == end_released(old(self).model(), handle, end),
    {
        if !self.names(handle) {
            return;
        }
        let ghost m = self.model();
        let slot = self.slots[handle.index as usize];
        let mut readers: u16 = slot.readers;
        let mut writers: u16 = slot.writers;
        match end {
            PipeEnd::Read => {
                if readers > 0 {
                    readers = readers - 1;
                }
                if readers == 0 {
                    self.wakes.push(writer_wait_key(handle));
                    assert(self.model().pipes =~= m.pipes);
                }
            },
            PipeEnd::Write => {
                if writers > 0 {
                    writers = writers - 1;
                }
                self.wakes.push(reader_wait_key(handle));
                assert(self.model().pipes =~= m.pipes);
            },
        }
        self.set_ends(handle, slot.live && !(readers == 0 && writers == 0), readers, writers);
        assert(self.model().pipes =~= end_released(m, handle, end).pipes);
    }

    /// Reads the oldest bytes into the front of `out`.
    pub fn read_into(&mut self, handle: PipeHandle, out: &mut [u8]) -> (r: Result<
        usize,
        PipeReadOutcome,
    >)
        requires
            old(self).wf(),
        ensures
            final(self).wf(),
            ({
                let (m, bytes, outcome) = pipe_read(
                    old(self).model(),
                    handle,
                    old(out)@.len() as int,
                );
                &&& final(self).model() == m
                &&& r == outcome
                &&& final(out)@ == overwritten(old(out)@, 0, bytes)
            }),
    {
        let ghost m = self.model();
        assert(overwritten(out@, 0, Seq::<u8>::empty()) =~= out@);
        if !self.names(handle) {
            return Err(PipeReadOutcome::Stale);
        }
        let slot = &self.slots[handle.index as usize];
        let ghost p = slot.model();
        if slot.len == 0 {
            if slot.writers > 0 {
                return Err(PipeReadOutcome::Block);
            }
            return Ok(0);
        }
        let take: usize = if out.len() < slot.len {
            out.len()
        } else {
            slot.len
        };
        let ghost before = out@;
        let mut i: usize = 0;
        while i < take
            invariant
                0 <= i <= take <= slot.len,
                take <= out@.len(),
                slot.wf(),
                p == slot.model(),
                out@.len() == before.len(),
                forall|j: int| 0 <= j < i ==> out@[j] == p.bytes[j],
                forall|j: int| i <= j < out@.len() ==> out@[j] == before[j],
            decreases take - i,
        {
            let at: usize = (slot.head + i) % LINUX_PIPE_CAPACITY;
            assert(p.bytes[i as int] == slot.buffer@[at as int]);
            out[i] = slot.buffer[at];
            i += 1;
        }
        assert(out@ =~= overwritten(before, 0, p.bytes.take(take as int)));
        let head: usize = (slot.head + take) % LINUX_PIPE_CAPACITY;
        let len: usize = slot.len - take;
        let next = PipeSlot { head, len, ..*slot };
        proof {
            assert(next.bytes() =~= p.bytes.skip(take as int)) by {
                assert forall|j: int| 0 <= j < len implies #[trigger] next.bytes()[j] == p.bytes[j
                    + take] by {
                    assert(ring(head as int, j) == ring(slot.head as int, j + take));
                }
            }
        }
        self.slots[handle.index as usize] = next;
        self.wakes.push(writer_wait_key(handle));
        assert(self.model().pipes =~= m.pipes.update(handle.index as int, next.model()));
        Ok(take)
    }

    /// Appends bytes, as many as there is room for.
    pub fn write_from(&mut self, handle: PipeHandle, bytes: &[u8]) -> (r: Result<
        usize,
        PipeWriteOutcome,
    >)
        requires
            old(self).wf(),
        ensures
            final(self).wf(),
            (final(self).model(), r) == pipe_written(old(self).model(), handle, bytes@),
    {
        let ghost m = self.model();
        if !self.names(handle) {
            return Err(PipeWriteOutcome::Stale);
        }
        let slot = self.slots[handle.index as usize];
        let ghost p = slot.model();
        if slot.readers == 0 {
            return Err(PipeWriteOutcome::Epipe);
        }
        let space: usize = LINUX_PIPE_CAPACITY - slot.len;
        if space == 0 {
            return Err(PipeWriteOutcome::Block);
        }
        let take: usize = if bytes.len() < space {
            bytes.len()
        } else {
            space
        };
        let mut next = slot;
        let mut i: usize = 0;
        while i < take
            invariant
                0 <= i <= take <= bytes@.len(),
                slot.len + take <= LINUX_PIPE_CAPACITY,
                slot.wf(),
                slot.model() == p,
                next == (PipeSlot { buffer: next.buffer, ..slot }),
                forall|j: int|
                    0 <= j < slot.len ==> #[trigger] next.buffer@[ring(slot.head as int, j)]
                        == p.bytes[j],
                forall|j: int|
                    slot.len <= j < slot.len + i ==> #[trigger] next.buffer@[ring(
                        slot.head as int,
                        j,
                    )] == bytes@[j - slot.len],
            decreases take - i,
        {
            let at: usize = (slot.head + slot.len + i) % LINUX_PIPE_CAPACITY;
            let ghost before = next.buffer@;
            next.buffer[at] = bytes[i];
            proof {
                assert(at == ring(slot.head as int, slot.len + i));
                assert forall|j: int| 0 <= j < slot.len + i implies ring(slot.head as int, j)
                    != at by {}
            }
            i += 1;
        }
        next.len = slot.len + take;
        proof {
            assert(next.bytes() =~= p.bytes + bytes@.take(take as int));
        }
        self.slots[handle.index as usize] = next;
        self.wakes.push(reader_wait_key(handle));
        assert(self.model().pipes =~= m.pipes.update(handle.index as int, next.model()));
        Ok(take)
    }

    /// Whether a read would not block.
    pub fn readable(&self, handle: PipeHandle) -> (r: bool)
        ensures
            r == can_read(self.model(), handle),
    {
        if !self.names(handle) {
            return false;
        }
        let slot = &self.slots[handle.index as usize];
        slot.len > 0 || slot.writers == 0
    }

    /// Whether a write would not block.
    pub fn writable(&self, handle: PipeHandle) -> (r: bool)
        ensures
            r == can_write(self.model(), handle),
    {
        if !self.names(handle) {
            return false;
        }
        let slot = &self.slots[handle.index as usize];
        slot.len < LINUX_PIPE_CAPACITY || slot.readers == 0
    }

    /// The number of live pipes.
    pub fn live_count(&self) -> (r: usize)
        ensures
            r == crate::scan::count(self.model().pipes, |p: PipeModel| p.live),
    {
        let ghost pipes = self.model().pipes;
        let ghost p = |p: PipeModel| p.live;
        let mut n: usize = 0;
        let mut index: usize = 0;
        assert(pipes.take(0) =~= Seq::<PipeModel>::empty());
        while index < LINUX_PIPE_MAX
            invariant
                0 <= index <= 8,
                pipes == self.model().pipes,
                p == (|p: PipeModel| p.live),
                n == crate::scan::count(pipes.take(index as int), p),
                n <= index,
            decreases 8 - index,
        {
            proof {
                crate::scan::lemma_count_step(pipes, p, index as int);
            }
            assert(pipes[index as int] == self.slots@[index as int].model());
            if self.slots[index].live {
                n += 1;
            }
            index += 1;
        }
        assert(pipes.take(8) =~= pipes);
        n
    }
}

pub open spec fn handle_of(pipe: PipeRef) -> PipeHandle {
    PipeHandle { index: pipe.pipe.index, generation: pipe.pipe.generation }
}

pub fn pipe_ref_to_handle(pipe: PipeRef) -> (r: PipeHandle)
    ensures
        r == handle_of(pipe),
{
    PipeHandle { index: pipe.pipe.index, generation: pipe.pipe.generation }
}

/// The error number for a read that gave no bytes.
pub open spec fn read_errno(o: PipeReadOutcome) -> LinuxErrno {
    match o {
        PipeReadOutcome::Block => EAGAIN,
        PipeReadOutcome::Stale => EBADF,
    }
}

/// The error number for a write that took no bytes.
pub open spec fn write_errno(o: PipeWriteOutcome) -> LinuxErrno {
    match o {
        PipeWriteOutcome::Block => EAGAIN,
        PipeWriteOutcome::Epipe => EPIPE,
        PipeWriteOutcome::Stale => EBADF,
    }
}

/// Reads from a pipe's read end.
pub fn read_pipe(pool: &mut PipePool, pipe: PipeRef, buf: &mut [u8]) -> (r: Result<
    usize,
    LinuxErrno,
>)
    requires
        old(pool).wf(),
    ensures
        final(pool).wf(),
        ({
            let (m, bytes, outcome) = pipe_read(
                old(pool).model(),
                handle_of(pipe),
                old(buf)@.len() as int,
            );
            &&& final(pool).model() == m
            &&& final(buf)@ == overwritten(old(buf)@, 0, bytes)
            &&& r == match outcome {
                Ok(n) => Ok::<usize, LinuxErrno>(n),
                Err(o) => Err(read_errno(o)),
            }
        }),
{
    match pool.read_into(pipe_ref_to_handle(pipe), buf) {
        Ok(n) => Ok(n),
        Err(PipeReadOutcome::Block) => Err(EAGAIN),
        Err(PipeReadOutcome::Stale) => Err(EBADF),
    }
}

/// Writes to a pipe's write end.
pub fn write_pipe(pool: &mut PipePool, pipe: PipeRef, bytes: &[u8]) -> (r: Result<
    usize,
    LinuxErrno,
>)
    requires
        old(pool).wf(),
    ensures
        final(pool).wf(),
        final(pool).model() == pipe_written(old(pool).model(), handle_of(pipe), bytes@).0,
        r == match pipe_written(old(pool).model(), handle_of(pipe), bytes@).1 {
            Ok(n) => Ok::<usize, LinuxErrno>(n),
            Err(o) => Err(write_errno(o)),
        },
{
    match pool.write_from(pipe_ref_to_handle(pipe), bytes) {
        Ok(n) => Ok(n),
        Err(PipeWriteOutcome::Block) => Err(EAGAIN),
        Err(PipeWriteOutcome::Epipe) => Err(EPIPE),
        Err(PipeWriteOutcome::Stale) => Err(EBADF),
    }
}

/// Releases the end that a reference names.
pub fn release_pipe_end(pool: &mut PipePool, pipe: PipeRef)
    requires
        old(pool).wf(),
    ensures
        final(pool).wf(),
        final(pool).model() == end_released(old(pool).model(), handle_of(pipe), pipe.end),
{
    pool.release_end(pipe_ref_to_handle(pipe), pipe.end);
}

/// Makes a pipe with one reader and one writer.
pub fn open_pipe_refs(pool: &mut PipePool) -> (r: Result<(PipeRef, PipeRef), LinuxErrno>)
    requires
        old(pool).wf(),
    ensures
        final(pool).wf(),
        (final(pool).model(), r) == pipe_opened(old(pool).model()),
{
    let ghost m = pool.model();
    proof {
        lemma_free_pipe(m.pipes, 0);
    }
    let handle = match pool.alloc_pipe() {
        Ok(handle) => handle,
        Err(e) => return Err(e),
    };
    pool.add_reader(handle);
    pool.add_writer(handle);
    proof {
        let made = pipe_made(m).0;
        assert(pool.model().pipes =~= made.pipes.update(
            handle.index as int,
            PipeModel {
                live: true,
                generation: handle.generation,
                bytes: seq![],
                readers: 1,
                writers: 1,
            },
        ));
    }
    let id = PipeId { index: handle.index, generation: handle.generation };
    Ok((PipeRef { pipe: id, end: PipeEnd::Read }, PipeRef { pipe: id, end: PipeEnd::Write }))
}

pub proof fn lemma_free_pipe(pipes: Seq<PipeModel>, from: int)
    requires
        0 <= from <= pipes.len(),
    ensures
        free_pipe_from(pipes, from) matches Some(i) ==> from <= i < pipes.len() && !pipes[i].live,
    decreases pipes.len() - from,
{
    if from < pipes.len() && pipes[from].live {
        lemma_free_pipe(pipes, from + 1);
    }
}

/// Bytes come out in the order in which they went in: after a write that took `n` bytes, a read gives
/// the bytes that were in the pipe followed by those `n`, as far as it asks, and leaves the rest.
pub proof fn law_pipe_is_fifo(m: PipesModel, handle: PipeHandle, data: Seq<u8>, room: int)
    requires
        pipe_written(m, handle, data).1 is Ok,
        pipe_at(m, handle).bytes.len() <= LINUX_PIPE_CAPACITY,
        0 <= room,
    ensures
        ({
            let (written, n) = pipe_written(m, handle, data);
            let (left, got, outcome) = pipe_read(written, handle, room);
            let queue = pipe_at(m, handle).bytes + data.take(n->Ok_0 as int);
            &&& queue.len() > 0 ==> outcome == Ok::<usize, PipeReadOutcome>(got.len() as usize)
            &&& got == queue.take(least(queue.len() as int, room))
            &&& got + pipe_at(left, handle).bytes == queue
        }),
{
    let (written, n) = pipe_written(m, handle, data);
    let (left, got, outcome) = pipe_read(written, handle, room);
    let queue = pipe_at(m, handle).bytes + data.take(n->Ok_0 as int);
    assert(pipe_at(written, handle).bytes == queue);
    assert(got =~= queue.take(least(queue.len() as int, room)));
    assert(got + pipe_at(left, handle).bytes =~= queue);
}

/// A pipe at its end stays there: without writers, a read of an empty pipe gives nothing and changes
/// nothing; without readers, a write changes nothing and is refused.
pub proof fn law_end_of_pipe(m: PipesModel, handle: PipeHandle, data: Seq<u8>, room: int)
    requires
        names_pipe(m, handle),
    ensures
        pipe_at(m, handle).writers == 0 && pipe_at(m, handle).bytes.len() == 0 ==> pipe_read(
            m,
            handle,
            room,
        ) == (m, Seq::<u8>::empty(), Ok::<usize, PipeReadOutcome>(0)),
        pipe_at(m, handle).readers == 0 ==> pipe_written(m, handle, data) == (
            m,
            Err::<usize, PipeWriteOutcome>(PipeWriteOutcome::Epipe),
        ),
{
}

/// Releasing both ends of a pipe that had one of each frees it.
pub proof fn law_last_ends_free_the_pipe(m: PipesModel, handle: PipeHandle)
    requires
        names_pipe(m, handle),
        pipe_at(m, handle).readers == 1,
        pipe_at(m, handle).writers == 1,
    ensures
        !names_pipe(
            end_released(end_released(m, handle, PipeEnd::Write), handle, PipeEnd::Read),
            handle,
        ),
        !names_pipe(
            end_released(end_released(m, handle, PipeEnd::Read), handle, PipeEnd::Write),
            handle,
        ),
{
}

} // verus!
