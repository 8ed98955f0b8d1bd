//! What holds between the two ends of a pipe.

use super::pipe::{
    can_read, can_write, end_added, end_released, handle_of, lemma_free_pipe, names_pipe,
    pipe_at, pipe_made, pipe_opened, pipe_read, pipe_written, read_errno, reader_key,
    write_errno, writer_key, PipeHandle, PipeReadOutcome, PipeWriteOutcome, PipesModel,
};
use crate::abi::{EAGAIN, EBADF, EPIPE};
use crate::process::linux_fd::open_description::PipeEnd;
use vstd::prelude::*;

verus! {

/// A write to a pipe that has readers and room takes the first bytes of what it is given, all of them or
/// as many as fill the pipe, puts them behind those that are there, and wakes the readers. Otherwise it
/// changes nothing: without readers it is broken, without room it blocks.
pub proof fn law_write_appends(m: PipesModel, handle: PipeHandle, data: Seq<u8>)
    requires
        names_pipe(m, handle),
        pipe_at(m, handle).bytes.len() <= 1024,
    ensures
        ({
            let (after, r) = pipe_written(m, handle, data);
            let before = pipe_at(m, handle);
            let now = pipe_at(after, handle);
            match r {
                Ok(n) => {
                    &&& before.readers > 0
                    &&& now.bytes.len() == before.bytes.len() + n
                    &&& now.bytes.take(before.bytes.len() as int) == before.bytes
                    &&& now.bytes.skip(before.bytes.len() as int) == data.take(n as int)
                    &&& n == data.len() || now.bytes.len() == 1024
                    &&& n <= data.len() && now.bytes.len() <= 1024
                    &&& data.len() > 0 ==> n > 0
                    &&& after.wakes == m.wakes.push(reader_key(handle))
                    &&& now.readers == before.readers && now.writers == before.writers && now.live
                },
                Err(PipeWriteOutcome::Epipe) => after == m && before.readers == 0,
                Err(PipeWriteOutcome::Block) => after == m && before.readers > 0
                    && before.bytes.len() == 1024,
                Err(PipeWriteOutcome::Stale) => false,
            }
        }),
{
    let (after, r) = pipe_written(m, handle, data);
    let before = pipe_at(m, handle);
    let now = pipe_at(after, handle);
    if let Ok(n) = r {
        assert(now.bytes.take(before.bytes.len() as int) =~= before.bytes);
        assert(now.bytes.skip(before.bytes.len() as int) =~= data.take(n as int));
    }
}

/// A read takes the oldest bytes, all of them or as many as fit, leaves the others in their order, and
/// wakes the writers. An empty pipe changes nothing: it blocks while it has a writer and is at its end
/// without one.
pub proof fn law_read_takes_the_oldest(m: PipesModel, handle: PipeHandle, room: int)
    requires
        names_pipe(m, handle),
        0 <= room,
        pipe_at(m, handle).bytes.len() <= 1024,
    ensures
        ({
            let (after, got, r) = pipe_read(m, handle, room);
            let before = pipe_at(m, handle);
            let now = pipe_at(after, handle);
            match r {
                Ok(n) => {
                    &&& got.len() == n
                    &&& n <= room
                    &&& got + now.bytes == before.bytes
                    &&& n == room || now.bytes.len() == 0
                    &&& before.bytes.len() > 0 ==> after.wakes == m.wakes.push(writer_key(handle))
                    &&& before.bytes.len() == 0 ==> after == m && before.writers == 0
                    &&& now.readers == before.readers && now.writers == before.writers && now.live
                },
                Err(PipeReadOutcome::Block) => after == m && got.len() == 0 && before.bytes.len()
                    == 0 && before.writers > 0,
                Err(PipeReadOutcome::Stale) => false,
            }
        }),
{
    let (after, got, r) = pipe_read(m, handle, room);
    if let Ok(n) = r {
        assert(got + pipe_at(after, handle).bytes =~= pipe_at(m, handle).bytes);
    }
}

/// What is done to one pipe leaves every other as it is, and a handle that names no pipe does nothing.
pub proof fn law_pipes_are_apart(
    m: PipesModel,
    handle: PipeHandle,
    data: Seq<u8>,
    room: int,
    end: PipeEnd,
    j: int,
)
    requires
        0 <= j < m.pipes.len(),
        j != handle.index || !names_pipe(m, handle),
    ensures
        pipe_written(m, handle, data).0.pipes[j] == m.pipes[j],
        pipe_read(m, handle, room).0.pipes[j] == m.pipes[j],
        end_released(m, handle, end).pipes[j] == m.pipes[j],
        end_added(m, handle, end).pipes[j] == m.pipes[j],
        !names_pipe(m, handle) ==> pipe_written(m, handle, data) == (
            m,
            Err::<usize, PipeWriteOutcome>(PipeWriteOutcome::Stale),
        ),
        !names_pipe(m, handle) ==> pipe_read(m, handle, room).0 == m && pipe_read(m, handle, room).2
            == Err::<usize, PipeReadOutcome>(PipeReadOutcome::Stale),
        !names_pipe(m, handle) ==> end_released(m, handle, end) == m,
{
}

/// A pipe is ready exactly where the transfer would not block.
pub proof fn law_readiness_foretells(m: PipesModel, handle: PipeHandle, data: Seq<u8>, room: int)
    requires
        names_pipe(m, handle),
        pipe_at(m, handle).bytes.len() <= 1024,
    ensures
        can_read(m, handle) <==> pipe_read(m, handle, room).2 is Ok,
        !can_read(m, handle) <==> pipe_read(m, handle, room).2 == Err::<usize, PipeReadOutcome>(
            PipeReadOutcome::Block,
        ),
        !can_write(m, handle) <==> pipe_written(m, handle, data).1 == Err::<usize, PipeWriteOutcome>(
            PipeWriteOutcome::Block,
        ),
{
}

/// A write makes a pipe readable, a read makes it writable, and each wakes those who wait for that.
pub proof fn law_transfers_make_ready(m: PipesModel, handle: PipeHandle, data: Seq<u8>, room: int)
    requires
        names_pipe(m, handle),
        pipe_at(m, handle).bytes.len() <= 1024,
        room > 0,
        data.len() > 0,
    ensures
        pipe_written(m, handle, data).1 is Ok ==> can_read(pipe_written(m, handle, data).0, handle)
            && pipe_written(m, handle, data).0.wakes.last() == reader_key(handle),
        pipe_read(m, handle, room).1.len() > 0 ==> can_write(pipe_read(m, handle, room).0, handle)
            && pipe_read(m, handle, room).0.wakes.last() == writer_key(handle),
{
}

/// The last writer's release wakes the readers, who then find the pipe at its end once it is empty; the
/// last reader's wakes the writers, who then find it broken. Another reader's release wakes nobody. The
/// bytes in the pipe stay.
pub proof fn law_last_end_is_noticed(m: PipesModel, handle: PipeHandle, data: Seq<u8>, room: int)
    requires
        names_pipe(m, handle),
        pipe_at(m, handle).readers > 0,
        pipe_at(m, handle).writers > 0,
    ensures
        ({
            let before = pipe_at(m, handle);
            let w = end_released(m, handle, PipeEnd::Write);
            let r = end_released(m, handle, PipeEnd::Read);
            &&& names_pipe(w, handle) && names_pipe(r, handle)
            &&& pipe_at(w, handle).bytes == before.bytes && pipe_at(r, handle).bytes == before.bytes
            &&& pipe_at(w, handle).readers == before.readers && pipe_at(w, handle).writers
                == before.writers - 1
            &&& pipe_at(r, handle).writers == before.writers && pipe_at(r, handle).readers
                == before.readers - 1
            &&& w.wakes == m.wakes.push(reader_key(handle))
            &&& r.wakes == if before.readers == 1 {
                m.wakes.push(writer_key(handle))
            } else {
                m.wakes
            }
            &&& before.writers == 1 && before.bytes.len() == 0 ==> pipe_read(w, handle, room).2
                == Ok::<usize, PipeReadOutcome>(0)
            &&& before.readers == 1 ==> pipe_written(r, handle, data).1 == Err::<
                usize,
                PipeWriteOutcome,
            >(PipeWriteOutcome::Epipe)
        }),
{
}

/// Adding an end and releasing it leaves the pipe as it was.
pub proof fn law_added_end_is_released(m: PipesModel, handle: PipeHandle, end: PipeEnd)
    requires
        names_pipe(m, handle),
        pipe_at(m, handle).readers > 0,
        pipe_at(m, handle).writers > 0,
        pipe_at(m, handle).readers < u16::MAX,
        pipe_at(m, handle).writers < u16::MAX,
    ensures
        end_released(end_added(m, handle, end), handle, end).pipes == m.pipes,
        end_added(m, handle, end).wakes == m.wakes,
{
    assert(end_released(end_added(m, handle, end), handle, end).pipes =~= m.pipes);
}

/// A pipe that is opened takes a place where none was live, is empty, has one reader and one writer
/// whose ends lead to it, and no handle of another live pipe names it. What is written to it is read
/// from it.
pub proof fn law_opened_pipe_connects(m: PipesModel, other: PipeHandle, data: Seq<u8>)
    requires
        m.pipes.len() == 8,
        pipe_opened(m).1 is Ok,
        0 < data.len() <= 1024,
    ensures
        ({
            let (after, ends) = pipe_opened(m);
            let (r, w) = ends->Ok_0;
            let handle = handle_of(r);
            &&& r.end == PipeEnd::Read && w.end == PipeEnd::Write
            &&& handle_of(w) == handle
            &&& names_pipe(after, handle)
            &&& !names_pipe(m, handle)
            &&& pipe_at(after, handle).bytes.len() == 0
            &&& pipe_at(after, handle).readers == 1 && pipe_at(after, handle).writers == 1
            &&& names_pipe(m, other) ==> names_pipe(after, other) && pipe_at(after, other)
                == pipe_at(m, other)
            &&& pipe_read(after, handle, 1).2 == Err::<usize, PipeReadOutcome>(
                PipeReadOutcome::Block,
            )
            &&& pipe_read(pipe_written(after, handle, data).0, handle, data.len() as int).1 == data
        }),
{
    lemma_free_pipe(m.pipes, 0);
    let (after, ends) = pipe_opened(m);
    let handle = handle_of((ends->Ok_0).0);
    let full = pipe_written(after, handle, data).0;
    let got = pipe_read(full, handle, data.len() as int).1;
    assert(pipe_at(full, handle).bytes =~= data);
    assert(got =~= data);
}

/// A handle of a pipe that is gone does not name the pipe that takes its place, as long as generations
/// have not run out.
pub proof fn law_old_pipe_handle_is_stale(m: PipesModel, handle: PipeHandle)
    requires
        m.pipes.len() == 8,
        handle.generation < m.next_generation < u32::MAX,
        !names_pipe(m, handle),
        pipe_opened(m).1 is Ok,
    ensures
        !names_pipe(pipe_opened(m).0, handle),
        handle_of((pipe_opened(m).1->Ok_0).0).generation < pipe_opened(m).0.next_generation,
{
    lemma_free_pipe(m.pipes, 0);
}

/// A new pipe holds nothing and has no ends; it is found by its handle, which named nothing before, and the
/// pipes that were there stay.
pub proof fn law_new_pipe_is_empty(m: PipesModel, other: PipeHandle)
    requires
        m.pipes.len() <= 65536,
        pipe_made(m).1 is Ok,
        names_pipe(m, other),
    ensures
        ({
            let (after, r) = pipe_made(m);
            let handle = r->Ok_0;
            let pipe = pipe_at(after, handle);
            &&& names_pipe(after, handle)
            &&& !names_pipe(m, handle)
            &&& pipe.bytes.len() == 0 && pipe.readers == 0 && pipe.writers == 0
            &&& names_pipe(after, other) && pipe_at(after, other) == pipe_at(m, other)
            &&& after.wakes == m.wakes
        }),
{
    lemma_free_pipe(m.pipes, 0);
}

/// A read or a write that would wait is told to try again, and one through a stale handle that the
/// descriptor is bad; only a write can break.
pub proof fn law_pipe_errors(read: PipeReadOutcome, write: PipeWriteOutcome)
    ensures
        read_errno(read) == EAGAIN <==> read is Block,
        read_errno(read) == EBADF <==> read is Stale,
        write_errno(write) == EAGAIN <==> write is Block,
        write_errno(write) == EPIPE <==> write is Epipe,
        write_errno(write) == EBADF <==> write is Stale,
{
}

/// A stale handle is never ready.
pub proof fn law_stale_handle_is_never_ready(m: PipesModel, handle: PipeHandle)
    requires
        !names_pipe(m, handle),
    ensures
        !can_read(m, handle),
        !can_write(m, handle),
{
}

} // verus!
