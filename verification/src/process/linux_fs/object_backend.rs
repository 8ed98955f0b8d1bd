//! Writable `/tmp` files backed by persistent objects.

use crate::abi::{LinuxErrno, LinuxSyscallResult, EFBIG, EINVAL, EIO, ENAMETOOLONG, ENOENT, ENOSPC};
use crate::scan::{bytes_equal, copy_at, copy_slice, overwritten};
use crate::sched::wait::WaitKey;
use vstd::prelude::*;

verus! {

/// Largest payload of one object.
pub const OBJECT_MAX_PAYLOAD_BYTES: usize = 512;

/// Object id of the first `/tmp` file.
pub const LINUX_TMP_OBJECT_ID_BASE: u64 = 0x004C_0000;

/// Files that `/tmp` can hold.
pub const LINUX_TMP_MAX_FILES: usize = 4;

/// Entries that one directory under `/tmp` can hold.
pub const LINUX_TMP_MAX_ENTRIES: usize = 8;

/// Longest path of a `/tmp` file.
pub const LINUX_TMP_PATH_MAX: usize = 128;

/// One `/tmp` file: its object, current length, path and request in flight (0 when none is).
#[derive(Clone, Copy, Debug, PartialEq, Eq)]
pub struct TmpFileState {
    pub object_id: u64,
    pub len: usize,
    pub path_len: u16,
    pub path: [u8; 128],
    pub pending_request_id: u64,
}

impl TmpFileState {
    /// The path under which the file was created.
    pub open spec fn path_bytes(self) -> Seq<u8> {
        self.path@.take(self.path_len as int)
    }
}

/// Errors of the object service's request queue.
#[derive(Clone, Copy, Debug, PartialEq, Eq, Structural)]
pub enum SyscallQueueError {
    QueueFull,
    Unauthorized,
    InvalidRequest,
    CompletionStatus(u64),
}

/// What polling the object service's queue gave.
#[derive(Clone, Copy, Debug, PartialEq, Eq)]
pub enum ObjectPoll {
    /// The request has not completed.
    Pending,
    /// The request completed with `len` bytes of `payload`.
    Complete { len: usize, payload: [u8; 512] },
    /// The request failed.
    Failed(SyscallQueueError),
}

/// Result of a synchronous object queue operation (may require syscall restart).
#[derive(Clone, Copy, Debug, PartialEq, Eq, Structural)]
pub enum ObjectIo {
    Done(usize),
    Restart(u64),
}

/// The `/tmp` files and the in-kernel copies of their contents.
pub struct TmpStore {
    pub files: [Option<TmpFileState>; 4],
    pub scratch: [[u8; 512]; 4],
}

/// The slot whose file has the given object id.
pub open spec fn slot_of(object_id: u64) -> int {
    object_id - LINUX_TMP_OBJECT_ID_BASE
}

/// The error number for a queue error.
pub open spec fn queue_errno(e: SyscallQueueError) -> LinuxErrno {
    match e {
        SyscallQueueError::QueueFull => ENOSPC,
        SyscallQueueError::CompletionStatus(_) => EIO,
        _ => EINVAL,
    }
}

pub fn queue_err(e: SyscallQueueError) -> (r: LinuxErrno)
    ensures
        r == queue_errno(e),
{
    match e {
        SyscallQueueError::QueueFull => ENOSPC,
        SyscallQueueError::CompletionStatus(_) => EIO,
        _ => EINVAL,
    }
}

/// The wait key of an object request: tag `0x46` over the low 56 bits of the request id.
pub fn object_wait_key(request_id: u64) -> (r: WaitKey)
    ensures
        r.0 == (0x46u64 << 56 | (request_id & 0x00FF_FFFF_FFFF_FFFF)),
{
    WaitKey(0x46u64 << 56 | (request_id & 0x00FF_FFFF_FFFF_FFFF))
}

impl TmpStore {
    /// Slot `i` holds only the file with object id `base + i`, whose sizes fit their buffers.
    pub open spec fn wf(&self) -> bool {
        forall|i: int|
            0 <= i < 4 ==> match #[trigger] self.files@[i] {
                Some(f) => f.object_id == LINUX_TMP_OBJECT_ID_BASE + i && f.len
                    <= OBJECT_MAX_PAYLOAD_BYTES && f.path_len <= LINUX_TMP_PATH_MAX,
                None => true,
            }
    }

    /// Whether the object id is that of a file held here.
    pub open spec fn holds(&self, object_id: u64) -> bool {
        0 <= slot_of(object_id) < 4 && self.files@[slot_of(object_id)] is Some
    }

    /// The file with the given object id.
    pub open spec fn file(&self, object_id: u64) -> TmpFileState {
        self.files@[slot_of(object_id)]->0
    }

    /// The bytes of the file with the given object id.
    pub open spec fn contents(&self, object_id: u64) -> Seq<u8> {
        self.scratch@[slot_of(object_id)]@.take(self.file(object_id).len as int)
    }

    /// The object id of the first file created under `path`.
    pub open spec fn find_path(&self, path: Seq<u8>) -> Option<u64> {
        if self.files@[0] is Some && self.files@[0]->0.path_bytes() == path {
            Some(self.files@[0]->0.object_id)
        } else if self.files@[1] is Some && self.files@[1]->0.path_bytes() == path {
            Some(self.files@[1]->0.object_id)
        } else if self.files@[2] is Some && self.files@[2]->0.path_bytes() == path {
            Some(self.files@[2]->0.object_id)
        } else if self.files@[3] is Some && self.files@[3]->0.path_bytes() == path {
            Some(self.files@[3]->0.object_id)
        } else {
            None
        }
    }

    /// The slot that a new file takes: the lowest empty one.
    pub open spec fn free_slot(&self) -> Option<int> {
        if self.files@[0] is None {
            Some(0int)
        } else if self.files@[1] is None {
            Some(1int)
        } else if self.files@[2] is None {
            Some(2int)
        } else if self.files@[3] is None {
            Some(3int)
        } else {
            None
        }
    }

    /// What `tmp_file_create` returns.
    pub open spec fn create_result(&self, path: Seq<u8>) -> Result<u64, LinuxErrno> {
        match self.free_slot() {
            None => Err(ENOSPC),
            Some(i) => if path.len() > LINUX_TMP_PATH_MAX {
                Err(ENAMETOOLONG)
            } else {
                Ok((LINUX_TMP_OBJECT_ID_BASE + i) as u64)
            },
        }
    }

    /// The state of a file just created under `path` in slot `i`.
    pub open spec fn is_new_file(f: TmpFileState, i: int, path: Seq<u8>) -> bool {
        &&& f.object_id == LINUX_TMP_OBJECT_ID_BASE + i
        &&& f.len == 0
        &&& f.path_len == path.len()
        &&& f.path_bytes() == path
        &&& f.pending_request_id == 0
    }

    /// `after` is `self` with a new file at the lowest empty slot.
    pub open spec fn created(&self, path: Seq<u8>, after: &TmpStore) -> bool {
        let i = self.free_slot()->0;
        &&& after.files@[i] is Some
        &&& TmpStore::is_new_file(after.files@[i]->0, i, path)
        &&& after.files@ == self.files@.update(i, after.files@[i])
        &&& after.scratch@ == self.scratch@
    }

    /// `after` is `self` with the file's contents dropped and no request in flight.
    pub open spec fn truncated(&self, object_id: u64, after: &TmpStore) -> bool {
        let i = slot_of(object_id);
        let f = self.file(object_id);
        &&& after.files@ == self.files@.update(
            i,
            Some(TmpFileState { len: 0, pending_request_id: 0, ..f }),
        )
        &&& after.scratch@.len() == 4
        &&& forall|k: int| 0 <= k < 512 ==> (#[trigger] after.scratch@[i]@[k]) == 0
        &&& forall|j: int| 0 <= j < 4 && j != i ==> after.scratch@[j] == self.scratch@[j]
    }

    /// An empty `/tmp`.
    pub fn new() -> (r: TmpStore)
        ensures
            r.wf(),
            forall|i: int| 0 <= i < 4 ==> r.files@[i] is None,
            forall|i: int, k: int|
                0 <= i < 4 && 0 <= k < 512 ==> (#[trigger] r.scratch@[i]@[k]) == 0,
    {
        let row: [u8; 512] = [0u8; 512];
        TmpStore { files: [None, None, None, None], scratch: [row, row, row, row] }
    }

    /// Creates an empty file under `path`.
    pub fn tmp_file_create(&mut self, path: &[u8]) -> (r: Result<u64, LinuxErrno>)
        requires
            old(self).wf(),
        ensures
            r == old(self).create_result(path@),
            final(self).wf(),
            match r {
                Ok(_) => old(self).created(path@, final(self)),
                Err(_) => *final(self) == *old(self),
            },
    {
        let mut index: usize = 0;
        while index < LINUX_TMP_MAX_FILES
            invariant
                0 <= index <= 4,
                self.wf(),
                *self == *old(self),
                forall|j: int| 0 <= j < index ==> self.files@[j] is Some,
            decreases 4 - index,
        {
            if self.files[index].is_none() {
                if path.len() > LINUX_TMP_PATH_MAX {
                    return Err(ENAMETOOLONG);
                }
                let object_id: u64 = LINUX_TMP_OBJECT_ID_BASE + index as u64;
                let mut bytes: [u8; 128] = [0u8; 128];
                copy_at(&mut bytes, 0, path);
                let state = TmpFileState {
                    object_id,
                    len: 0,
                    path_len: path.len() as u16,
                    path: bytes,
                    pending_request_id: 0,
                };
                assert(state.path_bytes() =~= path@);
                self.files[index] = Some(state);
                return Ok(object_id);
            }
            index += 1;
        }
        Err(ENOSPC)
    }

    /// The object id of the file created under `path`.
    pub fn tmp_file_lookup_by_path(&self, path: &[u8]) -> (r: Option<u64>)
        requires
            self.wf(),
        ensures
            r == self.find_path(path@),
    {
        let mut index: usize = 0;
        while index < LINUX_TMP_MAX_FILES
            invariant
                0 <= index <= 4,
                self.wf(),
                forall|j: int|
                    0 <= j < index ==> !(self.files@[j] is Some && (
                    #[trigger] self.files@[j])->0.path_bytes() == path@),
            decreases 4 - index,
        {
            if let Some(state) = self.files[index] {
                if bytes_equal(
                    vstd::slice::slice_subrange(&state.path, 0, state.path_len as usize),
                    path,
                ) {
                    return Some(state.object_id);
                }
            }
            index += 1;
        }
        None
    }

    /// The file with the given object id.
    pub fn tmp_file_by_object_id(&self, object_id: u64) -> (r: Option<TmpFileState>)
        requires
            self.wf(),
        ensures
            match r {
                Some(f) => self.holds(object_id) && f == self.file(object_id),
                None => !self.holds(object_id),
            },
    {
        match TmpStore::slot_index_for_object(object_id) {
            Some(index) => self.files[index],
            None => None,
        }
    }

    /// The slot that belongs to an object id, whether or not it holds a file.
    pub fn slot_index_for_object(object_id: u64) -> (r: Option<usize>)
        ensures
            match r {
                Some(i) => i == slot_of(object_id) && i < 4,
                None => !(0 <= slot_of(object_id) < 4),
            },
    {
        if object_id >= LINUX_TMP_OBJECT_ID_BASE && object_id - LINUX_TMP_OBJECT_ID_BASE
            < LINUX_TMP_MAX_FILES as u64 {
            Some((object_id - LINUX_TMP_OBJECT_ID_BASE) as usize)
        } else {
            None
        }
    }

    /// What a local read leaves in a buffer, and what it returns.
    pub open spec fn read_at(&self, object_id: u64, offset: nat, buf: Seq<u8>) -> (
        Seq<u8>,
        Result<usize, LinuxErrno>,
    ) {
        if !self.holds(object_id) {
            (buf, Err(ENOENT))
        } else {
            let bytes = self.contents(object_id);
            let rest = if offset < bytes.len() {
                bytes.skip(offset as int)
            } else {
                Seq::<u8>::empty()
            };
            let n = if rest.len() < buf.len() {
                rest.len() as int
            } else {
                buf.len() as int
            };
            (overwritten(buf, 0, rest.take(n)), Ok(n as usize))
        }
    }

    /// Read bytes from the in-kernel copy (authoritative after a completed write).
    pub fn tmp_file_read_local(&self, object_id: u64, offset: usize, out: &mut [u8]) -> (r: Result<
        usize,
        LinuxErrno,
    >)
        requires
            self.wf(),
        ensures
            final(out)@.len() == old(out)@.len(),
            (final(out)@, r) == self.read_at(object_id, offset as nat, old(out)@),
    {
        let state = match self.tmp_file_by_object_id(object_id) {
            Some(state) => state,
            None => return Err(ENOENT),
        };
        if offset >= state.len {
            assert(old(out)@ =~= overwritten(old(out)@, 0, Seq::<u8>::empty().take(0)));
            return Ok(0);
        }
        let index: usize = match TmpStore::slot_index_for_object(object_id) {
            Some(index) => index,
            None => return Err(EINVAL),
        };
        let left: usize = state.len - offset;
        let take: usize = if left < out.len() {
            left
        } else {
            out.len()
        };
        let row = &self.scratch[index];
        let src = vstd::slice::slice_subrange(row, offset, offset + take);
        assert(src@ =~= self.contents(object_id).skip(offset as int).take(take as int));
        copy_slice(out, 0, src);
        Ok(take)
    }

    /// Drops a file's contents.
    pub fn tmp_file_truncate_local(&mut self, object_id: u64) -> (r: Result<(), LinuxErrno>)
        requires
            old(self).wf(),
        ensures
            final(self).wf(),
            old(self).holds(object_id) ==> r is Ok && old(self).truncated(object_id, final(self)),
            !old(self).holds(object_id) ==> r == Err::<(), LinuxErrno>(ENOENT) && *final(self)
                == *old(self),
    {
        let state = match self.tmp_file_by_object_id(object_id) {
            Some(state) => state,
            None => return Err(ENOENT),
        };
        if let Some(index) = TmpStore::slot_index_for_object(object_id) {
            self.files[index] = Some(TmpFileState { len: 0, pending_request_id: 0, ..state });
            self.scratch[index] = [0u8; 512];
        }
        Ok(())
    }

    /// The in-kernel copy behind an object id.
    pub fn tmp_scratch_for(&self, object_id: u64) -> (r: Result<&[u8; 512], LinuxErrno>)
        ensures
            0 <= slot_of(object_id) < 4 ==> r is Ok && r->Ok_0@ == self.scratch@[slot_of(
                object_id,
            )]@,
            !(0 <= slot_of(object_id) < 4) ==> r == Err::<&[u8; 512], LinuxErrno>(EINVAL),
    {
        match TmpStore::slot_index_for_object(object_id) {
            Some(index) => Ok(&self.scratch[index]),
            None => Err(EINVAL),
        }
    }

    /// Creates a `/tmp` file that already holds `data`.
    pub fn bootstrap_tmp_file_bytes(&mut self, path: &[u8], data: &[u8]) -> (r: Result<
        (),
        LinuxErrno,
    >)
        requires
            old(self).wf(),
        ensures
            final(self).wf(),
            data@.len() > OBJECT_MAX_PAYLOAD_BYTES ==> r == Err::<(), LinuxErrno>(EFBIG) && *final(self) == *old(self),
            data@.len() <= OBJECT_MAX_PAYLOAD_BYTES ==> match old(self).create_result(path@) {
                Err(e) => r == Err::<(), LinuxErrno>(e) && *final(self) == *old(self),
                Ok(id) => {
                    &&& r is Ok
                    &&& final(self).holds(id)
                    &&& final(self).contents(id) == data@
                    &&& final(self).file(id).path_bytes() == path@
                    &&& final(self).file(id).pending_request_id == 0
                    &&& forall|j: int|
                        0 <= j < 4 && j != slot_of(id) ==> final(self).files@[j] == old(self).files@[j] && final(self).scratch@[j] == old(self).scratch@[j]
                },
            },
    {
        if data.len() > OBJECT_MAX_PAYLOAD_BYTES {
            return Err(EFBIG);
        }
        let object_id: u64 = match self.tmp_file_create(path) {
            Ok(id) => id,
            Err(e) => return Err(e),
        };
        let state = match self.tmp_file_by_object_id(object_id) {
            Some(state) => state,
            None => return Err(ENOENT),
        };
        if let Some(index) = TmpStore::slot_index_for_object(object_id) {
            self.files[index] = Some(TmpFileState { len: data.len(), ..state });
            let mut row: [u8; 512] = self.scratch[index];
            copy_at(&mut row, 0, data);
            self.scratch[index] = row;
            assert(self.contents(object_id) =~= data@);
        }
        Ok(())
    }

    /// Whether a transfer on the file must first submit a request to the object service.
    pub fn needs_submit(&self, object_id: u64) -> (r: Result<bool, LinuxErrno>)
        requires
            self.wf(),
        ensures
            self.holds(object_id) ==> r == Ok::<bool, LinuxErrno>(
                self.file(object_id).pending_request_id == 0,
            ),
            !self.holds(object_id) ==> r == Err::<bool, LinuxErrno>(ENOENT),
    {
        match self.tmp_file_by_object_id(object_id) {
            Some(state) => Ok(state.pending_request_id == 0),
            None => Err(ENOENT),
        }
    }

    /// The request that a transfer waits for: the one in flight, else the one just submitted.
    pub open spec fn request_for(
        &self,
        object_id: u64,
        submitted: Result<u64, SyscallQueueError>,
    ) -> Result<u64, SyscallQueueError> {
        if self.file(object_id).pending_request_id != 0 {
            Ok(self.file(object_id).pending_request_id)
        } else {
            submitted
        }
    }

    /// `after` differs from `self` only in the request that the file waits for.
    pub open spec fn with_pending(&self, object_id: u64, request: u64, after: &TmpStore) -> bool {
        &&& after.files@ == self.files@.update(
            slot_of(object_id),
            Some(TmpFileState { pending_request_id: request, ..self.file(object_id) }),
        )
        &&& after.scratch@ == self.scratch@
    }

    /// `after` is `self` with the file holding `bytes` and no request in flight.
    pub open spec fn with_contents(&self, object_id: u64, bytes: Seq<u8>, after: &TmpStore) -> bool {
        let i = slot_of(object_id);
        &&& after.files@ == self.files@.update(
            i,
            Some(
                TmpFileState {
                    pending_request_id: 0,
                    len: bytes.len() as usize,
                    ..self.file(object_id)
                },
            ),
        )
        &&& after.scratch@[i]@ == overwritten(self.scratch@[i]@, 0, bytes)
        &&& forall|j: int| 0 <= j < 4 && j != i ==> after.scratch@[j] == self.scratch@[j]
    }

    fn set_pending(&mut self, object_id: u64, request: u64)
        requires
            old(self).wf(),
            old(self).holds(object_id),
        ensures
            final(self).wf(),
            old(self).with_pending(object_id, request, final(self)),
    {
        if let Some(index) = TmpStore::slot_index_for_object(object_id) {
            if let Some(state) = self.files[index] {
                self.files[index] = Some(TmpFileState { pending_request_id: request, ..state });
            }
        }
    }

    fn set_contents(&mut self, object_id: u64, bytes: &[u8])
        requires
            old(self).wf(),
            old(self).holds(object_id),
            bytes@.len() <= OBJECT_MAX_PAYLOAD_BYTES,
        ensures
            final(self).wf(),
            old(self).with_contents(object_id, bytes@, final(self)),
    {
        if let Some(index) = TmpStore::slot_index_for_object(object_id) {
            if let Some(state) = self.files[index] {
                self.files[index] = Some(
                    TmpFileState { pending_request_id: 0, len: bytes.len(), ..state },
                );
                let mut row: [u8; 512] = self.scratch[index];
                copy_at(&mut row, 0, bytes);
                self.scratch[index] = row;
            }
        }
    }

    /// What one step of a read through the object service does and returns.
    pub open spec fn read_step(
        &self,
        object_id: u64,
        submitted: Result<u64, SyscallQueueError>,
        polled: ObjectPoll,
        blocked: LinuxSyscallResult,
        buf: Seq<u8>,
        after: &TmpStore,
        buf_after: Seq<u8>,
        r: Result<ObjectIo, LinuxErrno>,
    ) -> bool {
        if !self.holds(object_id) {
            r == Err::<ObjectIo, LinuxErrno>(ENOENT) && *after == *self && buf_after == buf
        } else {
            match self.request_for(object_id, submitted) {
                Err(e) => r == Err::<ObjectIo, LinuxErrno>(queue_errno(e)) && *after == *self
                    && buf_after == buf,
                Ok(request) => match polled {
                    ObjectPoll::Pending => {
                        &&& self.with_pending(object_id, request, after)
                        &&& buf_after == buf
                        &&& r == match blocked {
                            Ok(nr) => Ok::<ObjectIo, LinuxErrno>(ObjectIo::Restart(nr)),
                            Err(e) => Err(e),
                        }
                    },
                    ObjectPoll::Complete { len, payload } => {
                        let n = if len < buf.len() {
                            len as int
                        } else {
                            buf.len() as int
                        };
                        &&& self.with_contents(object_id, payload@.take(len as int), after)
                        &&& buf_after == overwritten(buf, 0, payload@.take(n))
                        &&& r == Ok::<ObjectIo, LinuxErrno>(ObjectIo::Done(n as usize))
                    },
                    ObjectPoll::Failed(e) => {
                        &&& self.with_pending(object_id, 0, after)
                        &&& buf_after == buf
                        &&& r == Err::<ObjectIo, LinuxErrno>(queue_errno(e))
                    },
                },
            }
        }
    }

    /// One step of reading a file through the object service. `submitted` is what submitting a
    /// request gave (it counts only when none was in flight), `polled` what polling that request
    /// gave, `blocked` what blocking the caller gave (it counts only while the request is pending).
    pub fn object_read_sync(
        &mut self,
        object_id: u64,
        submitted: Result<u64, SyscallQueueError>,
        polled: &ObjectPoll,
        blocked: LinuxSyscallResult,
        out: &mut [u8],
    ) -> (r: Result<ObjectIo, LinuxErrno>)
        requires
            old(self).wf(),
            polled matches ObjectPoll::Complete { len, .. } ==> len <= OBJECT_MAX_PAYLOAD_BYTES,
        ensures
            final(self).wf(),
            old(self).read_step(
                object_id,
                submitted,
                *polled,
                blocked,
                old(out)@,
                final(self),
                final(out)@,
                r,
            ),
    {
        let state = match self.tmp_file_by_object_id(object_id) {
            Some(state) => state,
            None => return Err(ENOENT),
        };
        let request: u64 = if state.pending_request_id != 0 {
            state.pending_request_id
        } else {
            match submitted {
                Ok(id) => id,
                Err(e) => return Err(queue_err(e)),
            }
        };
        match polled {
            ObjectPoll::Pending => {
                self.set_pending(object_id, request);
                match blocked {
                    Ok(nr) => Ok(ObjectIo::Restart(nr)),
                    Err(e) => Err(e),
                }
            },
            ObjectPoll::Complete { len, payload } => {
                self.set_contents(object_id, vstd::slice::slice_subrange(payload, 0, *len));
                let take: usize = if *len < out.len() {
                    *len
                } else {
                    out.len()
                };
                copy_slice(out, 0, vstd::slice::slice_subrange(payload, 0, take));
                Ok(ObjectIo::Done(take))
            },
            ObjectPoll::Failed(e) => {
                self.set_pending(object_id, 0);
                Err(queue_err(*e))
            },
        }
    }

    /// What one step of a write through the object service does and returns.
    pub open spec fn write_step(
        &self,
        object_id: u64,
        payload: Seq<u8>,
        submitted: Result<u64, SyscallQueueError>,
        polled: ObjectPoll,
        blocked: LinuxSyscallResult,
        after: &TmpStore,
        r: Result<ObjectIo, LinuxErrno>,
    ) -> bool {
        if payload.len() > OBJECT_MAX_PAYLOAD_BYTES {
            r == Err::<ObjectIo, LinuxErrno>(EFBIG) && *after == *self
        } else if !self.holds(object_id) {
            r == Err::<ObjectIo, LinuxErrno>(ENOENT) && *after == *self
        } else {
            match self.request_for(object_id, submitted) {
                Err(e) => r == Err::<ObjectIo, LinuxErrno>(queue_errno(e)) && *after == *self,
                Ok(request) => match polled {
                    ObjectPoll::Pending => {
                        &&& self.with_pending(object_id, request, after)
                        &&& r == match blocked {
                            Ok(nr) => Ok::<ObjectIo, LinuxErrno>(ObjectIo::Restart(nr)),
                            Err(e) => Err(e),
                        }
                    },
                    ObjectPoll::Complete { .. } => {
                        &&& self.with_contents(object_id, payload, after)
                        &&& r == Ok::<ObjectIo, LinuxErrno>(ObjectIo::Done(payload.len() as usize))
                    },
                    ObjectPoll::Failed(e) => {
                        &&& self.with_pending(object_id, 0, after)
                        &&& r == Err::<ObjectIo, LinuxErrno>(queue_errno(e))
                    },
                },
            }
        }
    }

    /// One step of writing a file through the object service; the arguments are as for
    /// `object_read_sync`.
    pub fn object_write_sync(
        &mut self,
        object_id: u64,
        payload: &[u8],
        submitted: Result<u64, SyscallQueueError>,
        polled: &ObjectPoll,
        blocked: LinuxSyscallResult,
    ) -> (r: Result<ObjectIo, LinuxErrno>)
        requires
            old(self).wf(),
        ensures
            final(self).wf(),
            old(self).write_step(
                object_id,
                payload@,
                submitted,
                *polled,
                blocked,
                final(self),
                r,
            ),
    {
        if payload.len() > OBJECT_MAX_PAYLOAD_BYTES {
            return Err(EFBIG);
        }
        let state = match self.tmp_file_by_object_id(object_id) {
            Some(state) => state,
            None => return Err(ENOENT),
        };
        let request: u64 = if state.pending_request_id != 0 {
            state.pending_request_id
        } else {
            match submitted {
                Ok(id) => id,
                Err(e) => return Err(queue_err(e)),
            }
        };
        match polled {
            ObjectPoll::Pending => {
                self.set_pending(object_id, request);
                match blocked {
                    Ok(nr) => Ok(ObjectIo::Restart(nr)),
                    Err(e) => Err(e),
                }
            },
            ObjectPoll::Complete { len: _, payload: _ } => {
                self.set_contents(object_id, payload);
                Ok(ObjectIo::Done(payload.len()))
            },
            ObjectPoll::Failed(e) => {
                self.set_pending(object_id, 0);
                Err(queue_err(*e))
            },
        }
    }
}

/// A completed write is what the file then holds, and what a local read from its start gives back.
pub proof fn law_write_is_read_back(
    before: &TmpStore,
    object_id: u64,
    bytes: Seq<u8>,
    after: &TmpStore,
)
    requires
        before.wf(),
        before.holds(object_id),
        bytes.len() <= OBJECT_MAX_PAYLOAD_BYTES,
        before.with_contents(object_id, bytes, after),
    ensures
        after.holds(object_id),
        after.contents(object_id) == bytes,
        forall|other: u64|
            other != object_id && before.holds(other) ==> #[trigger] after.holds(other)
                && after.contents(other) == before.contents(other),
{
    assert(after.contents(object_id) =~= bytes);
}

/// Two files created one after the other have different object ids.
pub proof fn law_created_ids_differ(before: &TmpStore, first: Seq<u8>, second: Seq<u8>, after: &TmpStore)
    requires
        before.wf(),
        before.create_result(first) is Ok,
        before.created(first, after),
        after.create_result(second) is Ok,
    ensures
        before.create_result(first)->Ok_0 != after.create_result(second)->Ok_0,
{
}

} // verus!
