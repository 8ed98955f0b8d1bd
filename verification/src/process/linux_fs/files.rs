//! What `stat`, directory listings, reads and writes tell of one file.

use super::image::{child_indices, Image};
use super::lookups::law_followed_lookup_ends_at_no_link;
use super::namespace::{
    dirent_code, executable_at, extends, id_at, law_lookup_extends, lemma_find_entry, list_entries,
    list_nodes, listed, listing, looked_up, node_path, open_created, open_stored, open_target,
    stat_of, valid_id, NodeBackend, NodeId, NodeKind, OpenTarget, TableModel, LINUX_FS_MAX_NODES,
    LIST_MAX,
};
use super::object_backend::{slot_of, ObjectIo, ObjectPoll, SyscallQueueError, TmpStore};
use super::tree::rooted;
use crate::abi::{LinuxErrno, LinuxSyscallResult, ENOENT};
use crate::scan::has_prefix;
use vstd::prelude::*;

verus! {

/// A live `/tmp` file in the namespace: its node, and the object that holds its bytes.
pub open spec fn tmp_file(m: TableModel, tmp: &TmpStore, id: NodeId, object_id: u64) -> bool {
    &&& id.index < m.nodes.len()
    &&& valid_id(m, id)
    &&& node_path(m, id.index) is Ok
    &&& m.nodes[id.index as int].kind == NodeKind::File
    &&& m.nodes[id.index as int].backend == (NodeBackend::Object { object_id })
    &&& tmp.holds(object_id)
}

/// The size that `stat` and `lstat` give for a `/tmp` file is the number of bytes it holds, which is
/// what a read of the whole file gives back; its blocks are just as many as hold them; and it is a
/// regular file.
pub proof fn law_stat_tells_the_length(
    m: TableModel,
    tmp: &TmpStore,
    image: &Image,
    id: NodeId,
    object_id: u64,
    for_lstat: bool,
    buf: Seq<u8>,
)
    requires
        tmp.wf(),
        tmp_file(m, tmp, id, object_id),
        buf.len() >= 512,
    ensures
        ({
            let (after, r) = stat_of(m, tmp, image, id, for_lstat);
            let (read, n) = tmp.read_at(object_id, 0, buf);
            &&& after == m
            &&& r is Ok
            &&& r->Ok_0.st_size == tmp.contents(object_id).len()
            &&& n is Ok && r->Ok_0.st_size == n->Ok_0
            &&& read.take(n->Ok_0 as int) == tmp.contents(object_id)
            &&& r->Ok_0.st_size <= 512 * r->Ok_0.st_blocks < r->Ok_0.st_size + 512
            &&& r->Ok_0.st_mode == 0o100644
        }),
{
    assert(crate::abi::S_IFREG | 0o644 == 0o100644u32) by (bit_vector);
    let bytes = tmp.contents(object_id);
    assert(tmp.files@[slot_of(object_id)] is Some);
    assert(bytes.skip(0) =~= bytes);
    let (read, n) = tmp.read_at(object_id, 0, buf);
    if bytes.len() > 0 {
        assert(bytes.take(bytes.len() as int) =~= bytes);
    }
    assert(read.take(n->Ok_0 as int) =~= bytes);
}

/// After a write that completed, `stat` gives the number of bytes written, a read gives those bytes
/// back, and every other `/tmp` file has the size it had.
pub proof fn law_stat_follows_a_write(
    m: TableModel,
    before: &TmpStore,
    image: &Image,
    id: NodeId,
    object_id: u64,
    payload: Seq<u8>,
    submitted: Result<u64, SyscallQueueError>,
    polled: ObjectPoll,
    blocked: LinuxSyscallResult,
    after: &TmpStore,
    r: Result<ObjectIo, LinuxErrno>,
    other: NodeId,
    other_object: u64,
)
    requires
        before.wf(),
        after.wf(),
        tmp_file(m, before, id, object_id),
        before.write_step(object_id, payload, submitted, polled, blocked, after, r),
        r matches Ok(io) && io is Done,
        tmp_file(m, before, other, other_object),
        other_object != object_id,
    ensures
        r == Ok::<ObjectIo, LinuxErrno>(ObjectIo::Done(payload.len() as usize)),
        payload.len() <= 512,
        after.contents(object_id) == payload,
        stat_of(m, after, image, id, false).1 is Ok,
        stat_of(m, after, image, id, false).1->Ok_0.st_size == payload.len(),
        stat_of(m, after, image, id, true).1->Ok_0.st_size == payload.len(),
        stat_of(m, after, image, other, false) == stat_of(m, before, image, other, false),
        after.contents(other_object) == before.contents(other_object),
{
    assert(before.with_contents(object_id, payload, after));
    super::object_backend::law_write_is_read_back(before, object_id, payload, after);
    let buf = Seq::new(512, |i: int| 0u8);
    law_stat_tells_the_length(m, after, image, id, object_id, false, buf);
    law_stat_tells_the_length(m, after, image, id, object_id, true, buf);
}

/// A write whose request is pending or failed leaves every file's bytes as they were. A pending one
/// keeps its request, so that the next step waits for the same; a failed one keeps none.
pub proof fn law_unfinished_write_changes_no_bytes(
    before: &TmpStore,
    object_id: u64,
    payload: Seq<u8>,
    submitted: Result<u64, SyscallQueueError>,
    polled: ObjectPoll,
    blocked: LinuxSyscallResult,
    after: &TmpStore,
    r: Result<ObjectIo, LinuxErrno>,
    other: u64,
    later: Result<u64, SyscallQueueError>,
)
    requires
        before.wf(),
        before.write_step(object_id, payload, submitted, polled, blocked, after, r),
        !(polled is Complete),
        before.holds(other),
    ensures
        !(r matches Ok(io) && io is Done),
        after.holds(other),
        after.contents(other) == before.contents(other),
        before.holds(object_id) && payload.len() <= 512 && polled is Pending && (submitted matches Ok(
            id,
        ) && id != 0) ==> after.request_for(object_id, later) == before.request_for(
            object_id,
            submitted,
        ),
        before.holds(object_id) && payload.len() <= 512 && polled is Failed && submitted is Ok
            ==> after.request_for(object_id, later) == later && r is Err,
{
    assert(after.contents(other) =~= before.contents(other));
}

/// A read through the object service that completed gives the first bytes of what the service holds,
/// and leaves all of them as the file's bytes.
pub proof fn law_completed_read_gives_the_bytes(
    before: &TmpStore,
    object_id: u64,
    submitted: Result<u64, SyscallQueueError>,
    len: usize,
    payload: [u8; 512],
    blocked: LinuxSyscallResult,
    buf: Seq<u8>,
    after: &TmpStore,
    buf_after: Seq<u8>,
    r: Result<ObjectIo, LinuxErrno>,
)
    requires
        before.wf(),
        before.holds(object_id),
        len <= 512,
        before.read_step(
            object_id,
            submitted,
            ObjectPoll::Complete { len, payload },
            blocked,
            buf,
            after,
            buf_after,
            r,
        ),
        r is Ok,
    ensures
        ({
            let n = if len < buf.len() {
                len as nat
            } else {
                buf.len()
            };
            &&& r->Ok_0 == ObjectIo::Done(n as usize)
            &&& buf_after.len() == buf.len()
            &&& buf_after.take(n as int) == payload@.take(n as int)
            &&& buf_after.skip(n as int) == buf.skip(n as int)
            &&& after.contents(object_id) == payload@.take(len as int)
        }),
{
    let bytes = payload@.take(len as int);
    super::object_backend::law_write_is_read_back(before, object_id, bytes, after);
    let n = if len < buf.len() {
        len as int
    } else {
        buf.len() as int
    };
    assert(buf_after.take(n) =~= payload@.take(n));
    assert(buf_after.skip(n) =~= buf.skip(n));
}

/// A local read at an offset gives the file's bytes from there on, as many as there are and fit, one
/// for one; at or past the end it gives none. It touches no other byte of the buffer.
pub proof fn law_read_gives_the_bytes_at_the_offset(
    tmp: &TmpStore,
    object_id: u64,
    offset: nat,
    buf: Seq<u8>,
    j: int,
)
    requires
        tmp.wf(),
        0 <= j < buf.len() <= usize::MAX,
    ensures
        ({
            let (after, r) = tmp.read_at(object_id, offset, buf);
            &&& after.len() == buf.len()
            &&& r is Ok <==> tmp.holds(object_id)
            &&& r is Err ==> r->Err_0 == ENOENT && after == buf
            &&& r is Ok ==> {
                let size = tmp.contents(object_id).len();
                &&& r->Ok_0 <= buf.len()
                &&& offset + r->Ok_0 <= size || r->Ok_0 == 0
                &&& r->Ok_0 == buf.len() || offset + r->Ok_0 >= size
                &&& offset >= size ==> r->Ok_0 == 0
                &&& after[j] == if j < r->Ok_0 {
                    tmp.contents(object_id)[offset + j]
                } else {
                    buf[j]
                }
            }
        }),
{
    if tmp.holds(object_id) {
        assert(tmp.files@[slot_of(object_id)] is Some);
    }
}

/// A file whose bytes are dropped, and one just created, is empty: `stat` gives the size 0 and a read
/// gives nothing.
pub proof fn law_emptied_file_is_empty(
    m: TableModel,
    before: &TmpStore,
    image: &Image,
    id: NodeId,
    object_id: u64,
    after: &TmpStore,
    offset: nat,
    buf: Seq<u8>,
    other: u64,
)
    requires
        before.wf(),
        tmp_file(m, before, id, object_id),
        before.truncated(object_id, after),
        before.holds(other),
        other != object_id,
    ensures
        after.holds(object_id),
        after.file(object_id).path_bytes() == before.file(object_id).path_bytes(),
        stat_of(m, after, image, id, false).1 is Ok,
        stat_of(m, after, image, id, false).1->Ok_0.st_size == 0,
        stat_of(m, after, image, id, false).1->Ok_0.st_blocks == 0,
        after.read_at(object_id, offset, buf) == (buf, Ok::<usize, LinuxErrno>(0usize)),
        after.contents(other) == before.contents(other),
{
    let none = Seq::<u8>::empty();
    assert(after.contents(object_id) =~= none);
    assert(crate::scan::overwritten(buf, 0, none.take(0)) =~= buf);
    assert(after.contents(other) =~= before.contents(other));
    assert(after.files@[slot_of(object_id)] is Some);
}

/// A file made under a path is found under that path and is empty, and every file that was there
/// keeps its bytes.
pub proof fn law_created_file_is_found(before: &TmpStore, path: Seq<u8>, after: &TmpStore, other: u64)
    requires
        before.wf(),
        before.create_result(path) is Ok,
        before.created(path, after),
        before.find_path(path) is None,
        before.holds(other),
    ensures
        ({
            let id = before.create_result(path)->Ok_0;
            &&& !before.holds(id)
            &&& after.holds(id)
            &&& after.find_path(path) == Some(id)
            &&& after.contents(id).len() == 0
            &&& after.holds(other)
            &&& after.contents(other) == before.contents(other)
            &&& after.file(other).path_bytes() == before.file(other).path_bytes()
        }),
{
    let i = before.free_slot()->0;
    assert(before.files@[i] is None);
    assert(after.contents(other) =~= before.contents(other));
}

/// Opening a `/tmp` file to be written gives the node of a file whose object is held. A new one, or
/// one that was to be emptied, is empty; another keeps its bytes. No other file's bytes change.
pub proof fn law_open_gives_the_file(
    m: TableModel,
    tmp: &TmpStore,
    image: &Image,
    path: Seq<u8>,
    truncate: bool,
    after: &TmpStore,
    other: u64,
)
    requires
        rooted(m),
        tmp.wf(),
        super::tree::objects_held(m, tmp),
        open_created(m, tmp, image, path, truncate).1 is Ok,
        open_stored(m, tmp, image, path, truncate, after),
        tmp.holds(other),
    ensures
        ({
            let (m1, opened) = open_created(m, tmp, image, path, truncate);
            let node = m1.nodes[opened->Ok_0.index as int];
            &&& node.kind == NodeKind::File
            &&& node.backend matches NodeBackend::Object { object_id } ==> {
                &&& after.holds(object_id)
                &&& truncate || !tmp.holds(object_id) ==> after.contents(object_id).len() == 0
                &&& !truncate && tmp.holds(object_id) ==> after.contents(object_id)
                    == tmp.contents(object_id)
                &&& other != object_id ==> after.holds(other) && after.contents(other)
                    == tmp.contents(other)
            }
        }),
{
    super::changes::law_open_again(m, tmp, image, path, truncate, after, truncate);
    super::tree::law_open_create_keeps(m, tmp, image, path, truncate, after);
    super::tree::lemma_open_target(m, tmp, image, path);
    let (m1, opened) = open_created(m, tmp, image, path, truncate);
    let node = m1.nodes[opened->Ok_0.index as int];
    assert(node.live);
    if let NodeBackend::Object { object_id } = node.backend {
        if let Ok(OpenTarget::Fresh { parent, name, norm }) = open_target(m, tmp, image, path).1 {
            super::namespace::lemma_free_from(open_target(m, tmp, image, path).0.nodes, 1);
            assert(tmp.files@[tmp.free_slot()->0] is None);
            assert(object_id == tmp.create_result(norm)->Ok_0);
        }
        if other != object_id {
            assert(after.contents(other) =~= tmp.contents(other));
        }
    }
}

/// `stat` of an image file gives the length of the bytes of an entry under the file's path; the bytes
/// that are executed for a path are as many as `stat` of the node it leads to says.
pub proof fn law_stat_of_an_image_file(
    m: TableModel,
    tmp: &TmpStore,
    image: &Image,
    path: Seq<u8>,
    for_lstat: bool,
)
    requires
        rooted(m),
        executable_at(m, tmp, image, path).1 is Ok,
        executable_at(m, tmp, image, path).1->Ok_0.len() <= i64::MAX,
    ensures
        ({
            let (m1, found) = looked_up(m, tmp, image, path, true);
            let bytes = executable_at(m, tmp, image, path).1->Ok_0;
            let id = found->Ok_0;
            &&& found is Ok
            &&& m1.nodes[id.index as int].kind == NodeKind::File
            &&& valid_id(m1, id) ==> {
                let r = stat_of(m1, tmp, image, id, for_lstat).1;
                &&& r is Ok
                &&& r->Ok_0.st_size == bytes.len()
                &&& r->Ok_0.st_size <= 512 * r->Ok_0.st_blocks < r->Ok_0.st_size + 512
            }
            &&& exists|k: int|
                0 <= k < image.entries@.len() && Ok::<Seq<u8>, LinuxErrno>(
                    (#[trigger] image.entries@[k]).path@,
                ) == node_path(m1, id.index) && image.entries@[k].data@ == bytes
        }),
{
    let (m1, found) = looked_up(m, tmp, image, path, true);
    let full = node_path(m1, found->Ok_0.index)->Ok_0;
    lemma_find_entry(image.entries@, full, 0);
    let k = image.find(full)->0;
    assert(image.entries@[k].path@ == full);
    assert(image.entries@[k].data@.len() == image.entries@[k].data.len());
}

/// `lstat` of a link gives the length of what the link says, and that it is a link. `stat` of it gives
/// what `stat` gives for the node that the link leads to, which is no link.
pub proof fn law_stat_follows_links(m: TableModel, tmp: &TmpStore, image: &Image, id: NodeId, k: int)
    requires
        rooted(m),
        id.index < LINUX_FS_MAX_NODES,
        valid_id(m, id),
        m.nodes[id.index as int].kind == NodeKind::Link,
        node_path(m, id.index) is Ok,
        image.find(node_path(m, id.index)->Ok_0) == Some(k),
        image.entries@[k].data@.len() <= i64::MAX,
    ensures
        stat_of(m, tmp, image, id, true).0 == m,
        stat_of(m, tmp, image, id, true).1 is Ok,
        stat_of(m, tmp, image, id, true).1->Ok_0.st_size == image.entries@[k].data@.len(),
        stat_of(m, tmp, image, id, true).1->Ok_0.st_mode == 0o120777,
        ({
            let (m1, found) = looked_up(m, tmp, image, image.entries@[k].data@, true);
            &&& stat_of(m, tmp, image, id, false).0 == m1
            &&& found matches Err(e) ==> stat_of(m, tmp, image, id, false).1 is Err
                && stat_of(m, tmp, image, id, false).1->Err_0 == e
            &&& found matches Ok(target) ==> valid_id(m1, target) ==> stat_of(
                m,
                tmp,
                image,
                id,
                false,
            ).1 == stat_of(m1, tmp, image, target, false).1 && m1.nodes[target.index as int].kind
                != NodeKind::Link
        }),
{
    assert(crate::abi::S_IFLNK | 0o777 == 0o120777u32) by (bit_vector);
    assert(image.entries@[k].data@.len() == image.entries@[k].data.len());
    law_followed_lookup_ends_at_no_link(m, tmp, image, image.entries@[k].data@);
}

/// A record of `lstat` says of what kind its node is, as a listing does: the type bits are the listing's
/// type. Directories may be entered and listed by everyone, links are open to everyone, configuration
/// files cannot be executed and other image files can.
pub proof fn law_stat_tells_the_kind(m: TableModel, tmp: &TmpStore, image: &Image, id: NodeId)
    requires
        id.index < LINUX_FS_MAX_NODES,
        stat_of(m, tmp, image, id, true).1 is Ok,
        m.nodes[id.index as int].backend is Object ==> m.nodes[id.index as int].kind
            == NodeKind::File,
        m.nodes[id.index as int].backend is TmpDir ==> m.nodes[id.index as int].kind
            == NodeKind::Dir,
    ensures
        ({
            let node = m.nodes[id.index as int];
            let s = stat_of(m, tmp, image, id, true).1->Ok_0;
            let path = node_path(m, id.index)->Ok_0;
            &&& s.st_mode / 4096 == dirent_code(node.kind)
            &&& node.kind == NodeKind::Dir ==> s.st_mode == 0o040755
            &&& node.kind == NodeKind::Link ==> s.st_mode == 0o120777
            &&& node.kind == NodeKind::File ==> s.st_mode == if node.backend is Rootfs
                && !has_prefix(path, seq![0x2fu8, 0x65u8, 0x74u8, 0x63u8, 0x2fu8]) {
                0o100755u32
            } else {
                0o100644u32
            }
        }),
{
    assert(crate::abi::S_IFREG | 0o644 == 0o100644u32 && crate::abi::S_IFREG | 0o755 == 0o100755u32
        && crate::abi::S_IFDIR | 0o755 == 0o040755u32 && crate::abi::S_IFLNK | 0o777
        == 0o120777u32) by (bit_vector);
}

/// The records of two nodes have the same inode number only where they are the same node's, and every
/// other field that names no node is the same for all.
pub proof fn law_inode_numbers_tell_nodes_apart(
    m: TableModel,
    tmp: &TmpStore,
    image: &Image,
    a: NodeId,
    b: NodeId,
)
    requires
        a.index < LINUX_FS_MAX_NODES,
        b.index < LINUX_FS_MAX_NODES,
        stat_of(m, tmp, image, a, true).1 is Ok,
        stat_of(m, tmp, image, b, true).1 is Ok,
    ensures
        ({
            let x = stat_of(m, tmp, image, a, true).1->Ok_0;
            let y = stat_of(m, tmp, image, b, true).1->Ok_0;
            &&& x.st_ino == y.st_ino <==> a == b
            &&& x.st_ino != 0
            &&& x.st_dev == y.st_dev
            &&& x.st_uid == 0 && x.st_gid == 0
        }),
{
}

proof fn lemma_list_entries(
    m: TableModel,
    tmp: &TmpStore,
    image: &Image,
    kids: Seq<usize>,
    k: int,
    out: Seq<(NodeId, u8)>,
)
    requires
        rooted(m),
        0 <= k <= kids.len(),
        lists_live(m, out),
    ensures
        ({
            let (m1, all, failed) = list_entries(m, tmp, image, kids, k, out);
            &&& rooted(m1)
            &&& extends(m, m1)
            &&& lists_live(m1, all)
        }),
    decreases kids.len() - k,
{
    if k < kids.len() && out.len() < LIST_MAX {
        let path = image.entries@[kids[k] as int].path@;
        let (m1, found) = looked_up(m, tmp, image, path, false);
        super::tree::law_lookup_keeps(m, tmp, image, path, false);
        law_lookup_extends(m, tmp, image, path, false);
        assert(lists_live(m1, out)) by {
            assert forall|j: int| 0 <= j < out.len() implies entry_live(m1, #[trigger] out[j]) by {
                assert(entry_live(m, out[j]));
                assert(super::namespace::slot_kept(
                    m.nodes[out[j].0.index as int],
                    m1.nodes[out[j].0.index as int],
                ));
            }
        }
        if let Ok(id) = found {
            let next = out.push((id, dirent_code(m1.nodes[id.index as int].kind)));
            assert(lists_live(m1, next)) by {
                assert forall|j: int| 0 <= j < next.len() implies entry_live(
                    m1,
                    #[trigger] next[j],
                ) by {
                    if j < out.len() {
                        assert(entry_live(m1, out[j]));
                    }
                }
            }
            lemma_list_entries(m1, tmp, image, kids, k + 1, next);
        }
    }
}

/// A place of a listing: a live node, under its current id, with its type.
pub open spec fn entry_live(m: TableModel, entry: (NodeId, u8)) -> bool {
    &&& entry.0.index < m.nodes.len()
    &&& valid_id(m, entry.0)
    &&& entry.1 == dirent_code(m.nodes[entry.0.index as int].kind)
}

pub open spec fn lists_live(m: TableModel, out: Seq<(NodeId, u8)>) -> bool {
    forall|j: int| 0 <= j < out.len() ==> entry_live(m, #[trigger] out[j])
}

proof fn lemma_list_nodes(m: TableModel, dir: u16, from: int, out: Seq<(NodeId, u8)>)
    requires
        m.nodes.len() == LINUX_FS_MAX_NODES,
        0 <= from <= m.nodes.len(),
        lists_live(m, out),
    ensures
        ({
            let all = list_nodes(m, dir, from, out);
            &&& lists_live(m, all)
            &&& out.len() <= all.len() <= if out.len() < LIST_MAX {
                LIST_MAX as nat
            } else {
                out.len()
            }
            &&& forall|j: int| 0 <= j < out.len() ==> #[trigger] all[j] == out[j]
            &&& forall|j: int|
                out.len() <= j < all.len() ==> m.nodes[(#[trigger] all[j]).0.index as int].parent
                    == dir && all[j].0.index != dir && from <= all[j].0.index
            &&& forall|i: int, j: int|
                out.len() <= i < all.len() && 0 <= j < i ==> (#[trigger] all[i]).0.index != (
                #[trigger] all[j]).0.index
            &&& all.len() < LIST_MAX ==> forall|i: int|
                from <= i < m.nodes.len() && i != dir && (#[trigger] m.nodes[i]).live
                    && m.nodes[i].parent == dir ==> listed(all, i)
        }),
    decreases m.nodes.len() - from,
{
    if from < m.nodes.len() && out.len() < LIST_MAX {
        if from == dir || !m.nodes[from].live || m.nodes[from].parent != dir || listed(out, from) {
            lemma_list_nodes(m, dir, from + 1, out);
            let all = list_nodes(m, dir, from + 1, out);
            if listed(out, from) {
                let k = choose|k: int| 0 <= k < out.len() && (#[trigger] out[k]).0.index == from;
                assert(all[k] == out[k]);
                assert(listed(all, from));
            }
        } else {
            let next = out.push((id_at(m, from), dirent_code(m.nodes[from].kind)));
            assert(lists_live(m, next)) by {
                assert forall|j: int| 0 <= j < next.len() implies entry_live(
                    m,
                    #[trigger] next[j],
                ) by {
                    if j < out.len() {
                        assert(entry_live(m, out[j]));
                    }
                }
            }
            lemma_list_nodes(m, dir, from + 1, next);
            let all = list_nodes(m, dir, from + 1, next);
            assert(all[out.len() as int] == next[out.len() as int]);
            assert(listed(all, from));
            assert forall|j: int| 0 <= j < out.len() implies #[trigger] all[j] == out[j] by {
                assert(all[j] == next[j]);
            }
            assert forall|i: int, j: int|
                out.len() <= i < all.len() && 0 <= j < i implies (#[trigger] all[i]).0.index != (
            #[trigger] all[j]).0.index by {
                if i == out.len() {
                    assert(all[j] == out[j]);
                    if out[j].0.index == from {
                        assert(listed(out, from));
                    }
                }
            }
        }
    }
}

/// Everything in a listing is a live node under its current id, with its type. A listing that ended
/// before its limit has every live child of the directory, and what it has beyond the image's entries is
/// a child of the directory and stands in it once.
pub proof fn law_listing_has_the_children(
    m: TableModel,
    tmp: &TmpStore,
    image: &Image,
    dir: NodeId,
    i: int,
    j: int,
)
    requires
        rooted(m),
        dir.index < LINUX_FS_MAX_NODES,
        listing(m, tmp, image, dir).2 is None,
    ensures
        ({
            let (m1, out, _) = listing(m, tmp, image, dir);
            let kids = child_indices(image.entries@, node_path(m, dir.index)->Ok_0, 0);
            &&& out.len() <= LIST_MAX
            &&& 0 <= j < out.len() ==> entry_live(m1, out[j])
            &&& kids.len() <= j < out.len() ==> m1.nodes[out[j].0.index as int].parent == dir.index
            &&& kids.len() <= j < out.len() && 0 <= i < j ==> out[i].0.index != out[j].0.index
            &&& out.len() < LIST_MAX && 0 <= i < m1.nodes.len() && i != dir.index
                && m1.nodes[i].live && m1.nodes[i].parent == dir.index ==> listed(out, i)
        }),
{
    let path = node_path(m, dir.index)->Ok_0;
    let kids = child_indices(image.entries@, path, 0);
    lemma_list_entries(m, tmp, image, kids, 0, seq![]);
    lemma_entries_len(m, tmp, image, kids, 0, seq![]);
    let (m1, some, _) = list_entries(m, tmp, image, kids, 0, seq![]);
    lemma_list_nodes(m1, dir.index, 0, some);
}

proof fn lemma_entries_len(
    m: TableModel,
    tmp: &TmpStore,
    image: &Image,
    kids: Seq<usize>,
    k: int,
    out: Seq<(NodeId, u8)>,
)
    requires
        0 <= k <= kids.len(),
        out.len() <= LIST_MAX,
    ensures
        list_entries(m, tmp, image, kids, k, out).1.len() <= out.len() + (kids.len() - k),
        list_entries(m, tmp, image, kids, k, out).1.len() <= LIST_MAX,
    decreases kids.len() - k,
{
    if k < kids.len() && out.len() < LIST_MAX {
        let path = image.entries@[kids[k] as int].path@;
        let (m1, found) = looked_up(m, tmp, image, path, false);
        if let Ok(id) = found {
            let next = out.push((id, dirent_code(m1.nodes[id.index as int].kind)));
            lemma_entries_len(m1, tmp, image, kids, k + 1, next);
        }
    }
}

} // verus!
