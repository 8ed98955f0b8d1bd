//! Bounded Linux namespace node table.

use super::image::{child_indices, find_entry, EntryKind, Image};
use super::object_backend::{TmpStore, LINUX_TMP_MAX_ENTRIES};
use super::path::{normalize_path, normalized, LINUX_PATH_MAX, SLASH};
use crate::abi::{
    LinuxErrno, LinuxStatFields, DT_DIR, DT_LNK, DT_REG, EACCES, EBADF, EEXIST, EINVAL, EISDIR,
    ELOOP, ENAMETOOLONG, ENFILE, ENOENT, ENOSPC, ENOTDIR, EROFS, O_APPEND, O_CREAT, O_RDWR,
    O_TRUNC, O_WRONLY, S_IFDIR, S_IFLNK, S_IFREG,
};
use crate::scan::{
    bytes_equal, copy_at, has_prefix, position_of, prefix_of, rposition_of, starts_with,
};
use vstd::prelude::*;

verus! {

pub const LINUX_FS_MAX_NODES: usize = 64;

pub const LINUX_FS_MAX_LINK_DEPTH: usize = 2;

/// Longest name that a node can hold.
pub const NAME_MAX: usize = 64;

/// Levels of ancestors that a node's path is assembled from.
pub const PATH_LEVELS: usize = 16;

/// Entries that one directory listing can return.
pub const LIST_MAX: usize = 32;

/// Identifies a node: its slot and the slot's generation.
#[derive(Clone, Copy, Debug, PartialEq, Eq, Structural)]
pub struct NodeId {
    pub index: u16,
    pub generation: u32,
}

#[derive(Clone, Copy, Debug, PartialEq, Eq, Structural)]
pub enum NodeKind {
    Dir,
    File,
    Link,
}

/// Where a node's contents live.
#[derive(Clone, Copy, Debug, PartialEq, Eq, Structural)]
pub enum NodeBackend {
    Rootfs { entry_index: u16 },
    Object { object_id: u64 },
    TmpDir,
}

#[derive(Clone, Copy, Debug, PartialEq, Eq)]
pub struct Node {
    pub live: bool,
    pub generation: u32,
    pub kind: NodeKind,
    pub backend: NodeBackend,
    pub name: [u8; 64],
    pub name_len: u8,
    pub parent: u16,
}

/// The namespace: a bounded table of nodes, filled as paths are walked.
pub struct NodeTable {
    pub nodes: [Node; 64],
    pub live_count: u16,
    pub root_index: u16,
}

/// A node as the table's rules see it.
pub struct NodeModel {
    pub live: bool,
    pub generation: u32,
    pub kind: NodeKind,
    pub backend: NodeBackend,
    pub name: Seq<u8>,
    pub parent: u16,
}

/// The node table as its rules see it.
pub struct TableModel {
    pub nodes: Seq<NodeModel>,
    pub live_count: int,
    pub root: u16,
}

impl Node {
    pub open spec fn name_bytes(self) -> Seq<u8> {
        self.name@.take(self.name_len as int)
    }

    pub open spec fn model(self) -> NodeModel {
        NodeModel {
            live: self.live,
            generation: self.generation,
            kind: self.kind,
            backend: self.backend,
            name: self.name_bytes(),
            parent: self.parent,
        }
    }
}

/// The number of live nodes.
pub open spec fn live_nodes(nodes: Seq<NodeModel>) -> nat {
    crate::scan::count(nodes, |n: NodeModel| n.live)
}

/// The least index at or above `from` of a live child of `parent` with the given name.
pub open spec fn child_from(nodes: Seq<NodeModel>, parent: u16, name: Seq<u8>, from: int) -> Option<
    int,
>
    decreases nodes.len() - from,
{
    if from < 0 || from >= nodes.len() {
        None
    } else if nodes[from].live && nodes[from].parent == parent && nodes[from].name == name {
        Some(from)
    } else {
        child_from(nodes, parent, name, from + 1)
    }
}

/// The least index at or above `from` of a node that is not live.
pub open spec fn free_from(nodes: Seq<NodeModel>, from: int) -> Option<int>
    decreases nodes.len() - from,
{
    if from < 0 || from >= nodes.len() {
        None
    } else if !nodes[from].live {
        Some(from)
    } else {
        free_from(nodes, from + 1)
    }
}

/// The node and its ancestors, nearest first, at most `levels` of them; the root is its own parent.
pub open spec fn lineage(nodes: Seq<NodeModel>, index: u16, levels: nat) -> Seq<u16>
    decreases levels,
{
    if levels == 0 {
        seq![]
    } else if nodes[index as int].parent == index {
        seq![index]
    } else {
        seq![index] + lineage(nodes, nodes[index as int].parent, (levels - 1) as nat)
    }
}

/// The path of a child called `name` of the directory at `base`.
pub open spec fn extend_path(base: Seq<u8>, name: Seq<u8>) -> Result<Seq<u8>, LinuxErrno> {
    if name == seq![SLASH] {
        if base.len() == 0 {
            Ok(seq![SLASH])
        } else {
            Ok(base)
        }
    } else {
        let lead = if base.len() > 0 && base.last() != SLASH {
            base.push(SLASH)
        } else {
            base
        };
        if lead.len() + name.len() > LINUX_PATH_MAX {
            Err(ENAMETOOLONG)
        } else {
            Ok(lead + name)
        }
    }
}

/// The names along a lineage joined into a path, ancestors first.
pub open spec fn assemble(nodes: Seq<NodeModel>, line: Seq<u16>) -> Result<Seq<u8>, LinuxErrno>
    decreases line.len(),
{
    if line.len() == 0 {
        Ok(seq![])
    } else {
        match assemble(nodes, line.drop_first()) {
            Err(e) => Err(e),
            Ok(base) => extend_path(base, nodes[line[0] as int].name),
        }
    }
}

/// `path` followed by zero bytes up to the size of a path buffer.
pub open spec fn padded(path: Seq<u8>) -> Seq<u8> {
    path + Seq::new((LINUX_PATH_MAX - path.len()) as nat, |i: int| 0u8)
}

/// The bytes before the first zero byte.
pub open spec fn until_nul(s: Seq<u8>) -> Seq<u8>
    decreases s.len(),
{
    if s.len() == 0 || s[0] == 0 {
        seq![]
    } else {
        seq![s[0]] + until_nul(s.drop_first())
    }
}

/// The buffer that holds a node's path.
pub open spec fn path_buffer(m: TableModel, index: u16) -> Result<Seq<u8>, LinuxErrno> {
    match assemble(m.nodes, lineage(m.nodes, index, PATH_LEVELS as nat)) {
        Err(e) => Err(e),
        Ok(path) => if path.len() == 0 {
            Ok(padded(seq![SLASH]))
        } else {
            Ok(padded(path))
        },
    }
}

/// A node's path.
pub open spec fn node_path(m: TableModel, index: u16) -> Result<Seq<u8>, LinuxErrno> {
    match path_buffer(m, index) {
        Err(e) => Err(e),
        Ok(buf) => Ok(until_nul(buf)),
    }
}

/// The id of the node at an index.
pub open spec fn id_at(m: TableModel, index: int) -> NodeId {
    NodeId { index: index as u16, generation: m.nodes[index].generation }
}

/// Whether an id names a live node.
pub open spec fn valid_id(m: TableModel, id: NodeId) -> bool {
    m.nodes[id.index as int].live && m.nodes[id.index as int].generation == id.generation
}

/// A node taking the slot of `before`.
pub open spec fn filled_node(
    before: NodeModel,
    parent: u16,
    name: Seq<u8>,
    kind: NodeKind,
    backend: NodeBackend,
) -> NodeModel {
    NodeModel {
        live: true,
        generation: if before.generation < 1 {
            1u32
        } else {
            before.generation
        },
        kind,
        backend,
        name,
        parent,
    }
}

/// The table with the slot at `index` taken by a node.
pub open spec fn filled(
    m: TableModel,
    index: int,
    parent: u16,
    name: Seq<u8>,
    kind: NodeKind,
    backend: NodeBackend,
) -> TableModel {
    TableModel {
        nodes: m.nodes.update(index, filled_node(m.nodes[index], parent, name, kind, backend)),
        live_count: if m.nodes[index].live {
            m.live_count
        } else {
            m.live_count + 1
        },
        root: m.root,
    }
}

/// Adds a child to `parent` at the lowest free slot; slot 0 is the root's.
pub open spec fn placed(
    m: TableModel,
    parent: u16,
    name: Seq<u8>,
    kind: NodeKind,
    backend: NodeBackend,
) -> (TableModel, Result<NodeId, LinuxErrno>) {
    match free_from(m.nodes, 1) {
        None => (m, Err(ENFILE)),
        Some(i) => if name.len() > NAME_MAX {
            (m, Err(ENAMETOOLONG))
        } else {
            let after = filled(m, i, parent, name, kind, backend);
            (after, Ok(id_at(after, i)))
        },
    }
}

pub open spec fn kind_of(kind: EntryKind) -> NodeKind {
    match kind {
        EntryKind::Dir => NodeKind::Dir,
        EntryKind::File => NodeKind::File,
        EntryKind::Link => NodeKind::Link,
    }
}

/// The path of a child of the directory at `parent_path`, separator included.
pub open spec fn child_path(parent_path: Seq<u8>, name: Seq<u8>) -> Seq<u8> {
    if parent_path.len() > 0 && parent_path.last() == SLASH {
        parent_path + name
    } else {
        parent_path.push(SLASH) + name
    }
}

/// One step of a walk: the child of `parent` called `name`. A child already in the table is used; a
/// `/tmp` file or a root filesystem entry of that path is added to the table.
pub open spec fn descended(
    m: TableModel,
    tmp: &TmpStore,
    image: &Image,
    parent: NodeId,
    name: Seq<u8>,
) -> (TableModel, Result<NodeId, LinuxErrno>) {
    if !valid_id(m, parent) {
        (m, Err(EBADF))
    } else if m.nodes[parent.index as int].kind != NodeKind::Dir {
        (m, Err(ENOTDIR))
    } else {
        match child_from(m.nodes, parent.index, name, 0) {
            Some(i) => (m, Ok(id_at(m, i))),
            None => match node_path(m, parent.index) {
                Err(e) => (m, Err(e)),
                Ok(parent_path) => {
                    let path = child_path(parent_path, name);
                    if path.len() >= LINUX_PATH_MAX {
                        (m, Err(ENAMETOOLONG))
                    } else {
                        match tmp.find_path(path) {
                            Some(object_id) => placed(
                                m,
                                parent.index,
                                name,
                                NodeKind::File,
                                NodeBackend::Object { object_id },
                            ),
                            None => match image.find(path) {
                                Some(k) => placed(
                                    m,
                                    parent.index,
                                    name,
                                    kind_of(image.entries@[k].kind),
                                    NodeBackend::Rootfs { entry_index: k as u16 },
                                ),
                                None => (m, Err(ENOENT)),
                            },
                        }
                    }
                },
            },
        }
    }
}

/// The position of the first separator, or the length.
pub open spec fn slash_at(s: Seq<u8>) -> int
    decreases s.len(),
{
    if s.len() == 0 || s[0] == SLASH {
        0
    } else {
        1 + slash_at(s.drop_first())
    }
}

/// The first component and what follows its separator.
pub open spec fn split_first(s: Seq<u8>) -> (Seq<u8>, Seq<u8>) {
    let n = slash_at(s);
    if n < s.len() {
        (s.take(n), s.skip(n + 1))
    } else {
        (s, seq![])
    }
}

/// `s` without one leading separator.
pub open spec fn strip_slash(s: Seq<u8>) -> Seq<u8> {
    if s.len() > 0 && s[0] == SLASH {
        s.skip(1)
    } else {
        s
    }
}

/// Walking `rest` from `current`: every component but the last must be a directory; a link in the
/// last place is followed when `follow` says so, through at most `LINUX_FS_MAX_LINK_DEPTH` links.
pub open spec fn walked(
    m: TableModel,
    tmp: &TmpStore,
    image: &Image,
    current: NodeId,
    rest: Seq<u8>,
    follow: bool,
    depth: nat,
) -> (TableModel, Result<NodeId, LinuxErrno>)
    decreases
            (if depth <= LINUX_FS_MAX_LINK_DEPTH {
                LINUX_FS_MAX_LINK_DEPTH + 1 - depth
            } else {
                0
            }),
            rest.len(),
{
    if rest.len() == 0 {
        (m, Ok(current))
    } else {
        let (name, tail) = split_first(rest);
        let (m1, r) = descended(m, tmp, image, current, name);
        match r {
            Err(e) => (m1, Err(e)),
            Ok(next) => if tail.len() > 0 {
                if m1.nodes[next.index as int].kind != NodeKind::Dir {
                    (m1, Err(ENOTDIR))
                } else if tail.len() < rest.len() {
                    walked(m1, tmp, image, next, tail, follow, depth)
                } else {
                    (m1, Ok(next))
                }
            } else if !follow || m1.nodes[next.index as int].kind != NodeKind::Link {
                (m1, Ok(next))
            } else if depth >= LINUX_FS_MAX_LINK_DEPTH {
                (m1, Err(ELOOP))
            } else {
                match node_path(m1, next.index) {
                    Err(e) => (m1, Err(e)),
                    Ok(path) => match image.find(path) {
                        None => (m1, Err(ENOENT)),
                        Some(k) => walked(
                            m1,
                            tmp,
                            image,
                            id_at(m1, m1.root as int),
                            strip_slash(image.entries@[k].data@),
                            true,
                            depth + 1,
                        ),
                    },
                }
            },
        }
    }
}

/// Looking a path up: the root itself, or a walk from the root along the normalized path.
pub open spec fn looked_up(
    m: TableModel,
    tmp: &TmpStore,
    image: &Image,
    path: Seq<u8>,
    follow: bool,
) -> (TableModel, Result<NodeId, LinuxErrno>) {
    match normalized(path) {
        Err(e) => (m, Err(e)),
        Ok(norm) => if norm == seq![SLASH] {
            (m, Ok(id_at(m, m.root as int)))
        } else {
            walked(m, tmp, image, id_at(m, m.root as int), strip_slash(norm), follow, 0)
        },
    }
}

/// A slot as adding nodes leaves it: as it was, or, where it was free, taken at its generation (at
/// least 1).
pub open spec fn slot_kept(before: NodeModel, after: NodeModel) -> bool {
    ||| after == before
    ||| !before.live && after.live && after.generation == if before.generation < 1 {
        1u32
    } else {
        before.generation
    }
}

/// What adding nodes keeps of the table it started from: the root, every live node as it is, and the
/// generation of every slot.
pub open spec fn extends(before: TableModel, after: TableModel) -> bool {
    &&& after.nodes.len() == before.nodes.len()
    &&& after.root == before.root
    &&& before.live_count <= after.live_count
    &&& forall|i: int|
        0 <= i < before.nodes.len() ==> slot_kept(#[trigger] before.nodes[i], after.nodes[i])
}

/// The table's shape: parents are slots, names fit, and the live nodes are counted exactly.
pub open spec fn model_wf(m: TableModel) -> bool {
    &&& m.nodes.len() == LINUX_FS_MAX_NODES
    &&& m.root < LINUX_FS_MAX_NODES
    &&& m.live_count == live_nodes(m.nodes)
    &&& forall|i: int|
        0 <= i < m.nodes.len() ==> (#[trigger] m.nodes[i]).parent < LINUX_FS_MAX_NODES
            && m.nodes[i].name.len() <= NAME_MAX
}

pub proof fn lemma_child_from(nodes: Seq<NodeModel>, parent: u16, name: Seq<u8>, from: int)
    requires
        0 <= from <= nodes.len(),
    ensures
        match child_from(nodes, parent, name, from) {
            Some(i) => from <= i < nodes.len() && nodes[i].live && nodes[i].parent == parent
                && nodes[i].name == name,
            None => forall|i: int|
                from <= i < nodes.len() ==> !((#[trigger] nodes[i]).live && nodes[i].parent
                    == parent && nodes[i].name == name),
        },
    decreases nodes.len() - from,
{
    if from < nodes.len() && !(nodes[from].live && nodes[from].parent == parent && nodes[from].name
        == name) {
        lemma_child_from(nodes, parent, name, from + 1);
    }
}

pub proof fn lemma_free_from(nodes: Seq<NodeModel>, from: int)
    requires
        0 <= from <= nodes.len(),
    ensures
        match free_from(nodes, from) {
            Some(i) => from <= i < nodes.len() && !nodes[i].live,
            None => forall|i: int| from <= i < nodes.len() ==> (#[trigger] nodes[i]).live,
        },
    decreases nodes.len() - from,
{
    if from < nodes.len() && nodes[from].live {
        lemma_free_from(nodes, from + 1);
    }
}

pub proof fn lemma_find_entry(entries: Seq<super::image::Entry>, path: Seq<u8>, from: int)
    requires
        0 <= from <= entries.len(),
    ensures
        find_entry(entries, path, from) matches Some(k) ==> from <= k < entries.len()
            && entries[k].path@ == path,
    decreases entries.len() - from,
{
    if from < entries.len() && entries[from].path@ != path {
        lemma_find_entry(entries, path, from + 1);
    }
}

proof fn lemma_filled(
    m: TableModel,
    index: int,
    parent: u16,
    name: Seq<u8>,
    kind: NodeKind,
    backend: NodeBackend,
)
    requires
        model_wf(m),
        0 <= index < LINUX_FS_MAX_NODES,
        parent < LINUX_FS_MAX_NODES,
        name.len() <= NAME_MAX,
    ensures
        model_wf(filled(m, index, parent, name, kind, backend)),
        !m.nodes[index].live ==> extends(m, filled(m, index, parent, name, kind, backend)),
{
    crate::scan::lemma_count_update(
        m.nodes,
        |n: NodeModel| n.live,
        index,
        filled_node(m.nodes[index], parent, name, kind, backend),
    );
}

pub proof fn lemma_placed(m: TableModel, parent: u16, name: Seq<u8>, kind: NodeKind, backend: NodeBackend)
    requires
        model_wf(m),
        parent < LINUX_FS_MAX_NODES,
    ensures
        model_wf(placed(m, parent, name, kind, backend).0),
        extends(m, placed(m, parent, name, kind, backend).0),
        placed(m, parent, name, kind, backend).1 matches Ok(id) ==> id.index < LINUX_FS_MAX_NODES
            && valid_id(placed(m, parent, name, kind, backend).0, id),
{
    lemma_free_from(m.nodes, 1);
    if free_from(m.nodes, 1) is Some && name.len() <= NAME_MAX {
        lemma_filled(m, free_from(m.nodes, 1)->0, parent, name, kind, backend);
    }
}

pub proof fn lemma_descended(
    m: TableModel,
    tmp: &TmpStore,
    image: &Image,
    parent: NodeId,
    name: Seq<u8>,
)
    requires
        model_wf(m),
        parent.index < LINUX_FS_MAX_NODES,
    ensures
        model_wf(descended(m, tmp, image, parent, name).0),
        extends(m, descended(m, tmp, image, parent, name).0),
        descended(m, tmp, image, parent, name).1 matches Ok(id) ==> id.index < LINUX_FS_MAX_NODES
            && valid_id(descended(m, tmp, image, parent, name).0, id),
{
    lemma_child_from(m.nodes, parent.index, name, 0);
    match node_path(m, parent.index) {
        Err(_) => {},
        Ok(parent_path) => {
            let path = child_path(parent_path, name);
            match tmp.find_path(path) {
                Some(object_id) => lemma_placed(
                    m,
                    parent.index,
                    name,
                    NodeKind::File,
                    NodeBackend::Object { object_id },
                ),
                None => match image.find(path) {
                    Some(k) => {
                        lemma_find_entry(image.entries@, path, 0);
                        lemma_placed(
                            m,
                            parent.index,
                            name,
                            kind_of(image.entries@[k].kind),
                            NodeBackend::Rootfs { entry_index: k as u16 },
                        )
                    },
                    None => {},
                },
            }
        },
    }
}

pub proof fn lemma_slash_at(s: Seq<u8>)
    ensures
        0 <= slash_at(s) <= s.len(),
        slash_at(s) < s.len() ==> s[slash_at(s)] == SLASH,
        forall|i: int| 0 <= i < slash_at(s) ==> s[i] != SLASH,
    decreases s.len(),
{
    if s.len() > 0 && s[0] != SLASH {
        lemma_slash_at(s.drop_first());
        assert forall|i: int| 0 <= i < slash_at(s) implies s[i] != SLASH by {
            if i > 0 {
                assert(s.drop_first()[i - 1] != SLASH);
            }
        }
    }
}

pub proof fn lemma_walked(
    m: TableModel,
    tmp: &TmpStore,
    image: &Image,
    current: NodeId,
    rest: Seq<u8>,
    follow: bool,
    depth: nat,
)
    requires
        model_wf(m),
        current.index < LINUX_FS_MAX_NODES,
    ensures
        model_wf(walked(m, tmp, image, current, rest, follow, depth).0),
        extends(m, walked(m, tmp, image, current, rest, follow, depth).0),
        walked(m, tmp, image, current, rest, follow, depth).1 matches Ok(id) ==> id.index
            < LINUX_FS_MAX_NODES,
    decreases
            (if depth <= LINUX_FS_MAX_LINK_DEPTH {
                LINUX_FS_MAX_LINK_DEPTH + 1 - depth
            } else {
                0
            }),
            rest.len(),
{
    if rest.len() > 0 {
        let (name, tail) = split_first(rest);
        let (m1, r) = descended(m, tmp, image, current, name);
        lemma_descended(m, tmp, image, current, name);
        lemma_slash_at(rest);
        if let Ok(next) = r {
            if tail.len() > 0 {
                if m1.nodes[next.index as int].kind == NodeKind::Dir {
                    lemma_walked(m1, tmp, image, next, tail, follow, depth);
                }
            } else if follow && m1.nodes[next.index as int].kind == NodeKind::Link && depth
                < LINUX_FS_MAX_LINK_DEPTH {
                if let Ok(path) = node_path(m1, next.index) {
                    if let Some(k) = image.find(path) {
                        lemma_walked(
                            m1,
                            tmp,
                            image,
                            id_at(m1, m1.root as int),
                            strip_slash(image.entries@[k].data@),
                            true,
                            depth + 1,
                        );
                    }
                }
            }
        }
    }
}

/// Looking a path up, found or not, only adds nodes: every live node stays as it is, the count of live
/// nodes does not fall, and the table stays well formed.
pub proof fn law_lookup_extends(
    m: TableModel,
    tmp: &TmpStore,
    image: &Image,
    path: Seq<u8>,
    follow: bool,
)
    requires
        model_wf(m),
    ensures
        model_wf(looked_up(m, tmp, image, path, follow).0),
        extends(m, looked_up(m, tmp, image, path, follow).0),
        looked_up(m, tmp, image, path, follow).1 matches Ok(id) ==> id.index < LINUX_FS_MAX_NODES,
{
    if let Ok(norm) = normalized(path) {
        lemma_walked(m, tmp, image, id_at(m, m.root as int), strip_slash(norm), follow, 0);
    }
}


/// The length of the path in a zero-terminated buffer.
pub fn path_buf_len(buf: &[u8; 256]) -> (r: usize)
    ensures
        r <= 256,
        buf@.take(r as int) == until_nul(buf@),
{
    let mut i: usize = 0;
    assert(buf@.skip(0) =~= buf@);
    assert(buf@.take(0) + until_nul(buf@.skip(0)) =~= until_nul(buf@));
    while i < LINUX_PATH_MAX && buf[i] != 0
        invariant
            0 <= i <= 256,
            buf@.take(i as int) + until_nul(buf@.skip(i as int)) == until_nul(buf@),
        decreases 256 - i,
    {
        proof {
            let s = buf@.skip(i as int);
            assert(s.drop_first() =~= buf@.skip(i + 1));
            assert(buf@.take(i as int) + (seq![s[0]] + until_nul(s.drop_first()))
                =~= buf@.take(i + 1) + until_nul(buf@.skip(i + 1)));
        }
        i += 1;
    }
    assert(until_nul(buf@.skip(i as int)) =~= Seq::<u8>::empty());
    assert(buf@.take(i as int) + Seq::<u8>::empty() =~= buf@.take(i as int));
    i
}

/// The first component and what follows its separator.
pub fn split_component(path: &[u8]) -> (r: (&[u8], &[u8]))
    ensures
        (r.0@, r.1@) == split_first(path@),
{
    let len: usize = path.len();
    proof {
        lemma_slash_at(path@);
    }
    match position_of(path, SLASH) {
        Some(pos) => {
            proof {
                if slash_at(path@) < pos {
                    assert(path@[slash_at(path@)] != SLASH);
                } else if pos < slash_at(path@) {
                    assert(path@[pos as int] != SLASH);
                }
            }
            (
                vstd::slice::slice_subrange(path, 0, pos),
                vstd::slice::slice_subrange(path, pos + 1, len),
            )
        },
        None => {
            let end = vstd::slice::slice_subrange(path, len, len);
            proof {
                if slash_at(path@) < path@.len() {
                    assert(path@[slash_at(path@)] != SLASH);
                }
                assert(end@ =~= Seq::<u8>::empty());
            }
            (path, end)
        },
    }
}

/// `path` without one trailing separator, unless it is only that separator.
pub open spec fn trim_slash(path: Seq<u8>) -> Seq<u8> {
    if path.len() > 1 && path.last() == SLASH {
        path.drop_last()
    } else {
        path
    }
}

/// The position after the last separator.
pub open spec fn name_start(s: Seq<u8>) -> int
    decreases s.len(),
{
    if s.len() == 0 {
        0
    } else if s.last() == SLASH {
        s.len() as int
    } else {
        name_start(s.drop_last())
    }
}

/// The last component of a path.
pub open spec fn last_name(path: Seq<u8>) -> Result<Seq<u8>, LinuxErrno> {
    let p = trim_slash(path);
    if name_start(p) < p.len() {
        Ok(p.skip(name_start(p)))
    } else {
        Err(ENOENT)
    }
}

/// The path of the directory that holds the last component.
pub open spec fn parent_of(path: Seq<u8>) -> Result<Seq<u8>, LinuxErrno> {
    if path == seq![SLASH] {
        Ok(path)
    } else {
        let p = if path.len() > 0 && path.last() == SLASH {
            path.drop_last()
        } else {
            path
        };
        if name_start(p) == 0 {
            Err(ENOENT)
        } else if name_start(p) == 1 {
            Ok(seq![SLASH])
        } else {
            Ok(p.take(name_start(p) - 1))
        }
    }
}

pub proof fn lemma_name_start(s: Seq<u8>)
    ensures
        0 <= name_start(s) <= s.len(),
        name_start(s) > 0 ==> s[name_start(s) - 1] == SLASH,
        forall|i: int| name_start(s) <= i < s.len() ==> s[i] != SLASH,
    decreases s.len(),
{
    if s.len() > 0 && s.last() != SLASH {
        lemma_name_start(s.drop_last());
        assert forall|i: int| name_start(s) <= i < s.len() implies s[i] != SLASH by {
            if i < s.len() - 1 {
                assert(s.drop_last()[i] != SLASH);
            }
        }
    }
}

fn after_last_slash(p: &[u8]) -> (r: usize)
    ensures
        r == name_start(p@),
        r <= p@.len(),
{
    proof {
        lemma_name_start(p@);
    }
    let len: usize = p.len();
    match rposition_of(p, SLASH) {
        Some(pos) => {
            assert(pos < len);
            proof {
                if name_start(p@) <= pos {
                    assert(p@[pos as int] != SLASH);
                } else if name_start(p@) > pos + 1 {
                    assert(p@[name_start(p@) - 1] != SLASH);
                }
            }
            pos + 1
        },
        None => {
            proof {
                if name_start(p@) > 0 {
                    assert(p@[name_start(p@) - 1] != SLASH);
                }
            }
            0
        },
    }
}

/// The last component of a path.
pub fn final_component(path: &[u8]) -> (r: Result<&[u8], LinuxErrno>)
    ensures
        match last_name(path@) {
            Ok(name) => r is Ok && r->Ok_0@ == name,
            Err(e) => r == Err::<&[u8], LinuxErrno>(e),
        },
{
    let p = if path.len() > 1 && path[path.len() - 1] == SLASH {
        prefix_of(path, path.len() - 1)
    } else {
        path
    };
    assert(p@ =~= trim_slash(path@));
    let start: usize = after_last_slash(p);
    if start < p.len() {
        Ok(vstd::slice::slice_subrange(p, start, p.len()))
    } else {
        Err(ENOENT)
    }
}

/// The path of the directory that holds the last component.
pub fn parent_path_bytes(path: &[u8]) -> (r: Result<&[u8], LinuxErrno>)
    ensures
        match parent_of(path@) {
            Ok(parent) => r is Ok && r->Ok_0@ == parent,
            Err(e) => r == Err::<&[u8], LinuxErrno>(e),
        },
{
    if path.len() == 1 && path[0] == SLASH {
        assert(path@ =~= seq![SLASH]);
        return Ok(path);
    }
    assert(path@ != seq![SLASH]) by {
        if path@ == seq![SLASH] {
            assert(path@.len() == 1 && path@[0] == SLASH);
        }
    }
    let p = if path.len() > 0 && path[path.len() - 1] == SLASH {
        prefix_of(path, path.len() - 1)
    } else {
        path
    };
    assert(p@ =~= if path@.len() > 0 && path@.last() == SLASH {
        path@.drop_last()
    } else {
        path@
    });
    proof {
        lemma_name_start(p@);
    }
    let start: usize = after_last_slash(p);
    if start == 0 {
        Err(ENOENT)
    } else if start == 1 {
        let root = prefix_of(p, 1);
        assert(root@ =~= seq![SLASH]);
        Ok(root)
    } else {
        Ok(prefix_of(p, start - 1))
    }
}

/// The parent path and the last component.
pub fn split_parent(path: &[u8]) -> (r: Result<(&[u8], &[u8]), LinuxErrno>)
    ensures
        match (last_name(path@), parent_of(path@)) {
            (Err(e), _) => r == Err::<(&[u8], &[u8]), LinuxErrno>(e),
            (Ok(_), Err(e)) => r == Err::<(&[u8], &[u8]), LinuxErrno>(e),
            (Ok(name), Ok(parent)) => r is Ok && r->Ok_0.0@ == parent && r->Ok_0.1@ == name,
        },
{
    match final_component(path) {
        Err(e) => Err(e),
        Ok(name) => match parent_path_bytes(path) {
            Err(e) => Err(e),
            Ok(parent) => Ok((parent, name)),
        },
    }
}

pub open spec fn dirent_code(kind: NodeKind) -> u8 {
    match kind {
        NodeKind::Dir => DT_DIR,
        NodeKind::File => DT_REG,
        NodeKind::Link => DT_LNK,
    }
}

pub fn dirent_type(kind: NodeKind) -> (r: u8)
    ensures
        r == dirent_code(kind),
{
    match kind {
        NodeKind::Dir => DT_DIR,
        NodeKind::File => DT_REG,
        NodeKind::Link => DT_LNK,
    }
}

impl NodeTable {
    pub open spec fn model(&self) -> TableModel {
        TableModel {
            nodes: Seq::new(64, |i: int| self.nodes@[i].model()),
            live_count: self.live_count as int,
            root: self.root_index,
        }
    }

    /// Names fit their buffers and the model is well formed.
    pub open spec fn wf(&self) -> bool {
        &&& model_wf(self.model())
        &&& forall|i: int| 0 <= i < 64 ==> (#[trigger] self.nodes@[i]).name_len <= NAME_MAX
    }

    /// A table without nodes.
    pub fn new() -> (r: NodeTable)
        ensures
            r.wf(),
            r.live_count == 0,
            r.root_index == 0,
            live_nodes(r.model().nodes) == 0,
            forall|i: int| 0 <= i < 64 ==> !(#[trigger] r.nodes@[i]).live && r.nodes@[i].generation == 1,
    {
        let empty = Node {
            live: false,
            generation: 1,
            kind: NodeKind::Dir,
            backend: NodeBackend::Rootfs { entry_index: 0 },
            name: [0u8; 64],
            name_len: 0,
            parent: 0,
        };
        let r = NodeTable { nodes: [empty; 64], live_count: 0, root_index: 0 };
        proof {
            crate::scan::lemma_count_zero(r.model().nodes, |n: NodeModel| n.live);
        }
        r
    }

    /// The table after `init_rootfs`.
    pub open spec fn with_root(m: TableModel) -> TableModel {
        TableModel {
            nodes: m.nodes.update(
                0,
                NodeModel {
                    live: true,
                    generation: 1,
                    kind: NodeKind::Dir,
                    backend: NodeBackend::Rootfs { entry_index: 0 },
                    name: seq![SLASH],
                    parent: 0,
                },
            ),
            live_count: 1,
            root: 0,
        }
    }

    /// Puts the root directory in place.
    pub fn init_rootfs(&mut self, _image: &Image) -> (r: Result<(), &'static str>)
        requires
            old(self).wf(),
        ensures
            r is Ok,
            final(self).model() == NodeTable::with_root(old(self).model()),
            final(self).wf() == forall|i: int|
                1 <= i < 64 ==> !(#[trigger] old(self).nodes@[i]).live,
    {
        let mut name: [u8; 64] = [0u8; 64];
        name[0] = SLASH;
        self.nodes[0] = Node {
            live: true,
            generation: 1,
            kind: NodeKind::Dir,
            backend: NodeBackend::Rootfs { entry_index: 0 },
            name,
            name_len: 1,
            parent: 0,
        };
        self.live_count = 1;
        self.root_index = 0;
        proof {
            assert(name@.take(1) =~= seq![SLASH]);
            assert(self.model().nodes =~= NodeTable::with_root(old(self).model()).nodes);
            let live = |n: NodeModel| n.live;
            let nodes = self.model().nodes;
            let rest = nodes.update(0, NodeModel { live: false, ..nodes[0] });
            crate::scan::lemma_count_update(nodes, live, 0, NodeModel { live: false, ..nodes[0] });
            crate::scan::lemma_count_zero(rest, live);
            assert forall|i: int| 1 <= i < 64 implies rest[i].live == (
            #[trigger] old(self).nodes@[i]).live by {
                assert(rest[i] == old(self).nodes@[i].model());
            }
            assert(!rest[0].live);
            if forall|i: int| 1 <= i < 64 ==> !(#[trigger] old(self).nodes@[i]).live {
                assert forall|j: int| 0 <= j < rest.len() implies !live(#[trigger] rest[j]) by {
                    if j > 0 {
                        assert(!old(self).nodes@[j].live);
                    }
                }
            } else {
                let i = choose|i: int| 1 <= i < 64 && (#[trigger] old(self).nodes@[i]).live;
                assert(live(rest[i]));
            }
        }
        Ok(())
    }

    /// The number of live nodes.
    pub fn live_count(&self) -> (r: u16)
        ensures
            r == self.live_count,
    {
        self.live_count
    }

    /// Whether an id names a live node.
    pub fn check_node(&self, id: NodeId) -> (r: Result<(), LinuxErrno>)
        requires
            id.index < LINUX_FS_MAX_NODES,
        ensures
            r == (if valid_id(self.model(), id) {
                Ok::<(), LinuxErrno>(())
            } else {
                Err(EBADF)
            }),
    {
        let node = &self.nodes[id.index as usize];
        assert(self.model().nodes[id.index as int] == node.model());
        if !node.live || node.generation != id.generation {
            return Err(EBADF);
        }
        Ok(())
    }

    /// The kind of a live node.
    pub fn node_kind(&self, id: NodeId) -> (r: Result<NodeKind, LinuxErrno>)
        requires
            id.index < LINUX_FS_MAX_NODES,
        ensures
            r == (if valid_id(self.model(), id) {
                Ok::<NodeKind, LinuxErrno>(self.model().nodes[id.index as int].kind)
            } else {
                Err(EBADF)
            }),
    {
        match self.check_node(id) {
            Err(e) => Err(e),
            Ok(()) => Ok(self.nodes[id.index as usize].kind),
        }
    }

    /// The object behind a `/tmp` file node.
    pub fn object_id_for_node(&self, id: NodeId) -> (r: Result<u64, LinuxErrno>)
        requires
            id.index < LINUX_FS_MAX_NODES,
        ensures
            r == (if !valid_id(self.model(), id) {
                Err::<u64, LinuxErrno>(EBADF)
            } else {
                match self.model().nodes[id.index as int].backend {
                    NodeBackend::Object { object_id } => Ok(object_id),
                    _ => Err(EINVAL),
                }
            }),
    {
        match self.check_node(id) {
            Err(e) => Err(e),
            Ok(()) => match self.nodes[id.index as usize].backend {
                NodeBackend::Object { object_id } => Ok(object_id),
                _ => Err(EINVAL),
            },
        }
    }

    /// The bytes of the root filesystem entry behind a node.
    pub fn rootfs_entry_data<'a>(&self, id: NodeId, image: &'a Image) -> (r: Result<
        &'a [u8],
        LinuxErrno,
    >)
        requires
            id.index < LINUX_FS_MAX_NODES,
        ensures
            if !valid_id(self.model(), id) {
                r == Err::<&[u8], LinuxErrno>(EBADF)
            } else {
                match self.model().nodes[id.index as int].backend {
                    NodeBackend::Rootfs { entry_index } => if entry_index < image.entries@.len() {
                        r is Ok && r->Ok_0@ == image.entries@[entry_index as int].data@
                    } else {
                        r == Err::<&[u8], LinuxErrno>(ENOENT)
                    },
                    _ => r == Err::<&[u8], LinuxErrno>(EINVAL),
                }
            },
    {
        match self.check_node(id) {
            Err(e) => Err(e),
            Ok(()) => match self.nodes[id.index as usize].backend {
                NodeBackend::Rootfs { entry_index } => match image.entry(entry_index as usize) {
                    Some(entry) => Ok(entry.data.as_slice()),
                    None => Err(ENOENT),
                },
                _ => Err(EINVAL),
            },
        }
    }

    /// Final path component for `getdents64` (not the full normalized path).
    pub fn dirent_name(&self, id: NodeId) -> (r: Result<&[u8], LinuxErrno>)
        requires
            self.wf(),
            id.index < LINUX_FS_MAX_NODES,
        ensures
            ({
                let name = self.model().nodes[id.index as int].name;
                if !valid_id(self.model(), id) {
                    r == Err::<&[u8], LinuxErrno>(EBADF)
                } else if name.len() == 0 || name == seq![SLASH] {
                    r == Err::<&[u8], LinuxErrno>(EINVAL)
                } else {
                    r is Ok && r->Ok_0@ == name
                }
            }),
    {
        match self.check_node(id) {
            Err(e) => return Err(e),
            Ok(()) => {},
        }
        let node = &self.nodes[id.index as usize];
        let len: usize = node.name_len as usize;
        assert(node.name_bytes() == self.model().nodes[id.index as int].name);
        if len == 0 || (len == 1 && node.name[0] == SLASH) {
            assert(len == 1 ==> node.name_bytes() =~= seq![SLASH]);
            return Err(EINVAL);
        }
        assert(node.name_bytes() != seq![SLASH]) by {
            if node.name_bytes() == seq![SLASH] {
                assert(node.name_bytes().len() == 1 && node.name_bytes()[0] == SLASH);
            }
        }
        Ok(vstd::slice::slice_subrange(&node.name, 0, len))
    }

    /// Whether the node at `index` is a live child of `parent` called `name`.
    fn is_child(&self, index: usize, parent: u16, name: &[u8]) -> (r: bool)
        requires
            self.wf(),
            index < LINUX_FS_MAX_NODES,
        ensures
            r == (self.model().nodes[index as int].live && self.model().nodes[index as int].parent
                == parent && self.model().nodes[index as int].name == name@),
    {
        let node = &self.nodes[index];
        assert(self.model().nodes[index as int] == node.model());
        node.live && node.parent == parent && bytes_equal(
            vstd::slice::slice_subrange(&node.name, 0, node.name_len as usize),
            name,
        )
    }

    /// The live child of `parent` called `name`.
    pub fn find_child(&self, parent: u16, name: &[u8]) -> (r: Option<u16>)
        requires
            self.wf(),
        ensures
            match child_from(self.model().nodes, parent, name@, 0) {
                Some(i) => r == Some(i as u16) && 0 <= i < LINUX_FS_MAX_NODES,
                None => r is None,
            },
    {
        let mut index: usize = 0;
        while index < LINUX_FS_MAX_NODES
            invariant
                0 <= index <= 64,
                self.wf(),
                child_from(self.model().nodes, parent, name@, 0) == child_from(
                    self.model().nodes,
                    parent,
                    name@,
                    index as int,
                ),
            decreases 64 - index,
        {
            if self.is_child(index, parent, name) {
                return Some(index as u16);
            }
            index += 1;
        }
        None
    }

    /// Whether `parent` has a live child called `name`.
    pub fn child_exists(&self, parent: u16, name: &[u8]) -> (r: bool)
        requires
            self.wf(),
        ensures
            r == (child_from(self.model().nodes, parent, name@, 0) is Some),
    {
        self.find_child(parent, name).is_some()
    }

    /// The number of live nodes whose parent is `parent`.
    pub open spec fn children_counted(nodes: Seq<NodeModel>, parent: u16) -> nat {
        crate::scan::count(nodes, |n: NodeModel| n.live && n.parent == parent)
    }

    /// The number of live nodes whose parent is `parent` (the root is among its own).
    pub fn tmp_children_count(&self, parent: u16) -> (r: usize)
        ensures
            r == NodeTable::children_counted(self.model().nodes, parent),
            r <= LINUX_FS_MAX_NODES,
    {
        let ghost p = |n: NodeModel| n.live && n.parent == parent;
        let ghost nodes = self.model().nodes;
        let mut n: usize = 0;
        let mut index: usize = 0;
        assert(nodes.take(0) =~= Seq::<NodeModel>::empty());
        while index < LINUX_FS_MAX_NODES
            invariant
                0 <= index <= 64,
                nodes == self.model().nodes,
                p == (|n: NodeModel| n.live && n.parent == parent),
                n == crate::scan::count(nodes.take(index as int), p),
                n <= index,
            decreases 64 - index,
        {
            proof {
                crate::scan::lemma_count_step(nodes, p, index as int);
            }
            assert(nodes[index as int] == self.nodes@[index as int].model());
            if self.nodes[index].live && self.nodes[index].parent == parent {
                n += 1;
            }
            index += 1;
        }
        assert(nodes.take(64) =~= nodes);
        n
    }

    /// The lowest free slot; slot 0 is the root's.
    pub fn alloc_node(&self) -> (r: Result<u16, LinuxErrno>)
        ensures
            match free_from(self.model().nodes, 1) {
                Some(i) => r == Ok::<u16, LinuxErrno>(i as u16) && 1 <= i < LINUX_FS_MAX_NODES
                    && !self.model().nodes[i].live,
                None => r == Err::<u16, LinuxErrno>(ENFILE),
            },
    {
        let mut index: usize = 1;
        while index < LINUX_FS_MAX_NODES
            invariant
                1 <= index <= 64,
                free_from(self.model().nodes, 1) == free_from(self.model().nodes, index as int),
            decreases 64 - index,
        {
            assert(self.model().nodes[index as int] == self.nodes@[index as int].model());
            if !self.nodes[index].live {
                return Ok(index as u16);
            }
            index += 1;
        }
        Err(ENFILE)
    }

    /// Takes the slot at `index` for a node.
    pub fn fill_node(
        &mut self,
        index: u16,
        parent: u16,
        name: &[u8],
        kind: NodeKind,
        backend: NodeBackend,
    )
        requires
            old(self).wf(),
            index < LINUX_FS_MAX_NODES,
            parent < LINUX_FS_MAX_NODES,
            name@.len() <= NAME_MAX,
        ensures
            final(self).wf(),
            final(self).model() == filled(
                old(self).model(),
                index as int,
                parent,
                name@,
                kind,
                backend,
            ),
    {
        let ghost m = self.model();
        let slot = self.nodes[index as usize];
        assert(m.nodes[index as int] == slot.model());
        proof {
            lemma_filled(m, index as int, parent, name@, kind, backend);
            crate::scan::lemma_count_bound(m.nodes, |n: NodeModel| n.live);
        }
        if !slot.live {
            self.live_count = self.live_count + 1;
        }
        let mut bytes: [u8; 64] = slot.name;
        copy_at(&mut bytes, 0, name);
        self.nodes[index as usize] = Node {
            live: true,
            generation: if slot.generation < 1 {
                1
            } else {
                slot.generation
            },
            kind,
            backend,
            name: bytes,
            name_len: name.len() as u8,
            parent,
        };
        assert(bytes@.take(name@.len() as int) =~= name@);
        assert(self.model().nodes =~= filled(m, index as int, parent, name@, kind, backend).nodes);
    }

    /// Adds a child to `parent` at the lowest free slot.
    fn place_node(
        &mut self,
        parent: u16,
        name: &[u8],
        kind: NodeKind,
        backend: NodeBackend,
    ) -> (r: Result<NodeId, LinuxErrno>)
        requires
            old(self).wf(),
            parent < LINUX_FS_MAX_NODES,
        ensures
            final(self).wf(),
            (final(self).model(), r) == placed(old(self).model(), parent, name@, kind, backend),
    {
        let index: u16 = match self.alloc_node() {
            Ok(index) => index,
            Err(e) => return Err(e),
        };
        if name.len() > NAME_MAX {
            return Err(ENAMETOOLONG);
        }
        self.fill_node(index, parent, name, kind, backend);
        Ok(self.node_id(index))
    }

    /// The id of the node at an index.
    pub fn node_id(&self, index: u16) -> (r: NodeId)
        requires
            index < LINUX_FS_MAX_NODES,
        ensures
            r == id_at(self.model(), index as int),
    {
        NodeId { index, generation: self.nodes[index as usize].generation }
    }

    /// Adds the node of a `/tmp` file, unless `parent` already has a child of that name.
    pub fn attach_tmp_file_node(&mut self, parent_index: u16, name: &[u8], object_id: u64) -> (r:
        Result<NodeId, LinuxErrno>)
        requires
            old(self).wf(),
            parent_index < LINUX_FS_MAX_NODES,
        ensures
            final(self).wf(),
            match child_from(old(self).model().nodes, parent_index, name@, 0) {
                Some(i) => final(self).model() == old(self).model() && r == Ok::<NodeId, LinuxErrno>(
                    id_at(old(self).model(), i),
                ),
                None => (final(self).model(), r) == placed(
                    old(self).model(),
                    parent_index,
                    name@,
                    NodeKind::File,
                    NodeBackend::Object { object_id },
                ),
            },
    {
        if let Some(index) = self.find_child(parent_index, name) {
            return Ok(self.node_id(index));
        }
        self.place_node(parent_index, name, NodeKind::File, NodeBackend::Object { object_id })
    }

    /// Adds the node of a root filesystem entry.
    fn materialize_rootfs_node(
        &mut self,
        parent_index: u16,
        name: &[u8],
        entry_index: u16,
        image: &Image,
    ) -> (r: Result<NodeId, LinuxErrno>)
        requires
            old(self).wf(),
            parent_index < LINUX_FS_MAX_NODES,
            entry_index < image.entries@.len(),
        ensures
            final(self).wf(),
            (final(self).model(), r) == placed(
                old(self).model(),
                parent_index,
                name@,
                kind_of(image.entries@[entry_index as int].kind),
                NodeBackend::Rootfs { entry_index },
            ),
    {
        let kind = match image.entries[entry_index as usize].kind {
            EntryKind::Dir => NodeKind::Dir,
            EntryKind::File => NodeKind::File,
            EntryKind::Link => NodeKind::Link,
        };
        self.place_node(parent_index, name, kind, NodeBackend::Rootfs { entry_index })
    }

    /// The path of a node in a zero-padded buffer. A path that fills the buffer leaves no room for a
    /// separator, and the path of a node below it is `ENAMETOOLONG`.
    pub fn path_of(&self, index: u16) -> (r: Result<[u8; 256], LinuxErrno>)
        requires
            self.wf(),
            index < LINUX_FS_MAX_NODES,
        ensures
            match path_buffer(self.model(), index) {
                Ok(buf) => r is Ok && r->Ok_0@ == buf,
                Err(e) => r == Err::<[u8; 256], LinuxErrno>(e),
            },
    {
        let ghost nodes = self.model().nodes;
        let ghost line = lineage(nodes, index, 16);
        let mut stack: Vec<u16> = Vec::new();
        let mut cur: u16 = index;
        let mut done: bool = false;
        assert(stack@ + lineage(nodes, cur, 16) =~= line);
        while stack.len() < PATH_LEVELS && !done
            invariant
                self.wf(),
                nodes == self.model().nodes,
                stack@.len() <= 16,
                cur < LINUX_FS_MAX_NODES,
                forall|k: int| 0 <= k < stack@.len() ==> (#[trigger] stack@[k]) < LINUX_FS_MAX_NODES,
                !done ==> stack@ + lineage(nodes, cur, (16 - stack@.len()) as nat) == line,
                done ==> stack@ == line,
            decreases 16 - stack@.len(), (if done { 0int } else { 1int }),
        {
            let ghost before = stack@;
            stack.push(cur);
            let parent: u16 = self.nodes[cur as usize].parent;
            assert(nodes[cur as int].parent == parent);
            if parent == cur {
                done = true;
                assert(before + seq![cur] =~= stack@);
            } else {
                proof {
                    let rest = lineage(nodes, parent, (16 - stack@.len()) as nat);
                    assert(before + (seq![cur] + rest) =~= stack@ + rest);
                }
                cur = parent;
            }
        }
        assert(stack@ =~= line);
        let mut buf: [u8; 256] = [0u8; 256];
        let mut pos: usize = 0;
        let mut level: usize = stack.len();
        assert(line.skip(level as int) =~= Seq::<u16>::empty());
        assert(buf@.take(0) =~= Seq::<u8>::empty());
        while level > 0
            invariant
                self.wf(),
                nodes == self.model().nodes,
                stack@ == line,
                line == lineage(nodes, index, 16),
                0 <= level <= stack@.len() <= 16,
                pos <= 256,
                forall|k: int| 0 <= k < stack@.len() ==> (#[trigger] stack@[k]) < LINUX_FS_MAX_NODES,
                assemble(nodes, line.skip(level as int)) == Ok::<Seq<u8>, LinuxErrno>(
                    buf@.take(pos as int),
                ),
                forall|k: int| pos <= k < 256 ==> buf@[k] == 0,
            decreases level,
        {
            level -= 1;
            let ghost base = buf@.take(pos as int);
            let ghost rest = line.skip(level as int);
            let node = &self.nodes[stack[level] as usize];
            let ghost name = nodes[line[level as int] as int].name;
            proof {
                assert(rest.drop_first() =~= line.skip(level + 1));
                assert(rest[0] == line[level as int]);
                assert(name == node.name_bytes());
                lemma_assemble_step(nodes, line, level as int);
                lemma_assemble_error(nodes, line, level as int);
            }
            let name_len: usize = node.name_len as usize;
            if name_len == 1 && node.name[0] == SLASH {
                assert(name =~= seq![SLASH]);
                if pos == 0 {
                    buf[0] = SLASH;
                    pos = 1;
                    assert(buf@.take(1) =~= seq![SLASH]);
                }
                continue;
            }
            assert(name != seq![SLASH]) by {
                if name == seq![SLASH] {
                    assert(name.len() == 1 && name[0] == SLASH);
                }
            }
            if pos > 0 && buf[pos - 1] != SLASH {
                assert(base.last() != SLASH);
                if pos >= LINUX_PATH_MAX {
                    return Err(ENAMETOOLONG);
                }
                buf[pos] = SLASH;
                pos += 1;
                assert(buf@.take(pos as int) =~= base.push(SLASH));
            } else {
                assert(pos > 0 ==> base.last() == SLASH);
            }
            let ghost lead = buf@.take(pos as int);
            if pos + name_len > LINUX_PATH_MAX {
                return Err(ENAMETOOLONG);
            }
            copy_at(&mut buf, pos, vstd::slice::slice_subrange(&node.name, 0, name_len));
            pos += name_len;
            assert(buf@.take(pos as int) =~= lead + name);
        }
        assert(line.skip(0) =~= line);
        let ghost path = buf@.take(pos as int);
        if pos == 0 {
            buf[0] = SLASH;
            assert(buf@ =~= padded(seq![SLASH]));
        } else {
            assert(buf@ =~= padded(path));
        }
        Ok(buf)
    }

    /// The path of a node, as `path_of` gives it.
    pub fn path_of_node(&self, index: u16) -> (r: Result<[u8; 256], LinuxErrno>)
        requires
            self.wf(),
            index < LINUX_FS_MAX_NODES,
        ensures
            match path_buffer(self.model(), index) {
                Ok(buf) => r is Ok && r->Ok_0@ == buf,
                Err(e) => r == Err::<[u8; 256], LinuxErrno>(e),
            },
    {
        self.path_of(index)
    }

    /// One step of a walk: the child of `parent` called `name`.
    pub fn descend(&mut self, parent: NodeId, name: &[u8], tmp: &TmpStore, image: &Image) -> (r:
        Result<NodeId, LinuxErrno>)
        requires
            old(self).wf(),
            tmp.wf(),
            image.wf(),
            parent.index < LINUX_FS_MAX_NODES,
        ensures
            final(self).wf(),
            (final(self).model(), r) == descended(old(self).model(), tmp, image, parent, name@),
            r matches Ok(id) ==> id.index < LINUX_FS_MAX_NODES,
    {
        proof {
            lemma_descended(self.model(), tmp, image, parent, name@);
            lemma_child_from(self.model().nodes, parent.index, name@, 0);
        }
        match self.check_node(parent) {
            Err(e) => return Err(e),
            Ok(()) => {},
        }
        assert(self.model().nodes[parent.index as int] == self.nodes@[parent.index as int].model());
        if self.nodes[parent.index as usize].kind != NodeKind::Dir {
            return Err(ENOTDIR);
        }
        if let Some(index) = self.find_child(parent.index, name) {
            return Ok(self.node_id(index));
        }
        let parent_buf = match self.path_of(parent.index) {
            Ok(buf) => buf,
            Err(e) => return Err(e),
        };
        let parent_len: usize = path_buf_len(&parent_buf);
        let ghost parent_path = until_nul(parent_buf@);
        let slashed = parent_len > 0 && parent_buf[parent_len - 1] == SLASH;
        assert(slashed == (parent_path.len() > 0 && parent_path.last() == SLASH));
        let start: usize = if slashed {
            parent_len
        } else {
            parent_len + 1
        };
        if start >= LINUX_PATH_MAX || name.len() >= LINUX_PATH_MAX - start {
            return Err(ENAMETOOLONG);
        }
        let mut buf: [u8; 256] = parent_buf;
        if !slashed {
            buf[parent_len] = SLASH;
        }
        copy_at(&mut buf, start, name);
        let path = vstd::slice::slice_subrange(&buf, 0, start + name.len());
        assert(path@ =~= child_path(parent_path, name@)) by {
            assert forall|i: int| 0 <= i < parent_len implies path@[i] == parent_path[i] by {
                assert(parent_path[i] == parent_buf@[i]);
            }
        }
        if let Some(object_id) = tmp.tmp_file_lookup_by_path(path) {
            return self.attach_tmp_file_node(parent.index, name, object_id);
        }
        if let Some(entry_index) = image.find_entry_index(path) {
            return self.materialize_rootfs_node(parent.index, name, entry_index, image);
        }
        Err(ENOENT)
    }

    /// Walks `path` from the root.
    pub fn walk(
        &mut self,
        path: &[u8],
        tmp: &TmpStore,
        image: &Image,
        follow_final_link: bool,
        depth: usize,
    ) -> (r: Result<NodeId, LinuxErrno>)
        requires
            old(self).wf(),
            tmp.wf(),
            image.wf(),
            depth <= LINUX_FS_MAX_LINK_DEPTH,
        ensures
            final(self).wf(),
            (final(self).model(), r) == walked(
                old(self).model(),
                tmp,
                image,
                id_at(old(self).model(), old(self).root_index as int),
                strip_slash(path@),
                follow_final_link,
                depth as nat,
            ),
            r matches Ok(id) ==> id.index < LINUX_FS_MAX_NODES,
        decreases LINUX_FS_MAX_LINK_DEPTH - depth,
    {
        let ghost start = id_at(self.model(), self.root_index as int);
        let mut current = self.node_id(self.root_index);
        let mut rest = if path.len() > 0 && path[0] == SLASH {
            vstd::slice::slice_subrange(path, 1, path.len())
        } else {
            path
        };
        assert(rest@ =~= strip_slash(path@));
        while rest.len() > 0
            invariant
                self.wf(),
                tmp.wf(),
                image.wf(),
                depth <= LINUX_FS_MAX_LINK_DEPTH,
                current.index < LINUX_FS_MAX_NODES,
                start == id_at(old(self).model(), old(self).root_index as int),
                walked(
                    self.model(),
                    tmp,
                    image,
                    current,
                    rest@,
                    follow_final_link,
                    depth as nat,
                ) == walked(
                    old(self).model(),
                    tmp,
                    image,
                    start,
                    strip_slash(path@),
                    follow_final_link,
                    depth as nat,
                ),
            decreases rest@.len(),
        {
            let (seg, tail) = split_component(rest);
            proof {
                lemma_slash_at(rest@);
            }
            current = match self.descend(current, seg, tmp, image) {
                Ok(id) => id,
                Err(e) => return Err(e),
            };
            assert(self.model().nodes[current.index as int]
                == self.nodes@[current.index as int].model());
            if tail.len() > 0 {
                if self.nodes[current.index as usize].kind != NodeKind::Dir {
                    return Err(ENOTDIR);
                }
                rest = tail;
            } else if follow_final_link {
                return self.maybe_follow_link(current, tmp, image, depth);
            } else {
                return Ok(current);
            }
        }
        Ok(current)
    }

    /// Follows a link node to its target; any other node is its own target.
    fn maybe_follow_link(&mut self, node: NodeId, tmp: &TmpStore, image: &Image, depth: usize) -> (r:
        Result<NodeId, LinuxErrno>)
        requires
            old(self).wf(),
            tmp.wf(),
            image.wf(),
            depth <= LINUX_FS_MAX_LINK_DEPTH,
            node.index < LINUX_FS_MAX_NODES,
        ensures
            final(self).wf(),
            r matches Ok(id) ==> id.index < LINUX_FS_MAX_NODES,
            (final(self).model(), r) == ({
                let m1 = old(self).model();
                if m1.nodes[node.index as int].kind != NodeKind::Link {
                    (m1, Ok::<NodeId, LinuxErrno>(node))
                } else if depth >= LINUX_FS_MAX_LINK_DEPTH {
                    (m1, Err(ELOOP))
                } else {
                    match node_path(m1, node.index) {
                        Err(e) => (m1, Err(e)),
                        Ok(path) => match image.find(path) {
                            None => (m1, Err(ENOENT)),
                            Some(k) => walked(
                                m1,
                                tmp,
                                image,
                                id_at(m1, m1.root as int),
                                strip_slash(image.entries@[k].data@),
                                true,
                                (depth + 1) as nat,
                            ),
                        },
                    }
                }
            }),
        decreases LINUX_FS_MAX_LINK_DEPTH - depth, 0int,
    {
        assert(self.model().nodes[node.index as int] == self.nodes@[node.index as int].model());
        if self.nodes[node.index as usize].kind != NodeKind::Link {
            return Ok(node);
        }
        if depth >= LINUX_FS_MAX_LINK_DEPTH {
            return Err(ELOOP);
        }
        let buf = match self.path_of(node.index) {
            Ok(buf) => buf,
            Err(e) => return Err(e),
        };
        let len: usize = path_buf_len(&buf);
        let target = match image.lookup(prefix_of(&buf, len)) {
            Some(entry) => entry.data.as_slice(),
            None => return Err(ENOENT),
        };
        self.walk(target, tmp, image, true, depth + 1)
    }

    /// Finds the node that a path names, adding nodes for the entries it passes.
    pub fn lookup_path(
        &mut self,
        path: &[u8],
        tmp: &TmpStore,
        image: &Image,
        follow_final_link: bool,
    ) -> (r: Result<NodeId, LinuxErrno>)
        requires
            old(self).wf(),
            tmp.wf(),
            image.wf(),
        ensures
            final(self).wf(),
            (final(self).model(), r) == looked_up(
                old(self).model(),
                tmp,
                image,
                path@,
                follow_final_link,
            ),
            r matches Ok(id) ==> id.index < LINUX_FS_MAX_NODES,
    {
        let mut norm: [u8; 256] = [0u8; 256];
        let len: usize = match normalize_path(path, &mut norm) {
            Ok(len) => len,
            Err(e) => return Err(e),
        };
        let norm_path = prefix_of(&norm, len);
        if len == 1 && norm_path[0] == SLASH {
            assert(norm_path@ =~= seq![SLASH]);
            return Ok(self.node_id(self.root_index));
        }
        assert(norm_path@ != seq![SLASH]) by {
            if norm_path@ == seq![SLASH] {
                assert(norm_path@.len() == 1 && norm_path@[0] == SLASH);
            }
        }
        self.walk(norm_path, tmp, image, follow_final_link, 0)
    }
}

proof fn lemma_assemble_step(nodes: Seq<NodeModel>, line: Seq<u16>, level: int)
    requires
        0 <= level < line.len(),
    ensures
        assemble(nodes, line.skip(level)) == match assemble(nodes, line.skip(level + 1)) {
            Err(e) => Err::<Seq<u8>, LinuxErrno>(e),
            Ok(base) => extend_path(base, nodes[line[level] as int].name),
        },
{
    assert(line.skip(level).drop_first() =~= line.skip(level + 1));
}

/// An error in assembling the upper part of a lineage is the error of the whole.
proof fn lemma_assemble_error(nodes: Seq<NodeModel>, line: Seq<u16>, level: int)
    requires
        0 <= level <= line.len(),
    ensures
        assemble(nodes, line.skip(level)) matches Err(e) ==> assemble(nodes, line) == Err::<
            Seq<u8>,
            LinuxErrno,
        >(e),
    decreases level,
{
    if level == 0 {
        assert(line.skip(0) =~= line);
    } else {
        lemma_assemble_step(nodes, line, level - 1);
        lemma_assemble_error(nodes, line, level - 1);
    }
}


/// `/tmp`
pub open spec fn tmp_dir() -> Seq<u8> {
    seq![0x2fu8, 0x74u8, 0x6du8, 0x70u8]
}

/// `/tmp/`
pub open spec fn tmp_prefix() -> Seq<u8> {
    seq![0x2fu8, 0x74u8, 0x6du8, 0x70u8, 0x2fu8]
}

/// `/etc/`
pub open spec fn etc_prefix() -> Seq<u8> {
    seq![0x2fu8, 0x65u8, 0x74u8, 0x63u8, 0x2fu8]
}

fn under_tmp(path: &[u8]) -> (r: bool)
    ensures
        r == has_prefix(path@, tmp_prefix()),
{
    let lit: [u8; 5] = [0x2f, 0x74, 0x6d, 0x70, 0x2f];
    assert(lit@ =~= tmp_prefix());
    starts_with(path, &lit)
}

fn is_tmp_dir(path: &[u8]) -> (r: bool)
    ensures
        r == (path@ == tmp_dir()),
{
    let lit: [u8; 4] = [0x2f, 0x74, 0x6d, 0x70];
    assert(lit@ =~= tmp_dir());
    bytes_equal(path, &lit)
}

/// The permission bits and type of a root filesystem node.
pub open spec fn mode_of(path: Seq<u8>, kind: NodeKind) -> u32 {
    match kind {
        NodeKind::Dir => S_IFDIR | 0o755,
        NodeKind::Link => S_IFLNK | 0o777,
        NodeKind::File => if has_prefix(path, etc_prefix()) {
            S_IFREG | 0o644
        } else {
            S_IFREG | 0o755
        },
    }
}

pub fn mode_for_path(path: &[u8], kind: NodeKind) -> (r: u32)
    ensures
        r == mode_of(path@, kind),
{
    match kind {
        NodeKind::Dir => S_IFDIR | 0o755,
        NodeKind::Link => S_IFLNK | 0o777,
        NodeKind::File => {
            let lit: [u8; 5] = [0x2f, 0x65, 0x74, 0x63, 0x2f];
            assert(lit@ =~= etc_prefix());
            if starts_with(path, &lit) {
                S_IFREG | 0o644
            } else {
                S_IFREG | 0o755
            }
        },
    }
}

/// Whether opening with `flags` may change the file.
pub open spec fn write_intent(flags: u32) -> bool {
    (flags & (O_WRONLY | O_RDWR | O_CREAT | O_TRUNC | O_APPEND)) != 0
}

/// Only paths that begin with `/tmp` may be opened for writing.
pub fn check_write_allowed(path: &[u8], flags: u32) -> (r: Result<(), LinuxErrno>)
    ensures
        r == match normalized(path@) {
            Err(e) => Err::<(), LinuxErrno>(e),
            Ok(norm) => if write_intent(flags) && !has_prefix(norm, tmp_dir()) {
                Err(EROFS)
            } else {
                Ok(())
            },
        },
{
    let mut norm: [u8; 256] = [0u8; 256];
    let len: usize = match normalize_path(path, &mut norm) {
        Ok(len) => len,
        Err(e) => return Err(e),
    };
    let lit: [u8; 4] = [0x2f, 0x74, 0x6d, 0x70];
    assert(lit@ =~= tmp_dir());
    let intent = (flags & (O_WRONLY | O_RDWR | O_CREAT | O_TRUNC | O_APPEND)) != 0;
    if intent && !starts_with(prefix_of(&norm, len), &lit) {
        return Err(EROFS);
    }
    Ok(())
}

/// What `mkdir` does: only a new name directly in an existing directory below `/tmp` can be made.
pub open spec fn made_dir(m: TableModel, tmp: &TmpStore, image: &Image, path: Seq<u8>) -> (
    TableModel,
    Result<(), LinuxErrno>,
) {
    match normalized(path) {
        Err(e) => (m, Err(e)),
        Ok(norm) => if norm == seq![SLASH] || norm == tmp_dir() {
            (m, Err(EEXIST))
        } else if !has_prefix(norm, tmp_prefix()) {
            (m, Err(EROFS))
        } else {
            match (last_name(norm), parent_of(norm)) {
                (Err(e), _) => (m, Err(e)),
                (Ok(_), Err(e)) => (m, Err(e)),
                (Ok(name), Ok(parent_path)) => {
                    let (m1, found) = looked_up(m, tmp, image, parent_path, true);
                    match found {
                        Err(e) => (m1, Err(e)),
                        Ok(parent) => if m1.nodes[parent.index as int].kind != NodeKind::Dir {
                            (m1, Err(ENOTDIR))
                        } else if child_from(m1.nodes, parent.index, name, 0) is Some {
                            (m1, Err(EEXIST))
                        } else if NodeTable::children_counted(m1.nodes, parent.index)
                            >= LINUX_TMP_MAX_ENTRIES {
                            (m1, Err(ENOSPC))
                        } else {
                            let (m2, added) = placed(
                                m1,
                                parent.index,
                                name,
                                NodeKind::Dir,
                                NodeBackend::TmpDir,
                            );
                            (
                                m2,
                                match added {
                                    Ok(_) => Ok(()),
                                    Err(e) => Err(e),
                                },
                            )
                        },
                    }
                },
            }
        },
    }
}

/// What `open_create_file` finds before it changes anything.
pub enum OpenTarget {
    /// The node that already has the name.
    Existing(int),
    /// A new file of this normalized path, to be put under this parent with this name.
    Fresh { parent: u16, name: Seq<u8>, norm: Seq<u8> },
}

/// Where creating a file at `path` leads: only below `/tmp`, not over a directory or link, and only
/// while the directory has room.
pub open spec fn open_target(m: TableModel, tmp: &TmpStore, image: &Image, path: Seq<u8>) -> (
    TableModel,
    Result<OpenTarget, LinuxErrno>,
) {
    match normalized(path) {
        Err(e) => (m, Err(e)),
        Ok(norm) => if !has_prefix(norm, tmp_prefix()) {
            (m, Err(EROFS))
        } else {
            match (last_name(norm), parent_of(norm)) {
                (Err(e), _) => (m, Err(e)),
                (Ok(_), Err(e)) => (m, Err(e)),
                (Ok(name), Ok(parent_path)) => {
                    let (m1, found) = looked_up(m, tmp, image, parent_path, true);
                    match found {
                        Err(e) => (m1, Err(e)),
                        Ok(parent) => match child_from(m1.nodes, parent.index, name, 0) {
                            Some(i) => if m1.nodes[i].kind != NodeKind::File {
                                (m1, Err(EISDIR))
                            } else {
                                (m1, Ok(OpenTarget::Existing(i)))
                            },
                            None => if NodeTable::children_counted(m1.nodes, parent.index)
                                >= LINUX_TMP_MAX_ENTRIES {
                                (m1, Err(ENOSPC))
                            } else {
                                (
                                    m1,
                                    Ok(OpenTarget::Fresh { parent: parent.index, name, norm }),
                                )
                            },
                        },
                    }
                },
            }
        },
    }
}

/// The table and result of `open_create_file`.
pub open spec fn open_created(
    m: TableModel,
    tmp: &TmpStore,
    image: &Image,
    path: Seq<u8>,
    truncate: bool,
) -> (TableModel, Result<NodeId, LinuxErrno>) {
    let (m1, target) = open_target(m, tmp, image, path);
    match target {
        Err(e) => (m1, Err(e)),
        Ok(OpenTarget::Existing(i)) => match m1.nodes[i].backend {
            NodeBackend::Object { object_id } => if truncate && !tmp.holds(object_id) {
                (m1, Err(ENOENT))
            } else {
                (m1, Ok(id_at(m1, i)))
            },
            _ => (m1, Ok(id_at(m1, i))),
        },
        Ok(OpenTarget::Fresh { parent, name, norm }) => match tmp.create_result(norm) {
            Err(e) => (m1, Err(e)),
            Ok(object_id) => placed(
                m1,
                parent,
                name,
                NodeKind::File,
                NodeBackend::Object { object_id },
            ),
        },
    }
}

/// The `/tmp` files after `open_create_file`. A file made for a node that then found no slot stays.
pub open spec fn open_stored(
    m: TableModel,
    tmp: &TmpStore,
    image: &Image,
    path: Seq<u8>,
    truncate: bool,
    after: &TmpStore,
) -> bool {
    let (m1, target) = open_target(m, tmp, image, path);
    match target {
        Err(_) => *after == *tmp,
        Ok(OpenTarget::Existing(i)) => match m1.nodes[i].backend {
            NodeBackend::Object { object_id } => if truncate && tmp.holds(object_id) {
                tmp.truncated(object_id, after)
            } else {
                *after == *tmp
            },
            _ => *after == *tmp,
        },
        Ok(OpenTarget::Fresh { parent, name, norm }) => match tmp.create_result(norm) {
            Err(_) => *after == *tmp,
            Ok(object_id) => if truncate && open_created(m, tmp, image, path, truncate).1 is Ok {
                let i = super::object_backend::slot_of(object_id);
                &&& after.files@[i] is Some
                &&& TmpStore::is_new_file(after.files@[i]->0, i, norm)
                &&& after.files@ == tmp.files@.update(i, after.files@[i])
                &&& forall|k: int| 0 <= k < 512 ==> (#[trigger] after.scratch@[i]@[k]) == 0
                &&& forall|j: int|
                    0 <= j < 4 && j != i ==> after.scratch@[j] == tmp.scratch@[j]
            } else {
                tmp.created(norm, after)
            },
        },
    }
}

/// Blocks of 512 bytes that hold `len` bytes.
pub open spec fn block_count(len: usize) -> int {
    (len as int + 511) / 512
}

pub open spec fn stat_record(index: u16, mode: u32, len: usize) -> LinuxStatFields {
    LinuxStatFields {
        st_dev: 1,
        st_ino: (index + 1) as u64,
        st_nlink: 1,
        st_mode: mode,
        st_uid: 0,
        st_gid: 0,
        st_rdev: 0,
        st_size: len as i64,
        st_blksize: 4096,
        st_blocks: block_count(len) as i64,
    }
}

fn make_stat(index: u16, mode: u32, len: usize) -> (r: LinuxStatFields)
    ensures
        r == stat_record(index, mode, len),
{
    let blocks: usize = if len % 512 == 0 {
        len / 512
    } else {
        len / 512 + 1
    };
    assert(blocks == block_count(len));
    LinuxStatFields {
        st_dev: 1,
        st_ino: index as u64 + 1,
        st_nlink: 1,
        st_mode: mode,
        st_uid: 0,
        st_gid: 0,
        st_rdev: 0,
        st_size: len as i64,
        st_blksize: 4096,
        st_blocks: blocks as i64,
    }
}

/// The stat record of a node that is not an unfollowed link.
pub open spec fn stat_node(m: TableModel, tmp: &TmpStore, image: &Image, index: u16) -> Result<
    LinuxStatFields,
    LinuxErrno,
> {
    match node_path(m, index) {
        Err(e) => Err(e),
        Ok(full) => match m.nodes[index as int].backend {
            NodeBackend::Rootfs { .. } => match image.find(full) {
                None => Err(ENOENT),
                Some(k) => Ok(
                    stat_record(
                        index,
                        mode_of(full, m.nodes[index as int].kind),
                        image.entries@[k].data@.len() as usize,
                    ),
                ),
            },
            NodeBackend::Object { object_id } => Ok(
                stat_record(
                    index,
                    S_IFREG | 0o644,
                    if tmp.holds(object_id) {
                        tmp.file(object_id).len
                    } else {
                        0
                    },
                ),
            ),
            NodeBackend::TmpDir => Ok(stat_record(index, S_IFDIR | 0o755, 0)),
        },
    }
}

/// What `stat_fields` does: `lstat` describes a link itself, `stat` the node that it leads to.
pub open spec fn stat_of(
    m: TableModel,
    tmp: &TmpStore,
    image: &Image,
    id: NodeId,
    for_lstat: bool,
) -> (TableModel, Result<LinuxStatFields, LinuxErrno>) {
    if !valid_id(m, id) {
        (m, Err(EBADF))
    } else {
        match node_path(m, id.index) {
            Err(e) => (m, Err(e)),
            Ok(path) => if m.nodes[id.index as int].kind != NodeKind::Link {
                (m, stat_node(m, tmp, image, id.index))
            } else {
                match image.find(path) {
                    None => (m, Err(ENOENT)),
                    Some(k) => if for_lstat {
                        (
                            m,
                            Ok(
                                stat_record(
                                    id.index,
                                    S_IFLNK | 0o777,
                                    image.entries@[k].data@.len() as usize,
                                ),
                            ),
                        )
                    } else {
                        let (m1, found) = looked_up(m, tmp, image, image.entries@[k].data@, true);
                        match found {
                            Err(e) => (m1, Err(e)),
                            Ok(target) => (m1, stat_node(m1, tmp, image, target.index)),
                        }
                    },
                }
            },
        }
    }
}

/// Listing the root filesystem's children `kids[k..]`, each looked up by its path.
pub open spec fn list_entries(
    m: TableModel,
    tmp: &TmpStore,
    image: &Image,
    kids: Seq<usize>,
    k: int,
    out: Seq<(NodeId, u8)>,
) -> (TableModel, Seq<(NodeId, u8)>, Option<LinuxErrno>)
    decreases kids.len() - k,
{
    if k < 0 || k >= kids.len() || out.len() >= LIST_MAX {
        (m, out, None)
    } else {
        let (m1, found) = looked_up(m, tmp, image, image.entries@[kids[k] as int].path@, false);
        match found {
            Err(e) => (m1, out, Some(e)),
            Ok(id) => list_entries(
                m1,
                tmp,
                image,
                kids,
                k + 1,
                out.push((id, dirent_code(m1.nodes[id.index as int].kind))),
            ),
        }
    }
}

/// Whether a listing already has the node at an index.
pub open spec fn listed(out: Seq<(NodeId, u8)>, index: int) -> bool {
    exists|k: int| 0 <= k < out.len() && (#[trigger] out[k]).0.index == index
}

/// Adding to a listing the live children of `dir` at or above `from` that it lacks.
pub open spec fn list_nodes(m: TableModel, dir: u16, from: int, out: Seq<(NodeId, u8)>) -> Seq<
    (NodeId, u8),
>
    decreases m.nodes.len() - from,
{
    if from < 0 || from >= m.nodes.len() || out.len() >= LIST_MAX {
        out
    } else if from == dir || !m.nodes[from].live || m.nodes[from].parent != dir || listed(
        out,
        from,
    ) {
        list_nodes(m, dir, from + 1, out)
    } else {
        list_nodes(
            m,
            dir,
            from + 1,
            out.push((id_at(m, from), dirent_code(m.nodes[from].kind))),
        )
    }
}

/// What `list_children` does: the directory's entries in the root filesystem, then its other
/// children in the table. `None` in the last place is success.
pub open spec fn listing(m: TableModel, tmp: &TmpStore, image: &Image, dir: NodeId) -> (
    TableModel,
    Seq<(NodeId, u8)>,
    Option<LinuxErrno>,
) {
    if !valid_id(m, dir) {
        (m, seq![], Some(EBADF))
    } else if m.nodes[dir.index as int].kind != NodeKind::Dir {
        (m, seq![], Some(ENOTDIR))
    } else {
        match node_path(m, dir.index) {
            Err(e) => (m, seq![], Some(e)),
            Ok(path) => {
                let kids = child_indices(image.entries@, path, 0);
                let (m1, out, failed) = list_entries(m, tmp, image, kids, 0, seq![]);
                match failed {
                    Some(e) => (m1, out, Some(e)),
                    None => (m1, list_nodes(m1, dir.index, 0, out), None),
                }
            },
        }
    }
}

/// A slot after its node was dropped.
pub open spec fn evicted_node(n: NodeModel) -> NodeModel {
    NodeModel {
        live: false,
        generation: if n.generation == u32::MAX {
            0u32
        } else {
            (n.generation + 1) as u32
        },
        ..n
    }
}

/// What `evict_node` does: any live node but the root can be dropped.
pub open spec fn evicted(m: TableModel, id: NodeId) -> (TableModel, Result<(), LinuxErrno>) {
    if !valid_id(m, id) {
        (m, Err(EBADF))
    } else if id.index == m.root {
        (m, Err(EACCES))
    } else {
        (
            TableModel {
                nodes: m.nodes.update(id.index as int, evicted_node(m.nodes[id.index as int])),
                live_count: m.live_count - 1,
                root: m.root,
            },
            Ok(()),
        )
    }
}

/// `buf` holds `value` in its first places and is otherwise as it was.
pub open spec fn lists(
    buf: Seq<(NodeId, u8)>,
    before: Seq<(NodeId, u8)>,
    value: Seq<(NodeId, u8)>,
) -> bool {
    &&& buf.len() == before.len()
    &&& value.len() <= buf.len()
    &&& buf == value + before.skip(value.len() as int)
}

impl NodeTable {
    /// Makes a directory below `/tmp`.
    pub fn mkdir(&mut self, path: &[u8], tmp: &TmpStore, image: &Image) -> (r: Result<
        (),
        LinuxErrno,
    >)
        requires
            old(self).wf(),
            tmp.wf(),
            image.wf(),
        ensures
            final(self).wf(),
            (final(self).model(), r) == made_dir(old(self).model(), tmp, image, path@),
    {
        let mut norm_buf: [u8; 256] = [0u8; 256];
        let len: usize = match normalize_path(path, &mut norm_buf) {
            Ok(len) => len,
            Err(e) => return Err(e),
        };
        let norm = prefix_of(&norm_buf, len);
        let root: [u8; 1] = [SLASH];
        assert(root@ =~= seq![SLASH]);
        if bytes_equal(norm, &root) || is_tmp_dir(norm) {
            return Err(EEXIST);
        }
        if !under_tmp(norm) {
            return Err(EROFS);
        }
        let (parent_path, name) = match split_parent(norm) {
            Ok(parts) => parts,
            Err(e) => return Err(e),
        };
        let parent = match self.lookup_path(parent_path, tmp, image, true) {
            Ok(id) => id,
            Err(e) => return Err(e),
        };
        assert(self.model().nodes[parent.index as int] == self.nodes@[parent.index as int].model());
        if self.nodes[parent.index as usize].kind != NodeKind::Dir {
            return Err(ENOTDIR);
        }
        if self.child_exists(parent.index, name) {
            return Err(EEXIST);
        }
        if self.tmp_children_count(parent.index) >= LINUX_TMP_MAX_ENTRIES {
            return Err(ENOSPC);
        }
        match self.place_node(parent.index, name, NodeKind::Dir, NodeBackend::TmpDir) {
            Ok(_) => Ok(()),
            Err(e) => Err(e),
        }
    }

    /// Opens the file at a path below `/tmp`, creating it where it does not exist and emptying it
    /// where `truncate` says so.
    pub fn open_create_file(
        &mut self,
        path: &[u8],
        truncate: bool,
        tmp: &mut TmpStore,
        image: &Image,
    ) -> (r: Result<NodeId, LinuxErrno>)
        requires
            old(self).wf(),
            old(tmp).wf(),
            image.wf(),
        ensures
            final(self).wf(),
            final(tmp).wf(),
            (final(self).model(), r) == open_created(
                old(self).model(),
                old(tmp),
                image,
                path@,
                truncate,
            ),
            open_stored(old(self).model(), old(tmp), image, path@, truncate, final(tmp)),
    {
        let mut norm_buf: [u8; 256] = [0u8; 256];
        let len: usize = match normalize_path(path, &mut norm_buf) {
            Ok(len) => len,
            Err(e) => return Err(e),
        };
        let norm = prefix_of(&norm_buf, len);
        if !under_tmp(norm) {
            return Err(EROFS);
        }
        let (parent_path, name) = match split_parent(norm) {
            Ok(parts) => parts,
            Err(e) => return Err(e),
        };
        let parent = match self.lookup_path(parent_path, tmp, image, true) {
            Ok(id) => id,
            Err(e) => return Err(e),
        };
        if let Some(existing) = self.find_child(parent.index, name) {
            let node = self.nodes[existing as usize];
            assert(self.model().nodes[existing as int] == node.model());
            if node.kind != NodeKind::File {
                return Err(EISDIR);
            }
            if truncate {
                if let NodeBackend::Object { object_id } = node.backend {
                    match tmp.tmp_file_truncate_local(object_id) {
                        Ok(()) => {},
                        Err(e) => return Err(e),
                    }
                }
            }
            return Ok(self.node_id(existing));
        }
        if self.tmp_children_count(parent.index) >= LINUX_TMP_MAX_ENTRIES {
            return Err(ENOSPC);
        }
        let object_id: u64 = match tmp.tmp_file_create(norm) {
            Ok(id) => id,
            Err(e) => return Err(e),
        };
        let id = match self.place_node(
            parent.index,
            name,
            NodeKind::File,
            NodeBackend::Object { object_id },
        ) {
            Ok(id) => id,
            Err(e) => return Err(e),
        };
        if truncate {
            let ghost made = *tmp;
            match tmp.tmp_file_truncate_local(object_id) {
                Ok(()) => {},
                Err(e) => return Err(e),
            }
            proof {
                let i = super::object_backend::slot_of(object_id);
                assert(made.truncated(object_id, tmp));
                assert(tmp.files@ =~= old(tmp).files@.update(i, tmp.files@[i]));
            }
        }
        Ok(id)
    }

    /// The stat record of a node.
    pub fn stat_fields(&mut self, id: NodeId, tmp: &TmpStore, image: &Image, for_lstat: bool) -> (r:
        Result<LinuxStatFields, LinuxErrno>)
        requires
            old(self).wf(),
            tmp.wf(),
            image.wf(),
            id.index < LINUX_FS_MAX_NODES,
        ensures
            final(self).wf(),
            (final(self).model(), r) == stat_of(old(self).model(), tmp, image, id, for_lstat),
    {
        match self.check_node(id) {
            Err(e) => return Err(e),
            Ok(()) => {},
        }
        let buf = match self.path_of(id.index) {
            Ok(buf) => buf,
            Err(e) => return Err(e),
        };
        let path = prefix_of(&buf, path_buf_len(&buf));
        assert(self.model().nodes[id.index as int] == self.nodes@[id.index as int].model());
        let kind = self.nodes[id.index as usize].kind;
        let mut effective = id;
        if kind == NodeKind::Link {
            let target = match image.lookup(path) {
                Some(entry) => entry.data.as_slice(),
                None => return Err(ENOENT),
            };
            if for_lstat {
                return Ok(make_stat(id.index, S_IFLNK | 0o777, target.len()));
            }
            effective = match self.lookup_path(target, tmp, image, true) {
                Ok(found) => found,
                Err(e) => return Err(e),
            };
        }
        self.stat_effective(effective.index, tmp, image)
    }

    /// The stat record of a node that is not an unfollowed link.
    fn stat_effective(&self, index: u16, tmp: &TmpStore, image: &Image) -> (r: Result<
        LinuxStatFields,
        LinuxErrno,
    >)
        requires
            self.wf(),
            tmp.wf(),
            image.wf(),
            index < LINUX_FS_MAX_NODES,
        ensures
            r == stat_node(self.model(), tmp, image, index),
    {
        let buf = match self.path_of(index) {
            Ok(buf) => buf,
            Err(e) => return Err(e),
        };
        let full = prefix_of(&buf, path_buf_len(&buf));
        assert(self.model().nodes[index as int] == self.nodes@[index as int].model());
        let node = &self.nodes[index as usize];
        match node.backend {
            NodeBackend::Rootfs { entry_index: _ } => match image.lookup(full) {
                Some(entry) => Ok(make_stat(index, mode_for_path(full, node.kind), entry.data.len())),
                None => Err(ENOENT),
            },
            NodeBackend::Object { object_id } => {
                let len: usize = match tmp.tmp_file_by_object_id(object_id) {
                    Some(file) => file.len,
                    None => 0,
                };
                Ok(make_stat(index, S_IFREG | 0o644, len))
            },
            NodeBackend::TmpDir => Ok(make_stat(index, S_IFDIR | 0o755, 0)),
        }
    }

    /// Lists a directory into `out`.
    pub fn list_children(
        &mut self,
        dir: NodeId,
        tmp: &TmpStore,
        image: &Image,
        out: &mut [(NodeId, u8); 32],
    ) -> (r: Result<usize, LinuxErrno>)
        requires
            old(self).wf(),
            tmp.wf(),
            image.wf(),
            dir.index < LINUX_FS_MAX_NODES,
        ensures
            final(self).wf(),
            ({
                let (m, value, failed) = listing(old(self).model(), tmp, image, dir);
                &&& final(self).model() == m
                &&& lists(final(out)@, old(out)@, value)
                &&& r == match failed {
                    Some(e) => Err::<usize, LinuxErrno>(e),
                    None => Ok(value.len() as usize),
                }
            }),
    {
        let ghost start = self.model();
        let ghost before = out@;
        assert(before =~= Seq::<(NodeId, u8)>::empty() + before.skip(0));
        match self.check_node(dir) {
            Err(e) => return Err(e),
            Ok(()) => {},
        }
        assert(self.model().nodes[dir.index as int] == self.nodes@[dir.index as int].model());
        if self.nodes[dir.index as usize].kind != NodeKind::Dir {
            return Err(ENOTDIR);
        }
        let buf = match self.path_of(dir.index) {
            Ok(buf) => buf,
            Err(e) => return Err(e),
        };
        let dir_path = prefix_of(&buf, path_buf_len(&buf));
        let kids = image.children(dir_path);
        let mut count: usize = 0;
        let mut k: usize = 0;
        let ghost mut value: Seq<(NodeId, u8)> = seq![];
        while k < kids.len() && count < LIST_MAX
            invariant
                self.wf(),
                tmp.wf(),
                image.wf(),
                0 <= k <= kids@.len(),
                count == value.len() <= 32,
                before.len() == 32,
                before == old(out)@,
                out@ == value + before.skip(count as int),
                forall|j: int| 0 <= j < kids@.len() ==> (#[trigger] kids@[j]) < image.entries@.len(),
                valid_id(start, dir),
                start == old(self).model(),
                start.nodes[dir.index as int].kind == NodeKind::Dir,
                node_path(start, dir.index) == Ok::<Seq<u8>, LinuxErrno>(dir_path@),
                kids@ == child_indices(image.entries@, dir_path@, 0),
                list_entries(start, tmp, image, kids@, 0, seq![]) == list_entries(
                    self.model(),
                    tmp,
                    image,
                    kids@,
                    k as int,
                    value,
                ),
            decreases kids@.len() - k,
        {
            let id = match self.lookup_path(
                image.entries[kids[k]].path.as_slice(),
                tmp,
                image,
                false,
            ) {
                Ok(id) => id,
                Err(e) => return Err(e),
            };
            assert(self.model().nodes[id.index as int] == self.nodes@[id.index as int].model());
            let dt: u8 = dirent_type(self.nodes[id.index as usize].kind);
            let ghost last = out@;
            out[count] = (id, dt);
            proof {
                value = value.push((id, dt));
                assert(out@ =~= value + before.skip(count + 1));
            }
            count += 1;
            k += 1;
        }
        let ghost m1 = self.model();
        let ghost value1 = value;
        assert(list_entries(start, tmp, image, kids@, 0, seq![]) == (
            m1,
            value1,
            None::<LinuxErrno>,
        ));
        let mut index: usize = 0;
        while index < LINUX_FS_MAX_NODES && count < LIST_MAX
            invariant
                self.wf(),
                self.model() == m1,
                0 <= index <= 64,
                count == value.len() <= 32,
                before.len() == 32,
                out@ == value + before.skip(count as int),
                list_nodes(m1, dir.index, 0, value1) == list_nodes(
                    m1,
                    dir.index,
                    index as int,
                    value,
                ),
            decreases 64 - index,
        {
            assert(m1.nodes[index as int] == self.nodes@[index as int].model());
            let node = &self.nodes[index];
            let mut seen = false;
            let mut j: usize = 0;
            while j < count
                invariant
                    0 <= j <= count <= 32,
                    count == value.len(),
                    before.len() == 32,
                    out@ == value + before.skip(count as int),
                    seen == exists|i: int| 0 <= i < j && (#[trigger] value[i]).0.index == index,
                decreases count - j,
            {
                assert(out@[j as int] == value[j as int]);
                if out[j].0.index as usize == index {
                    seen = true;
                }
                j += 1;
            }
            assert(seen == listed(value, index as int));
            if index != dir.index as usize && node.live && node.parent == dir.index && !seen {
                let id = NodeId { index: index as u16, generation: node.generation };
                let dt: u8 = dirent_type(node.kind);
                out[count] = (id, dt);
                proof {
                    value = value.push((id, dt));
                    assert(out@ =~= value + before.skip(count + 1));
                }
                count += 1;
            }
            index += 1;
        }
        Ok(count)
    }

    /// Drops a node from the table; its slot's generation moves on.
    pub fn evict_node(&mut self, id: NodeId) -> (r: Result<(), LinuxErrno>)
        requires
            old(self).wf(),
            id.index < LINUX_FS_MAX_NODES,
        ensures
            final(self).wf(),
            (final(self).model(), r) == evicted(old(self).model(), id),
    {
        match self.check_node(id) {
            Err(e) => return Err(e),
            Ok(()) => {},
        }
        if id.index == self.root_index {
            return Err(EACCES);
        }
        let ghost m = self.model();
        let slot = self.nodes[id.index as usize];
        assert(m.nodes[id.index as int] == slot.model());
        let next = Node {
            live: false,
            generation: if slot.generation == u32::MAX {
                0
            } else {
                slot.generation + 1
            },
            ..slot
        };
        self.nodes[id.index as usize] = next;
        if self.live_count > 0 {
            self.live_count = self.live_count - 1;
        }
        proof {
            assert(self.model().nodes =~= m.nodes.update(id.index as int, next.model()));
            crate::scan::lemma_count_update(
                m.nodes,
                |n: NodeModel| n.live,
                id.index as int,
                next.model(),
            );
            assert(next.model() == evicted_node(slot.model()));
        }
        Ok(())
    }
}

/// The root filesystem file that a path names, links followed.
pub open spec fn executable_at(m: TableModel, tmp: &TmpStore, image: &Image, path: Seq<u8>) -> (
    TableModel,
    Result<Seq<u8>, LinuxErrno>,
) {
    let (m1, found) = looked_up(m, tmp, image, path, true);
    match found {
        Err(e) => (m1, Err(e)),
        Ok(id) => {
            let node = m1.nodes[id.index as int];
            if node.kind != NodeKind::File || !(node.backend is Rootfs) {
                (m1, Err(EACCES))
            } else {
                match node_path(m1, id.index) {
                    Err(e) => (m1, Err(e)),
                    Ok(full) => match image.find(full) {
                        None => (m1, Err(ENOENT)),
                        Some(k) => (m1, Ok(image.entries@[k].data@)),
                    },
                }
            }
        },
    }
}

/// The bytes of the root filesystem file that a path names.
pub fn resolve_executable_bytes<'a>(
    table: &mut NodeTable,
    tmp: &TmpStore,
    image: &'a Image,
    path: &[u8],
) -> (r: Result<&'a [u8], LinuxErrno>)
    requires
        old(table).wf(),
        tmp.wf(),
        image.wf(),
    ensures
        final(table).wf(),
        final(table).model() == executable_at(old(table).model(), tmp, image, path@).0,
        match executable_at(old(table).model(), tmp, image, path@).1 {
            Ok(bytes) => r is Ok && r->Ok_0@ == bytes,
            Err(e) => r == Err::<&[u8], LinuxErrno>(e),
        },
{
    let id = match table.lookup_path(path, tmp, image, true) {
        Ok(id) => id,
        Err(e) => return Err(e),
    };
    assert(table.model().nodes[id.index as int] == table.nodes@[id.index as int].model());
    let node = &table.nodes[id.index as usize];
    if node.kind != NodeKind::File {
        return Err(EACCES);
    }
    match node.backend {
        NodeBackend::Rootfs { entry_index: _ } => {
            let buf = match table.path_of(id.index) {
                Ok(buf) => buf,
                Err(e) => return Err(e),
            };
            match image.lookup(prefix_of(&buf, path_buf_len(&buf))) {
                Some(entry) => Ok(entry.data.as_slice()),
                None => Err(ENOENT),
            }
        },
        NodeBackend::Object { object_id: _ } => Err(EACCES),
        NodeBackend::TmpDir => Err(EACCES),
    }
}

/// A resolved executable: its bytes and the length of its normalized path.
pub struct ExecutableRef<'a> {
    pub image: &'a [u8],
    pub resolved_path_len: usize,
}

/// Normalizes `path` into `resolved_out` and finds the file that it names.
pub fn resolve_executable<'a>(
    table: &mut NodeTable,
    tmp: &TmpStore,
    path: &[u8],
    resolved_out: &mut [u8; 256],
    image: &'a Image,
) -> (r: Result<ExecutableRef<'a>, LinuxErrno>)
    requires
        old(table).wf(),
        tmp.wf(),
        image.wf(),
    ensures
        final(table).wf(),
        match normalized(path@) {
            Err(e) => r == Err::<ExecutableRef<'a>, LinuxErrno>(e) && final(table).model() == old(table).model() && final(resolved_out)@ == old(resolved_out)@,
            Ok(norm) => {
                &&& super::path::holds_prefix(
                    final(resolved_out)@,
                    old(resolved_out)@,
                    norm,
                    norm.len() as int,
                )
                &&& final(table).model() == executable_at(old(table).model(), tmp, image, norm).0
                &&& match executable_at(old(table).model(), tmp, image, norm).1 {
                    Ok(bytes) => r is Ok && r->Ok_0.image@ == bytes && r->Ok_0.resolved_path_len
                        == norm.len(),
                    Err(e) => r == Err::<ExecutableRef<'a>, LinuxErrno>(e),
                }
            },
        },
{
    let len: usize = match normalize_path(path, resolved_out) {
        Ok(len) => len,
        Err(e) => return Err(e),
    };
    match resolve_executable_bytes(table, tmp, image, prefix_of(resolved_out, len)) {
        Ok(bytes) => Ok(ExecutableRef { image: bytes, resolved_path_len: len }),
        Err(e) => Err(e),
    }
}

} // verus!
