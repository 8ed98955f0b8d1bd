//! What every operation on the namespace keeps.

use super::image::Image;
use super::namespace::{
    child_from, child_path, descended, evicted, evicted_node, extends, filled, free_from, id_at,
    kind_of, last_name, lemma_child_from, lemma_descended, lemma_free_from, lemma_placed,
    lemma_slash_at, list_entries, listing, live_nodes, looked_up, made_dir, model_wf, node_path,
    open_created, open_stored, open_target, parent_of, placed, split_first, stat_of, strip_slash,
    valid_id, walked, NodeBackend, NodeId, NodeKind, NodeModel, NodeTable, OpenTarget, TableModel,
    LINUX_FS_MAX_LINK_DEPTH, LINUX_FS_MAX_NODES, NAME_MAX,
};
use super::object_backend::TmpStore;
use super::path::{normalized, SLASH};
use crate::abi::{LinuxErrno, EACCES, EBADF};
use vstd::prelude::*;

verus! {

/// The parent of a live node is live.
pub open spec fn parent_live(m: TableModel, i: int) -> bool {
    m.nodes[i].live ==> m.nodes[m.nodes[i].parent as int].live
}

/// Two live nodes differ in parent or name.
pub open spec fn names_differ(m: TableModel, i: int, j: int) -> bool {
    i != j && m.nodes[i].live && m.nodes[j].live ==> m.nodes[i].parent != m.nodes[j].parent
        || m.nodes[i].name != m.nodes[j].name
}

/// The root directory is in slot 0 and its own parent.
pub open spec fn root_in_place(m: TableModel) -> bool {
    &&& m.root == 0
    &&& m.nodes[0].live
    &&& m.nodes[0].kind == NodeKind::Dir
    &&& m.nodes[0].parent == 0
    &&& m.nodes[0].name == seq![SLASH]
}

/// A namespace in use: the root is in place, no other live node is its own parent, and no two live
/// nodes have the same parent and name. Every operation keeps this, eviction of a directory with
/// children among them.
pub open spec fn rooted(m: TableModel) -> bool {
    &&& model_wf(m)
    &&& root_in_place(m)
    &&& forall|i: int| 1 <= i < m.nodes.len() && (#[trigger] m.nodes[i]).live ==> m.nodes[i].parent != i
    &&& forall|i: int, j: int|
        0 <= i < m.nodes.len() && 0 <= j < m.nodes.len() ==> #[trigger] names_differ(m, i, j)
}

/// A namespace from which no directory with children was evicted: the live nodes form a tree.
pub open spec fn tree_wf(m: TableModel) -> bool {
    &&& rooted(m)
    &&& forall|i: int| 0 <= i < m.nodes.len() ==> #[trigger] parent_live(m, i)
}

/// Every live node of a `/tmp` file has its file.
pub open spec fn objects_held(m: TableModel, tmp: &TmpStore) -> bool {
    forall|i: int|
        0 <= i < m.nodes.len() && (#[trigger] m.nodes[i]).live && m.nodes[i].backend is Object
            ==> tmp.holds(m.nodes[i].backend->object_id)
}

/// The node at `i` is reached from the root through live nodes with these names.
pub open spec fn stands(m: TableModel, i: u16, names: Seq<Seq<u8>>) -> bool
    decreases names.len(),
{
    if names.len() == 0 {
        i == m.root
    } else {
        let n = m.nodes[i as int];
        &&& i < LINUX_FS_MAX_NODES
        &&& n.live
        &&& n.parent != i
        &&& n.name == names.last()
        &&& stands(m, n.parent, names.drop_last())
    }
}

/// A table just initialised is a tree with one node, its root, and holds no files.
pub proof fn law_initial_tree(m: TableModel, tmp: &TmpStore)
    requires
        model_wf(m),
        forall|i: int| 0 <= i < m.nodes.len() ==> !(#[trigger] m.nodes[i]).live,
    ensures
        tree_wf(NodeTable::with_root(m)),
        objects_held(NodeTable::with_root(m), tmp),
        NodeTable::with_root(m).live_count == 1,
{
    let after = NodeTable::with_root(m);
    let live = |n: NodeModel| n.live;
    crate::scan::lemma_count_zero(m.nodes, live);
    crate::scan::lemma_count_update(m.nodes, live, 0, after.nodes[0]);
    assert(after.nodes[0].live);
    assert forall|i: int| 0 <= i < after.nodes.len() implies #[trigger] parent_live(after, i) by {
        assert(i > 0 ==> after.nodes[i] == m.nodes[i]);
    }
    assert forall|i: int, j: int|
        0 <= i < after.nodes.len() && 0 <= j < after.nodes.len() implies #[trigger] names_differ(
        after,
        i,
        j,
    ) by {
        assert(i > 0 ==> after.nodes[i] == m.nodes[i]);
        assert(j > 0 ==> after.nodes[j] == m.nodes[j]);
    }
}

/// The count of live nodes is the number of slots that some id names, and the root is among them.
pub proof fn law_live_count(m: TableModel)
    requires
        rooted(m),
    ensures
        m.live_count == live_nodes(m.nodes),
        1 <= m.live_count <= LINUX_FS_MAX_NODES,
        forall|i: u16|
            i < LINUX_FS_MAX_NODES ==> ((#[trigger] m.nodes[i as int]).live <==> exists|g: u32|
                valid_id(m, (NodeId { index: i, generation: g }))),
{
    let live = |n: NodeModel| n.live;
    crate::scan::lemma_count_bound(m.nodes, live);
    crate::scan::lemma_count_zero(m.nodes, live);
    assert(live(m.nodes[0]));
    assert forall|i: u16| i < LINUX_FS_MAX_NODES implies ((#[trigger] m.nodes[i as int]).live
        <==> exists|g: u32| valid_id(m, (NodeId { index: i, generation: g }))) by {
        if m.nodes[i as int].live {
            assert(valid_id(
                m,
                (NodeId { index: i, generation: m.nodes[i as int].generation }),
            ));
        }
    }
}

pub proof fn lemma_placed_kept(
    m: TableModel,
    parent: u16,
    name: Seq<u8>,
    kind: NodeKind,
    backend: NodeBackend,
)
    requires
        rooted(m),
        parent < LINUX_FS_MAX_NODES,
        m.nodes[parent as int].live,
        child_from(m.nodes, parent, name, 0) is None,
    ensures
        rooted(placed(m, parent, name, kind, backend).0),
        extends(m, placed(m, parent, name, kind, backend).0),
        tree_wf(m) ==> tree_wf(placed(m, parent, name, kind, backend).0),
        placed(m, parent, name, kind, backend).1 matches Ok(id) ==> {
            let after = placed(m, parent, name, kind, backend).0;
            &&& 1 <= id.index < LINUX_FS_MAX_NODES
            &&& id.index != parent
            &&& valid_id(after, id)
            &&& after.nodes[id.index as int].parent == parent
            &&& after.nodes[id.index as int].name == name
            &&& after.nodes[id.index as int].kind == kind
            &&& after.nodes[id.index as int].backend == backend
        },
{
    lemma_placed(m, parent, name, kind, backend);
    lemma_free_from(m.nodes, 1);
    lemma_child_from(m.nodes, parent, name, 0);
    if free_from(m.nodes, 1) is Some && name.len() <= NAME_MAX {
        let i = free_from(m.nodes, 1)->0;
        let after = filled(m, i, parent, name, kind, backend);
        assert forall|a: int, b: int|
            0 <= a < after.nodes.len() && 0 <= b < after.nodes.len() implies #[trigger] names_differ(
            after,
            a,
            b,
        ) by {
            assert(names_differ(m, a, b));
        }
        if tree_wf(m) {
            assert forall|a: int| 0 <= a < after.nodes.len() implies #[trigger] parent_live(
                after,
                a,
            ) by {
                assert(parent_live(m, a));
            }
        }
    }
}

proof fn lemma_placed_held(
    m: TableModel,
    tmp: &TmpStore,
    parent: u16,
    name: Seq<u8>,
    kind: NodeKind,
    backend: NodeBackend,
)
    requires
        model_wf(m),
        objects_held(m, tmp),
        backend is Object ==> tmp.holds(backend->object_id),
    ensures
        objects_held(placed(m, parent, name, kind, backend).0, tmp),
{
    let after = placed(m, parent, name, kind, backend).0;
    lemma_free_from(m.nodes, 1);
    assert forall|i: int|
        0 <= i < after.nodes.len() && (#[trigger] after.nodes[i]).live && after.nodes[i].backend is Object implies tmp.holds(
        after.nodes[i].backend->object_id,
    ) by {
        if after.nodes[i] == m.nodes[i] {
            assert(m.nodes[i].live);
        }
    }
}

pub proof fn lemma_descended_kept(
    m: TableModel,
    tmp: &TmpStore,
    image: &Image,
    parent: NodeId,
    name: Seq<u8>,
)
    requires
        rooted(m),
        parent.index < LINUX_FS_MAX_NODES,
        name != seq![SLASH],
    ensures
        rooted(descended(m, tmp, image, parent, name).0),
        extends(m, descended(m, tmp, image, parent, name).0),
        tree_wf(m) ==> tree_wf(descended(m, tmp, image, parent, name).0),
        tmp.wf() && objects_held(m, tmp) ==> objects_held(
            descended(m, tmp, image, parent, name).0,
            tmp,
        ),
        descended(m, tmp, image, parent, name).1 matches Ok(id) ==> {
            let after = descended(m, tmp, image, parent, name).0;
            &&& 1 <= id.index < LINUX_FS_MAX_NODES
            &&& id.index != parent.index
            &&& id == id_at(after, id.index as int)
            &&& valid_id(after, id)
            &&& valid_id(m, parent)
            &&& m.nodes[parent.index as int].kind == NodeKind::Dir
            &&& after.nodes[id.index as int].parent == parent.index
            &&& after.nodes[id.index as int].name == name
        },
{
    lemma_descended(m, tmp, image, parent, name);
    lemma_child_from(m.nodes, parent.index, name, 0);
    if valid_id(m, parent) && m.nodes[parent.index as int].kind == NodeKind::Dir && child_from(
        m.nodes,
        parent.index,
        name,
        0,
    ) is None {
        if let Ok(parent_path) = node_path(m, parent.index) {
            let path = child_path(parent_path, name);
            match tmp.find_path(path) {
                Some(object_id) => {
                    lemma_placed_kept(
                        m,
                        parent.index,
                        name,
                        NodeKind::File,
                        NodeBackend::Object { object_id },
                    );
                    if tmp.wf() && objects_held(m, tmp) {
                        assert(tmp.holds(object_id));
                        lemma_placed_held(
                            m,
                            tmp,
                            parent.index,
                            name,
                            NodeKind::File,
                            NodeBackend::Object { object_id },
                        );
                    }
                },
                None => if let Some(k) = image.find(path) {
                    let kind = kind_of(image.entries@[k].kind);
                    let backend = NodeBackend::Rootfs { entry_index: k as u16 };
                    lemma_placed_kept(m, parent.index, name, kind, backend);
                    if objects_held(m, tmp) {
                        lemma_placed_held(m, tmp, parent.index, name, kind, backend);
                    }
                },
            }
        }
    }
}

/// Nodes that were added change no way from the root to a node.
pub proof fn lemma_stands_extends(a: TableModel, b: TableModel, i: u16, names: Seq<Seq<u8>>)
    requires
        a.nodes.len() == LINUX_FS_MAX_NODES,
        extends(a, b),
        stands(a, i, names),
    ensures
        stands(b, i, names),
    decreases names.len(),
{
    if names.len() > 0 {
        assert(b.nodes[i as int] == a.nodes[i as int]);
        lemma_stands_extends(a, b, a.nodes[i as int].parent, names.drop_last());
    }
}

pub proof fn lemma_extends_trans(a: TableModel, b: TableModel, c: TableModel)
    requires
        extends(a, b),
        extends(b, c),
    ensures
        extends(a, c),
{
}

/// The first component of a path holds no separator.
pub proof fn lemma_first_component(rest: Seq<u8>)
    requires
        rest.len() > 0,
    ensures
        split_first(rest).0 != seq![SLASH],
        split_first(rest).1.len() < rest.len(),
{
    lemma_slash_at(rest);
    let name = split_first(rest).0;
    if name == seq![SLASH] {
        assert(name.len() == 1);
        assert(name[0] == SLASH);
        assert(rest[0] != SLASH);
    }
}

/// What a walk keeps, and where it ends: at a live node that is reached from the root, and not at a
/// link where links are followed.
pub proof fn lemma_walked_kept(
    m: TableModel,
    tmp: &TmpStore,
    image: &Image,
    current: NodeId,
    rest: Seq<u8>,
    follow: bool,
    depth: nat,
    names: Seq<Seq<u8>>,
)
    requires
        rooted(m),
        current.index < LINUX_FS_MAX_NODES,
        valid_id(m, current),
        stands(m, current.index, names),
    ensures
        rooted(walked(m, tmp, image, current, rest, follow, depth).0),
        extends(m, walked(m, tmp, image, current, rest, follow, depth).0),
        tree_wf(m) ==> tree_wf(walked(m, tmp, image, current, rest, follow, depth).0),
        tmp.wf() && objects_held(m, tmp) ==> objects_held(
            walked(m, tmp, image, current, rest, follow, depth).0,
            tmp,
        ),
        walked(m, tmp, image, current, rest, follow, depth).1 matches Ok(id) ==> {
            let after = walked(m, tmp, image, current, rest, follow, depth).0;
            &&& id.index < LINUX_FS_MAX_NODES
            &&& valid_id(after, id)
            &&& exists|end: Seq<Seq<u8>>| stands(after, id.index, end)
            &&& follow && m.nodes[current.index as int].kind != NodeKind::Link
                ==> after.nodes[id.index as int].kind != NodeKind::Link
        },
    decreases
            (if depth <= LINUX_FS_MAX_LINK_DEPTH {
                LINUX_FS_MAX_LINK_DEPTH + 1 - depth
            } else {
                0
            }),
            rest.len(),
{
    if rest.len() > 0 {
        let (name, tail) = split_first(rest);
        let (m1, r) = descended(m, tmp, image, current, name);
        lemma_first_component(rest);
        lemma_descended_kept(m, tmp, image, current, name);
        if let Ok(next) = r {
            lemma_stands_extends(m, m1, current.index, names);
            assert(names.push(name).drop_last() =~= names);
            assert(stands(m1, next.index, names.push(name)));
            if tail.len() > 0 {
                if m1.nodes[next.index as int].kind == NodeKind::Dir {
                    lemma_walked_kept(
                        m1,
                        tmp,
                        image,
                        next,
                        tail,
                        follow,
                        depth,
                        names.push(name),
                    );
                    lemma_extends_trans(
                        m,
                        m1,
                        walked(m1, tmp, image, next, tail, follow, depth).0,
                    );
                }
            } else if follow && m1.nodes[next.index as int].kind == NodeKind::Link && depth
                < LINUX_FS_MAX_LINK_DEPTH {
                if let Ok(path) = node_path(m1, next.index) {
                    if let Some(k) = image.find(path) {
                        let target = strip_slash(image.entries@[k].data@);
                        let root = id_at(m1, m1.root as int);
                        lemma_walked_kept(m1, tmp, image, root, target, true, depth + 1, seq![]);
                        lemma_extends_trans(
                            m,
                            m1,
                            walked(m1, tmp, image, root, target, true, depth + 1).0,
                        );
                    }
                }
            }
        }
    }
}

/// Looking a path up keeps a namespace in use, keeps its live nodes a tree and its files held where
/// they were, and only adds nodes. The id that it gives is that of a live node that is reached from
/// the root, and never that of a link when links are followed.
pub proof fn law_lookup_keeps(
    m: TableModel,
    tmp: &TmpStore,
    image: &Image,
    path: Seq<u8>,
    follow: bool,
)
    requires
        rooted(m),
    ensures
        rooted(looked_up(m, tmp, image, path, follow).0),
        extends(m, looked_up(m, tmp, image, path, follow).0),
        tree_wf(m) ==> tree_wf(looked_up(m, tmp, image, path, follow).0),
        tmp.wf() && objects_held(m, tmp) ==> objects_held(
            looked_up(m, tmp, image, path, follow).0,
            tmp,
        ),
        looked_up(m, tmp, image, path, follow).1 matches Ok(id) ==> {
            let after = looked_up(m, tmp, image, path, follow).0;
            &&& id.index < LINUX_FS_MAX_NODES
            &&& valid_id(after, id)
            &&& exists|names: Seq<Seq<u8>>| stands(after, id.index, names)
            &&& follow ==> after.nodes[id.index as int].kind != NodeKind::Link
        },
{
    let root = id_at(m, m.root as int);
    assert(stands(m, root.index, seq![]));
    if let Ok(norm) = normalized(path) {
        lemma_walked_kept(m, tmp, image, root, strip_slash(norm), follow, 0, seq![]);
    }
}

/// Making a directory, whether or not it succeeds, keeps a namespace in use, keeps its live nodes a
/// tree and its files held where they were, and only adds nodes.
pub proof fn law_mkdir_keeps(m: TableModel, tmp: &TmpStore, image: &Image, path: Seq<u8>)
    requires
        rooted(m),
    ensures
        rooted(made_dir(m, tmp, image, path).0),
        extends(m, made_dir(m, tmp, image, path).0),
        tree_wf(m) ==> tree_wf(made_dir(m, tmp, image, path).0),
        tmp.wf() && objects_held(m, tmp) ==> objects_held(made_dir(m, tmp, image, path).0, tmp),
{
    if let Ok(norm) = normalized(path) {
        if let (Ok(name), Ok(parent_path)) = (last_name(norm), parent_of(norm)) {
            law_lookup_keeps(m, tmp, image, parent_path, true);
            let (m1, found) = looked_up(m, tmp, image, parent_path, true);
            if let Ok(parent) = found {
                if child_from(m1.nodes, parent.index, name, 0) is None {
                    lemma_placed_kept(m1, parent.index, name, NodeKind::Dir, NodeBackend::TmpDir);
                    lemma_extends_trans(
                        m,
                        m1,
                        placed(m1, parent.index, name, NodeKind::Dir, NodeBackend::TmpDir).0,
                    );
                    if objects_held(m1, tmp) {
                        lemma_placed_held(
                            m1,
                            tmp,
                            parent.index,
                            name,
                            NodeKind::Dir,
                            NodeBackend::TmpDir,
                        );
                    }
                }
            }
        }
    }
}

/// Finding where a file is to be opened only looks up its directory.
pub proof fn lemma_open_target(m: TableModel, tmp: &TmpStore, image: &Image, path: Seq<u8>)
    requires
        rooted(m),
    ensures
        rooted(open_target(m, tmp, image, path).0),
        extends(m, open_target(m, tmp, image, path).0),
        tree_wf(m) ==> tree_wf(open_target(m, tmp, image, path).0),
        tmp.wf() && objects_held(m, tmp) ==> objects_held(open_target(m, tmp, image, path).0, tmp),
        match open_target(m, tmp, image, path).1 {
            Ok(OpenTarget::Existing(i)) => {
                let m1 = open_target(m, tmp, image, path).0;
                0 <= i < LINUX_FS_MAX_NODES && m1.nodes[i].live && m1.nodes[i].kind
                    == NodeKind::File
            },
            Ok(OpenTarget::Fresh { parent, name, norm }) => {
                let m1 = open_target(m, tmp, image, path).0;
                parent < LINUX_FS_MAX_NODES && m1.nodes[parent as int].live && child_from(
                    m1.nodes,
                    parent,
                    name,
                    0,
                ) is None
            },
            Err(_) => true,
        },
{
    if let Ok(norm) = normalized(path) {
        if let (Ok(name), Ok(parent_path)) = (last_name(norm), parent_of(norm)) {
            law_lookup_keeps(m, tmp, image, parent_path, true);
            let (m1, found) = looked_up(m, tmp, image, parent_path, true);
            if let Ok(parent) = found {
                lemma_child_from(m1.nodes, parent.index, name, 0);
            }
        }
    }
}

/// Opening a file drops none, and the file that it makes is held.
proof fn lemma_open_holds(
    m: TableModel,
    tmp: &TmpStore,
    image: &Image,
    path: Seq<u8>,
    truncate: bool,
    after: &TmpStore,
)
    requires
        open_stored(m, tmp, image, path, truncate, after),
    ensures
        forall|object_id: u64| #[trigger] tmp.holds(object_id) ==> after.holds(object_id),
        open_target(m, tmp, image, path).1 matches Ok(OpenTarget::Fresh { parent, name, norm })
            ==> tmp.create_result(norm) matches Ok(object_id) ==> after.holds(object_id),
{
    let (m1, target) = open_target(m, tmp, image, path);
    assert forall|object_id: u64| #[trigger] tmp.holds(object_id) implies after.holds(
        object_id,
    ) by {}
}

/// Opening or creating a file keeps a namespace in use, keeps its live nodes a tree and its files
/// held where they were, and only adds nodes.
pub proof fn law_open_create_keeps(
    m: TableModel,
    tmp: &TmpStore,
    image: &Image,
    path: Seq<u8>,
    truncate: bool,
    after: &TmpStore,
)
    requires
        rooted(m),
        open_stored(m, tmp, image, path, truncate, after),
    ensures
        rooted(open_created(m, tmp, image, path, truncate).0),
        extends(m, open_created(m, tmp, image, path, truncate).0),
        tree_wf(m) ==> tree_wf(open_created(m, tmp, image, path, truncate).0),
        tmp.wf() && objects_held(m, tmp) ==> objects_held(
            open_created(m, tmp, image, path, truncate).0,
            after,
        ),
{
    lemma_open_target(m, tmp, image, path);
    let (m1, target) = open_target(m, tmp, image, path);
    lemma_open_holds(m, tmp, image, path, truncate, after);
    if tmp.wf() && objects_held(m, tmp) {
        assert(objects_held(m1, after));
    }
    if let Ok(OpenTarget::Fresh { parent, name, norm }) = target {
        if let Ok(object_id) = tmp.create_result(norm) {
            let backend = NodeBackend::Object { object_id };
            lemma_placed_kept(m1, parent, name, NodeKind::File, backend);
            lemma_extends_trans(m, m1, placed(m1, parent, name, NodeKind::File, backend).0);
            if tmp.wf() && objects_held(m, tmp) {
                lemma_placed_held(m1, after, parent, name, NodeKind::File, backend);
            }
        }
    }
}

proof fn lemma_list_entries_kept(
    m: TableModel,
    tmp: &TmpStore,
    image: &Image,
    kids: Seq<usize>,
    k: int,
    out: Seq<(NodeId, u8)>,
)
    requires
        rooted(m),
    ensures
        rooted(list_entries(m, tmp, image, kids, k, out).0),
        extends(m, list_entries(m, tmp, image, kids, k, out).0),
        tree_wf(m) ==> tree_wf(list_entries(m, tmp, image, kids, k, out).0),
        tmp.wf() && objects_held(m, tmp) ==> objects_held(
            list_entries(m, tmp, image, kids, k, out).0,
            tmp,
        ),
    decreases kids.len() - k,
{
    if 0 <= k < kids.len() {
        let path = image.entries@[kids[k] as int].path@;
        law_lookup_keeps(m, tmp, image, path, false);
        let (m1, found) = looked_up(m, tmp, image, path, false);
        if let Ok(id) = found {
            let more = out.push((id, super::namespace::dirent_code(m1.nodes[id.index as int].kind)));
            lemma_list_entries_kept(m1, tmp, image, kids, k + 1, more);
            lemma_extends_trans(m, m1, list_entries(m1, tmp, image, kids, k + 1, more).0);
        }
    }
}

/// Listing a directory keeps a namespace in use, keeps its live nodes a tree and its files held where
/// they were, and only adds nodes.
pub proof fn law_listing_keeps(m: TableModel, tmp: &TmpStore, image: &Image, dir: NodeId)
    requires
        rooted(m),
    ensures
        rooted(listing(m, tmp, image, dir).0),
        extends(m, listing(m, tmp, image, dir).0),
        tree_wf(m) ==> tree_wf(listing(m, tmp, image, dir).0),
        tmp.wf() && objects_held(m, tmp) ==> objects_held(listing(m, tmp, image, dir).0, tmp),
{
    if let Ok(path) = node_path(m, dir.index) {
        lemma_list_entries_kept(
            m,
            tmp,
            image,
            super::image::child_indices(image.entries@, path, 0),
            0,
            seq![],
        );
    }
}

/// Describing a node keeps a namespace in use, keeps its live nodes a tree and its files held where
/// they were, and only adds nodes.
pub proof fn law_stat_keeps(
    m: TableModel,
    tmp: &TmpStore,
    image: &Image,
    id: NodeId,
    for_lstat: bool,
)
    requires
        rooted(m),
    ensures
        rooted(stat_of(m, tmp, image, id, for_lstat).0),
        extends(m, stat_of(m, tmp, image, id, for_lstat).0),
        tree_wf(m) ==> tree_wf(stat_of(m, tmp, image, id, for_lstat).0),
        tmp.wf() && objects_held(m, tmp) ==> objects_held(
            stat_of(m, tmp, image, id, for_lstat).0,
            tmp,
        ),
{
    if let Ok(path) = node_path(m, id.index) {
        if let Some(k) = image.find(path) {
            law_lookup_keeps(m, tmp, image, image.entries@[k].data@, true);
        }
    }
}

/// Evicting a node keeps a namespace in use and its files held. The root is refused; any other live
/// node is dropped: one node fewer is live, its id is no longer valid, and every other valid id stays
/// valid.
pub proof fn law_evict_keeps(m: TableModel, tmp: &TmpStore, id: NodeId)
    requires
        rooted(m),
        id.index < LINUX_FS_MAX_NODES,
    ensures
        rooted(evicted(m, id).0),
        objects_held(m, tmp) ==> objects_held(evicted(m, id).0, tmp),
        valid_id(m, id) && id.index == m.root ==> evicted(m, id) == (
            m,
            Err::<(), LinuxErrno>(EACCES),
        ),
        !valid_id(m, id) ==> evicted(m, id) == (m, Err::<(), LinuxErrno>(EBADF)),
        valid_id(m, id) && id.index != m.root ==> {
            let after = evicted(m, id).0;
            &&& evicted(m, id).1 is Ok
            &&& after.live_count == m.live_count - 1
            &&& !valid_id(after, id)
            &&& forall|other: NodeId|
                other.index < LINUX_FS_MAX_NODES && other != id ==> valid_id(after, other)
                    == #[trigger] valid_id(m, other)
        },
{
    if valid_id(m, id) && id.index != m.root {
        let after = evicted(m, id).0;
        crate::scan::lemma_count_update(
            m.nodes,
            |n: NodeModel| n.live,
            id.index as int,
            evicted_node(m.nodes[id.index as int]),
        );
        assert forall|i: int, j: int|
            0 <= i < after.nodes.len() && 0 <= j < after.nodes.len() implies #[trigger] names_differ(
            after,
            i,
            j,
        ) by {
            assert(names_differ(m, i, j));
        }
    }
}

/// The only live child of that parent and name is the one that is found.
pub proof fn lemma_child_unique(m: TableModel, parent: u16, name: Seq<u8>, i: int, from: int)
    requires
        rooted(m),
        0 <= from <= i < m.nodes.len(),
        m.nodes[i].live,
        m.nodes[i].parent == parent,
        m.nodes[i].name == name,
    ensures
        child_from(m.nodes, parent, name, from) == Some(i),
    decreases i - from,
{
    if from < i {
        assert(names_differ(m, from, i));
        lemma_child_unique(m, parent, name, i, from + 1);
    }
}

} // verus!
