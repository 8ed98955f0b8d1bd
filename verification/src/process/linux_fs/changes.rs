//! What holds across changes of the namespace.

use super::image::Image;
use super::lookups::{
    finds_link, law_found_path, law_lookup_follows_last, law_lookup_is_stable, lemma_link_step,
    lemma_plain_rest, lemma_split_joined,
};
use super::namespace::{
    child_from, child_path, descended, evicted, executable_at, extends, free_from, id_at, last_name,
    lemma_child_from, lemma_free_from, lemma_name_start, looked_up, made_dir, name_start, node_path,
    open_created, open_stored, open_target, parent_of, placed, slot_kept, split_first, strip_slash,
    tmp_dir, tmp_prefix, valid_id, walked, NodeBackend, NodeId, NodeKind, NodeModel, NodeTable,
    OpenTarget, TableModel, LINUX_FS_MAX_LINK_DEPTH, LINUX_FS_MAX_NODES, PATH_LEVELS,
};
use super::object_backend::{TmpStore, LINUX_TMP_MAX_ENTRIES};
use super::path::{
    absolute, components, join, law_normal_form, lemma_absolute_components,
    lemma_absolute_is_normal, lemma_join_front, normalized, plain_stack, LINUX_PATH_MAX, SLASH,
};
use super::tree::{
    law_evict_keeps, law_lookup_keeps, law_open_create_keeps, lemma_child_unique,
    lemma_first_component, lemma_open_target, lemma_placed_kept, objects_held, rooted,
};
use crate::abi::{LinuxErrno, EACCES, EEXIST, ENFILE, ENOENT};
use crate::scan::has_prefix;
use vstd::prelude::*;

verus! {

/// The last name and the directory of a normal path.
proof fn lemma_split_normal(path: Seq<u8>)
    requires
        normalized(path) is Ok,
        normalized(path)->Ok_0 != seq![SLASH],
    ensures
        ({
            let norm = normalized(path)->Ok_0;
            let comps = components(norm);
            let dir = absolute(comps.drop_last());
            &&& comps.len() > 0
            &&& plain_stack(comps)
            &&& norm == join(comps)
            &&& last_name(norm) == Ok::<Seq<u8>, LinuxErrno>(comps.last())
            &&& parent_of(norm) == Ok::<Seq<u8>, LinuxErrno>(dir)
            &&& normalized(dir) == Ok::<Seq<u8>, LinuxErrno>(dir)
            &&& components(dir) == comps.drop_last()
        }),
{
    law_normal_form(path);
    let norm = normalized(path)->Ok_0;
    let comps = components(norm);
    let init = comps.drop_last();
    let name = comps.last();
    assert(comps.len() > 0);
    lemma_plain_rest(comps);
    let base = join(init);
    assert(norm == base + seq![SLASH] + name);
    assert(norm.last() == name.last());
    lemma_name_start(norm);
    let at = base.len() as int + 1;
    assert(norm[at - 1] == SLASH);
    if name_start(norm) < at {
        assert(norm[at - 1] != SLASH);
    } else if name_start(norm) > at {
        assert(norm[name_start(norm) - 1] == name[name_start(norm) - 1 - at]);
    }
    assert(norm.skip(at) =~= name);
    assert(norm.take(at - 1) =~= base);
    if init.len() > 0 {
        lemma_join_front(init);
        assert(base.len() > 0);
    }
    lemma_absolute_components(init);
    assert forall|i: int| 0 <= i < absolute(init).len() implies absolute(init)[i] != 0 by {
        if init.len() > 0 {
            assert(norm[i] == base[i]);
        }
    }
    lemma_absolute_is_normal(init);
}

/// Walking one name further: a step from where the walk without following ended.
proof fn lemma_walk_on(
    m: TableModel,
    tmp: &TmpStore,
    image: &Image,
    current: NodeId,
    comps: Seq<Seq<u8>>,
)
    requires
        comps.len() > 0,
        plain_stack(comps),
        ({
            let init = strip_slash(join(comps.drop_last()));
            let (m1, found) = walked(m, tmp, image, current, init, false, 0);
            found matches Ok(id) ==> m1.nodes[id.index as int].kind == NodeKind::Dir
        }),
    ensures
        ({
            let init = strip_slash(join(comps.drop_last()));
            let (m1, found) = walked(m, tmp, image, current, init, false, 0);
            walked(m, tmp, image, current, strip_slash(join(comps)), false, 0) == match found {
                Err(e) => (m1, Err::<NodeId, LinuxErrno>(e)),
                Ok(id) => descended(m1, tmp, image, id, comps.last()),
            }
        }),
    decreases comps.len(),
{
    let init = comps.drop_last();
    lemma_split_joined(comps);
    lemma_plain_rest(comps);
    if init.len() == 0 {
        assert(join(init) =~= Seq::<u8>::empty());
        assert(strip_slash(join(init)).len() == 0);
        assert(comps[0] == comps.last());
    } else {
        lemma_split_joined(init);
        let rest = comps.drop_first();
        assert(init.drop_first() =~= rest.drop_last());
        let (m1, r) = descended(m, tmp, image, current, comps[0]);
        if let Ok(next) = r {
            if m1.nodes[next.index as int].kind == NodeKind::Dir {
                if init.len() == 1 {
                    assert(rest.drop_last() =~= Seq::<Seq<u8>>::empty());
                    assert(strip_slash(join(rest.drop_last())).len() == 0);
                }
                lemma_first_component(strip_slash(join(init)));
                lemma_first_component(strip_slash(join(comps)));
                lemma_walk_on(m1, tmp, image, next, rest);
            }
        }
    }
}

/// Looking a path up without following: a step from its directory.
proof fn lemma_lookup_on(m: TableModel, tmp: &TmpStore, image: &Image, path: Seq<u8>)
    requires
        rooted(m),
        normalized(path) is Ok,
        normalized(path)->Ok_0 != seq![SLASH],
        ({
            let dir = parent_of(normalized(path)->Ok_0)->Ok_0;
            let (m1, found) = looked_up(m, tmp, image, dir, false);
            found matches Ok(id) ==> m1.nodes[id.index as int].kind == NodeKind::Dir
        }),
    ensures
        ({
            let norm = normalized(path)->Ok_0;
            let (m1, found) = looked_up(m, tmp, image, parent_of(norm)->Ok_0, false);
            looked_up(m, tmp, image, path, false) == match found {
                Err(e) => (m1, Err::<NodeId, LinuxErrno>(e)),
                Ok(id) => descended(m1, tmp, image, id, last_name(norm)->Ok_0),
            }
        }),
{
    lemma_split_normal(path);
    let norm = normalized(path)->Ok_0;
    let comps = components(norm);
    let init = comps.drop_last();
    let dir = absolute(init);
    let root = id_at(m, m.root as int);
    if init.len() == 0 {
        assert(join(init) =~= Seq::<u8>::empty());
        assert(strip_slash(join(init)).len() == 0);
        assert(dir == seq![SLASH]);
    } else {
        lemma_plain_rest(comps);
        lemma_split_joined(init);
        assert(dir != seq![SLASH]) by {
            if dir == seq![SLASH] {
                assert(strip_slash(dir).len() == 0);
            }
        }
    }
    lemma_walk_on(m, tmp, image, root, comps);
}

/// A directory that was made lies below `/tmp`. It cannot be made again, and trying to adds nothing.
/// Unless its parent was reached through a link, looking it up finds it, as a directory, and adds
/// nothing.
pub proof fn law_mkdir_makes(m: TableModel, tmp: &TmpStore, image: &Image, path: Seq<u8>)
    requires
        rooted(m),
        made_dir(m, tmp, image, path).1 is Ok,
    ensures
        has_prefix(normalized(path)->Ok_0, tmp_prefix()),
        made_dir(made_dir(m, tmp, image, path).0, tmp, image, path) == (
            made_dir(m, tmp, image, path).0,
            Err::<(), LinuxErrno>(EEXIST),
        ),
        ({
            let after = made_dir(m, tmp, image, path).0;
            let (m1, dir) = looked_up(
                m,
                tmp,
                image,
                parent_of(normalized(path)->Ok_0)->Ok_0,
                false,
            );
            dir is Ok && m1.nodes[dir->Ok_0.index as int].kind != NodeKind::Link ==> {
                let (seen, found) = looked_up(after, tmp, image, path, false);
                &&& seen == after
                &&& found is Ok
                &&& valid_id(after, found->Ok_0)
                &&& after.nodes[found->Ok_0.index as int].kind == NodeKind::Dir
            }
        }),
{
    let norm = normalized(path)->Ok_0;
    let name = last_name(norm)->Ok_0;
    let dir = parent_of(norm)->Ok_0;
    let (m1, found) = looked_up(m, tmp, image, dir, true);
    let parent = found->Ok_0;
    let after = made_dir(m, tmp, image, path).0;
    lemma_split_normal(path);
    law_lookup_keeps(m, tmp, image, dir, true);
    lemma_placed_kept(m1, parent.index, name, NodeKind::Dir, NodeBackend::TmpDir);
    let id = placed(m1, parent.index, name, NodeKind::Dir, NodeBackend::TmpDir).1->Ok_0;
    law_lookup_is_stable(m, tmp, image, dir, true, after, tmp, dir);
    assert(after.nodes[parent.index as int] == m1.nodes[parent.index as int]);
    lemma_child_unique(after, parent.index, name, id.index as int, 0);
    law_lookup_follows_last(m, tmp, image, dir);
    let (plain, straight) = looked_up(m, tmp, image, dir, false);
    if straight is Ok && plain.nodes[straight->Ok_0.index as int].kind != NodeKind::Link {
        assert(looked_up(m, tmp, image, dir, false) == (m1, found));
        law_lookup_is_stable(m, tmp, image, dir, false, after, tmp, dir);
        lemma_lookup_on(after, tmp, image, path);
    }
}

/// A file that was opened is a file, and opening it again, emptied or not, gives the same node, so
/// the same object, and adds nothing.
pub proof fn law_open_again(
    m: TableModel,
    tmp: &TmpStore,
    image: &Image,
    path: Seq<u8>,
    truncate: bool,
    after: &TmpStore,
    again: bool,
)
    requires
        rooted(m),
        tmp.wf(),
        objects_held(m, tmp),
        open_created(m, tmp, image, path, truncate).1 is Ok,
        open_stored(m, tmp, image, path, truncate, after),
    ensures
        ({
            let (m1, opened) = open_created(m, tmp, image, path, truncate);
            let id = opened->Ok_0;
            &&& id.index < LINUX_FS_MAX_NODES
            &&& valid_id(m1, id)
            &&& m1.nodes[id.index as int].kind == NodeKind::File
            &&& open_created(m1, after, image, path, again) == (m1, opened)
        }),
{
    let norm = normalized(path)->Ok_0;
    let name = last_name(norm)->Ok_0;
    let dir = parent_of(norm)->Ok_0;
    let (m1, opened) = open_created(m, tmp, image, path, truncate);
    let (m0, found) = looked_up(m, tmp, image, dir, true);
    let parent = found->Ok_0;
    let id = opened->Ok_0;
    law_lookup_keeps(m, tmp, image, dir, true);
    law_open_create_keeps(m, tmp, image, path, truncate, after);
    lemma_open_target(m, tmp, image, path);
    lemma_child_from(m0.nodes, parent.index, name, 0);
    if let Ok(OpenTarget::Fresh { parent: p, name: n, norm: f }) = open_target(
        m,
        tmp,
        image,
        path,
    ).1 {
        let backend = NodeBackend::Object { object_id: tmp.create_result(norm)->Ok_0 };
        lemma_placed_kept(m0, parent.index, name, NodeKind::File, backend);
    }
    law_lookup_is_stable(m, tmp, image, dir, true, m1, after, dir);
    assert(m1.nodes[id.index as int].live);
    lemma_child_unique(m1, parent.index, name, id.index as int, 0);
}

/// A table whose slots are all taken has no free one.
proof fn lemma_full(m: TableModel)
    requires
        rooted(m),
        m.live_count == LINUX_FS_MAX_NODES,
    ensures
        free_from(m.nodes, 1) is None,
        forall|i: int| 0 <= i < m.nodes.len() ==> (#[trigger] m.nodes[i]).live,
{
    let live = |n: NodeModel| n.live;
    crate::scan::lemma_count_full(m.nodes, live);
    assert forall|i: int| 0 <= i < m.nodes.len() implies (#[trigger] m.nodes[i]).live by {
        assert(live(m.nodes[i]));
    }
    lemma_free_from(m.nodes, 1);
}

proof fn lemma_walk_in_full(
    m: TableModel,
    tmp: &TmpStore,
    image: &Image,
    current: NodeId,
    rest: Seq<u8>,
    follow: bool,
    depth: nat,
)
    requires
        free_from(m.nodes, 1) is None,
    ensures
        walked(m, tmp, image, current, rest, follow, depth).0 == m,
    decreases
            (if depth <= LINUX_FS_MAX_LINK_DEPTH {
                LINUX_FS_MAX_LINK_DEPTH + 1 - depth
            } else {
                0
            }),
            rest.len(),
{
    if rest.len() > 0 {
        let (name, tail) = split_first(rest);
        let (m1, r) = descended(m, tmp, image, current, name);
        lemma_first_component(rest);
        assert(m1 == m);
        if let Ok(next) = r {
            if tail.len() > 0 {
                lemma_walk_in_full(m, tmp, image, next, tail, follow, depth);
            } else if depth < LINUX_FS_MAX_LINK_DEPTH {
                if let Ok(path) = node_path(m, next.index) {
                    if let Some(k) = image.find(path) {
                        let target = strip_slash(image.entries@[k].data@);
                        let root = id_at(m, m.root as int);
                        lemma_walk_in_full(m, tmp, image, root, target, true, depth + 1);
                    }
                }
            }
        }
    }
}

/// The call of `mkdir` reaches the table: the path is below `/tmp`, its directory is found, the name
/// is new there, and the directory has room.
pub open spec fn dir_ready(
    m: TableModel,
    tmp: &TmpStore,
    image: &Image,
    path: Seq<u8>,
    dir: NodeId,
) -> bool {
    let norm = normalized(path)->Ok_0;
    &&& normalized(path) is Ok
    &&& has_prefix(norm, tmp_prefix())
    &&& looked_up(m, tmp, image, parent_of(norm)->Ok_0, true) == (
        m,
        Ok::<NodeId, LinuxErrno>(dir),
    )
    &&& m.nodes[dir.index as int].kind == NodeKind::Dir
    &&& child_from(m.nodes, dir.index, last_name(norm)->Ok_0, 0) is None
    &&& NodeTable::children_counted(m.nodes, dir.index) < LINUX_TMP_MAX_ENTRIES
}

/// A full table finds what it holds and adds nothing, whatever is looked up; a directory that would
/// otherwise be made is refused with `ENFILE`, and nothing changes.
pub proof fn law_full_table_refuses(
    m: TableModel,
    tmp: &TmpStore,
    image: &Image,
    path: Seq<u8>,
    dir: NodeId,
)
    requires
        rooted(m),
        m.live_count == LINUX_FS_MAX_NODES,
    ensures
        forall|p: Seq<u8>, follow: bool| (#[trigger] looked_up(m, tmp, image, p, follow)).0 == m,
        dir_ready(m, tmp, image, path, dir) ==> made_dir(m, tmp, image, path) == (
            m,
            Err::<(), LinuxErrno>(ENFILE),
        ),
{
    lemma_full(m);
    assert forall|p: Seq<u8>, follow: bool|
        (#[trigger] looked_up(m, tmp, image, p, follow)).0 == m by {
        if let Ok(norm) = normalized(p) {
            let root = id_at(m, m.root as int);
            lemma_walk_in_full(m, tmp, image, root, strip_slash(norm), follow, 0);
        }
    }
    if dir_ready(m, tmp, image, path, dir) {
        lemma_below_tmp(path);
        lemma_split_normal(path);
    }
}

/// A path below `/tmp` is neither the root nor `/tmp`.
proof fn lemma_below_tmp(path: Seq<u8>)
    requires
        normalized(path) is Ok,
        has_prefix(normalized(path)->Ok_0, tmp_prefix()),
    ensures
        normalized(path)->Ok_0 != seq![SLASH],
        normalized(path)->Ok_0 != tmp_dir(),
{
    let norm = normalized(path)->Ok_0;
    assert(norm.len() >= 5);
    assert(seq![SLASH].len() == 1);
    assert(tmp_dir().len() == 4);
}

/// A walk through a full table goes the same way once a node without children, at which it does not
/// end, was evicted.
proof fn lemma_walk_without(
    m: TableModel,
    tmp: &TmpStore,
    image: &Image,
    current: NodeId,
    comps: Seq<Seq<u8>>,
    gone: NodeId,
)
    requires
        rooted(m),
        m.live_count == LINUX_FS_MAX_NODES,
        gone.index < LINUX_FS_MAX_NODES,
        valid_id(m, gone),
        gone.index != m.root,
        forall|i: int| 0 <= i < m.nodes.len() ==> (#[trigger] m.nodes[i]).parent != gone.index,
        current.index < LINUX_FS_MAX_NODES,
        current.index != gone.index,
        plain_stack(comps),
        ({
            let found = walked(m, tmp, image, current, strip_slash(join(comps)), false, 0).1;
            found is Ok && found->Ok_0.index != gone.index
        }),
    ensures
        walked(
            evicted(m, gone).0,
            tmp,
            image,
            current,
            strip_slash(join(comps)),
            false,
            0,
        ) == (
            evicted(m, gone).0,
            walked(m, tmp, image, current, strip_slash(join(comps)), false, 0).1,
        ),
    decreases comps.len(),
{
    if comps.len() == 0 {
        assert(strip_slash(join(comps)).len() == 0);
    } else {
        let after = evicted(m, gone).0;
        let name = comps[0];
        let rest = comps.drop_first();
        lemma_full(m);
        lemma_split_joined(comps);
        lemma_plain_rest(comps);
        lemma_first_component(strip_slash(join(comps)));
        lemma_child_from(m.nodes, current.index, name, 0);
        law_evict_keeps(m, tmp, gone);
        let (m1, r) = descended(m, tmp, image, current, name);
        let next = r->Ok_0;
        assert(m1 == m);
        assert(child_from(m.nodes, current.index, name, 0) is Some);
        let i = child_from(m.nodes, current.index, name, 0)->0;
        assert(next == id_at(m, i));
        if rest.len() > 0 {
            lemma_split_joined(rest);
            lemma_first_component(strip_slash(join(rest)));
            lemma_child_from(m.nodes, next.index, rest[0], 0);
            let on = walked(m, tmp, image, next, strip_slash(join(rest)), false, 0);
            assert(on.1 is Ok);
            let (m2, r2) = descended(m, tmp, image, next, rest[0]);
            assert(r2 is Ok);
            assert(child_from(m.nodes, next.index, rest[0], 0) is Some);
            assert(m.nodes[child_from(m.nodes, next.index, rest[0], 0)->0].parent == next.index);
        }
        assert(next.index != gone.index);
        assert(after.nodes[i] == m.nodes[i]);
        assert(after.nodes[current.index as int] == m.nodes[current.index as int]);
        lemma_child_unique(after, current.index, name, i, 0);
        assert(descended(after, tmp, image, current, name) == (
            after,
            Ok::<NodeId, LinuxErrno>(next),
        ));
        if rest.len() > 0 {
            lemma_walk_without(m, tmp, image, next, rest, gone);
        }
    }
}

/// Once a node without children, other than the root and the directory that is to hold the new one,
/// was evicted from a full table, the directory that was refused is made. It takes the freed slot, the
/// table is full again, and the evicted id does not name it.
pub proof fn law_evicted_slot_is_reused(
    m: TableModel,
    tmp: &TmpStore,
    image: &Image,
    path: Seq<u8>,
    dir: NodeId,
    gone: NodeId,
)
    requires
        rooted(m),
        m.live_count == LINUX_FS_MAX_NODES,
        dir_ready(m, tmp, image, path, dir),
        looked_up(m, tmp, image, parent_of(normalized(path)->Ok_0)->Ok_0, false).1 == Ok::<
            NodeId,
            LinuxErrno,
        >(dir),
        gone.index < LINUX_FS_MAX_NODES,
        valid_id(m, gone),
        gone.index != m.root,
        gone.index != dir.index,
        forall|i: int| 0 <= i < m.nodes.len() ==> (#[trigger] m.nodes[i]).parent != gone.index,
    ensures
        made_dir(m, tmp, image, path) == (m, Err::<(), LinuxErrno>(ENFILE)),
        evicted(m, gone).1 is Ok,
        evicted(m, gone).0.live_count == LINUX_FS_MAX_NODES - 1,
        ({
            let (after, made) = made_dir(evicted(m, gone).0, tmp, image, path);
            let n = after.nodes[gone.index as int];
            &&& made is Ok
            &&& after.live_count == LINUX_FS_MAX_NODES
            &&& n.live && n.kind == NodeKind::Dir && n.parent == dir.index && n.name
                == last_name(normalized(path)->Ok_0)->Ok_0
            &&& !valid_id(after, gone)
        }),
{
    let without = evicted(m, gone).0;
    let norm = normalized(path)->Ok_0;
    let comps = components(norm);
    let name = last_name(norm)->Ok_0;
    let parent_path = parent_of(norm)->Ok_0;
    law_full_table_refuses(m, tmp, image, path, dir);
    law_lookup_keeps(m, tmp, image, parent_path, true);
    law_evict_keeps(m, tmp, gone);
    assert(without.nodes[dir.index as int] == m.nodes[dir.index as int]);
    lemma_below_tmp(path);
    lemma_split_normal(path);
    lemma_plain_rest(comps);
    lemma_full(m);
    let init = comps.drop_last();
    let root = id_at(m, m.root as int);
    if init.len() > 0 {
        lemma_split_joined(init);
        assert(parent_path != seq![SLASH]) by {
            if parent_path == seq![SLASH] {
                assert(strip_slash(parent_path).len() == 0);
            }
        }
        lemma_walk_without(m, tmp, image, root, init, gone);
    }
    assert(looked_up(without, tmp, image, parent_path, false) == (
        without,
        Ok::<NodeId, LinuxErrno>(dir),
    ));
    law_lookup_follows_last(without, tmp, image, parent_path);
    lemma_child_from(m.nodes, dir.index, name, 0);
    lemma_child_from(without.nodes, dir.index, name, 0);
    if let Some(i) = child_from(without.nodes, dir.index, name, 0) {
        assert(without.nodes[i] == m.nodes[i]);
    }
    crate::scan::lemma_count_update(
        m.nodes,
        |n: NodeModel| n.live && n.parent == dir.index,
        gone.index as int,
        without.nodes[gone.index as int],
    );
    lemma_free_from(without.nodes, 1);
    if let Some(i) = free_from(without.nodes, 1) {
        assert(i != gone.index ==> without.nodes[i] == m.nodes[i]);
    } else {
        assert(!without.nodes[gone.index as int].live);
    }
    assert(free_from(without.nodes, 1) == Some(gone.index as int));
    assert(NodeTable::children_counted(without.nodes, dir.index) < LINUX_TMP_MAX_ENTRIES);
}

/// An id that was evicted stays invalid while nodes are added, also when its slot is taken again.
pub proof fn law_evicted_id_stays_invalid(m: TableModel, id: NodeId, later: TableModel)
    requires
        rooted(m),
        id.index < LINUX_FS_MAX_NODES,
        valid_id(m, id),
        id.index != m.root,
        extends(evicted(m, id).0, later),
    ensures
        !valid_id(later, id),
{
    let without = evicted(m, id).0;
    assert(slot_kept(without.nodes[id.index as int], later.nodes[id.index as int]));
}

/// A path whose directory holds nothing of its name, neither in the table nor as a `/tmp` file nor in
/// the image, is not found, and nothing can be executed there.
pub proof fn law_missing_is_not_found(
    m: TableModel,
    tmp: &TmpStore,
    image: &Image,
    path: Seq<u8>,
    follow: bool,
)
    requires
        rooted(m),
        normalized(path) is Ok,
        normalized(path)->Ok_0 != seq![SLASH],
        (normalized(path)->Ok_0).len() < LINUX_PATH_MAX,
        components(normalized(path)->Ok_0).len() <= PATH_LEVELS,
        tmp.find_path(normalized(path)->Ok_0) is None,
        image.find(normalized(path)->Ok_0) is None,
        ({
            let norm = normalized(path)->Ok_0;
            let (m1, dir) = looked_up(m, tmp, image, parent_of(norm)->Ok_0, false);
            &&& dir is Ok
            &&& m1.nodes[dir->Ok_0.index as int].kind == NodeKind::Dir
            &&& child_from(m1.nodes, dir->Ok_0.index, last_name(norm)->Ok_0, 0) is None
        }),
    ensures
        looked_up(m, tmp, image, path, follow).1 == Err::<NodeId, LinuxErrno>(ENOENT),
        executable_at(m, tmp, image, path).1 == Err::<Seq<u8>, LinuxErrno>(ENOENT),
{
    let norm = normalized(path)->Ok_0;
    let comps = components(norm);
    let init = comps.drop_last();
    let dir_path = parent_of(norm)->Ok_0;
    let (m1, dir) = looked_up(m, tmp, image, dir_path, false);
    lemma_split_normal(path);
    lemma_lookup_on(m, tmp, image, path);
    law_lookup_follows_last(m, tmp, image, path);
    law_lookup_keeps(m, tmp, image, dir_path, false);
    law_found_path(m, tmp, image, dir_path);
    lemma_plain_rest(comps);
    if init.len() == 0 {
        assert(join(init) =~= Seq::<u8>::empty());
        assert(child_path(dir_path, comps.last()) =~= norm);
    } else {
        lemma_plain_rest(init);
        assert(dir_path.last() == init.last().last());
        assert(child_path(dir_path, comps.last()) =~= norm);
    }
}

/// What a path that is found cannot be executed as: a directory, and a file made in `/tmp`. A path
/// that is not found gives the error of looking it up.
pub proof fn law_what_is_not_executable(
    m: TableModel,
    tmp: &TmpStore,
    image: &Image,
    path: Seq<u8>,
)
    requires
        rooted(m),
    ensures
        ({
            let (m1, found) = looked_up(m, tmp, image, path, true);
            let bytes = executable_at(m, tmp, image, path).1;
            match found {
                Err(e) => bytes == Err::<Seq<u8>, LinuxErrno>(e),
                Ok(id) => m1.nodes[id.index as int].kind == NodeKind::Dir
                    || m1.nodes[id.index as int].backend is Object ==> bytes == Err::<
                    Seq<u8>,
                    LinuxErrno,
                >(EACCES),
            }
        }),
{
}

/// Looking `program` up without following finds a file of the image.
pub open spec fn finds_program(
    m: TableModel,
    tmp: &TmpStore,
    image: &Image,
    program: Seq<u8>,
) -> bool {
    let (after, found) = looked_up(m, tmp, image, program, false);
    &&& normalized(program) == Ok::<Seq<u8>, LinuxErrno>(program)
    &&& components(program).len() < PATH_LEVELS
    &&& found is Ok
    &&& after.nodes[found->Ok_0.index as int].kind == NodeKind::File
    &&& after.nodes[found->Ok_0.index as int].backend is Rootfs
    &&& image.find(program) is Some
}

/// A program gives its own bytes, and a link to it gives the program's.
pub proof fn law_link_gives_program(
    m: TableModel,
    tmp: &TmpStore,
    image: &Image,
    link: Seq<u8>,
    program: Seq<u8>,
)
    requires
        rooted(m),
        finds_link(m, tmp, image, link, program),
        finds_program(looked_up(m, tmp, image, link, false).0, tmp, image, program),
    ensures
        executable_at(m, tmp, image, link).1 == Ok::<Seq<u8>, LinuxErrno>(
            image.entries@[image.find(program)->0].data@,
        ),
        executable_at(
            looked_up(m, tmp, image, link, false).0,
            tmp,
            image,
            program,
        ).1 == Ok::<Seq<u8>, LinuxErrno>(image.entries@[image.find(program)->0].data@),
{
    let m1 = looked_up(m, tmp, image, link, false).0;
    law_lookup_keeps(m, tmp, image, link, false);
    law_lookup_follows_last(m, tmp, image, link);
    law_lookup_follows_last(m1, tmp, image, program);
    lemma_link_step(m, tmp, image, link, program, 0);
    law_found_path(m1, tmp, image, program);
}

/// All links to one program give the same bytes, whatever the tables that they are looked up in.
pub proof fn law_links_share_bytes(
    m: TableModel,
    tmp: &TmpStore,
    other: TableModel,
    store: &TmpStore,
    image: &Image,
    a: Seq<u8>,
    b: Seq<u8>,
    program: Seq<u8>,
)
    requires
        rooted(m),
        rooted(other),
        finds_link(m, tmp, image, a, program),
        finds_program(looked_up(m, tmp, image, a, false).0, tmp, image, program),
        finds_link(other, store, image, b, program),
        finds_program(looked_up(other, store, image, b, false).0, store, image, program),
    ensures
        executable_at(m, tmp, image, a).1 == executable_at(other, store, image, b).1,
        executable_at(m, tmp, image, a).1 is Ok,
{
    law_link_gives_program(m, tmp, image, a, program);
    law_link_gives_program(other, store, image, b, program);
}

} // verus!
