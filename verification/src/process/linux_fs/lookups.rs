//! What holds of looking paths up.

use super::image::Image;
use super::namespace::{
    assemble, descended, extends, id_at, lemma_slash_at, lineage, looked_up, node_path, padded,
    path_buffer, slash_at, split_first, strip_slash, until_nul, valid_id, walked, NodeId, NodeKind,
    TableModel, LINUX_FS_MAX_LINK_DEPTH, LINUX_FS_MAX_NODES, PATH_LEVELS,
};
use super::object_backend::TmpStore;
use super::path::{
    absolute, components, has_nul, join, law_normal_form, lemma_join_front, normalized,
    plain_component, plain_stack, LINUX_PATH_MAX, SLASH,
};
use super::tree::{
    law_lookup_keeps, lemma_child_unique, lemma_descended_kept, lemma_extends_trans,
    lemma_first_component, lemma_stands_extends, lemma_walked_kept, rooted, stands,
};
use crate::abi::{LinuxErrno, ELOOP, ENOENT};
use vstd::prelude::*;

verus! {

/// The node and its ancestors, up to `levels` of them, are live.
pub open spec fn line_live(m: TableModel, index: u16, levels: nat) -> bool {
    forall|k: int|
        0 <= k < lineage(m.nodes, index, levels).len() ==> (#[trigger] lineage(
            m.nodes,
            index,
            levels,
        )[k]) < LINUX_FS_MAX_NODES && m.nodes[lineage(m.nodes, index, levels)[k] as int].live
}

/// A node that is reached from the root has only live ancestors.
proof fn lemma_stands_line(m: TableModel, i: u16, names: Seq<Seq<u8>>, levels: nat)
    requires
        rooted(m),
        stands(m, i, names),
    ensures
        line_live(m, i, levels),
    decreases names.len(),
{
    let line = lineage(m.nodes, i, levels);
    if names.len() > 0 && levels > 0 {
        let parent = m.nodes[i as int].parent;
        let above = lineage(m.nodes, parent, (levels - 1) as nat);
        lemma_stands_line(m, parent, names.drop_last(), (levels - 1) as nat);
        assert forall|k: int| 0 <= k < line.len() implies (#[trigger] line[k]) < LINUX_FS_MAX_NODES
            && m.nodes[line[k] as int].live by {
            if k > 0 {
                assert(line[k] == above[k - 1]);
            }
        }
    }
}

proof fn lemma_line_stable(a: TableModel, b: TableModel, index: u16, levels: nat)
    requires
        a.nodes.len() == LINUX_FS_MAX_NODES,
        extends(a, b),
        line_live(a, index, levels),
    ensures
        lineage(a.nodes, index, levels) == lineage(b.nodes, index, levels),
    decreases levels,
{
    if levels > 0 {
        let line = lineage(a.nodes, index, levels);
        assert(line[0] == index);
        assert(a.nodes[index as int] == b.nodes[index as int]);
        let parent = a.nodes[index as int].parent;
        if parent != index {
            let above = lineage(a.nodes, parent, (levels - 1) as nat);
            assert forall|k: int| 0 <= k < above.len() implies (#[trigger] above[k])
                < LINUX_FS_MAX_NODES && a.nodes[above[k] as int].live by {
                assert(line[k + 1] == above[k]);
            }
            lemma_line_stable(a, b, parent, (levels - 1) as nat);
        }
    }
}

proof fn lemma_assemble_stable(a: TableModel, b: TableModel, line: Seq<u16>)
    requires
        extends(a, b),
        a.nodes.len() == LINUX_FS_MAX_NODES,
        forall|k: int|
            0 <= k < line.len() ==> (#[trigger] line[k]) < LINUX_FS_MAX_NODES
                && a.nodes[line[k] as int].live,
    ensures
        assemble(a.nodes, line) == assemble(b.nodes, line),
    decreases line.len(),
{
    if line.len() > 0 {
        let rest = line.drop_first();
        assert forall|k: int| 0 <= k < rest.len() implies (#[trigger] rest[k]) < LINUX_FS_MAX_NODES
            && a.nodes[rest[k] as int].live by {
            assert(rest[k] == line[k + 1]);
        }
        lemma_assemble_stable(a, b, rest);
        assert(a.nodes[line[0] as int].live);
        assert(a.nodes[line[0] as int] == b.nodes[line[0] as int]);
    }
}

/// Adding nodes changes no live node: its id stays valid, and its kind, name, parent and backend stay.
/// Its path stays too while the ancestors that it is assembled from are live. (A node left behind by
/// the eviction of its directory takes the path of whatever takes the directory's slot.)
pub proof fn law_paths_are_stable(a: TableModel, b: TableModel, id: NodeId)
    requires
        a.nodes.len() == LINUX_FS_MAX_NODES,
        extends(a, b),
        id.index < LINUX_FS_MAX_NODES,
        valid_id(a, id),
    ensures
        valid_id(b, id),
        b.nodes[id.index as int] == a.nodes[id.index as int],
        line_live(a, id.index, PATH_LEVELS as nat) ==> path_buffer(a, id.index) == path_buffer(
            b,
            id.index,
        ) && node_path(a, id.index) == node_path(b, id.index),
{
    if line_live(a, id.index, PATH_LEVELS as nat) {
        lemma_line_stable(a, b, id.index, PATH_LEVELS as nat);
        lemma_assemble_stable(a, b, lineage(a.nodes, id.index, PATH_LEVELS as nat));
    }
}

/// A walk that succeeded finds the same node again, whatever nodes and files were added since.
proof fn lemma_walked_stable(
    m: TableModel,
    tmp: &TmpStore,
    image: &Image,
    current: NodeId,
    rest: Seq<u8>,
    follow: bool,
    depth: nat,
    names: Seq<Seq<u8>>,
    later: TableModel,
    store: &TmpStore,
)
    requires
        rooted(m),
        current.index < LINUX_FS_MAX_NODES,
        valid_id(m, current),
        stands(m, current.index, names),
        walked(m, tmp, image, current, rest, follow, depth).1 is Ok,
        extends(walked(m, tmp, image, current, rest, follow, depth).0, later),
        rooted(later),
    ensures
        walked(later, store, image, current, rest, follow, depth) == (
            later,
            walked(m, tmp, image, current, rest, follow, depth).1,
        ),
    decreases
            (if depth <= LINUX_FS_MAX_LINK_DEPTH {
                LINUX_FS_MAX_LINK_DEPTH + 1 - depth
            } else {
                0
            }),
            rest.len(),
{
    if rest.len() > 0 {
        let (name, tail) = split_first(rest);
        let (m1, r) = descended(m, tmp, image, current, name);
        let end = walked(m, tmp, image, current, rest, follow, depth).0;
        lemma_first_component(rest);
        lemma_descended_kept(m, tmp, image, current, name);
        let next = r->Ok_0;
        let way = names.push(name);
        lemma_stands_extends(m, m1, current.index, names);
        assert(way.drop_last() =~= names);
        assert(stands(m1, next.index, way));
        let link = tail.len() == 0 && follow && m1.nodes[next.index as int].kind == NodeKind::Link;
        let root = id_at(m1, m1.root as int);
        if tail.len() > 0 {
            lemma_walked_kept(m1, tmp, image, next, tail, follow, depth, way);
        } else if link {
            let path = node_path(m1, next.index)->Ok_0;
            let k = image.find(path)->0;
            let target = strip_slash(image.entries@[k].data@);
            lemma_walked_kept(m1, tmp, image, root, target, true, depth + 1, seq![]);
        }
        assert(extends(m1, end));
        lemma_extends_trans(m1, end, later);
        lemma_extends_trans(m, m1, later);
        assert(later.nodes[next.index as int] == m1.nodes[next.index as int]);
        assert(later.nodes[current.index as int] == m.nodes[current.index as int]);
        lemma_child_unique(later, current.index, name, next.index as int, 0);
        assert(descended(later, store, image, current, name) == (
            later,
            Ok::<NodeId, LinuxErrno>(next),
        ));
        if tail.len() > 0 {
            lemma_walked_stable(m1, tmp, image, next, tail, follow, depth, way, later, store);
        } else if link {
            let path = node_path(m1, next.index)->Ok_0;
            let k = image.find(path)->0;
            let target = strip_slash(image.entries@[k].data@);
            lemma_stands_line(m1, next.index, way, PATH_LEVELS as nat);
            law_paths_are_stable(m1, later, next);
            assert(later.nodes[0] == m1.nodes[0]);
            lemma_walked_stable(
                m1,
                tmp,
                image,
                root,
                target,
                true,
                depth + 1,
                seq![],
                later,
                store,
            );
        }
    }
}

/// Once a path was found, looking up any path with the same normal form gives the same node and adds
/// nothing, whatever nodes and files were added in between; the node's id is valid.
pub proof fn law_lookup_is_stable(
    m: TableModel,
    tmp: &TmpStore,
    image: &Image,
    path: Seq<u8>,
    follow: bool,
    later: TableModel,
    store: &TmpStore,
    again: Seq<u8>,
)
    requires
        rooted(m),
        looked_up(m, tmp, image, path, follow).1 is Ok,
        rooted(later),
        extends(looked_up(m, tmp, image, path, follow).0, later),
        normalized(again) == normalized(path),
    ensures
        looked_up(later, store, image, again, follow) == (
            later,
            looked_up(m, tmp, image, path, follow).1,
        ),
        valid_id(later, looked_up(m, tmp, image, path, follow).1->Ok_0),
{
    let norm = normalized(path)->Ok_0;
    law_lookup_keeps(m, tmp, image, path, follow);
    let end = looked_up(m, tmp, image, path, follow).0;
    lemma_extends_trans(m, end, later);
    assert(later.nodes[0] == m.nodes[0]);
    law_paths_are_stable(end, later, looked_up(m, tmp, image, path, follow).1->Ok_0);
    if norm != seq![SLASH] {
        let root = id_at(m, m.root as int);
        assert(stands(m, root.index, seq![]));
        lemma_walked_stable(
            m,
            tmp,
            image,
            root,
            strip_slash(norm),
            follow,
            0,
            seq![],
            later,
            store,
        );
    }
}

/// The first of joined components is split off the rest.
pub proof fn lemma_split_joined(comps: Seq<Seq<u8>>)
    requires
        comps.len() > 0,
        plain_stack(comps),
    ensures
        split_first(strip_slash(join(comps))) == (
            comps[0],
            strip_slash(join(comps.drop_first())),
        ),
        strip_slash(join(comps)).len() > 0,
        strip_slash(join(comps.drop_first())).len() > 0 <==> comps.len() > 1,
{
    let rest = comps.drop_first();
    let first = comps[0];
    let s = strip_slash(join(comps));
    let above = join(rest);
    lemma_join_front(comps);
    assert(plain_component(comps[0]));
    assert(s =~= first + above);
    if rest.len() > 0 {
        lemma_join_front(rest);
        assert(plain_component(comps[1]));
        assert(rest[0] == comps[1]);
        assert(above[0] == SLASH);
    }
    lemma_slash_at(s);
    if slash_at(s) < first.len() {
        assert(s[slash_at(s)] == first[slash_at(s)]);
    } else if slash_at(s) > first.len() {
        assert(s[first.len() as int] == above[0]);
    }
    assert(s.take(first.len() as int) =~= first);
    if rest.len() > 0 {
        assert(s.skip(first.len() as int + 1) =~= strip_slash(above));
    } else {
        assert(s =~= first);
        assert(strip_slash(above) =~= Seq::<u8>::empty());
    }
}

pub proof fn lemma_plain_rest(comps: Seq<Seq<u8>>)
    requires
        comps.len() > 0,
        plain_stack(comps),
    ensures
        plain_stack(comps.drop_first()),
        plain_stack(comps.drop_last()),
        plain_component(comps.last()),
{
    let rest = comps.drop_first();
    assert forall|k: int| 0 <= k < rest.len() implies plain_component(#[trigger] rest[k]) by {
        assert(rest[k] == comps[k + 1]);
    }
    let init = comps.drop_last();
    assert forall|k: int| 0 <= k < init.len() implies plain_component(#[trigger] init[k]) by {
        assert(init[k] == comps[k]);
    }
    assert(plain_component(comps[comps.len() - 1]));
}

/// A walk that follows no link ends where its components lead.
proof fn lemma_walked_names(
    m: TableModel,
    tmp: &TmpStore,
    image: &Image,
    current: NodeId,
    comps: Seq<Seq<u8>>,
    depth: nat,
    names: Seq<Seq<u8>>,
)
    requires
        rooted(m),
        current.index < LINUX_FS_MAX_NODES,
        valid_id(m, current),
        stands(m, current.index, names),
        plain_stack(comps),
        walked(m, tmp, image, current, strip_slash(join(comps)), false, depth).1 is Ok,
    ensures
        ({
            let (end, r) = walked(
                m,
                tmp,
                image,
                current,
                strip_slash(join(comps)),
                false,
                depth,
            );
            stands(end, r->Ok_0.index, names + comps)
        }),
    decreases comps.len(),
{
    if comps.len() == 0 {
        assert(strip_slash(join(comps)).len() == 0);
        assert(names + comps =~= names);
    } else {
        lemma_split_joined(comps);
        lemma_plain_rest(comps);
        let name = comps[0];
        let rest = comps.drop_first();
        lemma_first_component(strip_slash(join(comps)));
        let (m1, r) = descended(m, tmp, image, current, name);
        lemma_descended_kept(m, tmp, image, current, name);
        let next = r->Ok_0;
        let way = names.push(name);
        lemma_stands_extends(m, m1, current.index, names);
        assert(way.drop_last() =~= names);
        assert(stands(m1, next.index, way));
        if rest.len() > 0 {
            lemma_walked_names(m1, tmp, image, next, rest, depth, way);
            assert(way + rest =~= names + comps);
        } else {
            assert(way =~= names + comps);
        }
    }
}

/// The names on the way from the root to a node join to its path.
proof fn lemma_stands_assembles(m: TableModel, i: u16, names: Seq<Seq<u8>>, levels: nat)
    requires
        rooted(m),
        stands(m, i, names),
        plain_stack(names),
        absolute(names).len() <= LINUX_PATH_MAX,
        levels > names.len(),
    ensures
        assemble(m.nodes, lineage(m.nodes, i, levels)) == Ok::<Seq<u8>, LinuxErrno>(
            absolute(names),
        ),
    decreases names.len(),
{
    let line = lineage(m.nodes, i, levels);
    if names.len() == 0 {
        assert(line =~= seq![0u16]);
        assert(line.drop_first() =~= Seq::<u16>::empty());
        assert(assemble(m.nodes, line.drop_first()) == Ok::<Seq<u8>, LinuxErrno>(seq![]));
    } else {
        let parent = m.nodes[i as int].parent;
        let above = names.drop_last();
        lemma_plain_rest(names);
        lemma_stands_assembles(m, parent, above, (levels - 1) as nat);
        assert(line.drop_first() =~= lineage(m.nodes, parent, (levels - 1) as nat));
        let base = absolute(above);
        let name = names.last();
        assert(name != seq![SLASH]) by {
            if name == seq![SLASH] {
                assert(name[0] == SLASH);
            }
        }
        if above.len() == 0 {
            assert(join(above) =~= Seq::<u8>::empty());
            assert(base + name =~= absolute(names));
        } else {
            assert(plain_component(above[above.len() - 1]));
            assert(base.last() == above.last().last());
            assert(base.push(SLASH) + name =~= absolute(names));
        }
    }
}

proof fn lemma_until_nul(path: Seq<u8>, zeros: nat)
    requires
        !has_nul(path),
    ensures
        until_nul(path + Seq::new(zeros, |i: int| 0u8)) == path,
    decreases path.len(),
{
    let s = path + Seq::new(zeros, |i: int| 0u8);
    if path.len() == 0 {
        assert(until_nul(s) =~= path);
    } else {
        let rest = path.drop_first();
        assert(path[0] != 0);
        assert forall|i: int| 0 <= i < rest.len() implies rest[i] != 0 by {
            assert(path[i + 1] != 0);
        }
        lemma_until_nul(rest, zeros);
        assert(s.drop_first() =~= rest + Seq::new(zeros, |i: int| 0u8));
        assert(seq![path[0]] + rest =~= path);
    }
}

/// The path of the node that a lookup without following finds is the normal form of the path looked
/// up, in a buffer that is otherwise zero. A path is assembled from a node, its ancestors and the
/// root, `PATH_LEVELS` in all, so this holds of paths with fewer components than that.
pub proof fn law_found_path(m: TableModel, tmp: &TmpStore, image: &Image, path: Seq<u8>)
    requires
        rooted(m),
        looked_up(m, tmp, image, path, false).1 is Ok,
        components(normalized(path)->Ok_0).len() < PATH_LEVELS,
    ensures
        ({
            let (after, found) = looked_up(m, tmp, image, path, false);
            let norm = normalized(path)->Ok_0;
            &&& path_buffer(after, found->Ok_0.index) == Ok::<Seq<u8>, LinuxErrno>(padded(norm))
            &&& node_path(after, found->Ok_0.index) == Ok::<Seq<u8>, LinuxErrno>(norm)
        }),
{
    let norm = normalized(path)->Ok_0;
    let comps = components(norm);
    let (after, found) = looked_up(m, tmp, image, path, false);
    law_normal_form(path);
    law_lookup_keeps(m, tmp, image, path, false);
    let root = id_at(m, m.root as int);
    assert(stands(m, root.index, seq![]));
    if comps.len() == 0 {
        assert(norm == seq![SLASH]);
        assert(comps =~= Seq::<Seq<u8>>::empty());
    } else {
        lemma_split_joined(comps);
        assert(norm != seq![SLASH]) by {
            if norm == seq![SLASH] {
                assert(strip_slash(norm).len() == 0);
            }
        }
        lemma_walked_names(m, tmp, image, root, comps, 0, seq![]);
        assert(Seq::<Seq<u8>>::empty() + comps =~= comps);
    }
    assert(stands(after, found->Ok_0.index, comps));
    lemma_stands_assembles(after, found->Ok_0.index, comps, PATH_LEVELS as nat);
    lemma_until_nul(norm, (LINUX_PATH_MAX - norm.len()) as nat);
}

/// Following a node: a link leads to its target, looked up with links followed unless
/// `LINUX_FS_MAX_LINK_DEPTH` of them were followed already; any other node leads to itself.
pub open spec fn link_followed(
    m: TableModel,
    tmp: &TmpStore,
    image: &Image,
    id: NodeId,
    depth: nat,
) -> (TableModel, Result<NodeId, LinuxErrno>) {
    if m.nodes[id.index as int].kind != NodeKind::Link {
        (m, Ok(id))
    } else if depth >= LINUX_FS_MAX_LINK_DEPTH {
        (m, Err(ELOOP))
    } else {
        match node_path(m, id.index) {
            Err(e) => (m, Err(e)),
            Ok(path) => match image.find(path) {
                None => (m, Err(ENOENT)),
                Some(k) => walked(
                    m,
                    tmp,
                    image,
                    id_at(m, m.root as int),
                    strip_slash(image.entries@[k].data@),
                    true,
                    depth + 1,
                ),
            },
        }
    }
}

proof fn lemma_follow(
    m: TableModel,
    tmp: &TmpStore,
    image: &Image,
    current: NodeId,
    rest: Seq<u8>,
    depth: nat,
)
    requires
        rest.len() > 0 || m.nodes[current.index as int].kind != NodeKind::Link,
    ensures
        walked(m, tmp, image, current, rest, true, depth) == ({
            let (m1, found) = walked(m, tmp, image, current, rest, false, depth);
            match found {
                Err(e) => (m1, Err::<NodeId, LinuxErrno>(e)),
                Ok(id) => link_followed(m1, tmp, image, id, depth),
            }
        }),
    decreases rest.len(),
{
    if rest.len() > 0 {
        let (name, tail) = split_first(rest);
        let (m1, r) = descended(m, tmp, image, current, name);
        lemma_first_component(rest);
        if let Ok(next) = r {
            if tail.len() > 0 && m1.nodes[next.index as int].kind == NodeKind::Dir {
                lemma_follow(m1, tmp, image, next, tail, depth);
            }
        }
    }
}

proof fn lemma_depth_unused(
    m: TableModel,
    tmp: &TmpStore,
    image: &Image,
    current: NodeId,
    rest: Seq<u8>,
    a: nat,
    b: nat,
)
    ensures
        walked(m, tmp, image, current, rest, false, a) == walked(
            m,
            tmp,
            image,
            current,
            rest,
            false,
            b,
        ),
    decreases rest.len(),
{
    if rest.len() > 0 {
        let (name, tail) = split_first(rest);
        let (m1, r) = descended(m, tmp, image, current, name);
        lemma_first_component(rest);
        if let Ok(next) = r {
            if tail.len() > 0 && m1.nodes[next.index as int].kind == NodeKind::Dir {
                lemma_depth_unused(m1, tmp, image, next, tail, a, b);
            }
        }
    }
}

/// Looking a path up with links followed is looking it up without, then following the node found. So
/// the two agree wherever the node found is no link.
pub proof fn law_lookup_follows_last(m: TableModel, tmp: &TmpStore, image: &Image, path: Seq<u8>)
    requires
        rooted(m),
    ensures
        looked_up(m, tmp, image, path, true) == ({
            let (m1, found) = looked_up(m, tmp, image, path, false);
            match found {
                Err(e) => (m1, Err::<NodeId, LinuxErrno>(e)),
                Ok(id) => link_followed(m1, tmp, image, id, 0),
            }
        }),
{
    if let Ok(norm) = normalized(path) {
        if norm != seq![SLASH] {
            lemma_follow(m, tmp, image, id_at(m, m.root as int), strip_slash(norm), 0);
        }
    }
}

/// A lookup that follows links never ends at a link.
pub proof fn law_followed_lookup_ends_at_no_link(
    m: TableModel,
    tmp: &TmpStore,
    image: &Image,
    path: Seq<u8>,
)
    requires
        rooted(m),
    ensures
        looked_up(m, tmp, image, path, true).1 matches Ok(id) ==> looked_up(
            m,
            tmp,
            image,
            path,
            true,
        ).0.nodes[id.index as int].kind != NodeKind::Link,
{
    law_lookup_keeps(m, tmp, image, path, true);
}

/// `path` is in normal form, short enough to be assembled from its nodes, and looking it up without
/// following finds a link; the image says that the link leads to `target`.
pub open spec fn finds_link(
    m: TableModel,
    tmp: &TmpStore,
    image: &Image,
    path: Seq<u8>,
    target: Seq<u8>,
) -> bool {
    let (after, found) = looked_up(m, tmp, image, path, false);
    &&& normalized(path) == Ok::<Seq<u8>, LinuxErrno>(path)
    &&& components(path).len() < PATH_LEVELS
    &&& found is Ok
    &&& after.nodes[found->Ok_0.index as int].kind == NodeKind::Link
    &&& image.find(path) is Some
    &&& image.entries@[image.find(path)->0].data@ == target
}

/// One link: following it is looking up its target and following what is found, one link deeper.
pub proof fn lemma_link_step(
    m: TableModel,
    tmp: &TmpStore,
    image: &Image,
    path: Seq<u8>,
    target: Seq<u8>,
    depth: nat,
)
    requires
        rooted(m),
        finds_link(m, tmp, image, path, target),
        normalized(target) == Ok::<Seq<u8>, LinuxErrno>(target),
        depth < LINUX_FS_MAX_LINK_DEPTH,
    ensures
        ({
            let (m1, found) = looked_up(m, tmp, image, path, false);
            link_followed(m1, tmp, image, found->Ok_0, depth) == ({
                let (m2, next) = looked_up(m1, tmp, image, target, false);
                match next {
                    Err(e) => (m2, Err::<NodeId, LinuxErrno>(e)),
                    Ok(id) => link_followed(m2, tmp, image, id, depth + 1),
                }
            })
        }),
{
    let (m1, found) = looked_up(m, tmp, image, path, false);
    law_found_path(m, tmp, image, path);
    law_lookup_keeps(m, tmp, image, path, false);
    let root = id_at(m1, m1.root as int);
    law_normal_form(target);
    if target == seq![SLASH] {
        assert(strip_slash(target).len() == 0);
    }
    lemma_follow(m1, tmp, image, root, strip_slash(target), depth + 1);
    lemma_depth_unused(m1, tmp, image, root, strip_slash(target), depth + 1, 0);
}

/// Two links in a row are followed: a link, and a link to a link, lead to what their target, no link
/// itself, leads to. Without following, each is found as a link.
pub proof fn law_links_are_followed(
    m: TableModel,
    tmp: &TmpStore,
    image: &Image,
    first: Seq<u8>,
    second: Seq<u8>,
    target: Seq<u8>,
)
    requires
        rooted(m),
        finds_link(m, tmp, image, first, second),
        finds_link(looked_up(m, tmp, image, first, false).0, tmp, image, second, target),
        normalized(target) == Ok::<Seq<u8>, LinuxErrno>(target),
        ({
            let m1 = looked_up(m, tmp, image, first, false).0;
            let m2 = looked_up(m1, tmp, image, second, false).0;
            let (m3, found) = looked_up(m2, tmp, image, target, false);
            found matches Ok(id) ==> m3.nodes[id.index as int].kind != NodeKind::Link
        }),
    ensures
        ({
            let m1 = looked_up(m, tmp, image, first, false).0;
            let m2 = looked_up(m1, tmp, image, second, false).0;
            let end = looked_up(m2, tmp, image, target, false);
            &&& looked_up(m1, tmp, image, second, true) == end
            &&& looked_up(m, tmp, image, first, true) == end
        }),
{
    let m1 = looked_up(m, tmp, image, first, false).0;
    law_lookup_keeps(m, tmp, image, first, false);
    law_lookup_follows_last(m, tmp, image, first);
    law_lookup_follows_last(m1, tmp, image, second);
    lemma_link_step(m, tmp, image, first, second, 0);
    lemma_link_step(m1, tmp, image, second, target, 0);
    lemma_link_step(m1, tmp, image, second, target, 1);
}

/// A third link in a row is not followed: looking the first up with links followed gives `ELOOP`.
pub proof fn law_third_link_is_refused(
    m: TableModel,
    tmp: &TmpStore,
    image: &Image,
    first: Seq<u8>,
    second: Seq<u8>,
    third: Seq<u8>,
    target: Seq<u8>,
)
    requires
        rooted(m),
        finds_link(m, tmp, image, first, second),
        finds_link(looked_up(m, tmp, image, first, false).0, tmp, image, second, third),
        ({
            let m1 = looked_up(m, tmp, image, first, false).0;
            let m2 = looked_up(m1, tmp, image, second, false).0;
            finds_link(m2, tmp, image, third, target)
        }),
    ensures
        looked_up(m, tmp, image, first, true).1 == Err::<NodeId, LinuxErrno>(ELOOP),
{
    let m1 = looked_up(m, tmp, image, first, false).0;
    law_lookup_keeps(m, tmp, image, first, false);
    law_lookup_follows_last(m, tmp, image, first);
    lemma_link_step(m, tmp, image, first, second, 0);
    lemma_link_step(m1, tmp, image, second, third, 1);
}

} // verus!
