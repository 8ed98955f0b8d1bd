//! How the steps of a path add up.

use super::path::{
    components, has_nul, is_dot, is_dotdot, join, joined, law_normal_form, leading_len,
    normalized, plain_component, plain_stack, resolved, walk_components, DOT, LINUX_PATH_MAX,
    PATH_COMPONENT_MAX, PATH_DEPTH_MAX, SLASH,
};
use super::namespace::write_intent;
use crate::abi::{O_APPEND, O_CREAT, O_RDWR, O_TRUNC, O_WRONLY};
use vstd::prelude::*;

verus! {

/// Walking on is walking: the steps of two lists one after the other lead where the second leads from
/// where the first ends.
pub proof fn law_walks_add_up(stack: Seq<Seq<u8>>, a: Seq<Seq<u8>>, b: Seq<Seq<u8>>)
    ensures
        walk_components(stack, a + b) == match walk_components(stack, a) {
            None => None,
            Some(there) => walk_components(there, b),
        },
    decreases a.len(),
{
    if a.len() == 0 {
        assert(a + b =~= b);
    } else {
        let c = a[0];
        let rest = a.drop_first();
        assert((a + b)[0] == c);
        assert((a + b).drop_first() =~= rest + b);
        if is_dot(c) {
            law_walks_add_up(stack, rest, b);
        } else if is_dotdot(c) {
            law_walks_add_up(
                if stack.len() == 0 {
                    stack
                } else {
                    stack.drop_last()
                },
                rest,
                b,
            );
        } else if !(c.len() > PATH_COMPONENT_MAX || stack.len() >= PATH_DEPTH_MAX) {
            law_walks_add_up(stack.push(c), rest, b);
        }
    }
}

proof fn lemma_one_step(stack: Seq<Seq<u8>>, c: Seq<u8>)
    ensures
        walk_components(stack, seq![c]) == if is_dot(c) {
            Some(stack)
        } else if is_dotdot(c) {
            Some(
                if stack.len() == 0 {
                    stack
                } else {
                    stack.drop_last()
                },
            )
        } else if c.len() > PATH_COMPONENT_MAX || stack.len() >= PATH_DEPTH_MAX {
            None
        } else {
            Some(stack.push(c))
        },
{
    reveal_with_fuel(walk_components, 2);
    assert(seq![c].drop_first() =~= Seq::<Seq<u8>>::empty());
}

/// Entering a directory and leaving it again leads back, and `.` leads nowhere else.
pub proof fn law_there_and_back(stack: Seq<Seq<u8>>, c: Seq<u8>)
    requires
        plain_component(c),
        stack.len() < PATH_DEPTH_MAX,
    ensures
        walk_components(stack, seq![c]) == Some(stack.push(c)),
        walk_components(stack, seq![c] + seq![seq![DOT, DOT]]) == Some(stack),
        walk_components(stack, seq![seq![DOT]]) == Some(stack),
        stack.len() > 0 ==> walk_components(stack, seq![seq![DOT, DOT]]) == Some(stack.drop_last()),
        walk_components(seq![], seq![seq![DOT, DOT]]) == Some(Seq::<Seq<u8>>::empty()),
{
    let up = seq![DOT, DOT];
    assert(up.len() == 2 && seq![DOT].len() == 1);
    lemma_one_step(stack, c);
    lemma_one_step(stack, seq![DOT]);
    lemma_one_step(stack, up);
    lemma_one_step(seq![], up);
    lemma_one_step(stack.push(c), up);
    law_walks_add_up(stack, seq![c], seq![up]);
    assert(stack.push(c).drop_last() =~= stack);
}

proof fn lemma_leading(a: Seq<u8>, b: Seq<u8>)
    ensures
        leading_len(a + seq![SLASH] + b) == leading_len(a),
        leading_len(a) <= a.len(),
    decreases a.len(),
{
    let whole = a + seq![SLASH] + b;
    if a.len() == 0 {
        assert(whole[0] == SLASH);
    } else {
        assert(whole[0] == a[0]);
        if a[0] != SLASH {
            lemma_leading(a.drop_first(), b);
            assert(whole.drop_first() =~= a.drop_first() + seq![SLASH] + b);
        }
    }
}

/// The steps of a path that goes on behind a separator are those of its two parts, one after the other.
pub proof fn law_paths_are_read_in_order(a: Seq<u8>, b: Seq<u8>)
    ensures
        components(a + seq![SLASH] + b) == components(a) + components(b),
    decreases a.len(),
{
    let whole = a + seq![SLASH] + b;
    if a.len() == 0 {
        assert(whole[0] == SLASH);
        assert(whole.drop_first() =~= b);
        assert(components(a) + components(b) =~= components(b));
    } else if a[0] == SLASH {
        law_paths_are_read_in_order(a.drop_first(), b);
        assert(whole.drop_first() =~= a.drop_first() + seq![SLASH] + b);
    } else {
        lemma_leading(a, b);
        let n = leading_len(a) as int;
        assert(n > 0);
        law_paths_are_read_in_order(a.skip(n), b);
        assert(whole.take(n) =~= a.take(n));
        assert(whole.skip(n) =~= a.skip(n) + seq![SLASH] + b);
        assert(components(whole) == seq![a.take(n)] + components(whole.skip(n)));
        assert(components(a) == seq![a.take(n)] + components(a.skip(n)));
        assert(components(whole) =~= components(a) + components(b));
    }
}

proof fn lemma_one_component(c: Seq<u8>)
    requires
        c.len() > 0,
        forall|i: int| 0 <= i < c.len() ==> c[i] != SLASH,
    ensures
        components(c) == seq![c],
{
    lemma_whole_leads(c);
    let none = Seq::<u8>::empty();
    assert(c.take(c.len() as int) =~= c);
    assert(c.skip(c.len() as int) =~= none);
    assert(components(none) =~= seq![]);
    assert(components(c) =~= seq![c]);
}

proof fn lemma_whole_leads(c: Seq<u8>)
    requires
        forall|i: int| 0 <= i < c.len() ==> c[i] != SLASH,
    ensures
        leading_len(c) == c.len(),
    decreases c.len(),
{
    if c.len() > 0 {
        assert forall|i: int| 0 <= i < c.drop_first().len() implies c.drop_first()[i] != SLASH by {
            assert(c[i + 1] != SLASH);
        }
        lemma_whole_leads(c.drop_first());
    }
}

proof fn lemma_nul_parts(a: Seq<u8>, b: Seq<u8>)
    requires
        !has_nul(a),
        !has_nul(b),
    ensures
        !has_nul(a + seq![SLASH] + b),
{
    let whole = a + seq![SLASH] + b;
    if has_nul(whole) {
        let i = choose|i: int| 0 <= i < whole.len() && whole[i] == 0;
        if i < a.len() {
            assert(a[i] == 0);
        } else if i > a.len() {
            assert(b[i - a.len() - 1] == 0);
        }
    }
}

/// A name behind a path names the child of what the path names: the normal form goes on with a separator
/// and the name.
pub proof fn law_child_is_named_below(path: Seq<u8>, name: Seq<u8>)
    requires
        normalized(path) is Ok,
        plain_component(name),
        !has_nul(name),
        path.len() + 1 + name.len() < LINUX_PATH_MAX,
        components(normalized(path)->Ok_0).len() < PATH_DEPTH_MAX,
    ensures
        ({
            let dir = normalized(path)->Ok_0;
            let child = normalized(path + seq![SLASH] + name);
            &&& child is Ok
            &&& components(child->Ok_0) == components(dir).push(name)
            &&& dir == seq![SLASH] ==> child->Ok_0 == seq![SLASH] + name
            &&& dir != seq![SLASH] ==> child->Ok_0 == dir + seq![SLASH] + name
        }),
{
    let dir = normalized(path)->Ok_0;
    law_normal_form(path);
    let there = walk_components(seq![], components(path))->0;
    law_paths_are_read_in_order(path, name);
    lemma_one_component(name);
    law_walks_add_up(seq![], components(path), seq![name]);
    lemma_one_step(there, name);
    lemma_nul_parts(path, name);
    super::path::lemma_walked_stack(path);
    let below = there.push(name);
    assert(below.drop_last() =~= there);
    assert(join(below) == join(there) + seq![SLASH] + name);
    assert(plain_stack(below));
    super::path::lemma_absolute_components(below);
    if there.len() == 0 {
        assert(join(there) =~= Seq::<u8>::empty());
        assert(join(below) =~= seq![SLASH] + name);
    } else {
        assert(dir == join(there));
        assert(dir != seq![SLASH]) by {
            super::path::lemma_absolute_components(there);
            super::path::lemma_absolute_components(Seq::<Seq<u8>>::empty());
            assert(components(dir) == there);
        }
    }
}

/// `..` behind a path names the directory that holds what the path names, and the root's own is the root;
/// `.` and a doubled separator change nothing.
pub proof fn law_dots_are_steps(path: Seq<u8>)
    requires
        normalized(path) is Ok,
        path.len() + 3 < LINUX_PATH_MAX,
    ensures
        ({
            let dir = normalized(path)->Ok_0;
            let up = normalized(path + seq![SLASH] + seq![DOT, DOT]);
            &&& up is Ok
            &&& components(dir).len() > 0 ==> components(up->Ok_0) == components(dir).drop_last()
            &&& components(dir).len() == 0 ==> up->Ok_0 == dir
            &&& normalized(path + seq![SLASH] + seq![DOT]) == normalized(path)
            &&& normalized(path + seq![SLASH] + Seq::<u8>::empty()) == normalized(path)
        }),
{
    let dir = normalized(path)->Ok_0;
    let dot = seq![DOT];
    let dots = seq![DOT, DOT];
    let none = Seq::<u8>::empty();
    assert(dots.len() == 2 && dot.len() == 1);
    let there = walk_components(seq![], components(path))->0;
    super::path::lemma_walked_stack(path);
    super::path::lemma_absolute_components(there);
    law_paths_are_read_in_order(path, dots);
    law_paths_are_read_in_order(path, dot);
    law_paths_are_read_in_order(path, none);
    lemma_one_component(dots);
    lemma_one_component(dot);
    law_walks_add_up(seq![], components(path), seq![dots]);
    law_walks_add_up(seq![], components(path), seq![dot]);
    lemma_one_step(there, dots);
    lemma_one_step(there, dot);
    assert(components(none) =~= seq![]);
    assert(components(path) + components(none) =~= components(path));
    lemma_nul_parts(path, dots);
    lemma_nul_parts(path, dot);
    lemma_nul_parts(path, none);
    if there.len() > 0 {
        let up = there.drop_last();
        assert(plain_stack(up)) by {
            assert forall|i: int| 0 <= i < up.len() implies plain_component(#[trigger] up[i]) by {
                assert(plain_component(there[i]));
            }
        }
        super::path::lemma_absolute_components(up);
    }
}

/// A path that starts at the root means the same from everywhere; one that does not is taken from the
/// working directory, and the empty one is the working directory itself.
pub proof fn law_relative_paths_start_here(cwd: Seq<u8>, other: Seq<u8>, input: Seq<u8>)
    requires
        normalized(cwd) is Ok,
    ensures
        input.len() > 0 && input[0] == SLASH ==> resolved(cwd, input) == normalized(input)
            && resolved(other, input) == resolved(cwd, input),
        resolved(cwd, Seq::<u8>::empty()) == normalized(cwd),
        input.len() > 0 && input[0] != SLASH && resolved(cwd, input) is Ok ==> resolved(cwd, input)
            == normalized(joined(normalized(cwd)->Ok_0, input)),
        input.len() > 0 && input[0] != SLASH && normalized(cwd)->Ok_0 != seq![SLASH] ==> joined(
            normalized(cwd)->Ok_0,
            input,
        ) == normalized(cwd)->Ok_0 + seq![SLASH] + input,
{
    law_normal_form(cwd);
    let base = normalized(cwd)->Ok_0;
    if base != seq![SLASH] {
        super::path::lemma_walked_stack(cwd);
        let there = walk_components(seq![], components(cwd))->0;
        assert(there.len() > 0);
        assert(plain_component(there.last()));
        assert(base.last() == there.last().last());
        assert(base.push(SLASH) =~= base + seq![SLASH]);
    }
}

/// A file is opened for a change exactly where it is opened for writing, is to be created or emptied, or is
/// to be appended to: a plain read never is.
pub proof fn law_plain_reads_change_nothing(flags: u32)
    ensures
        write_intent(flags) <==> flags & 0o1 != 0 || flags & 0o2 != 0 || flags & 0o100 != 0 || flags
            & 0o1000 != 0 || flags & 0o2000 != 0,
{
    assert((flags & (O_WRONLY | O_RDWR | O_CREAT | O_TRUNC | O_APPEND)) != 0 <==> flags & 0o1 != 0
        || flags & 0o2 != 0 || flags & 0o100 != 0 || flags & 0o1000 != 0 || flags & 0o2000 != 0)
        by (bit_vector);
}

} // verus!
