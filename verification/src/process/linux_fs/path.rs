//! Bounded Linux path normalization (bytes, not UTF-8).

use crate::abi::{LinuxErrno, EINVAL, ENAMETOOLONG};
use crate::scan::{copy_at, position_of};
use vstd::prelude::*;

verus! {

/// Size of a path buffer; a path argument is shorter than this.
pub const LINUX_PATH_MAX: usize = 256;

/// Longest component that a path may keep.
pub const PATH_COMPONENT_MAX: usize = 64;

/// Most components that a path may keep at any point of its normalization.
pub const PATH_DEPTH_MAX: usize = 32;

pub const SLASH: u8 = 0x2f;

pub const DOT: u8 = 0x2e;

/// The number of bytes before the first separator.
pub open spec fn leading_len(s: Seq<u8>) -> nat
    decreases s.len(),
{
    if s.len() == 0 || s[0] == SLASH {
        0
    } else {
        1 + leading_len(s.drop_first())
    }
}

/// The non-empty components of a path, in order.
pub open spec fn components(s: Seq<u8>) -> Seq<Seq<u8>>
    decreases s.len(),
{
    if s.len() == 0 {
        seq![]
    } else if s[0] == SLASH {
        components(s.drop_first())
    } else {
        let n = leading_len(s) as int;
        if 0 < n <= s.len() {
            seq![s.take(n)] + components(s.skip(n))
        } else {
            seq![]
        }
    }
}

pub open spec fn is_dot(c: Seq<u8>) -> bool {
    c == seq![DOT]
}

pub open spec fn is_dotdot(c: Seq<u8>) -> bool {
    c == seq![DOT, DOT]
}

/// What is left of `stack` after walking `comps`: `.` stays, `..` leaves to the parent (the root is
/// its own parent), any other component enters. `None` when a component is too long or the walk gets
/// too deep.
pub open spec fn walk_components(stack: Seq<Seq<u8>>, comps: Seq<Seq<u8>>) -> Option<Seq<Seq<u8>>>
    decreases comps.len(),
{
    if comps.len() == 0 {
        Some(stack)
    } else {
        let c = comps[0];
        let rest = comps.drop_first();
        if is_dot(c) {
            walk_components(stack, rest)
        } else if is_dotdot(c) {
            walk_components(
                if stack.len() == 0 {
                    stack
                } else {
                    stack.drop_last()
                },
                rest,
            )
        } else if c.len() > PATH_COMPONENT_MAX || stack.len() >= PATH_DEPTH_MAX {
            None
        } else {
            walk_components(stack.push(c), rest)
        }
    }
}

/// Each component preceded by a separator.
pub open spec fn join(stack: Seq<Seq<u8>>) -> Seq<u8>
    decreases stack.len(),
{
    if stack.len() == 0 {
        seq![]
    } else {
        join(stack.drop_last()) + seq![SLASH] + stack.last()
    }
}

/// The absolute path with the given components.
pub open spec fn absolute(stack: Seq<Seq<u8>>) -> Seq<u8> {
    if stack.len() == 0 {
        seq![SLASH]
    } else {
        join(stack)
    }
}

pub open spec fn has_nul(s: Seq<u8>) -> bool {
    exists|i: int| 0 <= i < s.len() && s[i] == 0
}

/// The normal form of a path: absolute, without empty, `.` or `..` components.
pub open spec fn normalized(s: Seq<u8>) -> Result<Seq<u8>, LinuxErrno> {
    if s.len() >= LINUX_PATH_MAX {
        Err(ENAMETOOLONG)
    } else if has_nul(s) {
        Err(EINVAL)
    } else {
        match walk_components(seq![], components(s)) {
            Some(stack) => Ok(absolute(stack)),
            None => Err(ENAMETOOLONG),
        }
    }
}

/// The path that `input` names from the working directory `cwd`, before normalization.
pub open spec fn joined(cwd: Seq<u8>, input: Seq<u8>) -> Seq<u8> {
    if cwd.len() > 0 && cwd.last() == SLASH {
        cwd + input
    } else {
        cwd.push(SLASH) + input
    }
}

/// What `resolve_path` computes.
pub open spec fn resolved(cwd: Seq<u8>, input: Seq<u8>) -> Result<Seq<u8>, LinuxErrno> {
    if input.len() == 0 {
        normalized(cwd)
    } else if input[0] == SLASH {
        normalized(input)
    } else {
        match normalized(cwd) {
            Err(e) => Err(e),
            Ok(base) => if base.len() + 1 + input.len() >= LINUX_PATH_MAX {
                Err(ENAMETOOLONG)
            } else {
                normalized(joined(base, input))
            },
        }
    }
}

/// `out` holds `value` in its first `len` bytes and is otherwise as it was.
pub open spec fn holds_prefix(
    out: Seq<u8>,
    before: Seq<u8>,
    value: Seq<u8>,
    len: int,
) -> bool {
    &&& len == value.len()
    &&& out.len() == before.len()
    &&& len <= out.len()
    &&& out.take(len) == value
    &&& out.skip(len) == before.skip(len)
}

/// Copies a path argument into a zero-padded buffer.
pub fn copy_bounded_path(input: &[u8]) -> (r: Result<[u8; 256], LinuxErrno>)
    ensures
        input@.len() >= LINUX_PATH_MAX ==> r == Err::<[u8; 256], LinuxErrno>(ENAMETOOLONG),
        input@.len() < LINUX_PATH_MAX && has_nul(input@) ==> r == Err::<[u8; 256], LinuxErrno>(
            EINVAL,
        ),
        input@.len() < LINUX_PATH_MAX && !has_nul(input@) ==> r is Ok && r->Ok_0@ == input@ + Seq::new(
            (LINUX_PATH_MAX - input@.len()) as nat,
            |i: int| 0u8,
        ),
{
    if input.len() >= LINUX_PATH_MAX {
        return Err(ENAMETOOLONG);
    }
    if position_of(input, 0).is_some() {
        return Err(EINVAL);
    }
    let mut out: [u8; 256] = [0u8; 256];
    copy_at(&mut out, 0, input);
    assert(out@ =~= input@ + Seq::new((LINUX_PATH_MAX - input@.len()) as nat, |i: int| 0u8));
    Ok(out)
}

proof fn lemma_leading_len(s: Seq<u8>, n: int)
    requires
        0 <= n <= s.len(),
        forall|i: int| 0 <= i < n ==> s[i] != SLASH,
        n < s.len() ==> s[n] == SLASH,
    ensures
        leading_len(s) == n,
    decreases s.len(),
{
    if n > 0 {
        assert forall|i: int| 0 <= i < n - 1 implies s.drop_first()[i] != SLASH by {
            assert(s[i + 1] != SLASH);
        }
        lemma_leading_len(s.drop_first(), n - 1);
    }
}

proof fn lemma_join_push(stack: Seq<Seq<u8>>, c: Seq<u8>)
    ensures
        join(stack.push(c)) == join(stack) + seq![SLASH] + c,
{
    assert(stack.push(c).drop_last() =~= stack);
}

proof fn lemma_join_shorter(stack: Seq<Seq<u8>>)
    requires
        stack.len() > 0,
    ensures
        join(stack.drop_last()).len() <= join(stack).len(),
{
}

proof fn lemma_join_prefix(stack: Seq<Seq<u8>>, k: int)
    requires
        0 <= k <= stack.len(),
    ensures
        join(stack.take(k)).len() <= join(stack).len(),
    decreases stack.len() - k,
{
    if k < stack.len() {
        lemma_join_prefix(stack, k + 1);
        assert(stack.take(k + 1).drop_last() =~= stack.take(k));
    } else {
        assert(stack.take(k) =~= stack);
    }
}

/// The components of `input` that the recorded ranges name.
pub open spec fn ranges_of(input: Seq<u8>, ranges: Seq<(usize, usize)>) -> Seq<Seq<u8>> {
    Seq::new(
        ranges.len(),
        |i: int| input.subrange(ranges[i].0 as int, ranges[i].1 as int),
    )
}

/// Normalize `input` into `out` (absolute, no `//`, `.` dropped, `..` pops, root clamped).
pub fn normalize_path(input: &[u8], out: &mut [u8; 256]) -> (r: Result<usize, LinuxErrno>)
    ensures
        match normalized(input@) {
            Ok(path) => r is Ok && holds_prefix(
                final(out)@,
                old(out)@,
                path,
                r->Ok_0 as int,
            ) && 0 < r->Ok_0 <= input@.len() + 1,
            Err(e) => r == Err::<usize, LinuxErrno>(e) && final(out)@ == old(out)@,
        },
{
    if input.len() >= LINUX_PATH_MAX {
        return Err(ENAMETOOLONG);
    }
    if position_of(input, 0).is_some() {
        return Err(EINVAL);
    }
    assert(!has_nul(input@));
    let mut ranges: Vec<(usize, usize)> = Vec::new();
    let mut i: usize = 0;
    let ghost all = components(input@);
    proof {
        assert(input@.skip(0) =~= input@);
        assert(ranges_of(input@, ranges@) =~= Seq::<Seq<u8>>::empty());
    }
    while i < input.len()
        invariant
            0 <= i <= input@.len() < LINUX_PATH_MAX,
            !has_nul(input@),
            all == components(input@),
            walk_components(seq![], all) == walk_components(
                ranges_of(input@, ranges@),
                components(input@.skip(i as int)),
            ),
            ranges@.len() <= PATH_DEPTH_MAX,
            forall|k: int|
                0 <= k < ranges@.len() ==> (#[trigger] ranges@[k]).0 <= ranges@[k].1
                    <= input@.len(),
            join(ranges_of(input@, ranges@)).len() <= i + 1,
            i == 0 ==> ranges@.len() == 0,
            0 < i < input@.len() ==> input@[i as int] == SLASH,
        decreases input@.len() - i,
    {
        let ghost i0 = i as int;
        let ghost stack = ranges_of(input@, ranges@);
        assert(join(stack).len() <= i0 + 1);
        while i < input.len() && input[i] == SLASH
            invariant
                i0 <= i <= input@.len() < LINUX_PATH_MAX,
                components(input@.skip(i as int)) == components(input@.skip(i0)),
                forall|k: int| i0 <= k < i ==> input@[k] == SLASH,
            decreases input@.len() - i,
        {
            proof {
                assert(input@.skip(i as int).drop_first() =~= input@.skip(i + 1));
            }
            i += 1;
        }
        if i >= input.len() {
            continue;
        }
        assert(i0 > 0 ==> i > i0);
        assert(i0 == 0 ==> join(stack).len() == 0);
        let start: usize = i;
        while i < input.len() && input[i] != SLASH
            invariant
                start <= i <= input@.len() < LINUX_PATH_MAX,
                forall|k: int| start <= k < i ==> input@[k] != SLASH,
            decreases input@.len() - i,
        {
            i += 1;
        }
        let ghost tail = input@.skip(start as int);
        let ghost seg = input@.subrange(start as int, i as int);
        proof {
            let n = i - start;
            assert forall|k: int| 0 <= k < n implies tail[k] != SLASH by {
                assert(input@[start + k] != SLASH);
            }
            lemma_leading_len(tail, n);
            assert(tail.take(n) =~= seg);
            assert(tail.skip(n) =~= input@.skip(i as int));
            assert(components(tail) == seq![seg] + components(input@.skip(i as int)));
            assert(components(tail)[0] == seg);
            assert(components(tail).drop_first() =~= components(input@.skip(i as int)));
            assert(join(stack).len() <= start);
        }
        let len: usize = i - start;
        if len == 1 && input[start] == DOT {
            assert(seg =~= seq![DOT]);
            continue;
        }
        assert(!is_dot(seg)) by {
            if is_dot(seg) {
                assert(seg.len() == 1 && seg[0] == DOT);
            }
        }
        if len == 2 && input[start] == DOT && input[start + 1] == DOT {
            assert(seg =~= seq![DOT, DOT]);
            if ranges.len() > 0 {
                let ghost before = ranges@;
                let _ = ranges.pop();
                proof {
                    assert(ranges@ =~= before.drop_last());
                    assert(ranges_of(input@, ranges@) =~= stack.drop_last());
                    lemma_join_shorter(stack);
                }
            } else {
                assert(stack =~= Seq::<Seq<u8>>::empty());
            }
            continue;
        }
        assert(!is_dotdot(seg)) by {
            if is_dotdot(seg) {
                assert(seg.len() == 2 && seg[0] == DOT && seg[1] == DOT);
            }
        }
        if len > PATH_COMPONENT_MAX || ranges.len() >= PATH_DEPTH_MAX {
            return Err(ENAMETOOLONG);
        }
        ranges.push((start, i));
        proof {
            assert(ranges_of(input@, ranges@) =~= stack.push(seg));
            lemma_join_push(stack, seg);
        }
    }
    let ghost stack = ranges_of(input@, ranges@);
    proof {
        assert(input@.skip(i as int) =~= Seq::<u8>::empty());
        assert(components(input@.skip(i as int)) =~= Seq::<Seq<u8>>::empty());
        assert(walk_components(seq![], all) == Some(stack));
    }
    if ranges.len() == 0 {
        out[0] = SLASH;
        proof {
            assert(stack =~= Seq::<Seq<u8>>::empty());
            assert(out@.take(1) =~= seq![SLASH]);
            assert(out@.skip(1) =~= old(out)@.skip(1));
        }
        return Ok(1);
    }
    let mut pos: usize = 0;
    let mut index: usize = 0;
    while index < ranges.len()
        invariant
            0 <= index <= ranges@.len(),
            input@.len() < LINUX_PATH_MAX,
            stack == ranges_of(input@, ranges@),
            join(stack).len() <= input@.len() + 1,
            pos == join(stack.take(index as int)).len(),
            out@.take(pos as int) == join(stack.take(index as int)),
            forall|k: int| pos <= k < 256 ==> out@[k] == old(out)@[k],
            forall|k: int|
                0 <= k < ranges@.len() ==> (#[trigger] ranges@[k]).0 <= ranges@[k].1
                    <= input@.len(),
        decreases ranges@.len() - index,
    {
        let ghost done = stack.take(index as int);
        let ghost seg = stack[index as int];
        proof {
            assert(stack.take(index + 1) =~= done.push(seg));
            lemma_join_push(done, seg);
            lemma_join_prefix(stack, index + 1);
        }
        let (start, end) = ranges[index];
        assert(seg == input@.subrange(start as int, end as int));
        let ghost before = out@;
        out[pos] = SLASH;
        copy_at(out, pos + 1, vstd::slice::slice_subrange(input, start, end));
        pos += 1 + (end - start);
        proof {
            let wanted = join(done) + seq![SLASH] + seg;
            assert(out@.take(pos as int) =~= wanted) by {
                assert forall|j: int| 0 <= j < join(done).len() implies out@[j] == wanted[j] by {
                    assert(before[j] == before.take(join(done).len() as int)[j]);
                }
            }
        }
        index += 1;
    }
    proof {
        assert(stack.take(index as int) =~= stack);
        assert(out@.skip(pos as int) =~= old(out)@.skip(pos as int));
        lemma_join_prefix(stack, 1);
        lemma_join_push(seq![], stack[0]);
        assert(stack.take(1) =~= Seq::<Seq<u8>>::empty().push(stack[0]));
    }
    Ok(pos)
}

/// Resolve `input` against an absolute normalized `cwd`.
pub fn resolve_path(cwd: &[u8], input: &[u8], out: &mut [u8; 256]) -> (r: Result<
    usize,
    LinuxErrno,
>)
    ensures
        match resolved(cwd@, input@) {
            Ok(path) => r is Ok && holds_prefix(final(out)@, old(out)@, path, r->Ok_0 as int),
            Err(e) => r == Err::<usize, LinuxErrno>(e) && final(out)@ == old(out)@,
        },
{
    if input.len() == 0 {
        return normalize_path(cwd, out);
    }
    if input[0] == SLASH {
        return normalize_path(input, out);
    }
    let mut scratch: [u8; 256] = [0u8; 256];
    let cwd_len: usize = match normalize_path(cwd, &mut scratch) {
        Ok(len) => len,
        Err(e) => return Err(e),
    };
    let ghost base = scratch@.take(cwd_len as int);
    if input.len() >= LINUX_PATH_MAX || cwd_len + 1 + input.len() >= LINUX_PATH_MAX {
        return Err(ENAMETOOLONG);
    }
    let mut pos: usize = cwd_len;
    assert(base.last() == scratch@[pos - 1]);
    if scratch[pos - 1] != SLASH {
        scratch[pos] = SLASH;
        pos += 1;
    }
    let ghost lead = scratch@.take(pos as int);
    assert(lead =~= if base.last() == SLASH {
        base
    } else {
        base.push(SLASH)
    });
    copy_at(&mut scratch, pos, input);
    let whole = vstd::slice::slice_subrange(&scratch, 0, pos + input.len());
    proof {
        assert(whole@ =~= joined(base, input@));
    }
    normalize_path(whole, out)
}

/// A component that normalization keeps.
pub open spec fn plain_component(c: Seq<u8>) -> bool {
    &&& 0 < c.len() <= PATH_COMPONENT_MAX
    &&& forall|i: int| 0 <= i < c.len() ==> c[i] != SLASH
    &&& !is_dot(c)
    &&& !is_dotdot(c)
}

/// A stack of components that normalization can leave.
pub open spec fn plain_stack(stack: Seq<Seq<u8>>) -> bool {
    &&& stack.len() <= PATH_DEPTH_MAX
    &&& forall|i: int| 0 <= i < stack.len() ==> plain_component(#[trigger] stack[i])
}

proof fn lemma_leading_len_facts(s: Seq<u8>)
    ensures
        leading_len(s) <= s.len(),
        forall|i: int| 0 <= i < leading_len(s) ==> s[i] != SLASH,
    decreases s.len(),
{
    if s.len() > 0 && s[0] != SLASH {
        lemma_leading_len_facts(s.drop_first());
        assert forall|i: int| 0 <= i < leading_len(s) implies s[i] != SLASH by {
            if i > 0 {
                assert(s.drop_first()[i - 1] != SLASH);
            }
        }
    }
}

proof fn lemma_components_clean(s: Seq<u8>)
    ensures
        forall|k: int|
            0 <= k < components(s).len() ==> (#[trigger] components(s)[k]).len() > 0 && forall|i: int|
                0 <= i < components(s)[k].len() ==> components(s)[k][i] != SLASH,
    decreases s.len(),
{
    if s.len() == 0 {
        assert(components(s) =~= Seq::<Seq<u8>>::empty());
    } else {
        if s[0] == SLASH {
            lemma_components_clean(s.drop_first());
            assert(components(s) == components(s.drop_first()));
        } else {
            lemma_leading_len_facts(s);
            let n = leading_len(s) as int;
            lemma_components_clean(s.skip(n));
            assert forall|k: int| 0 <= k < components(s).len() implies (#[trigger] components(
                s,
            )[k]).len() > 0 && forall|i: int|
                0 <= i < components(s)[k].len() ==> components(s)[k][i] != SLASH by {
                if k == 0 {
                    assert(components(s)[0] == s.take(n));
                } else {
                    assert(components(s)[k] == components(s.skip(n))[k - 1]);
                }
            }
        }
    }
}

proof fn lemma_walk_plain(stack: Seq<Seq<u8>>, comps: Seq<Seq<u8>>)
    requires
        plain_stack(stack),
        forall|k: int|
            0 <= k < comps.len() ==> (#[trigger] comps[k]).len() > 0 && forall|i: int|
                0 <= i < comps[k].len() ==> comps[k][i] != SLASH,
    ensures
        walk_components(stack, comps) is Some ==> plain_stack(walk_components(stack, comps)->0),
    decreases comps.len(),
{
    if comps.len() > 0 {
        let c = comps[0];
        let rest = comps.drop_first();
        assert forall|k: int| 0 <= k < rest.len() implies (#[trigger] rest[k]).len() > 0
            && forall|i: int| 0 <= i < rest[k].len() ==> rest[k][i] != SLASH by {
            assert(rest[k] == comps[k + 1]);
        }
        if is_dot(c) {
            lemma_walk_plain(stack, rest);
        } else if is_dotdot(c) {
            if stack.len() == 0 {
                lemma_walk_plain(stack, rest);
            } else {
                lemma_walk_plain(stack.drop_last(), rest);
            }
        } else if c.len() > PATH_COMPONENT_MAX || stack.len() >= PATH_DEPTH_MAX {
        } else {
            lemma_walk_plain(stack.push(c), rest);
        }
    }
}

proof fn lemma_components_append(s: Seq<u8>, c: Seq<u8>)
    requires
        c.len() > 0,
        forall|i: int| 0 <= i < c.len() ==> c[i] != SLASH,
    ensures
        components(s + seq![SLASH] + c) == components(s).push(c),
    decreases s.len(),
{
    let t = s + seq![SLASH] + c;
    if s.len() == 0 {
        assert(t[0] == SLASH);
        assert(t.drop_first() =~= c);
        lemma_leading_len(c, c.len() as int);
        assert(c.take(c.len() as int) =~= c);
        assert(c.skip(c.len() as int) =~= Seq::<u8>::empty());
        assert(components(Seq::<u8>::empty()) =~= Seq::<Seq<u8>>::empty());
        assert(components(c) =~= seq![c]);
        assert(components(t) == components(c));
    } else if s[0] == SLASH {
        assert(t.drop_first() =~= s.drop_first() + seq![SLASH] + c);
        lemma_components_append(s.drop_first(), c);
    } else {
        lemma_leading_len_facts(s);
        let n = leading_len(s) as int;
        lemma_leading_len_stop(s);
        assert forall|i: int| 0 <= i < n implies t[i] != SLASH by {
            assert(s[i] != SLASH);
        }
        assert(t[n] == SLASH);
        lemma_leading_len(t, n);
        assert(t.take(n) =~= s.take(n));
        assert(t.skip(n) =~= s.skip(n) + seq![SLASH] + c);
        lemma_components_append(s.skip(n), c);
        assert(components(t) =~= components(s).push(c));
    }
}

proof fn lemma_leading_len_stop(s: Seq<u8>)
    ensures
        leading_len(s) < s.len() ==> s[leading_len(s) as int] == SLASH,
    decreases s.len(),
{
    if s.len() > 0 && s[0] != SLASH {
        lemma_leading_len_stop(s.drop_first());
    }
}

proof fn lemma_components_of_join(stack: Seq<Seq<u8>>)
    requires
        plain_stack(stack),
    ensures
        components(join(stack)) == stack,
    decreases stack.len(),
{
    if stack.len() == 0 {
        assert(components(join(stack)) =~= stack);
    } else {
        lemma_components_of_join(stack.drop_last());
        assert(plain_component(stack[stack.len() - 1]));
        lemma_components_append(join(stack.drop_last()), stack.last());
        assert(stack.drop_last().push(stack.last()) =~= stack);
    }
}

proof fn lemma_walk_keeps(stack: Seq<Seq<u8>>, comps: Seq<Seq<u8>>)
    requires
        stack.len() + comps.len() <= PATH_DEPTH_MAX,
        forall|k: int| 0 <= k < comps.len() ==> plain_component(#[trigger] comps[k]),
    ensures
        walk_components(stack, comps) == Some(stack + comps),
    decreases comps.len(),
{
    if comps.len() > 0 {
        let rest = comps.drop_first();
        assert(plain_component(comps[0]));
        assert forall|k: int| 0 <= k < rest.len() implies plain_component(#[trigger] rest[k]) by {
            assert(rest[k] == comps[k + 1]);
        }
        lemma_walk_keeps(stack.push(comps[0]), rest);
        assert(stack.push(comps[0]) + rest =~= stack + comps);
    } else {
        assert(stack + comps =~= stack);
    }
}

proof fn lemma_join_has_nul(stack: Seq<Seq<u8>>)
    requires
        forall|k: int| 0 <= k < stack.len() ==> !has_nul(#[trigger] stack[k]),
    ensures
        !has_nul(join(stack)),
    decreases stack.len(),
{
    if stack.len() > 0 {
        let init = stack.drop_last();
        assert forall|k: int| 0 <= k < init.len() implies !has_nul(#[trigger] init[k]) by {
            assert(init[k] == stack[k]);
        }
        lemma_join_has_nul(init);
        assert(!has_nul(stack[stack.len() - 1]));
        assert forall|i: int| 0 <= i < join(stack).len() implies join(stack)[i] != 0 by {
            if i < join(init).len() {
                assert(join(stack)[i] == join(init)[i]);
            } else if i > join(init).len() {
                assert(join(stack)[i] == stack.last()[i - join(init).len() - 1]);
            }
        }
    }
}

proof fn lemma_components_nul(s: Seq<u8>)
    requires
        !has_nul(s),
    ensures
        forall|k: int| 0 <= k < components(s).len() ==> !has_nul(#[trigger] components(s)[k]),
    decreases s.len(),
{
    if s.len() == 0 {
        assert(components(s) =~= Seq::<Seq<u8>>::empty());
    } else {
        if s[0] == SLASH {
            assert forall|i: int| 0 <= i < s.drop_first().len() implies s.drop_first()[i] != 0 by {
                assert(s[i + 1] != 0);
            }
            lemma_components_nul(s.drop_first());
            assert(components(s) == components(s.drop_first()));
        } else {
            lemma_leading_len_facts(s);
            let n = leading_len(s) as int;
            assert forall|i: int| 0 <= i < s.skip(n).len() implies s.skip(n)[i] != 0 by {
                assert(s[i + n] != 0);
            }
            lemma_components_nul(s.skip(n));
            assert forall|k: int| 0 <= k < components(s).len() implies !has_nul(
                #[trigger] components(s)[k],
            ) by {
                if k == 0 {
                    assert(components(s)[0] == s.take(n));
                    assert forall|i: int| 0 <= i < n implies s.take(n)[i] != 0 by {
                        assert(s[i] != 0);
                    }
                } else {
                    assert(components(s)[k] == components(s.skip(n))[k - 1]);
                }
            }
        }
    }
}

proof fn lemma_walk_nul(stack: Seq<Seq<u8>>, comps: Seq<Seq<u8>>)
    requires
        forall|k: int| 0 <= k < stack.len() ==> !has_nul(#[trigger] stack[k]),
        forall|k: int| 0 <= k < comps.len() ==> !has_nul(#[trigger] comps[k]),
    ensures
        walk_components(stack, comps) matches Some(left) ==> forall|k: int|
            0 <= k < left.len() ==> !has_nul(#[trigger] left[k]),
    decreases comps.len(),
{
    if comps.len() > 0 {
        let c = comps[0];
        let rest = comps.drop_first();
        assert forall|k: int| 0 <= k < rest.len() implies !has_nul(#[trigger] rest[k]) by {
            assert(rest[k] == comps[k + 1]);
        }
        if is_dot(c) {
            lemma_walk_nul(stack, rest);
        } else if is_dotdot(c) {
            if stack.len() == 0 {
                lemma_walk_nul(stack, rest);
            } else {
                lemma_walk_nul(stack.drop_last(), rest);
            }
        } else if c.len() > PATH_COMPONENT_MAX || stack.len() >= PATH_DEPTH_MAX {
        } else {
            assert forall|k: int| 0 <= k < stack.push(c).len() implies !has_nul(
                #[trigger] stack.push(c)[k],
            ) by {
                if k < stack.len() {
                    assert(!has_nul(stack[k]));
                }
            }
            lemma_walk_nul(stack.push(c), rest);
        }
    }
}

/// The first component of a joined path comes first.
pub proof fn lemma_join_front(stack: Seq<Seq<u8>>)
    requires
        stack.len() > 0,
    ensures
        join(stack) == seq![SLASH] + stack[0] + join(stack.drop_first()),
    decreases stack.len(),
{
    let rest = stack.drop_first();
    if stack.len() == 1 {
        assert(join(stack.drop_last()) =~= Seq::<u8>::empty());
        assert(join(rest) =~= Seq::<u8>::empty());
        assert(join(stack) =~= seq![SLASH] + stack[0] + join(rest));
    } else {
        lemma_join_front(stack.drop_last());
        assert(stack.drop_last().drop_first() =~= rest.drop_last());
        assert(join(stack) =~= seq![SLASH] + stack[0] + join(rest));
    }
}

proof fn lemma_components_len(s: Seq<u8>)
    ensures
        join(components(s)).len() <= s.len() + 1,
        s.len() == 0 || s[0] == SLASH ==> join(components(s)).len() <= s.len(),
    decreases s.len(),
{
    if s.len() > 0 {
        if s[0] == SLASH {
            lemma_components_len(s.drop_first());
        } else {
            lemma_leading_len_facts(s);
            lemma_leading_len_stop(s);
            let n = leading_len(s) as int;
            lemma_components_len(s.skip(n));
            lemma_join_front(components(s));
            assert(components(s).drop_first() =~= components(s.skip(n)));
        }
    }
}

proof fn lemma_walk_len(stack: Seq<Seq<u8>>, comps: Seq<Seq<u8>>)
    ensures
        walk_components(stack, comps) matches Some(left) ==> join(left).len() <= join(stack).len()
            + join(comps).len(),
    decreases comps.len(),
{
    if comps.len() > 0 {
        let c = comps[0];
        let rest = comps.drop_first();
        lemma_join_front(comps);
        if is_dot(c) {
            lemma_walk_len(stack, rest);
        } else if is_dotdot(c) {
            if stack.len() == 0 {
                lemma_walk_len(stack, rest);
            } else {
                lemma_walk_len(stack.drop_last(), rest);
                lemma_join_shorter(stack);
            }
        } else if c.len() > PATH_COMPONENT_MAX || stack.len() >= PATH_DEPTH_MAX {
        } else {
            lemma_walk_len(stack.push(c), rest);
            lemma_join_push(stack, c);
        }
    }
}

/// A path made of clean components that fits a path argument is its own normal form.
pub proof fn lemma_absolute_is_normal(stack: Seq<Seq<u8>>)
    requires
        plain_stack(stack),
        absolute(stack).len() < LINUX_PATH_MAX,
        !has_nul(absolute(stack)),
    ensures
        normalized(absolute(stack)) == Ok::<Seq<u8>, LinuxErrno>(absolute(stack)),
{
    lemma_absolute_components(stack);
    lemma_walk_keeps(seq![], stack);
    assert(Seq::<Seq<u8>>::empty() + stack =~= stack);
}

/// The components that a normalized path is made of are those that walking it leaves, and clean.
pub proof fn lemma_walked_stack(s: Seq<u8>)
    requires
        normalized(s) is Ok,
    ensures
        walk_components(seq![], components(s)) is Some,
        plain_stack(walk_components(seq![], components(s))->0),
        normalized(s)->Ok_0 == absolute(walk_components(seq![], components(s))->0),
        components(normalized(s)->Ok_0) == walk_components(seq![], components(s))->0,
{
    lemma_components_clean(s);
    lemma_walk_plain(seq![], components(s));
    lemma_absolute_components(walk_components(seq![], components(s))->0);
}

/// A normalized path is absolute, its components are non-empty, at most `PATH_COMPONENT_MAX` bytes
/// long and neither `.` nor `..`, and it fits a path buffer.
pub proof fn law_normal_form(s: Seq<u8>)
    ensures
        normalized(s) matches Ok(path) ==> {
            &&& 0 < path.len() <= s.len() + 1 <= LINUX_PATH_MAX
            &&& path[0] == SLASH
            &&& plain_stack(components(path))
            &&& path == absolute(components(path))
            &&& !has_nul(path)
        },
{
    if normalized(s) is Ok {
        lemma_components_clean(s);
        lemma_walk_plain(seq![], components(s));
        lemma_components_nul(s);
        lemma_walk_nul(seq![], components(s));
        let stack = walk_components(seq![], components(s))->0;
        lemma_join_has_nul(stack);
        lemma_absolute_components(stack);
        lemma_components_len(s);
        lemma_walk_len(seq![], components(s));
    }
}

/// The components of an absolute path built from clean components are those components.
pub proof fn lemma_absolute_components(stack: Seq<Seq<u8>>)
    requires
        plain_stack(stack),
    ensures
        components(absolute(stack)) == stack,
        absolute(stack).len() > 0,
        absolute(stack)[0] == SLASH,
    decreases stack.len(),
{
    lemma_components_of_join(stack);
    if stack.len() == 0 {
        let root = seq![SLASH];
        assert(root.drop_first() =~= Seq::<u8>::empty());
        assert(components(root) == components(root.drop_first()));
        assert(components(root) =~= stack);
    } else {
        lemma_join_first(stack);
    }
}

proof fn lemma_join_first(stack: Seq<Seq<u8>>)
    requires
        stack.len() > 0,
    ensures
        join(stack).len() > 0,
        join(stack)[0] == SLASH,
    decreases stack.len(),
{
    if stack.len() > 1 {
        lemma_join_first(stack.drop_last());
    } else {
        assert(join(stack.drop_last()) =~= Seq::<u8>::empty());
    }
}

/// Normalizing a normalized path that still fits a path argument changes nothing.
pub proof fn law_normalize_idempotent(s: Seq<u8>)
    requires
        normalized(s) is Ok,
        (normalized(s)->Ok_0).len() < LINUX_PATH_MAX,
    ensures
        normalized(normalized(s)->Ok_0) == normalized(s),
{
    law_normal_form(s);
    let path = normalized(s)->Ok_0;
    lemma_walk_keeps(seq![], components(path));
    assert(Seq::<Seq<u8>>::empty() + components(path) =~= components(path));
}

/// `..` never climbs above the root: every prefix of `..` components names the root.
pub proof fn law_root_is_its_own_parent(n: nat)
    ensures
        walk_components(seq![], Seq::new(n, |i: int| seq![DOT, DOT])) == Some(
            Seq::<Seq<u8>>::empty(),
        ),
    decreases n,
{
    let ups = Seq::new(n, |i: int| seq![DOT, DOT]);
    if n > 0 {
        assert(ups.drop_first() =~= Seq::new((n - 1) as nat, |i: int| seq![DOT, DOT]));
        law_root_is_its_own_parent((n - 1) as nat);
        assert(seq![DOT, DOT].len() == 2 && seq![DOT].len() == 1);
    }
}

} // verus!
