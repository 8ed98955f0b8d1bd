//! Searching and comparing byte strings and tables.

use vstd::prelude::*;

verus! {

/// How many elements of `s` satisfy `p`.
pub open spec fn count<T>(s: Seq<T>, p: spec_fn(T) -> bool) -> nat
    decreases s.len(),
{
    if s.len() == 0 {
        0
    } else {
        count(s.drop_last(), p) + (if p(s.last()) {
            1nat
        } else {
            0nat
        })
    }
}

/// At most every element is counted.
pub proof fn lemma_count_bound<T>(s: Seq<T>, p: spec_fn(T) -> bool)
    ensures
        count(s, p) <= s.len(),
    decreases s.len(),
{
    if s.len() > 0 {
        lemma_count_bound(s.drop_last(), p);
    }
}

/// Extending a prefix by one element adds that element's count.
pub proof fn lemma_count_step<T>(s: Seq<T>, p: spec_fn(T) -> bool, i: int)
    requires
        0 <= i < s.len(),
    ensures
        count(s.take(i + 1), p) == count(s.take(i), p) + (if p(s[i]) {
            1nat
        } else {
            0nat
        }),
{
    assert(s.take(i + 1).drop_last() =~= s.take(i));
    assert(s.take(i + 1).last() == s[i]);
}

/// The count of a whole sequence taken as a prefix.
pub proof fn lemma_count_whole<T>(s: Seq<T>, p: spec_fn(T) -> bool)
    ensures
        count(s.take(s.len() as int), p) == count(s, p),
{
    assert(s.take(s.len() as int) =~= s);
}

/// Replacing one element changes the count by the difference of the two.
pub proof fn lemma_count_update<T>(s: Seq<T>, p: spec_fn(T) -> bool, i: int, v: T)
    requires
        0 <= i < s.len(),
    ensures
        count(s.update(i, v), p) == count(s, p) + (if p(v) {
            1int
        } else {
            0int
        }) - (if p(s[i]) {
            1int
        } else {
            0int
        }),
    decreases s.len(),
{
    if i == s.len() - 1 {
        assert(s.update(i, v).drop_last() =~= s.drop_last());
    } else {
        lemma_count_update(s.drop_last(), p, i, v);
        assert(s.update(i, v).drop_last() =~= s.drop_last().update(i, v));
        assert(s.update(i, v).last() == s.last());
    }
}

/// Nothing is counted exactly when no element satisfies the predicate.
pub proof fn lemma_count_zero<T>(s: Seq<T>, p: spec_fn(T) -> bool)
    ensures
        count(s, p) == 0 <==> forall|j: int| 0 <= j < s.len() ==> !p(#[trigger] s[j]),
    decreases s.len(),
{
    if s.len() > 0 {
        lemma_count_zero(s.drop_last(), p);
        if count(s, p) == 0 {
            assert forall|j: int| 0 <= j < s.len() implies !p(#[trigger] s[j]) by {
                if j < s.len() - 1 {
                    assert(!p(s.drop_last()[j]));
                }
            }
        } else if forall|j: int| 0 <= j < s.len() ==> !p(#[trigger] s[j]) {
            assert forall|j: int| 0 <= j < s.drop_last().len() implies !p(
                #[trigger] s.drop_last()[j],
            ) by {
                assert(!p(s[j]));
            }
            assert(!p(s[s.len() - 1]));
        }
    }
}

/// Everything is counted exactly when every element satisfies the predicate.
pub proof fn lemma_count_full<T>(s: Seq<T>, p: spec_fn(T) -> bool)
    ensures
        count(s, p) == s.len() <==> forall|j: int| 0 <= j < s.len() ==> p(#[trigger] s[j]),
    decreases s.len(),
{
    lemma_count_bound(s, p);
    if s.len() > 0 {
        lemma_count_bound(s.drop_last(), p);
        lemma_count_full(s.drop_last(), p);
        if count(s, p) == s.len() {
            assert forall|j: int| 0 <= j < s.len() implies p(#[trigger] s[j]) by {
                if j < s.len() - 1 {
                    assert(p(s.drop_last()[j]));
                }
            }
        } else if forall|j: int| 0 <= j < s.len() ==> p(#[trigger] s[j]) {
            assert forall|j: int| 0 <= j < s.drop_last().len() implies p(
                #[trigger] s.drop_last()[j],
            ) by {
                assert(p(s[j]));
            }
            assert(p(s[s.len() - 1]));
        }
    }
}

/// The position of the first byte equal to `byte`.
pub fn position_of(s: &[u8], byte: u8) -> (r: Option<usize>)
    ensures
        match r {
            Some(i) => i < s@.len() && s@[i as int] == byte && forall|j: int|
                0 <= j < i ==> #[trigger] s@[j] != byte,
            None => forall|j: int| 0 <= j < s@.len() ==> #[trigger] s@[j] != byte,
        },
{
    let mut i: usize = 0;
    while i < s.len()
        invariant
            0 <= i <= s@.len(),
            forall|j: int| 0 <= j < i ==> #[trigger] s@[j] != byte,
        decreases s@.len() - i,
    {
        if s[i] == byte {
            return Some(i);
        }
        i += 1;
    }
    None
}

/// The position of the last byte equal to `byte`.
pub fn rposition_of(s: &[u8], byte: u8) -> (r: Option<usize>)
    ensures
        match r {
            Some(i) => i < s@.len() && s@[i as int] == byte && forall|j: int|
                i < j < s@.len() ==> #[trigger] s@[j] != byte,
            None => forall|j: int| 0 <= j < s@.len() ==> #[trigger] s@[j] != byte,
        },
{
    let mut i: usize = s.len();
    while i > 0
        invariant
            0 <= i <= s@.len(),
            forall|j: int| i <= j < s@.len() ==> #[trigger] s@[j] != byte,
        decreases i,
    {
        i -= 1;
        if s[i] == byte {
            return Some(i);
        }
    }
    None
}

/// Whether two byte strings are equal.
pub fn bytes_equal(a: &[u8], b: &[u8]) -> (r: bool)
    ensures
        r == (a@ == b@),
{
    if a.len() != b.len() {
        return false;
    }
    let mut i: usize = 0;
    while i < a.len()
        invariant
            0 <= i <= a@.len(),
            a@.len() == b@.len(),
            forall|j: int| 0 <= j < i ==> a@[j] == b@[j],
        decreases a@.len() - i,
    {
        if a[i] != b[i] {
            assert(a@[i as int] != b@[i as int]);
            return false;
        }
        i += 1;
    }
    assert(a@ =~= b@);
    true
}

/// Whether `s` begins with `prefix`.
pub open spec fn has_prefix(s: Seq<u8>, prefix: Seq<u8>) -> bool {
    prefix.len() <= s.len() && s.take(prefix.len() as int) == prefix
}

/// Whether `s` begins with `prefix`.
pub fn starts_with(s: &[u8], prefix: &[u8]) -> (r: bool)
    ensures
        r == has_prefix(s@, prefix@),
{
    if prefix.len() > s.len() {
        return false;
    }
    bytes_equal(vstd::slice::slice_subrange(s, 0, prefix.len()), prefix)
}

/// The first `n` bytes of `s`.
pub fn prefix_of(s: &[u8], n: usize) -> (r: &[u8])
    requires
        n <= s@.len(),
    ensures
        r@ == s@.take(n as int),
{
    vstd::slice::slice_subrange(s, 0, n)
}

/// `dst` with `src` written over its bytes from `at` on.
pub open spec fn overwritten(dst: Seq<u8>, at: int, src: Seq<u8>) -> Seq<u8> {
    dst.take(at) + src + dst.skip(at + src.len())
}

/// Writes `src` over the bytes of `dst` from `at` on.
pub fn copy_at<const N: usize>(dst: &mut [u8; N], at: usize, src: &[u8])
    requires
        at + src@.len() <= N,
    ensures
        final(dst)@ == overwritten(old(dst)@, at as int, src@),
{
    let mut k: usize = 0;
    while k < src.len()
        invariant
            0 <= k <= src@.len(),
            at + src@.len() <= N,
            dst@.len() == N,
            old(dst)@.len() == N,
            forall|j: int| 0 <= j < at ==> dst@[j] == old(dst)@[j],
            forall|j: int| at <= j < at + k ==> dst@[j] == src@[j - at],
            forall|j: int| at + k <= j < N ==> dst@[j] == old(dst)@[j],
        decreases src@.len() - k,
    {
        dst[at + k] = src[k];
        k += 1;
    }
    assert(dst@ =~= overwritten(old(dst)@, at as int, src@));
}

/// Writes `src` over the bytes of `dst` from `at` on.
pub fn copy_slice(dst: &mut [u8], at: usize, src: &[u8])
    requires
        at + src@.len() <= old(dst)@.len(),
    ensures
        final(dst)@ == overwritten(old(dst)@, at as int, src@),
{
    let n: usize = dst.len();
    let mut k: usize = 0;
    while k < src.len()
        invariant
            0 <= k <= src@.len(),
            n == old(dst)@.len(),
            at + src@.len() <= n,
            dst@.len() == old(dst)@.len(),
            forall|j: int| 0 <= j < at ==> dst@[j] == old(dst)@[j],
            forall|j: int| at <= j < at + k ==> dst@[j] == src@[j - at],
            forall|j: int| at + k <= j < dst@.len() ==> dst@[j] == old(dst)@[j],
        decreases src@.len() - k,
    {
        dst[at + k] = src[k];
        k += 1;
    }
    assert(dst@ =~= overwritten(old(dst)@, at as int, src@));
}

} // verus!
