//! Keeping tool-call markup out of streamed text: a piece of text may be
//! shown only when it holds no opening tag and does not end with the start
//! of one, so that no later piece can complete a tag across the boundary.
use vstd::prelude::*;
use crate::text::{contains, occurs_at, lemma_find_from_props};

verus! {

/// `x` is a non-empty start of `t`, shorter than `t`.
pub open spec fn proper_prefix_of(x: Seq<char>, t: Seq<char>) -> bool {
    0 < x.len() < t.len() && t.take(x.len() as int) == x
}

/// No suffix of `s` is a non-empty start of either tag that is shorter than
/// the tag: nothing that follows `s` can complete a tag begun in `s`.
pub open spec fn safe_ended(s: Seq<char>, a: Seq<char>, b: Seq<char>) -> bool {
    forall|j: int|
        0 <= j < s.len() ==> !proper_prefix_of(#[trigger] s.skip(j), a) && !proper_prefix_of(s.skip(j), b)
}

/// `s` holds neither tag.
pub open spec fn free_of(s: Seq<char>, a: Seq<char>, b: Seq<char>) -> bool {
    !contains(s, a) && !contains(s, b)
}

/// Text that may be shown: it holds neither tag and ends safely.
pub open spec fn showable(s: Seq<char>, a: Seq<char>, b: Seq<char>) -> bool {
    safe_ended(s, a, b) && free_of(s, a, b)
}

/// The longest start `s[..q]`, with `q` at most `p`, that ends safely.
pub open spec fn safe_cut(s: Seq<char>, p: int, a: Seq<char>, b: Seq<char>) -> int
    decreases p,
{
    if p <= 0 {
        0
    } else if safe_ended(s.take(p), a, b) {
        p
    } else {
        safe_cut(s, p - 1, a, b)
    }
}

pub proof fn lemma_safe_cut(s: Seq<char>, p: int, a: Seq<char>, b: Seq<char>)
    requires
        0 <= p <= s.len(),
    ensures
        0 <= safe_cut(s, p, a, b) <= p,
        safe_ended(s.take(safe_cut(s, p, a, b)), a, b),
    decreases p,
{
    if p <= 0 {
        assert forall|j: int| 0 <= j < s.take(0).len() implies !proper_prefix_of(#[trigger] s.take(0).skip(j), a)
            && !proper_prefix_of(s.take(0).skip(j), b) by {}
    } else if !safe_ended(s.take(p), a, b) {
        lemma_safe_cut(s, p - 1, a, b);
    }
}

/// An occurrence of `t` inside `s` at `j`, where `s` holds no `t`, is
/// impossible.
proof fn lemma_no_occurrence(s: Seq<char>, t: Seq<char>, j: int)
    requires
        !contains(s, t),
        0 <= j,
    ensures
        !occurs_at(s, t, j),
{
    lemma_find_from_props(s, t, 0);
}

/// Two showable pieces make a showable text.
pub proof fn lemma_showable_concat(x: Seq<char>, y: Seq<char>, a: Seq<char>, b: Seq<char>)
    requires
        showable(x, a, b),
        showable(y, a, b),
        a.len() > 0,
        b.len() > 0,
    ensures
        showable(x + y, a, b),
{
    let s = x + y;
    assert forall|j: int| 0 <= j < s.len() implies !proper_prefix_of(#[trigger] s.skip(j), a)
        && !proper_prefix_of(s.skip(j), b) by {
        if j >= x.len() {
            assert(s.skip(j) =~= y.skip(j - x.len()));
        } else {
            assert(s.skip(j) =~= x.skip(j) + y);
            let u = x.skip(j);
            if proper_prefix_of(s.skip(j), a) {
                assert(a.take(u.len() as int) =~= s.skip(j).take(u.len() as int));
                assert(s.skip(j).take(u.len() as int) =~= u);
                assert(proper_prefix_of(u, a));
            }
            if proper_prefix_of(s.skip(j), b) {
                assert(b.take(u.len() as int) =~= s.skip(j).take(u.len() as int));
                assert(s.skip(j).take(u.len() as int) =~= u);
                assert(proper_prefix_of(u, b));
            }
        }
    }
    lemma_concat_free(x, y, a, b, a);
    lemma_concat_free(x, y, a, b, b);
    lemma_find_from_props(s, a, 0);
    lemma_find_from_props(s, b, 0);
}

pub proof fn lemma_concat_free(x: Seq<char>, y: Seq<char>, a: Seq<char>, b: Seq<char>, t: Seq<char>)
    requires
        showable(x, a, b),
        free_of(y, a, b),
        t == a || t == b,
        t.len() > 0,
    ensures
        !contains(x + y, t),
{
    let s = x + y;
    lemma_find_from_props(s, t, 0);
    if contains(s, t) {
        let j = crate::text::find(s, t)->0;
        assert(occurs_at(s, t, j));
        if j + t.len() <= x.len() {
            assert(s.subrange(j, j + t.len()) =~= x.subrange(j, j + t.len()));
            lemma_no_occurrence(x, t, j);
        } else if j >= x.len() {
            assert(s.subrange(j, j + t.len()) =~= y.subrange(j - x.len(), j - x.len() + t.len()));
            lemma_no_occurrence(y, t, j - x.len());
        } else {
            let u = x.skip(j);
            assert(u =~= s.subrange(j, x.len() as int));
            assert(t.take(u.len() as int) =~= s.subrange(j, j + t.len()).take(u.len() as int));
            assert(s.subrange(j, j + t.len()).take(u.len() as int) =~= u);
            assert(proper_prefix_of(u, t));
            assert(!proper_prefix_of(x.skip(j), a) && !proper_prefix_of(x.skip(j), b));
        }
    }
}

/// Text without `<` is showable when both tags start with `<`.
pub proof fn lemma_no_lt_showable(x: Seq<char>, a: Seq<char>, b: Seq<char>)
    requires
        forall|i: int| 0 <= i < x.len() ==> x[i] != '<',
        a.len() > 0 && a[0] == '<',
        b.len() > 0 && b[0] == '<',
    ensures
        showable(x, a, b),
{
    assert forall|j: int| 0 <= j < x.len() implies !proper_prefix_of(#[trigger] x.skip(j), a)
        && !proper_prefix_of(x.skip(j), b) by {
        assert(x.skip(j)[0] == x[j]);
        if proper_prefix_of(x.skip(j), a) {
            assert(a.take(x.skip(j).len() as int)[0] == a[0]);
        }
        if proper_prefix_of(x.skip(j), b) {
            assert(b.take(x.skip(j).len() as int)[0] == b[0]);
        }
    }
    lemma_find_from_props(x, a, 0);
    lemma_find_from_props(x, b, 0);
    if contains(x, a) {
        let j = crate::text::find(x, a)->0;
        assert(x.subrange(j, j + a.len())[0] == x[j]);
    }
    if contains(x, b) {
        let j = crate::text::find(x, b)->0;
        assert(x.subrange(j, j + b.len())[0] == x[j]);
    }
}

/// A start of a text that holds neither tag holds neither tag.
pub proof fn lemma_free_prefix(s: Seq<char>, q: int, a: Seq<char>, b: Seq<char>)
    requires
        0 <= q <= s.len(),
        forall|j: int| 0 <= j && j + a.len() <= q ==> !occurs_at(s, a, j),
        forall|j: int| 0 <= j && j + b.len() <= q ==> !occurs_at(s, b, j),
    ensures
        free_of(s.take(q), a, b),
{
    let x = s.take(q);
    lemma_find_from_props(x, a, 0);
    lemma_find_from_props(x, b, 0);
    if contains(x, a) {
        let j = crate::text::find(x, a)->0;
        assert(x.subrange(j, j + a.len()) =~= s.subrange(j, j + a.len()));
        assert(occurs_at(s, a, j));
    }
    if contains(x, b) {
        let j = crate::text::find(x, b)->0;
        assert(x.subrange(j, j + b.len()) =~= s.subrange(j, j + b.len()));
        assert(occurs_at(s, b, j));
    }
}

// ---------------------------------------------------------------------------
// Executable
// ---------------------------------------------------------------------------

/// Whether `s[j..q]` is a non-empty start of `t`, shorter than `t`.
fn is_proper_prefix_at(s: &Vec<char>, j: usize, q: usize, t: &Vec<char>) -> (r: bool)
    requires
        j <= q <= s.len(),
    ensures
        r == proper_prefix_of(s@.subrange(j as int, q as int), t@),
{
    let n = q - j;
    if n == 0 || n >= t.len() {
        return false;
    }
    let mut k: usize = 0;
    while k < n
        invariant
            k <= n,
            n == q - j,
            j <= q <= s.len(),
            n < t.len(),
            forall|i: int| 0 <= i < k ==> s@[j + i] == t@[i],
        decreases n - k,
    {
        if s[j + k] != t[k] {
            assert(t@.take(n as int)[k as int] != s@.subrange(j as int, q as int)[k as int]);
            return false;
        }
        k = k + 1;
    }
    assert(t@.take(n as int) =~= s@.subrange(j as int, q as int));
    true
}

/// Whether `s[..q]` ends safely.
fn safe_ended_upto(s: &Vec<char>, q: usize, a: &Vec<char>, b: &Vec<char>) -> (r: bool)
    requires
        q <= s.len(),
    ensures
        r == safe_ended(s@.take(q as int), a@, b@),
{
    let ghost x = s@.take(q as int);
    let mut j: usize = 0;
    while j < q
        invariant
            j <= q <= s.len(),
            x == s@.take(q as int),
            forall|i: int| 0 <= i < j ==> !proper_prefix_of(#[trigger] x.skip(i), a@) && !proper_prefix_of(x.skip(i), b@),
        decreases q - j,
    {
        assert(x.skip(j as int) =~= s@.subrange(j as int, q as int));
        if is_proper_prefix_at(s, j, q, a) || is_proper_prefix_at(s, j, q, b) {
            return false;
        }
        j = j + 1;
    }
    true
}

/// The longest start `s[..q]`, with `q` at most `p`, that ends safely (see
/// [`safe_cut`]).
pub fn safe_cut_chars(s: &Vec<char>, p: usize, a: &Vec<char>, b: &Vec<char>) -> (r: usize)
    requires
        p <= s.len(),
    ensures
        r as int == safe_cut(s@, p as int, a@, b@),
{
    let mut q = p;
    while q > 0
        invariant
            q <= p <= s.len(),
            safe_cut(s@, p as int, a@, b@) == safe_cut(s@, q as int, a@, b@),
        decreases q,
    {
        if safe_ended_upto(s, q, a, b) {
            return q;
        }
        q = q - 1;
    }
    0
}

} // verus!
