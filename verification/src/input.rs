//! The input model: parsers work over byte slices, always returning a strict
//! suffix of the slice they were given when they consume. This module holds
//! the byte-class predicates, prefix-run measures, sub-slicing helpers and
//! whitespace trimming that the whole crate is specified with.

use vstd::prelude::*;
use vstd::slice::slice_subrange;

verus! {

/// An ASCII decimal digit.
pub open spec fn is_digit_b(b: u8) -> bool {
    48 <= b && b <= 57
}

/// Horizontal whitespace: space or tab.
pub open spec fn is_hws(b: u8) -> bool {
    b == 32 || b == 9
}

/// ASCII whitespace: space, tab, line feed, carriage return, form feed.
pub open spec fn is_ascii_ws(b: u8) -> bool {
    b == 32 || b == 9 || b == 10 || b == 13 || b == 12
}

/// A byte that ends a word: carriage return, line feed, tab or space.
pub open spec fn is_word_break(b: u8) -> bool {
    b == 13 || b == 10 || b == 9 || b == 32
}

/// A byte that ends a line: carriage return or line feed.
pub open spec fn is_line_break(b: u8) -> bool {
    b == 13 || b == 10
}

/// The length of the longest prefix of `s` whose bytes all satisfy `p`.
pub open spec fn run_len(s: Seq<u8>, p: spec_fn(u8) -> bool) -> int
    decreases s.len(),
{
    if s.len() == 0 || !p(s[0]) {
        0
    } else {
        1 + run_len(s.skip(1), p)
    }
}

/// The length of the longest suffix of `s` whose bytes all satisfy `p`.
pub open spec fn end_run_len(s: Seq<u8>, p: spec_fn(u8) -> bool) -> int
    decreases s.len(),
{
    if s.len() == 0 || !p(s.last()) {
        0
    } else {
        1 + end_run_len(s.drop_last(), p)
    }
}

/// `s` with leading and trailing ASCII whitespace removed: first the leading
/// run is stripped, then the trailing run of what remains.
pub open spec fn trim_spec(s: Seq<u8>) -> Seq<u8> {
    let t = s.skip(run_len(s, |b: u8| is_ascii_ws(b)));
    t.take(t.len() - end_run_len(t, |b: u8| is_ascii_ws(b)))
}

pub proof fn lemma_run_len(s: Seq<u8>, p: spec_fn(u8) -> bool)
    ensures
        0 <= run_len(s, p) <= s.len(),
        forall|k: int| 0 <= k < run_len(s, p) ==> p(s[k]),
        run_len(s, p) < s.len() ==> !p(s[run_len(s, p)]),
    decreases s.len(),
{
    if s.len() == 0 || !p(s[0]) {
    } else {
        lemma_run_len(s.skip(1), p);
        assert forall|k: int| 0 <= k < run_len(s, p) implies p(s[k]) by {
            if k > 0 {
                assert(s.skip(1)[k - 1] == s[k]);
            }
        }
        if run_len(s, p) < s.len() {
            assert(s.skip(1)[run_len(s, p) - 1] == s[run_len(s, p)]);
        }
    }
}

/// A prefix-run is determined by its characterisation: if the first `n`
/// bytes satisfy `p` and the next one (if any) does not, the run is `n`.
pub proof fn lemma_run_len_eq(s: Seq<u8>, p: spec_fn(u8) -> bool, n: int)
    requires
        0 <= n <= s.len(),
        forall|k: int| 0 <= k < n ==> p(s[k]),
        n < s.len() ==> !p(s[n]),
    ensures
        run_len(s, p) == n,
    decreases s.len(),
{
    if n == 0 {
    } else {
        assert(p(s[0]));
        assert forall|k: int| 0 <= k < n - 1 implies p(s.skip(1)[k]) by {
            assert(s.skip(1)[k] == s[k + 1]);
        }
        if n - 1 < s.skip(1).len() {
            assert(s.skip(1)[n - 1] == s[n]);
        }
        lemma_run_len_eq(s.skip(1), p, n - 1);
    }
}

/// A suffix-run is determined by its characterisation, symmetrically.
pub proof fn lemma_end_run_len_eq(s: Seq<u8>, p: spec_fn(u8) -> bool, n: int)
    requires
        0 <= n <= s.len(),
        forall|k: int| s.len() - n <= k < s.len() ==> p(s[k]),
        n < s.len() ==> !p(s[s.len() - n - 1]),
    ensures
        end_run_len(s, p) == n,
    decreases s.len(),
{
    if n == 0 {
    } else {
        assert(p(s.last()));
        assert forall|k: int| s.drop_last().len() - (n - 1) <= k < s.drop_last().len() implies p(
            s.drop_last()[k],
        ) by {
            assert(s.drop_last()[k] == s[k]);
        }
        if n - 1 < s.drop_last().len() {
            assert(s.drop_last()[s.drop_last().len() - (n - 1) - 1] == s[s.len() - n - 1]);
        }
        lemma_end_run_len_eq(s.drop_last(), p, n - 1);
    }
}

/// The suffix of `s` from position `n` on.
pub fn take_from<'a>(s: &'a [u8], n: usize) -> (r: &'a [u8])
    requires
        n <= s@.len(),
    ensures
        r@ == s@.skip(n as int),
{
    let r = slice_subrange(s, n, s.len());
    proof {
        assert(r@ =~= s@.skip(n as int));
    }
    r
}

/// The prefix of `s` up to position `n`.
pub fn take_to<'a>(s: &'a [u8], n: usize) -> (r: &'a [u8])
    requires
        n <= s@.len(),
    ensures
        r@ == s@.take(n as int),
{
    let r = slice_subrange(s, 0, n);
    proof {
        assert(r@ =~= s@.take(n as int));
    }
    r
}

/// The length of the leading run of ASCII decimal digits.
pub fn digit_run(s: &[u8]) -> (n: usize)
    ensures
        n == run_len(s@, |b: u8| is_digit_b(b)),
{
    let ghost p = |b: u8| is_digit_b(b);
    let mut n: usize = 0;
    while n < s.len() && 48 <= s[n] && s[n] <= 57
        invariant
            p == (|b: u8| is_digit_b(b)),
            n <= s@.len(),
            forall|k: int| 0 <= k < n ==> p(s@[k]),
        decreases s@.len() - n,
    {
        n = n + 1;
    }
    proof {
        lemma_run_len_eq(s@, p, n as int);
    }
    n
}

/// The length of the leading run of spaces and tabs.
pub fn hws_run(s: &[u8]) -> (n: usize)
    ensures
        n == run_len(s@, |b: u8| is_hws(b)),
{
    let ghost p = |b: u8| is_hws(b);
    let mut n: usize = 0;
    while n < s.len() && (s[n] == 32 || s[n] == 9)
        invariant
            p == (|b: u8| is_hws(b)),
            n <= s@.len(),
            forall|k: int| 0 <= k < n ==> p(s@[k]),
        decreases s@.len() - n,
    {
        n = n + 1;
    }
    proof {
        lemma_run_len_eq(s@, p, n as int);
    }
    n
}

/// The length of the leading run of bytes that do not end a word.
pub fn word_run(s: &[u8]) -> (n: usize)
    ensures
        n == run_len(s@, |b: u8| !is_word_break(b)),
{
    let ghost p = |b: u8| !is_word_break(b);
    let mut n: usize = 0;
    while n < s.len() && s[n] != 13 && s[n] != 10 && s[n] != 9 && s[n] != 32
        invariant
            p == (|b: u8| !is_word_break(b)),
            n <= s@.len(),
            forall|k: int| 0 <= k < n ==> p(s@[k]),
        decreases s@.len() - n,
    {
        n = n + 1;
    }
    proof {
        lemma_run_len_eq(s@, p, n as int);
    }
    n
}

/// The length of the leading run of bytes that do not end a line.
pub fn line_run(s: &[u8]) -> (n: usize)
    ensures
        n == run_len(s@, |b: u8| !is_line_break(b)),
{
    let ghost p = |b: u8| !is_line_break(b);
    let mut n: usize = 0;
    while n < s.len() && s[n] != 13 && s[n] != 10
        invariant
            p == (|b: u8| !is_line_break(b)),
            n <= s@.len(),
            forall|k: int| 0 <= k < n ==> p(s@[k]),
        decreases s@.len() - n,
    {
        n = n + 1;
    }
    proof {
        lemma_run_len_eq(s@, p, n as int);
    }
    n
}

/// The length of the leading run of bytes other than a closing curly brace.
pub fn non_curly_run(s: &[u8]) -> (n: usize)
    ensures
        n == run_len(s@, |b: u8| b != 125),
{
    let ghost p = |b: u8| b != 125;
    let mut n: usize = 0;
    while n < s.len() && s[n] != 125
        invariant
            p == (|b: u8| b != 125),
            n <= s@.len(),
            forall|k: int| 0 <= k < n ==> p(s@[k]),
        decreases s@.len() - n,
    {
        n = n + 1;
    }
    proof {
        lemma_run_len_eq(s@, p, n as int);
    }
    n
}

/// `s` with leading and trailing ASCII whitespace removed.
pub fn trim<'a>(s: &'a [u8]) -> (r: &'a [u8])
    ensures
        r@ == trim_spec(s@),
{
    let ghost p = |b: u8| is_ascii_ws(b);
    let mut a: usize = 0;
    while a < s.len() && (s[a] == 32 || s[a] == 9 || s[a] == 10 || s[a] == 13 || s[a] == 12)
        invariant
            p == (|b: u8| is_ascii_ws(b)),
            a <= s@.len(),
            forall|k: int| 0 <= k < a ==> p(s@[k]),
        decreases s@.len() - a,
    {
        a = a + 1;
    }
    proof {
        lemma_run_len_eq(s@, p, a as int);
    }
    let mut b: usize = s.len();
    while b > a && (s[b - 1] == 32 || s[b - 1] == 9 || s[b - 1] == 10 || s[b - 1] == 13 || s[b - 1]
        == 12)
        invariant
            p == (|b2: u8| is_ascii_ws(b2)),
            a <= b <= s@.len(),
            forall|k: int| b <= k < s@.len() ==> p(s@[k]),
        decreases b,
    {
        b = b - 1;
    }
    let ghost t = s@.skip(a as int);
    proof {
        assert forall|k: int| t.len() - (t.len() - (b - a)) <= k < t.len() implies p(t[k]) by {
            assert(t[k] == s@[k + a]);
        }
        if t.len() - (b - a) < t.len() {
            assert(t[(b - a - 1) as int] == s@[b - 1]);
        }
        lemma_end_run_len_eq(t, p, t.len() - (b - a));
    }
    let r = slice_subrange(s, a, b);
    proof {
        assert(r@ =~= t.take((b - a) as int));
        assert(r@ =~= trim_spec(s@));
    }
    r
}

} // verus!
