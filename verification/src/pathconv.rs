//! A standalone string transform for filesystem-path-like text: trims
//! surrounding whitespace, strips trailing path separators, converts
//! backslashes to forward slashes and lower-cases the rest. Also a small
//! helper over slices of optional values.

use vstd::prelude::*;
use vstd::string::StringExecFns;

verus! {

broadcast use vstd::slice::group_slice_axioms;

/// What `char::is_whitespace` returns: whether the character has the
/// Unicode whitespace property.
pub uninterp spec fn is_unicode_ws(c: char) -> bool;

/// Relies on `char::is_whitespace`: the Unicode whitespace property, a
/// function of the character alone.
#[verifier::external_body]
fn ws_char(c: char) -> (r: bool)
    ensures
        r == is_unicode_ws(c),
{
    c.is_whitespace()
}

/// What `char::to_lowercase` returns: the Unicode lowercase mapping of the
/// character, as a character sequence.
pub uninterp spec fn lower_chars_of(c: char) -> Seq<char>;

/// Relies on `char::to_lowercase`: the Unicode lowercase mapping, a
/// function of the character alone.
#[verifier::external_body]
fn lower_str(c: char) -> (r: String)
    ensures
        r@ == lower_chars_of(c),
{
    c.to_lowercase().collect()
}

/// Relies on `str::chars`: the characters of the text, in order.
#[verifier::external_body]
fn chars_vec(s: &str) -> (r: Vec<char>)
    ensures
        r@ == s@,
{
    s.chars().collect()
}

/// The length of the leading run of Unicode whitespace.
pub open spec fn lead_ws(s: Seq<char>) -> int
    decreases s.len(),
{
    if s.len() == 0 || !is_unicode_ws(s[0]) {
        0
    } else {
        1 + lead_ws(s.skip(1))
    }
}

/// The length of the trailing run of Unicode whitespace.
pub open spec fn tail_ws(s: Seq<char>) -> int
    decreases s.len(),
{
    if s.len() == 0 || !is_unicode_ws(s.last()) {
        0
    } else {
        1 + tail_ws(s.drop_last())
    }
}

/// The text with surrounding Unicode whitespace removed.
pub open spec fn str_trim(s: Seq<char>) -> Seq<char> {
    let t = s.skip(lead_ws(s));
    t.take(t.len() - tail_ws(t))
}

/// A path separator: a forward slash or a backslash.
pub open spec fn is_sep(c: char) -> bool {
    c == '/' || c == '\\'
}

/// The text with trailing path separators removed.
pub open spec fn strip_seps(s: Seq<char>) -> Seq<char>
    decreases s.len(),
{
    if s.len() > 0 && is_sep(s.last()) {
        strip_seps(s.drop_last())
    } else {
        s
    }
}

/// Each character mapped to its conventional form: a backslash becomes a
/// forward slash, anything else its lowercase mapping.
pub open spec fn conv_map(s: Seq<char>) -> Seq<char>
    decreases s.len(),
{
    if s.len() == 0 {
        Seq::<char>::empty()
    } else {
        conv_map(s.drop_last()) + (if s.last() == '\\' {
            seq!['/']
        } else {
            lower_chars_of(s.last())
        })
    }
}

/// The conventional form of a path: trimmed, trailing separators stripped,
/// backslashes forward-slashed and the rest lower-cased.
pub open spec fn conventional_path(s: Seq<char>) -> Seq<char> {
    conv_map(strip_seps(str_trim(s)))
}

proof fn lemma_lead_ws_eq(s: Seq<char>, n: int)
    requires
        0 <= n <= s.len(),
        forall|k: int| 0 <= k < n ==> is_unicode_ws(s[k]),
        n < s.len() ==> !is_unicode_ws(s[n]),
    ensures
        lead_ws(s) == n,
    decreases s.len(),
{
    if n > 0 {
        assert forall|k: int| 0 <= k < n - 1 implies is_unicode_ws(s.skip(1)[k]) by {
            assert(s.skip(1)[k] == s[k + 1]);
        }
        if n - 1 < s.skip(1).len() {
            assert(s.skip(1)[n - 1] == s[n]);
        }
        lemma_lead_ws_eq(s.skip(1), n - 1);
    }
}

proof fn lemma_tail_ws_eq(s: Seq<char>, n: int)
    requires
        0 <= n <= s.len(),
        forall|k: int| s.len() - n <= k < s.len() ==> is_unicode_ws(s[k]),
        n < s.len() ==> !is_unicode_ws(s[s.len() - n - 1]),
    ensures
        tail_ws(s) == n,
    decreases s.len(),
{
    if n > 0 {
        assert forall|k: int| s.drop_last().len() - (n - 1) <= k < s.drop_last().len() implies
            is_unicode_ws(s.drop_last()[k]) by {
            assert(s.drop_last()[k] == s[k]);
        }
        if n - 1 < s.drop_last().len() {
            assert(s.drop_last()[s.drop_last().len() - (n - 1) - 1] == s[s.len() - n - 1]);
        }
        lemma_tail_ws_eq(s.drop_last(), n - 1);
    }
}

proof fn lemma_strip_seps_eq(s: Seq<char>, m: int)
    requires
        0 <= m <= s.len(),
        forall|k: int| m <= k < s.len() ==> is_sep(s[k]),
        m > 0 ==> !is_sep(s[m - 1]),
    ensures
        strip_seps(s) == s.take(m),
    decreases s.len(),
{
    if s.len() == m {
        assert(s.take(m) =~= s);
    } else {
        assert(is_sep(s.last()));
        assert forall|k: int| m <= k < s.drop_last().len() implies is_sep(s.drop_last()[k]) by {
            assert(s.drop_last()[k] == s[k]);
        }
        if m > 0 {
            assert(s.drop_last()[m - 1] == s[m - 1]);
        }
        lemma_strip_seps_eq(s.drop_last(), m);
        assert(s.drop_last().take(m) =~= s.take(m));
    }
}

/// Writes the conventional form of `path` into `buf`, replacing its
/// contents: the path is trimmed of surrounding whitespace, trailing path
/// separators are dropped, each backslash becomes a forward slash and every
/// other character is lower-cased.
#[verifier::loop_isolation(false)]
pub fn write_conventional_path(path: &str, buf: &mut String)
    ensures
        final(buf)@ == conventional_path(path@),
{
    *buf = String::new();
    let cs = chars_vec(path);
    let mut a: usize = 0;
    while a < cs.len() && ws_char(cs[a])
        invariant
            a <= cs@.len(),
            forall|k: int| 0 <= k < a ==> is_unicode_ws(cs@[k]),
        decreases cs@.len() - a,
    {
        a = a + 1;
    }
    proof {
        lemma_lead_ws_eq(cs@, a as int);
    }
    let mut b: usize = cs.len();
    while b > a && ws_char(cs[b - 1])
        invariant
            a <= b <= cs@.len(),
            forall|k: int| b <= k < cs@.len() ==> is_unicode_ws(cs@[k]),
        decreases b,
    {
        b = b - 1;
    }
    let ghost t = cs@.skip(a as int);
    proof {
        assert forall|k: int| t.len() - (t.len() - (b - a)) <= k < t.len() implies is_unicode_ws(
            t[k],
        ) by {
            assert(t[k] == cs@[k + a]);
        }
        if t.len() - (b - a) < t.len() {
            assert(t[(b - a - 1) as int] == cs@[b - 1]);
        }
        lemma_tail_ws_eq(t, t.len() - (b - a));
        assert(str_trim(path@) =~= cs@.subrange(a as int, b as int));
    }
    let mut c: usize = b;
    while c > a && (cs[c - 1] == '/' || cs[c - 1] == '\\')
        invariant
            a <= c <= b,
            forall|k: int| c <= k < b ==> is_sep(cs@[k]),
        decreases c,
    {
        c = c - 1;
    }
    let ghost tr = cs@.subrange(a as int, b as int);
    proof {
        assert forall|k: int| c - a <= k < tr.len() implies is_sep(tr[k]) by {
            assert(tr[k] == cs@[k + a]);
        }
        if c > a {
            assert(tr[(c - a - 1) as int] == cs@[c - 1]);
        }
        lemma_strip_seps_eq(tr, c - a);
        assert(strip_seps(str_trim(path@)) =~= cs@.subrange(a as int, c as int));
    }
    let mut k: usize = a;
    proof {
        assert(conv_map(cs@.subrange(a as int, a as int)) =~= Seq::<char>::empty());
    }
    while k < c
        invariant
            a <= k <= c,
            buf@ == conv_map(cs@.subrange(a as int, k as int)),
        decreases c - k,
    {
        let ch = cs[k];
        if ch == '\\' {
            buf.append("/");
            proof {
                reveal_strlit("/");
                assert("/"@ =~= seq!['/']);
            }
        } else {
            let low = lower_str(ch);
            buf.append(low.as_str());
        }
        proof {
            assert(cs@.subrange(a as int, k + 1).drop_last() =~= cs@.subrange(a as int, k as int));
            assert(cs@.subrange(a as int, k + 1).last() == cs@[k as int]);
        }
        k = k + 1;
    }
}

/// The conventional form of `path` as a fresh string.
pub fn make_path_conventional(path: &str) -> (r: String)
    ensures
        r@ == conventional_path(path@),
{
    let mut buf = String::new();
    write_conventional_path(path, &mut buf);
    buf
}

/// Whether every entry of the slice is absent.
pub fn slice_has_none<T>(slice: &[Option<T>]) -> (r: bool)
    ensures
        r == (forall|k: int| 0 <= k < slice@.len() ==> slice@[k] is None),
{
    let mut k: usize = 0;
    while k < slice.len()
        invariant
            k <= slice@.len(),
            forall|j: int| 0 <= j < k ==> slice@[j] is None,
        decreases slice@.len() - k,
    {
        if slice[k].is_some() {
            return false;
        }
        k = k + 1;
    }
    true
}

} // verus!
