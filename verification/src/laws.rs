//! Laws of the toolkit, each proved against the spec models the parsers'
//! contracts are stated with.

use vstd::prelude::*;
use vstd::arithmetic::div_mod::lemma_fundamental_div_mod;
use crate::outcome::{ErrKind, POut, Sev, frames1};
use crate::input::{is_digit_b, is_ascii_ws, run_len, lemma_run_len, lemma_run_len_eq};
use crate::lex::{dec_val, int_val, int_text_len, integer_model};
use crate::repeat::{many_model, many_model_from, sep_cont_model};

verus! {

/// The decimal digit bytes of a non-negative integer, most significant
/// first.
pub open spec fn dec_bytes(n: int) -> Seq<u8>
    decreases n,
{
    if n < 0 {
        Seq::<u8>::empty()
    } else if n < 10 {
        seq![(48 + n) as u8]
    } else {
        dec_bytes(n / 10).push((48 + (n % 10)) as u8)
    }
}

pub proof fn lemma_dec_bytes_digits(n: int)
    requires
        n >= 0,
    ensures
        dec_bytes(n).len() >= 1,
        forall|k: int| 0 <= k < dec_bytes(n).len() ==> is_digit_b(dec_bytes(n)[k]),
    decreases n,
{
    if n >= 10 {
        lemma_dec_bytes_digits(n / 10);
        assert forall|k: int| 0 <= k < dec_bytes(n).len() implies is_digit_b(dec_bytes(n)[k]) by {
            if k < dec_bytes(n / 10).len() {
                assert(dec_bytes(n)[k] == dec_bytes(n / 10)[k]);
            }
        }
    }
}

/// Decimal text evaluates back to the number it was written from.
pub proof fn lemma_dec_val_dec_bytes(n: int)
    requires
        n >= 0,
    ensures
        dec_val(dec_bytes(n)) == n,
    decreases n,
{
    if n < 10 {
        let b = (48 + n) as u8;
        assert(b == 48 + n);
        assert(dec_bytes(n) =~= seq![b]);
        assert(dec_bytes(n).drop_last() =~= Seq::<u8>::empty());
        assert(dec_bytes(n).last() == b);
        assert(dec_val(Seq::<u8>::empty()) == 0);
        assert(dec_val(dec_bytes(n)) == dec_val(dec_bytes(n).drop_last()) * 10 + (
        dec_bytes(n).last() - 48));
        assert(dec_val(dec_bytes(n)) == n);
    } else {
        lemma_dec_val_dec_bytes(n / 10);
        lemma_fundamental_div_mod(n, 10);
        let b = (48 + (n % 10)) as u8;
        assert(b == 48 + (n % 10));
        assert(dec_bytes(n).drop_last() =~= dec_bytes(n / 10));
        assert(dec_bytes(n).last() == b);
        assert(dec_val(dec_bytes(n)) == dec_val(dec_bytes(n / 10)) * 10 + (b - 48));
        assert(n == 10 * (n / 10) + n % 10);
        assert(dec_val(dec_bytes(n)) == n);
    }
}

/// LAW: for every non-negative integer, the signed-integer parser applied to
/// its decimal text followed by trailing whitespace matches exactly the
/// decimal text and evaluates to the integer, and the same text with a
/// leading minus sign evaluates to its negation; whenever the value fits the
/// result type, the parser's model returns exactly that value with exactly
/// the whitespace remaining.
pub proof fn lemma_integer_parses_decimal(n: int, ws: Seq<u8>)
    requires
        n >= 0,
        forall|k: int| 0 <= k < ws.len() ==> is_ascii_ws(ws[k]),
    ensures
        int_text_len(dec_bytes(n) + ws) == dec_bytes(n).len(),
        int_val((dec_bytes(n) + ws).take(dec_bytes(n).len() as int)) == n,
        int_text_len(seq![45u8] + dec_bytes(n) + ws) == 1 + dec_bytes(n).len(),
        int_val((seq![45u8] + dec_bytes(n) + ws).take(1 + dec_bytes(n).len() as int)) == -n,
        n <= i64::MAX ==> integer_model(dec_bytes(n) + ws) == (POut::Parsed::<i64> {
            rest: ws,
            val: n as i64,
        }),
        n <= i64::MAX ==> integer_model(seq![45u8] + dec_bytes(n) + ws) == (POut::Parsed::<i64> {
            rest: ws,
            val: (-n) as i64,
        }),
{
    let p = |b: u8| is_digit_b(b);
    let a = dec_bytes(n);
    lemma_dec_bytes_digits(n);
    lemma_dec_val_dec_bytes(n);
    let s = a + ws;
    assert forall|k: int| 0 <= k < a.len() implies p(s[k]) by {
        assert(s[k] == a[k]);
    }
    if a.len() < s.len() {
        assert(s[a.len() as int] == ws[0]);
        assert(!p(s[a.len() as int]));
    }
    lemma_run_len_eq(s, p, a.len() as int);
    assert(s[0] == a[0]);
    assert(int_text_len(s) == a.len());
    assert(s.take(a.len() as int) =~= a);
    assert(int_val(a) == n);

    let m = seq![45u8] + a + ws;
    assert(m[0] == 45);
    assert(m.skip(1) =~= s);
    assert(int_text_len(m) == 1 + a.len());
    let mt = m.take(1 + a.len() as int);
    assert(mt[0] == 45);
    assert(mt.skip(1) =~= a);
    assert(int_val(mt) == -n);

    if n <= i64::MAX {
        assert(s.skip(a.len() as int) =~= ws);
        assert(m.skip(1 + a.len() as int) =~= ws);
        assert(integer_model(s) == (POut::Parsed::<i64> { rest: ws, val: n as i64 }));
        assert(integer_model(m) == (POut::Parsed::<i64> { rest: ws, val: (-n) as i64 }));
    }
}

/// A chain of successful, strictly advancing rounds of the model `g`: from
/// `s`, each round yields the next value of `vals` and a strictly shorter
/// remaining input, ending at `rest`.
pub open spec fn oks_chain<O>(
    g: spec_fn(Seq<u8>) -> POut<O>,
    s: Seq<u8>,
    vals: Seq<O>,
    rest: Seq<u8>,
) -> bool
    decreases vals.len(),
{
    if vals.len() == 0 {
        s == rest
    } else {
        match g(s) {
            POut::Parsed { rest: r1, val } => val == vals[0] && r1.len() < s.len() && oks_chain(
                g,
                r1,
                vals.skip(1),
                rest,
            ),
            POut::Failed { .. } => false,
        }
    }
}

/// Walking a chain of advancing successes moves the bounded repetition's
/// model forward, appending the chain's values, as long as the capacity is
/// not exceeded.
pub proof fn lemma_many_from_walk<O>(
    g: spec_fn(Seq<u8>) -> POut<O>,
    s: Seq<u8>,
    taken: Seq<O>,
    min: int,
    cap: int,
    vals: Seq<O>,
    mid: Seq<u8>,
)
    requires
        oks_chain(g, s, vals, mid),
        taken.len() + vals.len() <= cap,
    ensures
        many_model_from(g, s, taken, min, cap) == many_model_from(g, mid, taken + vals, min, cap),
    decreases vals.len(),
{
    if vals.len() == 0 {
        assert(taken + vals =~= taken);
    } else {
        match g(s) {
            POut::Parsed { rest: r1, val } => {
                lemma_many_from_walk(g, r1, taken.push(vals[0]), min, cap, vals.skip(1), mid);
                assert(taken.push(vals[0]) + vals.skip(1) =~= taken + vals);
            },
            POut::Failed { .. } => {
                assert(false);
            },
        }
    }
}

/// LAW: for every capacity, an input on which the sub-parser's model yields
/// exactly `cap` well-formed, advancing elements makes the bounded
/// repetition succeed with exactly those `cap` elements and leave the rest
/// of the input (however ill-formed) unconsumed — regardless of the minimum.
pub proof fn lemma_many_array_full_capacity<O>(
    g: spec_fn(Seq<u8>) -> POut<O>,
    s: Seq<u8>,
    min: int,
    cap: int,
    vals: Seq<O>,
    rest: Seq<u8>,
)
    requires
        oks_chain(g, s, vals, rest),
        vals.len() == cap,
    ensures
        many_model(g, s, min, cap) == (POut::Parsed::<Seq<O>> { rest, val: vals }),
{
    lemma_many_from_walk(g, s, Seq::<O>::empty(), min, cap, vals, rest);
    assert(Seq::<O>::empty() + vals =~= vals);
}

/// LAW: an input with fewer well-formed elements than the minimum makes the
/// bounded repetition fail, with the sub-parser's error wrapped at the
/// position of the first failing element (its remaining length `mid.len()`).
pub proof fn lemma_many_array_below_min<O>(
    g: spec_fn(Seq<u8>) -> POut<O>,
    s: Seq<u8>,
    min: int,
    cap: int,
    vals: Seq<O>,
    mid: Seq<u8>,
    fr: Seq<(int, ErrKind)>,
)
    requires
        oks_chain(g, s, vals, mid),
        vals.len() < min,
        vals.len() < cap,
        g(mid) == (POut::Failed::<O> { sev: Sev::Rec, frames: fr }),
    ensures
        many_model(g, s, min, cap) == (POut::Failed::<Seq<O>> {
            sev: Sev::Rec,
            frames: fr.push((mid.len() as int, ErrKind::ManyMN)),
        }),
{
    lemma_many_from_walk(g, s, Seq::<O>::empty(), min, cap, vals, mid);
    assert(Seq::<O>::empty() + vals =~= vals);
}

/// LAW: a sub-parser whose model matches a zero-length span at any reachable
/// point makes the bounded repetition fail with the non-advancing-repetition
/// error there, rather than loop; the model itself is a total function, so
/// non-termination is ruled out outright.
pub proof fn lemma_many_array_non_advancing<O>(
    g: spec_fn(Seq<u8>) -> POut<O>,
    s: Seq<u8>,
    min: int,
    cap: int,
    vals: Seq<O>,
    mid: Seq<u8>,
    r1: Seq<u8>,
    v: O,
)
    requires
        oks_chain(g, s, vals, mid),
        vals.len() < cap,
        g(mid) == (POut::Parsed::<O> { rest: r1, val: v }),
        r1.len() >= mid.len(),
    ensures
        many_model(g, s, min, cap) == (POut::Failed::<Seq<O>> {
            sev: Sev::Rec,
            frames: frames1(mid.len() as int, ErrKind::ManyMN),
        }),
{
    lemma_many_from_walk(g, s, Seq::<O>::empty(), min, cap, vals, mid);
    assert(Seq::<O>::empty() + vals =~= vals);
}

/// LAW: a separator whose model matches a zero-length span at any reachable
/// point of the separated list makes the list fail with the
/// non-advancing-repetition error there, rather than loop.
pub proof fn lemma_separated_list_non_advancing<O>(
    gsep: spec_fn(Seq<u8>) -> POut<()>,
    g: spec_fn(Seq<u8>) -> POut<O>,
    cur: Seq<u8>,
    acc: Seq<O>,
    s1: Seq<u8>,
)
    requires
        gsep(cur) == (POut::Parsed::<()> { rest: s1, val: () }),
        s1.len() >= cur.len(),
    ensures
        sep_cont_model(gsep, g, cur, acc) == (POut::Failed::<Seq<O>> {
            sev: Sev::Rec,
            frames: frames1(s1.len() as int, ErrKind::SeparatedList),
        }),
{
}

} // verus!
