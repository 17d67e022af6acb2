//! Lexical primitives: literal tags, single bytes, whitespace, digit runs,
//! line terminators, words, whole lines, integers and a one-digit boolean.
//!
//! Each parser has a spec-level model function giving its exact outcome on
//! every input; the executable parser is proved to agree with it.

use vstd::prelude::*;
use crate::outcome::{ErrKind, POut, PResult, Sev, frames1, out_matches, out_matches_bytes,
    out_matches_opt_bytes, rec_fail};
use crate::input::{is_digit_b, is_hws, is_word_break, is_line_break, run_len, trim_spec,
    lemma_run_len, take_from, take_to, digit_run, hws_run, word_run, line_run, non_curly_run,
    trim};

verus! {

broadcast use vstd::slice::group_slice_axioms;

/// The outcome of matching the literal `t` at the head of `s`.
pub open spec fn tag_model(t: Seq<u8>, s: Seq<u8>) -> POut<Seq<u8>> {
    if t.len() <= s.len() && s.take(t.len() as int) == t {
        POut::Parsed { rest: s.skip(t.len() as int), val: t }
    } else {
        POut::Failed { sev: Sev::Rec, frames: frames1(s.len() as int, ErrKind::Tag) }
    }
}

/// Matches the literal byte-string `t` exactly at the head of the input.
#[verifier::loop_isolation(false)]
pub fn tag<'a>(s: &'a [u8], t: &[u8]) -> (r: PResult<'a, &'a [u8]>)
    ensures
        out_matches_bytes(r, tag_model(t@, s@)),
{
    if t.len() > s.len() {
        return Err(rec_fail(s.len(), ErrKind::Tag));
    }
    let mut k: usize = 0;
    while k < t.len()
        invariant
            k <= t@.len(),
            forall|j: int| 0 <= j < k ==> s@[j] == t@[j],
        decreases t@.len() - k,
    {
        if s[k] != t[k] {
            proof {
                assert(s@.take(t@.len() as int)[k as int] != t@[k as int]);
            }
            return Err(rec_fail(s.len(), ErrKind::Tag));
        }
        k += 1;
    }
    proof {
        assert(s@.take(t@.len() as int) =~= t@);
    }
    Ok((take_from(s, t.len()), take_to(s, t.len())))
}

/// The outcome of matching the single byte `c` at the head of `s`.
pub open spec fn byte_model(c: u8, s: Seq<u8>) -> POut<u8> {
    if s.len() > 0 && s[0] == c {
        POut::Parsed { rest: s.skip(1), val: c }
    } else {
        POut::Failed { sev: Sev::Rec, frames: frames1(s.len() as int, ErrKind::Char) }
    }
}

/// Matches exactly the byte `c` at the head of the input.
pub fn one_byte<'a>(s: &'a [u8], c: u8) -> (r: PResult<'a, u8>)
    ensures
        out_matches(r, byte_model(c, s@)),
{
    if s.len() > 0 && s[0] == c {
        Ok((take_from(s, 1), c))
    } else {
        Err(rec_fail(s.len(), ErrKind::Char))
    }
}

/// The outcome of consuming the (possibly empty) run of spaces and tabs.
pub open spec fn space0_model(s: Seq<u8>) -> POut<Seq<u8>> {
    let n = run_len(s, |b: u8| is_hws(b));
    POut::Parsed { rest: s.skip(n), val: s.take(n) }
}

/// Consumes the leading run of spaces and tabs; never fails.
pub fn space0<'a>(s: &'a [u8]) -> (r: PResult<'a, &'a [u8]>)
    ensures
        out_matches_bytes(r, space0_model(s@)),
{
    proof {
        lemma_run_len(s@, |b: u8| is_hws(b));
    }
    let n = hws_run(s);
    Ok((take_from(s, n), take_to(s, n)))
}

/// The outcome of consuming a non-empty run of spaces and tabs.
pub open spec fn space1_model(s: Seq<u8>) -> POut<Seq<u8>> {
    let n = run_len(s, |b: u8| is_hws(b));
    if n > 0 {
        POut::Parsed { rest: s.skip(n), val: s.take(n) }
    } else {
        POut::Failed { sev: Sev::Rec, frames: frames1(s.len() as int, ErrKind::Space) }
    }
}

/// Consumes at least one space or tab.
pub fn space1<'a>(s: &'a [u8]) -> (r: PResult<'a, &'a [u8]>)
    ensures
        out_matches_bytes(r, space1_model(s@)),
{
    proof {
        lemma_run_len(s@, |b: u8| is_hws(b));
    }
    let n = hws_run(s);
    if n == 0 {
        Err(rec_fail(s.len(), ErrKind::Space))
    } else {
        Ok((take_from(s, n), take_to(s, n)))
    }
}

/// The length of a line terminator at the head of `s`: `\n` or `\r\n`.
pub open spec fn eol_len(s: Seq<u8>) -> int {
    if s.len() >= 1 && s[0] == 10 {
        1
    } else if s.len() >= 2 && s[0] == 13 && s[1] == 10 {
        2
    } else {
        0
    }
}

/// The outcome of matching a line terminator at the head of `s`.
pub open spec fn line_ending_model(s: Seq<u8>) -> POut<Seq<u8>> {
    if eol_len(s) > 0 {
        POut::Parsed { rest: s.skip(eol_len(s)), val: s.take(eol_len(s)) }
    } else {
        POut::Failed { sev: Sev::Rec, frames: frames1(s.len() as int, ErrKind::CrLf) }
    }
}

/// Matches a line terminator: a line feed, or a carriage return followed by
/// a line feed.
pub fn line_ending<'a>(s: &'a [u8]) -> (r: PResult<'a, &'a [u8]>)
    ensures
        out_matches_bytes(r, line_ending_model(s@)),
{
    if s.len() >= 1 && s[0] == 10 {
        Ok((take_from(s, 1), take_to(s, 1)))
    } else if s.len() >= 2 && s[0] == 13 && s[1] == 10 {
        Ok((take_from(s, 2), take_to(s, 2)))
    } else {
        Err(rec_fail(s.len(), ErrKind::CrLf))
    }
}

/// The outcome of requiring end of input.
pub open spec fn eof_model(s: Seq<u8>) -> POut<Seq<u8>> {
    if s.len() == 0 {
        POut::Parsed { rest: s, val: s }
    } else {
        POut::Failed { sev: Sev::Rec, frames: frames1(s.len() as int, ErrKind::Eof) }
    }
}

/// Succeeds exactly at the end of the input, consuming nothing.
pub fn eof<'a>(s: &'a [u8]) -> (r: PResult<'a, &'a [u8]>)
    ensures
        out_matches_bytes(r, eof_model(s@)),
{
    if s.len() == 0 {
        Ok((s, s))
    } else {
        Err(rec_fail(s.len(), ErrKind::Eof))
    }
}

/// The outcome of `end_of_line`: optional horizontal whitespace followed by
/// a line terminator or the end of the input.
pub open spec fn end_of_line_model(s: Seq<u8>) -> POut<Seq<u8>> {
    let n = run_len(s, |b: u8| is_hws(b));
    let t = s.skip(n);
    if eol_len(t) > 0 {
        POut::Parsed { rest: t.skip(eol_len(t)), val: s.take(n + eol_len(t)) }
    } else if t.len() == 0 {
        POut::Parsed { rest: t, val: s.take(n) }
    } else {
        POut::Failed { sev: Sev::Rec, frames: frames1(t.len() as int, ErrKind::Eof) }
    }
}

/// Optional horizontal whitespace, then a line terminator or end of input;
/// returns the whole matched span. Terminates every key-value and section
/// construct, so trailing spaces before a newline are tolerated uniformly.
pub fn end_of_line<'a>(s: &'a [u8]) -> (r: PResult<'a, &'a [u8]>)
    ensures
        out_matches_bytes(r, end_of_line_model(s@)),
{
    proof {
        lemma_run_len(s@, |b: u8| is_hws(b));
        assert(s@.len() == s.len());
    }
    let n = hws_run(s);
    let t = take_from(s, n);
    if t.len() >= 1 && t[0] == 10 {
        Ok((take_from(t, 1), take_to(s, n + 1)))
    } else if t.len() >= 2 && t[0] == 13 && t[1] == 10 {
        Ok((take_from(t, 2), take_to(s, n + 2)))
    } else if t.len() == 0 {
        Ok((t, take_to(s, n)))
    } else {
        Err(rec_fail(t.len(), ErrKind::Eof))
    }
}

/// The outcome of `t_rn`: optional horizontal whitespace followed by a
/// mandatory line terminator.
pub open spec fn t_rn_model(s: Seq<u8>) -> POut<Seq<u8>> {
    let n = run_len(s, |b: u8| is_hws(b));
    let t = s.skip(n);
    if eol_len(t) > 0 {
        POut::Parsed { rest: t.skip(eol_len(t)), val: s.take(n + eol_len(t)) }
    } else {
        POut::Failed { sev: Sev::Rec, frames: frames1(t.len() as int, ErrKind::CrLf) }
    }
}

/// Optional horizontal whitespace, then a mandatory line terminator; returns
/// the whole matched span.
pub fn t_rn<'a>(s: &'a [u8]) -> (r: PResult<'a, &'a [u8]>)
    ensures
        out_matches_bytes(r, t_rn_model(s@)),
{
    proof {
        lemma_run_len(s@, |b: u8| is_hws(b));
        assert(s@.len() == s.len());
    }
    let n = hws_run(s);
    let t = take_from(s, n);
    if t.len() >= 1 && t[0] == 10 {
        Ok((take_from(t, 1), take_to(s, n + 1)))
    } else if t.len() >= 2 && t[0] == 13 && t[1] == 10 {
        Ok((take_from(t, 2), take_to(s, n + 2)))
    } else {
        Err(rec_fail(t.len(), ErrKind::CrLf))
    }
}

/// The outcome of consuming a non-empty run of decimal digits.
pub open spec fn digit1_model(s: Seq<u8>) -> POut<Seq<u8>> {
    let n = run_len(s, |b: u8| is_digit_b(b));
    if n > 0 {
        POut::Parsed { rest: s.skip(n), val: s.take(n) }
    } else {
        POut::Failed { sev: Sev::Rec, frames: frames1(s.len() as int, ErrKind::Digit) }
    }
}

/// Consumes at least one decimal digit and returns the run.
pub fn digit1<'a>(s: &'a [u8]) -> (r: PResult<'a, &'a [u8]>)
    ensures
        out_matches_bytes(r, digit1_model(s@)),
{
    proof {
        lemma_run_len(s@, |b: u8| is_digit_b(b));
    }
    let n = digit_run(s);
    if n == 0 {
        Err(rec_fail(s.len(), ErrKind::Digit))
    } else {
        Ok((take_from(s, n), take_to(s, n)))
    }
}

/// The length of the signed-integer text at the head of `s`: an optional
/// leading minus sign followed by at least one decimal digit. Zero means no
/// match.
pub open spec fn int_text_len(s: Seq<u8>) -> int {
    if s.len() > 0 && s[0] == 45 {
        if run_len(s.skip(1), |b: u8| is_digit_b(b)) > 0 {
            1 + run_len(s.skip(1), |b: u8| is_digit_b(b))
        } else {
            0
        }
    } else {
        run_len(s, |b: u8| is_digit_b(b))
    }
}

/// The remaining length at which a failed signed-integer match reports its
/// error: after the minus sign if one was consumed, else at the input.
pub open spec fn int_err_rem(s: Seq<u8>) -> int {
    if s.len() > 0 && s[0] == 45 {
        s.len() - 1
    } else {
        s.len() as int
    }
}

/// The outcome of recognising signed-integer text, returned as the span.
pub open spec fn idigit1_model(s: Seq<u8>) -> POut<Seq<u8>> {
    let m = int_text_len(s);
    if m > 0 {
        POut::Parsed { rest: s.skip(m), val: s.take(m) }
    } else {
        POut::Failed { sev: Sev::Rec, frames: frames1(int_err_rem(s), ErrKind::Digit) }
    }
}

/// Recognises an optional minus sign followed by at least one decimal digit,
/// returning the matched span.
pub fn idigit1<'a>(s: &'a [u8]) -> (r: PResult<'a, &'a [u8]>)
    ensures
        out_matches_bytes(r, idigit1_model(s@)),
{
    let start: usize = if s.len() > 0 && s[0] == 45 {
        1
    } else {
        0
    };
    let t = take_from(s, start);
    proof {
        lemma_run_len(t@, |b: u8| is_digit_b(b));
        if start == 0 {
            assert(s@.skip(0) =~= s@);
        }
    }
    let n = digit_run(t);
    if n == 0 {
        Err(rec_fail(t.len(), ErrKind::Digit))
    } else {
        proof {
            assert(int_text_len(s@) == start + n);
        }
        Ok((take_from(s, start + n), take_to(s, start + n)))
    }
}

/// The outcome of consuming the longest non-empty run of bytes containing
/// no carriage return, line feed, tab or space.
pub open spec fn word_model(s: Seq<u8>) -> POut<Seq<u8>> {
    let n = run_len(s, |b: u8| !is_word_break(b));
    if n > 0 {
        POut::Parsed { rest: s.skip(n), val: s.take(n) }
    } else {
        POut::Failed { sev: Sev::Rec, frames: frames1(s.len() as int, ErrKind::TakeTill1) }
    }
}

/// The longest non-empty run of bytes excluding carriage return, line feed,
/// tab and space.
pub fn word<'a>(s: &'a [u8]) -> (r: PResult<'a, &'a [u8]>)
    ensures
        out_matches_bytes(r, word_model(s@)),
{
    proof {
        lemma_run_len(s@, |b: u8| !is_word_break(b));
    }
    let n = word_run(s);
    if n == 0 {
        Err(rec_fail(s.len(), ErrKind::TakeTill1))
    } else {
        Ok((take_from(s, n), take_to(s, n)))
    }
}

/// The outcome of `line`: a non-empty run of non-terminator bytes followed
/// by a line terminator or end of input; the value is the run with
/// surrounding ASCII whitespace trimmed, and the terminator is consumed.
pub open spec fn line_model(s: Seq<u8>) -> POut<Seq<u8>> {
    let n = run_len(s, |b: u8| !is_line_break(b));
    if n == 0 {
        POut::Failed { sev: Sev::Rec, frames: frames1(s.len() as int, ErrKind::TakeTill1) }
    } else {
        let t = s.skip(n);
        if t.len() == 0 {
            POut::Parsed { rest: t, val: trim_spec(s.take(n)) }
        } else if eol_len(t) > 0 {
            POut::Parsed { rest: t.skip(eol_len(t)), val: trim_spec(s.take(n)) }
        } else {
            POut::Failed { sev: Sev::Rec, frames: frames1(t.len() as int, ErrKind::CrLf) }
        }
    }
}

/// A whole line: its non-terminator content trimmed of surrounding ASCII
/// whitespace, with the terminator (or end of input) consumed.
pub fn line<'a>(s: &'a [u8]) -> (r: PResult<'a, &'a [u8]>)
    ensures
        out_matches_bytes(r, line_model(s@)),
{
    proof {
        lemma_run_len(s@, |b: u8| !is_line_break(b));
    }
    let n = line_run(s);
    if n == 0 {
        return Err(rec_fail(s.len(), ErrKind::TakeTill1));
    }
    let t = take_from(s, n);
    let content = take_to(s, n);
    if t.len() == 0 {
        Ok((t, trim(content)))
    } else if t[0] == 10 {
        Ok((take_from(t, 1), trim(content)))
    } else if t.len() >= 2 && t[0] == 13 && t[1] == 10 {
        Ok((take_from(t, 2), trim(content)))
    } else {
        Err(rec_fail(t.len(), ErrKind::CrLf))
    }
}

/// The outcome of `some_text`: a non-empty run of non-terminator bytes,
/// trimmed, with the terminator left unconsumed.
pub open spec fn some_text_model(s: Seq<u8>) -> POut<Seq<u8>> {
    let n = run_len(s, |b: u8| !is_line_break(b));
    if n > 0 {
        POut::Parsed { rest: s.skip(n), val: trim_spec(s.take(n)) }
    } else {
        POut::Failed { sev: Sev::Rec, frames: frames1(s.len() as int, ErrKind::TakeTill1) }
    }
}

/// Non-empty line content, trimmed; the terminator is left unconsumed.
pub fn some_text<'a>(s: &'a [u8]) -> (r: PResult<'a, &'a [u8]>)
    ensures
        out_matches_bytes(r, some_text_model(s@)),
{
    proof {
        lemma_run_len(s@, |b: u8| !is_line_break(b));
    }
    let n = line_run(s);
    if n == 0 {
        Err(rec_fail(s.len(), ErrKind::TakeTill1))
    } else {
        Ok((take_from(s, n), trim(take_to(s, n))))
    }
}

/// The outcome of `optional_text`: a possibly empty run of non-terminator
/// bytes, trimmed; never fails.
pub open spec fn optional_text_model(s: Seq<u8>) -> POut<Seq<u8>> {
    let n = run_len(s, |b: u8| !is_line_break(b));
    POut::Parsed { rest: s.skip(n), val: trim_spec(s.take(n)) }
}

/// Possibly empty line content, trimmed; the terminator is left unconsumed.
pub fn optional_text<'a>(s: &'a [u8]) -> (r: PResult<'a, &'a [u8]>)
    ensures
        out_matches_bytes(r, optional_text_model(s@)),
{
    proof {
        lemma_run_len(s@, |b: u8| !is_line_break(b));
    }
    let n = line_run(s);
    Ok((take_from(s, n), trim(take_to(s, n))))
}

/// The outcome of consuming everything up to a closing curly brace.
pub open spec fn not_closing_curly_model(s: Seq<u8>) -> POut<Seq<u8>> {
    let n = run_len(s, |b: u8| b != 125);
    POut::Parsed { rest: s.skip(n), val: s.take(n) }
}

/// The (possibly empty) run of bytes before a closing curly brace.
pub fn not_closing_curly<'a>(s: &'a [u8]) -> (r: PResult<'a, &'a [u8]>)
    ensures
        out_matches_bytes(r, not_closing_curly_model(s@)),
{
    proof {
        lemma_run_len(s@, |b: u8| b != 125);
    }
    let n = non_curly_run(s);
    Ok((take_from(s, n), take_to(s, n)))
}

/// The outcome of `int_bool`: one `0` or `1` digit.
pub open spec fn int_bool_model(s: Seq<u8>) -> POut<bool> {
    if s.len() > 0 && s[0] == 48 {
        POut::Parsed { rest: s.skip(1), val: false }
    } else if s.len() > 0 && s[0] == 49 {
        POut::Parsed { rest: s.skip(1), val: true }
    } else {
        POut::Failed { sev: Sev::Rec, frames: frames1(s.len() as int, ErrKind::Char) }
    }
}

/// A boolean written as a single digit: `0` is false, `1` is true.
pub fn int_bool<'a>(s: &'a [u8]) -> (r: PResult<'a, bool>)
    ensures
        out_matches(r, int_bool_model(s@)),
{
    if s.len() > 0 && s[0] == 48 {
        Ok((take_from(s, 1), false))
    } else if s.len() > 0 && s[0] == 49 {
        Ok((take_from(s, 1), true))
    } else {
        Err(rec_fail(s.len(), ErrKind::Char))
    }
}

/// The outcome of `optional_str`: a dash means "absent"; a word means
/// "present"; otherwise the run of horizontal whitespace is consumed and the
/// value is "absent". Never fails.
pub open spec fn optional_str_model(s: Seq<u8>) -> POut<Option<Seq<u8>>> {
    if s.len() > 0 && s[0] == 45 {
        POut::Parsed { rest: s.skip(1), val: Option::None }
    } else {
        let w = run_len(s, |b: u8| !is_word_break(b));
        if w > 0 {
            POut::Parsed { rest: s.skip(w), val: Option::Some(s.take(w)) }
        } else {
            let n = run_len(s, |b: u8| is_hws(b));
            POut::Parsed { rest: s.skip(n), val: Option::None }
        }
    }
}

/// An optional word: a literal dash or pure horizontal whitespace both mean
/// "no value"; a word is the value. The three-way policy is deliberate, as
/// format producers use both conventions for missing data.
pub fn optional_str<'a>(s: &'a [u8]) -> (r: PResult<'a, Option<&'a [u8]>>)
    ensures
        out_matches_opt_bytes(r, optional_str_model(s@)),
{
    if s.len() > 0 && s[0] == 45 {
        return Ok((take_from(s, 1), None));
    }
    proof {
        lemma_run_len(s@, |b: u8| !is_word_break(b));
        lemma_run_len(s@, |b: u8| is_hws(b));
    }
    let w = word_run(s);
    if w > 0 {
        Ok((take_from(s, w), Some(take_to(s, w))))
    } else {
        let n = hws_run(s);
        Ok((take_from(s, n), None))
    }
}

/// The numeric value of a run of decimal digit bytes, most significant
/// first.
pub open spec fn dec_val(s: Seq<u8>) -> int
    decreases s.len(),
{
    if s.len() == 0 {
        0
    } else {
        dec_val(s.drop_last()) * 10 + (s.last() - 48)
    }
}

/// The numeric value of signed-integer text: an optional minus sign
/// followed by digits.
pub open spec fn int_val(s: Seq<u8>) -> int {
    if s.len() > 0 && s[0] == 45 {
        -dec_val(s.skip(1))
    } else {
        dec_val(s)
    }
}

pub proof fn lemma_dec_val_nonneg(s: Seq<u8>)
    requires
        forall|k: int| 0 <= k < s.len() ==> is_digit_b(s[k]),
    ensures
        dec_val(s) >= 0,
    decreases s.len(),
{
    if s.len() > 0 {
        lemma_dec_val_nonneg(s.drop_last());
    }
}

/// The value of a digit run never shrinks as more digits are appended.
pub proof fn lemma_dec_val_prefix_le(s: Seq<u8>, k: int)
    requires
        forall|j: int| 0 <= j < s.len() ==> is_digit_b(s[j]),
        0 <= k <= s.len(),
    ensures
        0 <= dec_val(s.take(k)) <= dec_val(s),
    decreases s.len(),
{
    assert forall|j: int| 0 <= j < k implies is_digit_b(s.take(k)[j]) by {}
    lemma_dec_val_nonneg(s.take(k));
    if k == s.len() {
        assert(s.take(k) =~= s);
    } else {
        assert(s.drop_last().take(k) =~= s.take(k));
        lemma_dec_val_prefix_le(s.drop_last(), k);
        lemma_dec_val_nonneg(s.drop_last());
        assert(dec_val(s) == dec_val(s.drop_last()) * 10 + (s.last() - 48));
        assert(dec_val(s.drop_last()) * 10 >= dec_val(s.drop_last())) by {
            assert(dec_val(s.drop_last()) >= 0);
        }
    }
}

/// The outcome of `integer`: signed-integer text converted to `i64`, with a
/// conversion failure (overflow) reported at the original input.
pub open spec fn integer_model(s: Seq<u8>) -> POut<i64> {
    let m = int_text_len(s);
    if m == 0 {
        POut::Failed { sev: Sev::Rec, frames: frames1(int_err_rem(s), ErrKind::Digit) }
    } else if i64::MIN <= int_val(s.take(m)) <= i64::MAX {
        POut::Parsed { rest: s.skip(m), val: int_val(s.take(m)) as i64 }
    } else {
        POut::Failed { sev: Sev::Rec, frames: frames1(s.len() as int, ErrKind::MapRes) }
    }
}

/// A signed decimal integer: an optional minus sign and at least one digit,
/// converted to `i64`; fails if the digits are missing or the value does
/// not fit.
#[verifier::loop_isolation(false)]
pub fn integer<'a>(s: &'a [u8]) -> (r: PResult<'a, i64>)
    ensures
        out_matches(r, integer_model(s@)),
{
    let neg = s.len() > 0 && s[0] == 45;
    let start: usize = if neg {
        1
    } else {
        0
    };
    let t = take_from(s, start);
    proof {
        lemma_run_len(t@, |b: u8| is_digit_b(b));
        if start == 0 {
            assert(s@.skip(0) =~= s@);
        }
    }
    let dn = digit_run(t);
    if dn == 0 {
        return Err(rec_fail(t.len(), ErrKind::Digit));
    }
    let ghost m = int_text_len(s@);
    proof {
        assert(m == start + dn);
        if neg {
            assert(s@.take(m).skip(1) =~= t@.take(dn as int));
        } else {
            assert(s@.take(m) =~= t@.take(dn as int));
        }
    }
    // Accumulate negatively so that the full i64 range, including its
    // minimum, is reached without intermediate overflow.
    let mut acc: i64 = 0;
    let mut k: usize = 0;
    while k < dn
        invariant
            k <= dn,
            acc <= 0,
            -acc == dec_val(t@.take(k as int)),
        decreases dn - k,
    {
        let d = t[k] - 48;
        proof {
            lemma_dec_val_prefix_le(t@.take(dn as int), k + 1);
            assert(t@.take(dn as int).take(k + 1) =~= t@.take(k + 1));
            assert(t@.take(k + 1).drop_last() =~= t@.take(k as int));
            assert(dec_val(t@.take(k + 1)) == dec_val(t@.take(k as int)) * 10 + d);
        }
        if acc < i64::MIN / 10 {
            proof {
                assert(dec_val(t@.take(k + 1)) > i64::MAX + 1);
            }
            return Err(rec_fail(s.len(), ErrKind::MapRes));
        }
        let acc10 = acc * 10;
        if acc10 < i64::MIN + (d as i64) {
            proof {
                assert(dec_val(t@.take(k + 1)) > i64::MAX + 1);
            }
            return Err(rec_fail(s.len(), ErrKind::MapRes));
        }
        acc = acc10 - (d as i64);
        k += 1;
    }
    proof {
        assert(t@.take(dn as int) =~= t@.take(k as int));
    }
    if neg {
        Ok((take_from(s, start + dn), acc))
    } else {
        if acc < -i64::MAX {
            proof {
                assert(int_val(s@.take(m)) > i64::MAX);
            }
            return Err(rec_fail(s.len(), ErrKind::MapRes));
        }
        Ok((take_from(s, start + dn), -acc))
    }
}

/// The outcome of `unsigned_number`: a digit run converted to `u64`, with
/// overflow reported at the original input.
pub open spec fn unsigned_model(s: Seq<u8>) -> POut<u64> {
    let n = run_len(s, |b: u8| is_digit_b(b));
    if n == 0 {
        POut::Failed { sev: Sev::Rec, frames: frames1(s.len() as int, ErrKind::Digit) }
    } else if dec_val(s.take(n)) <= u64::MAX {
        POut::Parsed { rest: s.skip(n), val: dec_val(s.take(n)) as u64 }
    } else {
        POut::Failed { sev: Sev::Rec, frames: frames1(s.len() as int, ErrKind::MapRes) }
    }
}

/// An unsigned decimal integer: at least one digit, converted to `u64`;
/// fails if the digits are missing or the value does not fit.
#[verifier::loop_isolation(false)]
pub fn unsigned_number<'a>(s: &'a [u8]) -> (r: PResult<'a, u64>)
    ensures
        out_matches(r, unsigned_model(s@)),
{
    proof {
        lemma_run_len(s@, |b: u8| is_digit_b(b));
    }
    let dn = digit_run(s);
    if dn == 0 {
        return Err(rec_fail(s.len(), ErrKind::Digit));
    }
    let mut acc: u64 = 0;
    let mut k: usize = 0;
    while k < dn
        invariant
            k <= dn,
            acc == dec_val(s@.take(k as int)),
        decreases dn - k,
    {
        let d = s[k] - 48;
        proof {
            lemma_dec_val_prefix_le(s@.take(dn as int), k + 1);
            assert(s@.take(dn as int).take(k + 1) =~= s@.take(k + 1));
            assert(s@.take(k + 1).drop_last() =~= s@.take(k as int));
            assert(dec_val(s@.take(k + 1)) == dec_val(s@.take(k as int)) * 10 + d);
        }
        if acc > u64::MAX / 10 {
            proof {
                assert(dec_val(s@.take(k + 1)) > u64::MAX);
            }
            return Err(rec_fail(s.len(), ErrKind::MapRes));
        }
        let acc10 = acc * 10;
        if acc10 > u64::MAX - (d as u64) {
            proof {
                assert(dec_val(s@.take(k + 1)) > u64::MAX);
            }
            return Err(rec_fail(s.len(), ErrKind::MapRes));
        }
        acc = acc10 + (d as u64);
        k += 1;
    }
    proof {
        assert(s@.take(dn as int) =~= s@.take(k as int));
    }
    Ok((take_from(s, dn), acc))
}

/// The outcome of `space0_number`: optional horizontal whitespace, then a
/// signed integer.
pub open spec fn space0_number_model(s: Seq<u8>) -> POut<i64> {
    integer_model(s.skip(run_len(s, |b: u8| is_hws(b))))
}

/// Optional horizontal whitespace followed by a signed decimal integer.
pub fn space0_number<'a>(s: &'a [u8]) -> (r: PResult<'a, i64>)
    ensures
        out_matches(r, space0_number_model(s@)),
{
    proof {
        lemma_run_len(s@, |b: u8| is_hws(b));
    }
    let n = hws_run(s);
    integer(take_from(s, n))
}

/// The outcome of `space1_number`: mandatory horizontal whitespace, then a
/// signed integer.
pub open spec fn space1_number_model(s: Seq<u8>) -> POut<i64> {
    let n = run_len(s, |b: u8| is_hws(b));
    if n == 0 {
        POut::Failed { sev: Sev::Rec, frames: frames1(s.len() as int, ErrKind::Space) }
    } else {
        integer_model(s.skip(n))
    }
}

/// At least one space or tab followed by a signed decimal integer.
pub fn space1_number<'a>(s: &'a [u8]) -> (r: PResult<'a, i64>)
    ensures
        out_matches(r, space1_number_model(s@)),
{
    proof {
        lemma_run_len(s@, |b: u8| is_hws(b));
    }
    let n = hws_run(s);
    if n == 0 {
        return Err(rec_fail(s.len(), ErrKind::Space));
    }
    integer(take_from(s, n))
}

} // verus!
