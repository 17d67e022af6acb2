//! Diagnostics: converting a failed parse into a human-readable report.
//!
//! The report names the failure's severity, echoes the input, and lists
//! every context frame with its byte offset into the original input and its
//! kind. Byte input is first decoded lossily to text, then handed to the
//! same renderer used for text input.

use vstd::prelude::*;
use vstd::string::StringExecFns;
use crate::outcome::{ErrKind, ParseError, PFail, PResult, frames_of};

verus! {

broadcast use vstd::slice::group_slice_axioms;

/// The decimal digit character of a value below ten.
pub open spec fn digit_char(d: int) -> char {
    if d == 0 {
        '0'
    } else if d == 1 {
        '1'
    } else if d == 2 {
        '2'
    } else if d == 3 {
        '3'
    } else if d == 4 {
        '4'
    } else if d == 5 {
        '5'
    } else if d == 6 {
        '6'
    } else if d == 7 {
        '7'
    } else if d == 8 {
        '8'
    } else {
        '9'
    }
}

/// The decimal text of a non-negative integer, most significant digit
/// first.
pub open spec fn dec_chars(n: int) -> Seq<char>
    decreases n,
{
    if n < 0 {
        Seq::<char>::empty()
    } else if n < 10 {
        seq![digit_char(n)]
    } else {
        dec_chars(n / 10).push(digit_char(n % 10))
    }
}

/// The display name of an error kind.
pub open spec fn kind_name(k: ErrKind) -> Seq<char> {
    match k {
        ErrKind::Tag => "literal"@,
        ErrKind::Char => "character"@,
        ErrKind::CrLf => "line ending"@,
        ErrKind::Digit => "digit"@,
        ErrKind::Space => "space"@,
        ErrKind::TakeTill1 => "non-empty run"@,
        ErrKind::Eof => "end of input"@,
        ErrKind::ManyMN => "bounded repetition"@,
        ErrKind::Count => "counted repetition"@,
        ErrKind::SeparatedList => "separated list"@,
        ErrKind::NoneOf => "disabled branch"@,
        ErrKind::MapRes => "value conversion"@,
    }
}

/// The byte offset a frame points at: the input length minus the remaining
/// length recorded in the frame, clamped to the input.
pub open spec fn offset_of(total: int, rem: int) -> int {
    if 0 <= rem <= total {
        total - rem
    } else {
        0
    }
}

/// One line of the report for one context frame.
pub open spec fn frame_text(total: int, fr: (int, ErrKind)) -> Seq<char> {
    "  at offset "@ + dec_chars(offset_of(total, fr.0)) + ": "@ + kind_name(fr.1) + "\n"@
}

/// The report lines for all frames, innermost first.
pub open spec fn frames_text(total: int, frames: Seq<(int, ErrKind)>) -> Seq<char>
    decreases frames.len(),
{
    if frames.len() == 0 {
        Seq::<char>::empty()
    } else {
        frames_text(total, frames.drop_last()) + frame_text(total, frames.last())
    }
}

/// The whole report for a failure: its severity heading, then its frames;
/// an incompleteness signal has no frames to show.
pub open spec fn report_text(total: int, pf: PFail) -> Seq<char> {
    match pf {
        PFail::Recoverable(e) => "Error:\n"@ + frames_text(total, frames_of(e)),
        PFail::Fatal(e) => "Failure:\n"@ + frames_text(total, frames_of(e)),
        PFail::Incomplete => "Incomplete: more input needed\n"@,
    }
}

/// The innermost kind of a failure; an incompleteness signal, or an error
/// without frames, counts as an unexpected end of input.
pub open spec fn kind_of_fail(pf: PFail) -> ErrKind {
    match pf {
        PFail::Recoverable(e) => if frames_of(e).len() > 0 {
            frames_of(e)[0].1
        } else {
            ErrKind::Eof
        },
        PFail::Fatal(e) => if frames_of(e).len() > 0 {
            frames_of(e)[0].1
        } else {
            ErrKind::Eof
        },
        PFail::Incomplete => ErrKind::Eof,
    }
}

/// Discards a parse outcome's position, keeping the value or the innermost
/// error kind.
pub fn err_to_kind<'a, T>(res: PResult<'a, T>) -> (r: Result<T, ErrKind>)
    ensures
        match res {
            Result::Ok((rest, v)) => r == Ok::<T, ErrKind>(v),
            Result::Err(pf) => r == Err::<T, ErrKind>(kind_of_fail(pf)),
        },
{
    match res {
        Ok((_rest, v)) => Ok(v),
        Err(PFail::Recoverable(e)) => {
            if e.frames.len() > 0 {
                Err(e.frames[0].kind)
            } else {
                Err(ErrKind::Eof)
            }
        },
        Err(PFail::Fatal(e)) => {
            if e.frames.len() > 0 {
                Err(e.frames[0].kind)
            } else {
                Err(ErrKind::Eof)
            }
        },
        Err(PFail::Incomplete) => Err(ErrKind::Eof),
    }
}

/// The display name of an error kind, as text.
fn kind_str(k: ErrKind) -> (r: &'static str)
    ensures
        r@ == kind_name(k),
{
    match k {
        ErrKind::Tag => "literal",
        ErrKind::Char => "character",
        ErrKind::CrLf => "line ending",
        ErrKind::Digit => "digit",
        ErrKind::Space => "space",
        ErrKind::TakeTill1 => "non-empty run",
        ErrKind::Eof => "end of input",
        ErrKind::ManyMN => "bounded repetition",
        ErrKind::Count => "counted repetition",
        ErrKind::SeparatedList => "separated list",
        ErrKind::NoneOf => "disabled branch",
        ErrKind::MapRes => "value conversion",
    }
}

/// One decimal digit as text.
fn digit_str(d: usize) -> (r: &'static str)
    requires
        d < 10,
    ensures
        r@ == seq![digit_char(d as int)],
{
    proof {
        reveal_strlit("0");
        reveal_strlit("1");
        reveal_strlit("2");
        reveal_strlit("3");
        reveal_strlit("4");
        reveal_strlit("5");
        reveal_strlit("6");
        reveal_strlit("7");
        reveal_strlit("8");
        reveal_strlit("9");
    }
    match d {
        0 => "0",
        1 => "1",
        2 => "2",
        3 => "3",
        4 => "4",
        5 => "5",
        6 => "6",
        7 => "7",
        8 => "8",
        _ => "9",
    }
}

/// Appends the decimal text of `n`.
fn push_usize(buf: &mut String, n: usize)
    ensures
        final(buf)@ == old(buf)@ + dec_chars(n as int),
    decreases n,
{
    if n >= 10 {
        push_usize(buf, n / 10);
        buf.append(digit_str(n % 10));
        proof {
            assert(dec_chars(n as int) =~= dec_chars(n as int / 10) + seq![
                digit_char(n as int % 10),
            ]);
        }
    } else {
        buf.append(digit_str(n));
    }
}

/// Appends the report lines for every frame of an error.
fn push_frames(buf: &mut String, total: usize, e: &ParseError)
    ensures
        final(buf)@ == old(buf)@ + frames_text(total as int, frames_of(*e)),
{
    let ghost whole = frames_of(*e);
    let mut k: usize = 0;
    proof {
        assert(frames_text(total as int, whole.take(0)) =~= Seq::<char>::empty());
        assert(buf@ =~= buf@ + frames_text(total as int, whole.take(0)));
    }
    while k < e.frames.len()
        invariant
            k <= e.frames@.len(),
            whole == frames_of(*e),
            buf@ == old(buf)@ + frames_text(total as int, whole.take(k as int)),
        decreases e.frames@.len() - k,
    {
        let fr = e.frames[k];
        buf.append("  at offset ");
        let off = if fr.rem <= total {
            total - fr.rem
        } else {
            0
        };
        push_usize(buf, off);
        buf.append(": ");
        buf.append(kind_str(fr.kind));
        buf.append("\n");
        proof {
            assert(whole.take(k + 1).drop_last() =~= whole.take(k as int));
            assert(whole.take(k + 1).last() == whole[k as int]);
        }
        k += 1;
    }
    proof {
        assert(whole.take(e.frames@.len() as int) =~= whole);
    }
}

/// Appends the whole report for a failure: this is the one renderer, used
/// for text input directly and for byte input after decoding.
fn push_report(buf: &mut String, total: usize, pf: &PFail)
    ensures
        final(buf)@ == old(buf)@ + report_text(total as int, *pf),
{
    match pf {
        PFail::Recoverable(e) => {
            buf.append("Error:\n");
            push_frames(buf, total, e);
        },
        PFail::Fatal(e) => {
            buf.append("Failure:\n");
            push_frames(buf, total, e);
        },
        PFail::Incomplete => {
            buf.append("Incomplete: more input needed\n");
        },
    }
}

/// On success, passes the parsed value and remaining input through; on
/// failure, renders the error against the text the parse ran on: the text is
/// echoed and every frame is shown with its byte offset and kind.
pub fn nom_err_to_string<'a, T>(text: &str, res: PResult<'a, T>) -> (r: Result<
    (&'a [u8], T),
    String,
>)
    ensures
        match res {
            Result::Ok(p) => r == Ok::<(&'a [u8], T), String>(p),
            Result::Err(pf) => match r {
                Result::Err(msg) => msg@ == "input: "@ + text@ + "\n"@ + report_text(
                    text.len() as int,
                    pf,
                ),
                Result::Ok(_) => false,
            },
        },
{
    match res {
        Ok(p) => Ok(p),
        Err(pf) => {
            let mut buf = String::new();
            buf.append("input: ");
            buf.append(text);
            buf.append("\n");
            push_report(&mut buf, text.len(), &pf);
            proof {
                assert(buf@ =~= "input: "@ + text@ + "\n"@ + report_text(
                    text.len() as int,
                    pf,
                ));
            }
            Err(buf)
        },
    }
}

/// What `String::from_utf8_lossy` decodes a byte sequence to: valid UTF-8
/// decodes exactly; invalid sequences become replacement characters.
pub uninterp spec fn lossy_of(b: Seq<u8>) -> Seq<char>;

/// Relies on `String::from_utf8_lossy`: the lossy decoding of the bytes, a
/// function of the bytes alone.
#[verifier::external_body]
fn lossy_string(b: &[u8]) -> (r: String)
    ensures
        r@ == lossy_of(b@),
{
    String::from_utf8_lossy(b).into_owned()
}

/// On success, passes the parsed value and remaining input through; on
/// failure, first decodes the byte input lossily to its textual form, then
/// delegates to the same renderer used for text input, with offsets counted
/// in the original bytes.
pub fn nom_err_to_string_bytes<'a, T>(bytes: &[u8], res: PResult<'a, T>) -> (r: Result<
    (&'a [u8], T),
    String,
>)
    ensures
        match res {
            Result::Ok(p) => r == Ok::<(&'a [u8], T), String>(p),
            Result::Err(pf) => match r {
                Result::Err(msg) => msg@ == "input: "@ + lossy_of(bytes@) + "\n"@ + report_text(
                    bytes@.len() as int,
                    pf,
                ),
                Result::Ok(_) => false,
            },
        },
{
    match res {
        Ok(p) => Ok(p),
        Err(pf) => {
            let text = lossy_string(bytes);
            let mut buf = String::new();
            buf.append("input: ");
            buf.append(text.as_str());
            buf.append("\n");
            push_report(&mut buf, bytes.len(), &pf);
            proof {
                assert(buf@ =~= "input: "@ + lossy_of(bytes@) + "\n"@ + report_text(
                    bytes@.len() as int,
                    pf,
                ));
            }
            Err(buf)
        },
    }
}

} // verus!
