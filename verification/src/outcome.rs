//! The result and error types shared by every parser in the crate, and the
//! spec-level model of a parse outcome that contracts are stated against.

use vstd::prelude::*;

verus! {

/// The kind tag of a parse failure: which class of construct failed to match.
#[derive(Clone, Copy, PartialEq, Eq, Structural, Debug)]
pub enum ErrKind {
    /// A literal byte-string did not match.
    Tag,
    /// A single expected byte did not match.
    Char,
    /// A line terminator was expected.
    CrLf,
    /// A run of decimal digits was expected.
    Digit,
    /// At least one space or tab was expected.
    Space,
    /// A non-empty run of bytes was expected.
    TakeTill1,
    /// End of input was expected.
    Eof,
    /// A bounded repetition failed below its minimum, or did not advance.
    ManyMN,
    /// A fixed-count repetition failed before reaching its count.
    Count,
    /// A separated list repeated without advancing.
    SeparatedList,
    /// A parser was disabled by its gating condition.
    NoneOf,
    /// A captured text could not be converted to the requested value.
    MapRes,
}

/// The severity of a failure. `Rec` failures may be abandoned for an
/// alternative; `Fatal` failures propagate without trying alternatives;
/// `Inc` means the input ended where more was structurally expected.
#[derive(Clone, Copy, PartialEq, Eq, Structural, Debug)]
pub enum Sev {
    Rec,
    Fatal,
    Inc,
}

/// One context frame of an error: the position of the failure, recorded as
/// the length of the remaining input at that point, plus a kind tag.
#[derive(Clone, Copy, PartialEq, Eq, Structural, Debug)]
pub struct Frame {
    pub rem: usize,
    pub kind: ErrKind,
}

/// A positioned parse error: context frames, innermost first. An outer
/// combinator wraps an inner error by appending a frame rather than
/// discarding it.
#[derive(Clone, PartialEq, Eq, Debug)]
pub struct ParseError {
    pub frames: Vec<Frame>,
}

/// The failure branch of a parse: a recoverable or fatal positioned error,
/// or an incompleteness signal (passed through, never produced here).
#[derive(Clone, PartialEq, Eq, Debug)]
pub enum PFail {
    Recoverable(ParseError),
    Fatal(ParseError),
    Incomplete,
}

/// Every parser returns the remaining input and a value, or a failure.
pub type PResult<'a, T> = Result<(&'a [u8], T), PFail>;

/// The spec-level model of a parse outcome: the view of the remaining input
/// and the value, or a severity together with the error frames as
/// `(remaining length, kind)` pairs, innermost first.
pub enum POut<T> {
    Parsed { rest: Seq<u8>, val: T },
    Failed { sev: Sev, frames: Seq<(int, ErrKind)> },
}

/// The frames of an error as the spec pairs the models speak of.
pub open spec fn frames_of(e: ParseError) -> Seq<(int, ErrKind)> {
    e.frames@.map_values(|f: Frame| (f.rem as int, f.kind))
}

/// A single-frame error model.
pub open spec fn frames1(rem: int, kind: ErrKind) -> Seq<(int, ErrKind)> {
    seq![(rem, kind)]
}

/// Does an executable failure agree with a modelled severity and frames?
pub open spec fn fail_matches(pf: PFail, sev: Sev, frames: Seq<(int, ErrKind)>) -> bool {
    match pf {
        PFail::Recoverable(e) => sev == Sev::Rec && frames_of(e) == frames,
        PFail::Fatal(e) => sev == Sev::Fatal && frames_of(e) == frames,
        PFail::Incomplete => sev == Sev::Inc && frames == Seq::<(int, ErrKind)>::empty(),
    }
}

/// Does an executable outcome agree with a model, for plain values?
pub open spec fn out_matches<'a, T>(y: PResult<'a, T>, m: POut<T>) -> bool {
    match y {
        Result::Ok((rest, v)) => match m {
            POut::Parsed { rest: mr, val } => rest@ == mr && v == val,
            POut::Failed { .. } => false,
        },
        Result::Err(pf) => match m {
            POut::Parsed { .. } => false,
            POut::Failed { sev, frames } => fail_matches(pf, sev, frames),
        },
    }
}

/// Does an executable outcome agree with a model, for slice values, which
/// the model holds as their views?
pub open spec fn out_matches_bytes<'a>(y: PResult<'a, &'a [u8]>, m: POut<Seq<u8>>) -> bool {
    match y {
        Result::Ok((rest, v)) => match m {
            POut::Parsed { rest: mr, val } => rest@ == mr && v@ == val,
            POut::Failed { .. } => false,
        },
        Result::Err(pf) => match m {
            POut::Parsed { .. } => false,
            POut::Failed { sev, frames } => fail_matches(pf, sev, frames),
        },
    }
}

/// Does an executable outcome agree with a model, for optional slice values?
pub open spec fn out_matches_opt_bytes<'a>(
    y: PResult<'a, Option<&'a [u8]>>,
    m: POut<Option<Seq<u8>>>,
) -> bool {
    match y {
        Result::Ok((rest, v)) => match m {
            POut::Parsed { rest: mr, val } => rest@ == mr && match (v, val) {
                (Option::Some(b), Option::Some(mb)) => b@ == mb,
                (Option::None, Option::None) => true,
                _ => false,
            },
            POut::Failed { .. } => false,
        },
        Result::Err(pf) => match m {
            POut::Parsed { .. } => false,
            POut::Failed { sev, frames } => fail_matches(pf, sev, frames),
        },
    }
}

impl ParseError {
    /// A fresh error with a single frame.
    pub fn new(rem: usize, kind: ErrKind) -> (e: ParseError)
        ensures
            frames_of(e) == frames1(rem as int, kind),
    {
        let mut frames: Vec<Frame> = Vec::new();
        frames.push(Frame { rem, kind });
        let e = ParseError { frames };
        proof {
            assert(frames_of(e) =~= frames1(rem as int, kind));
        }
        e
    }

    /// This error wrapped with one more (outermost) context frame.
    pub fn appended(self, rem: usize, kind: ErrKind) -> (e: ParseError)
        ensures
            frames_of(e) == frames_of(self).push((rem as int, kind)),
    {
        let ghost orig = self;
        let mut frames = self.frames;
        frames.push(Frame { rem, kind });
        let e = ParseError { frames };
        proof {
            assert(frames_of(e) =~= frames_of(orig).push((rem as int, kind)));
        }
        e
    }
}

/// A recoverable failure with a single frame.
pub fn rec_fail(rem: usize, kind: ErrKind) -> (f: PFail)
    ensures
        fail_matches(f, Sev::Rec, frames1(rem as int, kind)),
{
    PFail::Recoverable(ParseError::new(rem, kind))
}

} // verus!
