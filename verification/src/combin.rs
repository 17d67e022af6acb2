//! Structural combinators: bracketed section headers, key-value lines with a
//! configurable separator, delimited and trimmed wrapping, optional
//! constructs, and the imperative `apply`/`cut_apply` adapters.
//!
//! A combinator takes its sub-parser as a function argument and applies it
//! once. Its contract is stated against any spec-level model the sub-parser
//! conforms to: if every outcome of `f` agrees with the model `g`, the
//! combinator's outcome agrees with the composed model.

use vstd::prelude::*;
use crate::outcome::{ErrKind, PFail, POut, PResult, Sev, frames1, fail_matches, out_matches,
    out_matches_bytes, rec_fail};
use crate::lex::{tag_model, byte_model, space0_model, space1_model, end_of_line_model,
    integer_model, tag, one_byte, space0, space1, end_of_line, integer};

verus! {

broadcast use vstd::slice::group_slice_axioms;

/// `f` conforms to the model `g`: every outcome `f` can return on any input
/// agrees with `g` at that input's view.
pub open spec fn conforms<'a, O, F: Fn(&'a [u8]) -> PResult<'a, O>>(
    f: F,
    g: spec_fn(Seq<u8>) -> POut<O>,
) -> bool {
    forall|x: &'a [u8], y: PResult<'a, O>| #[trigger] call_ensures(f, (x,), y) ==> out_matches(
        y,
        g(x@),
    )
}

/// A model with its value erased: used where a combinator discards the
/// sub-parser's value, so that slice-valued sub-parsers can be modelled too.
pub open spec fn span_matches<'a, O>(y: PResult<'a, O>, m: POut<()>) -> bool {
    match y {
        Result::Ok((rest, _v)) => match m {
            POut::Parsed { rest: mr, val } => rest@ == mr,
            POut::Failed { .. } => false,
        },
        Result::Err(pf) => match m {
            POut::Parsed { .. } => false,
            POut::Failed { sev, frames } => fail_matches(pf, sev, frames),
        },
    }
}

/// `f` conforms to the value-erased model `g`.
pub open spec fn conforms_span<'a, O, F: Fn(&'a [u8]) -> PResult<'a, O>>(
    f: F,
    g: spec_fn(Seq<u8>) -> POut<()>,
) -> bool {
    forall|x: &'a [u8], y: PResult<'a, O>| #[trigger] call_ensures(f, (x,), y) ==> span_matches(
        y,
        g(x@),
    )
}

/// A model with its value replaced by the unit value.
pub open spec fn erased<T>(m: POut<T>) -> POut<()> {
    match m {
        POut::Parsed { rest, val: _ } => POut::Parsed { rest, val: () },
        POut::Failed { sev, frames } => POut::Failed { sev, frames },
    }
}

/// Model sequencing: on success continue with the remaining input and the
/// value; a failure propagates unchanged.
pub open spec fn pbind<A, B>(m: POut<A>, k: spec_fn(Seq<u8>, A) -> POut<B>) -> POut<B> {
    match m {
        POut::Parsed { rest, val } => k(rest, val),
        POut::Failed { sev, frames } => POut::Failed { sev, frames },
    }
}

/// The model of `kv`: the literal key, at least one space, the value
/// parser's model, then end of line; the value parser's value is returned.
pub open spec fn kv_model<O>(g: spec_fn(Seq<u8>) -> POut<O>, key: Seq<u8>, s: Seq<u8>) -> POut<O> {
    pbind(
        tag_model(key, s),
        |r1: Seq<u8>, _k: Seq<u8>|
            pbind(
                space1_model(r1),
                |r2: Seq<u8>, _sp: Seq<u8>|
                    pbind(
                        g(r2),
                        |r3: Seq<u8>, v: O|
                            pbind(
                                end_of_line_model(r3),
                                |r4: Seq<u8>, _e: Seq<u8>| POut::Parsed { rest: r4, val: v },
                            ),
                    ),
            ),
    )
}

/// A `key value` line: the literal `key`, one or more spaces or tabs, the
/// value parser, then end of line.
pub fn kv<'a, O, F: Fn(&'a [u8]) -> PResult<'a, O>>(s: &'a [u8], key: &[u8], parser: F) -> (r:
    PResult<'a, O>)
    requires
        forall|x: &'a [u8]| #[trigger] call_requires(parser, (x,)),
    ensures
        forall|g: spec_fn(Seq<u8>) -> POut<O>| conforms(parser, g) ==> out_matches(
            r,
            kv_model(g, key@, s@),
        ),
{
    let r1 = match tag(s, key) {
        Ok((r, _)) => r,
        Err(e) => {
            return Err(e);
        },
    };
    let r2 = match space1(r1) {
        Ok((r, _)) => r,
        Err(e) => {
            return Err(e);
        },
    };
    let (r3, v) = match parser(r2) {
        Ok(p) => p,
        Err(e) => {
            return Err(e);
        },
    };
    match end_of_line(r3) {
        Ok((r4, _)) => Ok((r4, v)),
        Err(e) => Err(e),
    }
}

/// The model of `kv_sep`: the literal key, optional space, the literal
/// separator, optional space, the value parser's model, then end of line.
pub open spec fn kv_sep_model<O>(
    g: spec_fn(Seq<u8>) -> POut<O>,
    key: Seq<u8>,
    sep: Seq<u8>,
    s: Seq<u8>,
) -> POut<O> {
    pbind(
        tag_model(key, s),
        |r1: Seq<u8>, _k: Seq<u8>|
            pbind(
                space0_model(r1),
                |r2: Seq<u8>, _s1: Seq<u8>|
                    pbind(
                        tag_model(sep, r2),
                        |r3: Seq<u8>, _p: Seq<u8>|
                            pbind(
                                space0_model(r3),
                                |r4: Seq<u8>, _s2: Seq<u8>|
                                    pbind(
                                        g(r4),
                                        |r5: Seq<u8>, v: O|
                                            pbind(
                                                end_of_line_model(r5),
                                                |r6: Seq<u8>, _e: Seq<u8>| POut::Parsed {
                                                    rest: r6,
                                                    val: v,
                                                },
                                            ),
                                    ),
                            ),
                    ),
            ),
    )
}

/// A `key <sep> value` line: the literal key, optional horizontal space, the
/// literal separator, optional horizontal space, the value parser, then end
/// of line. One algorithm serves both `key value` and `key=value` dialects.
pub fn kv_sep<'a, O, F: Fn(&'a [u8]) -> PResult<'a, O>>(
    s: &'a [u8],
    key: &[u8],
    sep: &[u8],
    parser: F,
) -> (r: PResult<'a, O>)
    requires
        forall|x: &'a [u8]| #[trigger] call_requires(parser, (x,)),
    ensures
        forall|g: spec_fn(Seq<u8>) -> POut<O>| conforms(parser, g) ==> out_matches(
            r,
            kv_sep_model(g, key@, sep@, s@),
        ),
{
    let r1 = match tag(s, key) {
        Ok((r, _)) => r,
        Err(e) => {
            return Err(e);
        },
    };
    let r2 = match space0(r1) {
        Ok((r, _)) => r,
        Err(e) => {
            return Err(e);
        },
    };
    let r3 = match tag(r2, sep) {
        Ok((r, _)) => r,
        Err(e) => {
            return Err(e);
        },
    };
    let r4 = match space0(r3) {
        Ok((r, _)) => r,
        Err(e) => {
            return Err(e);
        },
    };
    let (r5, v) = match parser(r4) {
        Ok(p) => p,
        Err(e) => {
            return Err(e);
        },
    };
    match end_of_line(r5) {
        Ok((r6, _)) => Ok((r6, v)),
        Err(e) => Err(e),
    }
}

/// The model of `kv_eq`: `kv_sep` with the separator `=`.
pub open spec fn kv_eq_model<O>(g: spec_fn(Seq<u8>) -> POut<O>, key: Seq<u8>, s: Seq<u8>) -> POut<
    O,
> {
    kv_sep_model(g, key, seq![61u8], s)
}

/// A `key=value` line: `kv_sep` specialised to the `=` separator.
pub fn kv_eq<'a, O, F: Fn(&'a [u8]) -> PResult<'a, O>>(s: &'a [u8], key: &[u8], parser: F) -> (r:
    PResult<'a, O>)
    requires
        forall|x: &'a [u8]| #[trigger] call_requires(parser, (x,)),
    ensures
        forall|g: spec_fn(Seq<u8>) -> POut<O>| conforms(parser, g) ==> out_matches(
            r,
            kv_eq_model(g, key@, s@),
        ),
{
    let sep: [u8; 1] = [61];
    proof {
        assert(sep@ =~= seq![61u8]);
    }
    kv_sep(s, key, sep.as_slice(), parser)
}

/// The model of `kv_ext`: as `kv`, with the literal key generalised to a
/// key parser whose value is discarded.
pub open spec fn kv_ext_model<O>(
    gk: spec_fn(Seq<u8>) -> POut<()>,
    g: spec_fn(Seq<u8>) -> POut<O>,
    s: Seq<u8>,
) -> POut<O> {
    pbind(
        gk(s),
        |r1: Seq<u8>, _k: ()|
            pbind(
                space1_model(r1),
                |r2: Seq<u8>, _sp: Seq<u8>|
                    pbind(
                        g(r2),
                        |r3: Seq<u8>, v: O|
                            pbind(
                                end_of_line_model(r3),
                                |r4: Seq<u8>, _e: Seq<u8>| POut::Parsed { rest: r4, val: v },
                            ),
                    ),
            ),
    )
}

/// A key-value line whose key side is matched by a supplied parser; the key's
/// value is discarded.
pub fn kv_ext<'a, O, O2, K: Fn(&'a [u8]) -> PResult<'a, O2>, F: Fn(&'a [u8]) -> PResult<'a, O>>(
    s: &'a [u8],
    key: K,
    parser: F,
) -> (r: PResult<'a, O>)
    requires
        forall|x: &'a [u8]| #[trigger] call_requires(key, (x,)),
        forall|x: &'a [u8]| #[trigger] call_requires(parser, (x,)),
    ensures
        forall|gk: spec_fn(Seq<u8>) -> POut<()>, g: spec_fn(Seq<u8>) -> POut<O>|
            conforms_span(key, gk) && conforms(parser, g) ==> out_matches(
                r,
                kv_ext_model(gk, g, s@),
            ),
{
    let r1 = match key(s) {
        Ok((r, _)) => r,
        Err(e) => {
            return Err(e);
        },
    };
    let r2 = match space1(r1) {
        Ok((r, _)) => r,
        Err(e) => {
            return Err(e);
        },
    };
    let (r3, v) = match parser(r2) {
        Ok(p) => p,
        Err(e) => {
            return Err(e);
        },
    };
    match end_of_line(r3) {
        Ok((r4, _)) => Ok((r4, v)),
        Err(e) => Err(e),
    }
}

/// The model of `kv_kv`: as `kv_ext`, but the key parser's value is kept and
/// paired with the value parser's value.
pub open spec fn kv_kv_model<O2, O>(
    gk: spec_fn(Seq<u8>) -> POut<O2>,
    g: spec_fn(Seq<u8>) -> POut<O>,
    s: Seq<u8>,
) -> POut<(O2, O)> {
    pbind(
        gk(s),
        |r1: Seq<u8>, kvl: O2|
            pbind(
                space1_model(r1),
                |r2: Seq<u8>, _sp: Seq<u8>|
                    pbind(
                        g(r2),
                        |r3: Seq<u8>, v: O|
                            pbind(
                                end_of_line_model(r3),
                                |r4: Seq<u8>, _e: Seq<u8>| POut::Parsed {
                                    rest: r4,
                                    val: (kvl, v),
                                },
                            ),
                    ),
            ),
    )
}

/// A key-value line returning both the matched key's value and the parsed
/// value, for keys that are themselves data.
pub fn kv_kv<'a, O, O2, K: Fn(&'a [u8]) -> PResult<'a, O2>, F: Fn(&'a [u8]) -> PResult<'a, O>>(
    s: &'a [u8],
    key: K,
    parser: F,
) -> (r: PResult<'a, (O2, O)>)
    requires
        forall|x: &'a [u8]| #[trigger] call_requires(key, (x,)),
        forall|x: &'a [u8]| #[trigger] call_requires(parser, (x,)),
    ensures
        forall|gk: spec_fn(Seq<u8>) -> POut<O2>, g: spec_fn(Seq<u8>) -> POut<O>|
            conforms(key, gk) && conforms(parser, g) ==> out_matches(r, kv_kv_model(gk, g, s@)),
{
    let (r1, kval) = match key(s) {
        Ok(p) => p,
        Err(e) => {
            return Err(e);
        },
    };
    let r2 = match space1(r1) {
        Ok((r, _)) => r,
        Err(e) => {
            return Err(e);
        },
    };
    let (r3, v) = match parser(r2) {
        Ok(p) => p,
        Err(e) => {
            return Err(e);
        },
    };
    match end_of_line(r3) {
        Ok((r4, _)) => Ok((r4, (kval, v))),
        Err(e) => Err(e),
    }
}

/// The model of `kv_kv_sep`: as `kv_kv`, with an explicit separator between
/// the key and the value.
pub open spec fn kv_kv_sep_model<O2, O>(
    gk: spec_fn(Seq<u8>) -> POut<O2>,
    g: spec_fn(Seq<u8>) -> POut<O>,
    sep: Seq<u8>,
    s: Seq<u8>,
) -> POut<(O2, O)> {
    pbind(
        gk(s),
        |r1: Seq<u8>, kvl: O2|
            pbind(
                space0_model(r1),
                |r2: Seq<u8>, _s1: Seq<u8>|
                    pbind(
                        tag_model(sep, r2),
                        |r3: Seq<u8>, _p: Seq<u8>|
                            pbind(
                                space0_model(r3),
                                |r4: Seq<u8>, _s2: Seq<u8>|
                                    pbind(
                                        g(r4),
                                        |r5: Seq<u8>, v: O|
                                            pbind(
                                                end_of_line_model(r5),
                                                |r6: Seq<u8>, _e: Seq<u8>| POut::Parsed {
                                                    rest: r6,
                                                    val: (kvl, v),
                                                },
                                            ),
                                    ),
                            ),
                    ),
            ),
    )
}

/// A parsed key, an explicit separator, and a parsed value, then end of
/// line; returns the key's value paired with the parsed value.
pub fn kv_kv_sep<'a, O, O2, K: Fn(&'a [u8]) -> PResult<'a, O2>, F: Fn(&'a [u8]) -> PResult<'a, O>>(
    s: &'a [u8],
    key: K,
    sep: &[u8],
    parser: F,
) -> (r: PResult<'a, (O2, O)>)
    requires
        forall|x: &'a [u8]| #[trigger] call_requires(key, (x,)),
        forall|x: &'a [u8]| #[trigger] call_requires(parser, (x,)),
    ensures
        forall|gk: spec_fn(Seq<u8>) -> POut<O2>, g: spec_fn(Seq<u8>) -> POut<O>|
            conforms(key, gk) && conforms(parser, g) ==> out_matches(
                r,
                kv_kv_sep_model(gk, g, sep@, s@),
            ),
{
    let (r1, kval) = match key(s) {
        Ok(p) => p,
        Err(e) => {
            return Err(e);
        },
    };
    let r2 = match space0(r1) {
        Ok((r, _)) => r,
        Err(e) => {
            return Err(e);
        },
    };
    let r3 = match tag(r2, sep) {
        Ok((r, _)) => r,
        Err(e) => {
            return Err(e);
        },
    };
    let r4 = match space0(r3) {
        Ok((r, _)) => r,
        Err(e) => {
            return Err(e);
        },
    };
    let (r5, v) = match parser(r4) {
        Ok(p) => p,
        Err(e) => {
            return Err(e);
        },
    };
    match end_of_line(r5) {
        Ok((r6, _)) => Ok((r6, (kval, v))),
        Err(e) => Err(e),
    }
}

/// The model of `opt_kv`: if the literal key does not match, the construct
/// is absent and nothing is consumed; once the key has matched, a failure of
/// the rest of the line propagates.
pub open spec fn opt_kv_model<O>(g: spec_fn(Seq<u8>) -> POut<O>, key: Seq<u8>, s: Seq<u8>) -> POut<
    Option<O>,
> {
    match tag_model(key, s) {
        POut::Failed { sev, frames } => if sev == Sev::Rec {
            POut::Parsed { rest: s, val: Option::None }
        } else {
            POut::Failed { sev, frames }
        },
        POut::Parsed { rest: r1, val: _k } => pbind(
            space1_model(r1),
            |r2: Seq<u8>, _sp: Seq<u8>|
                pbind(
                    g(r2),
                    |r3: Seq<u8>, v: O|
                        pbind(
                            end_of_line_model(r3),
                            |r4: Seq<u8>, _e: Seq<u8>| POut::Parsed {
                                rest: r4,
                                val: Option::Some(v),
                            },
                        ),
                ),
        ),
    }
}

/// An optional `key value` line: absence of the literal key yields no value
/// and consumes nothing; a malformed value after a present key is an error,
/// since the key match is what gates the optionality.
pub fn opt_kv<'a, O, F: Fn(&'a [u8]) -> PResult<'a, O>>(s: &'a [u8], key: &[u8], parser: F) -> (r:
    PResult<'a, Option<O>>)
    requires
        forall|x: &'a [u8]| #[trigger] call_requires(parser, (x,)),
    ensures
        forall|g: spec_fn(Seq<u8>) -> POut<O>| conforms(parser, g) ==> out_matches(
            r,
            opt_kv_model(g, key@, s@),
        ),
{
    let r1 = match tag(s, key) {
        Ok((r, _)) => r,
        Err(PFail::Recoverable(_)) => {
            return Ok((s, None));
        },
        Err(e) => {
            return Err(e);
        },
    };
    let r2 = match space1(r1) {
        Ok((r, _)) => r,
        Err(e) => {
            return Err(e);
        },
    };
    let (r3, v) = match parser(r2) {
        Ok(p) => p,
        Err(e) => {
            return Err(e);
        },
    };
    match end_of_line(r3) {
        Ok((r4, _)) => Ok((r4, Some(v))),
        Err(e) => Err(e),
    }
}

/// The model of `opt_kv_ext`: as `opt_kv`, with the key side matched by a
/// supplied parser whose recoverable failure means absence.
pub open spec fn opt_kv_ext_model<O>(
    gk: spec_fn(Seq<u8>) -> POut<()>,
    g: spec_fn(Seq<u8>) -> POut<O>,
    s: Seq<u8>,
) -> POut<Option<O>> {
    match gk(s) {
        POut::Failed { sev, frames } => if sev == Sev::Rec {
            POut::Parsed { rest: s, val: Option::None }
        } else {
            POut::Failed { sev, frames }
        },
        POut::Parsed { rest: r1, val: _k } => pbind(
            space1_model(r1),
            |r2: Seq<u8>, _sp: Seq<u8>|
                pbind(
                    g(r2),
                    |r3: Seq<u8>, v: O|
                        pbind(
                            end_of_line_model(r3),
                            |r4: Seq<u8>, _e: Seq<u8>| POut::Parsed {
                                rest: r4,
                                val: Option::Some(v),
                            },
                        ),
                ),
        ),
    }
}

/// An optional key-value line whose key side is a supplied parser; its
/// recoverable failure means the construct is absent.
pub fn opt_kv_ext<'a, O, O2, K: Fn(&'a [u8]) -> PResult<'a, O2>, F: Fn(&'a [u8]) -> PResult<'a, O>>(
    s: &'a [u8],
    key: K,
    parser: F,
) -> (r: PResult<'a, Option<O>>)
    requires
        forall|x: &'a [u8]| #[trigger] call_requires(key, (x,)),
        forall|x: &'a [u8]| #[trigger] call_requires(parser, (x,)),
    ensures
        forall|gk: spec_fn(Seq<u8>) -> POut<()>, g: spec_fn(Seq<u8>) -> POut<O>|
            conforms_span(key, gk) && conforms(parser, g) ==> out_matches(
                r,
                opt_kv_ext_model(gk, g, s@),
            ),
{
    let r1 = match key(s) {
        Ok((r, _)) => r,
        Err(PFail::Recoverable(_)) => {
            return Ok((s, None));
        },
        Err(e) => {
            return Err(e);
        },
    };
    let r2 = match space1(r1) {
        Ok((r, _)) => r,
        Err(e) => {
            return Err(e);
        },
    };
    let (r3, v) = match parser(r2) {
        Ok(p) => p,
        Err(e) => {
            return Err(e);
        },
    };
    match end_of_line(r3) {
        Ok((r4, _)) => Ok((r4, Some(v))),
        Err(e) => Err(e),
    }
}

/// The model of `key_int`: a `key value` line whose value is a signed
/// integer.
pub open spec fn key_int_model(key: Seq<u8>, s: Seq<u8>) -> POut<i64> {
    kv_model(|x: Seq<u8>| integer_model(x), key, s)
}

/// A `key value` line whose value is a signed decimal integer.
pub fn key_int<'a>(s: &'a [u8], key: &[u8]) -> (r: PResult<'a, i64>)
    ensures
        out_matches(r, key_int_model(key@, s@)),
{
    let r = kv(s, key, integer);
    proof {
        let g = |x: Seq<u8>| integer_model(x);
        assert forall|x: &'a [u8], y: PResult<'a, i64>| #[trigger] call_ensures(
            integer,
            (x,),
            y,
        ) implies out_matches(y, g(x@)) by {}
        assert(conforms(integer, g));
    }
    r
}

/// The model of `opt_key_int`: an optional `key value` line whose value is
/// a signed integer.
pub open spec fn opt_key_int_model(key: Seq<u8>, s: Seq<u8>) -> POut<Option<i64>> {
    opt_kv_model(|x: Seq<u8>| integer_model(x), key, s)
}

/// An optional `key value` line whose value is a signed decimal integer.
pub fn opt_key_int<'a>(s: &'a [u8], key: &[u8]) -> (r: PResult<'a, Option<i64>>)
    ensures
        out_matches(r, opt_key_int_model(key@, s@)),
{
    let r = opt_kv(s, key, integer);
    proof {
        let g = |x: Seq<u8>| integer_model(x);
        assert forall|x: &'a [u8], y: PResult<'a, i64>| #[trigger] call_ensures(
            integer,
            (x,),
            y,
        ) implies out_matches(y, g(x@)) by {}
        assert(conforms(integer, g));
    }
    r
}

/// The model of `section`: `[`, the literal name, `]`, then end of line;
/// the value is the matched name.
pub open spec fn section_model(name: Seq<u8>, s: Seq<u8>) -> POut<Seq<u8>> {
    pbind(
        byte_model(91, s),
        |r1: Seq<u8>, _a: u8|
            pbind(
                tag_model(name, r1),
                |r2: Seq<u8>, v: Seq<u8>|
                    pbind(
                        byte_model(93, r2),
                        |r3: Seq<u8>, _b: u8|
                            pbind(
                                end_of_line_model(r3),
                                |r4: Seq<u8>, _e: Seq<u8>| POut::Parsed { rest: r4, val: v },
                            ),
                    ),
            ),
    )
}

/// A bracketed section header: `[` + the literal `name` + `]` + end of
/// line. The name must match exactly, case included.
pub fn section<'a>(s: &'a [u8], name: &[u8]) -> (r: PResult<'a, &'a [u8]>)
    ensures
        out_matches_bytes(r, section_model(name@, s@)),
{
    let r1 = match one_byte(s, 91) {
        Ok((r, _)) => r,
        Err(e) => {
            return Err(e);
        },
    };
    let (r2, v) = match tag(r1, name) {
        Ok(p) => p,
        Err(e) => {
            return Err(e);
        },
    };
    let r3 = match one_byte(r2, 93) {
        Ok((r, _)) => r,
        Err(e) => {
            return Err(e);
        },
    };
    match end_of_line(r3) {
        Ok((r4, _)) => Ok((r4, v)),
        Err(e) => Err(e),
    }
}

/// The model of `section_ext`: as `section`, with the bracketed content
/// parsed by a supplied parser instead of a literal name.
pub open spec fn section_ext_model<O>(g: spec_fn(Seq<u8>) -> POut<O>, s: Seq<u8>) -> POut<O> {
    pbind(
        byte_model(91, s),
        |r1: Seq<u8>, _a: u8|
            pbind(
                g(r1),
                |r2: Seq<u8>, v: O|
                    pbind(
                        byte_model(93, r2),
                        |r3: Seq<u8>, _b: u8|
                            pbind(
                                end_of_line_model(r3),
                                |r4: Seq<u8>, _e: Seq<u8>| POut::Parsed { rest: r4, val: v },
                            ),
                    ),
            ),
    )
}

/// A bracketed section header whose content is parsed by `parser`, enabling
/// capture of the header's payload.
pub fn section_ext<'a, O, F: Fn(&'a [u8]) -> PResult<'a, O>>(s: &'a [u8], parser: F) -> (r: PResult<
    'a,
    O,
>)
    requires
        forall|x: &'a [u8]| #[trigger] call_requires(parser, (x,)),
    ensures
        forall|g: spec_fn(Seq<u8>) -> POut<O>| conforms(parser, g) ==> out_matches(
            r,
            section_ext_model(g, s@),
        ),
{
    let r1 = match one_byte(s, 91) {
        Ok((r, _)) => r,
        Err(e) => {
            return Err(e);
        },
    };
    let (r2, v) = match parser(r1) {
        Ok(p) => p,
        Err(e) => {
            return Err(e);
        },
    };
    let r3 = match one_byte(r2, 93) {
        Ok((r, _)) => r,
        Err(e) => {
            return Err(e);
        },
    };
    match end_of_line(r3) {
        Ok((r4, _)) => Ok((r4, v)),
        Err(e) => Err(e),
    }
}

/// The model of `curly_delimited`: `{`, the inner parser, `}`; no trimming
/// and no end-of-line handling.
pub open spec fn curly_delimited_model<O>(g: spec_fn(Seq<u8>) -> POut<O>, s: Seq<u8>) -> POut<O> {
    pbind(
        byte_model(123, s),
        |r1: Seq<u8>, _a: u8|
            pbind(
                g(r1),
                |r2: Seq<u8>, v: O|
                    pbind(
                        byte_model(125, r2),
                        |r3: Seq<u8>, _b: u8| POut::Parsed { rest: r3, val: v },
                    ),
            ),
    )
}

/// Content between curly braces, parsed by `parser`.
pub fn curly_delimited<'a, O, F: Fn(&'a [u8]) -> PResult<'a, O>>(s: &'a [u8], parser: F) -> (r:
    PResult<'a, O>)
    requires
        forall|x: &'a [u8]| #[trigger] call_requires(parser, (x,)),
    ensures
        forall|g: spec_fn(Seq<u8>) -> POut<O>| conforms(parser, g) ==> out_matches(
            r,
            curly_delimited_model(g, s@),
        ),
{
    let r1 = match one_byte(s, 123) {
        Ok((r, _)) => r,
        Err(e) => {
            return Err(e);
        },
    };
    let (r2, v) = match parser(r1) {
        Ok(p) => p,
        Err(e) => {
            return Err(e);
        },
    };
    match one_byte(r2, 125) {
        Ok((r3, _)) => Ok((r3, v)),
        Err(e) => Err(e),
    }
}

/// The model of `space0_delimited`: optional horizontal whitespace on both
/// sides of the inner parser.
pub open spec fn space0_delimited_model<O>(g: spec_fn(Seq<u8>) -> POut<O>, s: Seq<u8>) -> POut<O> {
    pbind(
        space0_model(s),
        |r1: Seq<u8>, _a: Seq<u8>|
            pbind(
                g(r1),
                |r2: Seq<u8>, v: O|
                    pbind(
                        space0_model(r2),
                        |r3: Seq<u8>, _b: Seq<u8>| POut::Parsed { rest: r3, val: v },
                    ),
            ),
    )
}

/// The inner parser with surrounding horizontal whitespace consumed.
pub fn space0_delimited<'a, O, F: Fn(&'a [u8]) -> PResult<'a, O>>(s: &'a [u8], parser: F) -> (r:
    PResult<'a, O>)
    requires
        forall|x: &'a [u8]| #[trigger] call_requires(parser, (x,)),
    ensures
        forall|g: spec_fn(Seq<u8>) -> POut<O>| conforms(parser, g) ==> out_matches(
            r,
            space0_delimited_model(g, s@),
        ),
{
    let r1 = match space0(s) {
        Ok((r, _)) => r,
        Err(e) => {
            return Err(e);
        },
    };
    let (r2, v) = match parser(r1) {
        Ok(p) => p,
        Err(e) => {
            return Err(e);
        },
    };
    match space0(r2) {
        Ok((r3, _)) => Ok((r3, v)),
        Err(e) => Err(e),
    }
}

/// The model of `flag`: success of the inner parser maps to `true`; a
/// recoverable failure maps to `false` with nothing consumed.
pub open spec fn flag_model(g: spec_fn(Seq<u8>) -> POut<()>, s: Seq<u8>) -> POut<bool> {
    match g(s) {
        POut::Parsed { rest, val: _v } => POut::Parsed { rest, val: true },
        POut::Failed { sev, frames } => if sev == Sev::Rec {
            POut::Parsed { rest: s, val: false }
        } else {
            POut::Failed { sev, frames }
        },
    }
}

/// Whether the inner parser matched; a recoverable failure consumes nothing
/// and yields `false`.
pub fn flag<'a, O, F: Fn(&'a [u8]) -> PResult<'a, O>>(s: &'a [u8], fun: F) -> (r: PResult<'a, bool>)
    requires
        forall|x: &'a [u8]| #[trigger] call_requires(fun, (x,)),
    ensures
        forall|g: spec_fn(Seq<u8>) -> POut<()>| conforms_span(fun, g) ==> out_matches(
            r,
            flag_model(g, s@),
        ),
{
    match fun(s) {
        Ok((rest, _v)) => Ok((rest, true)),
        Err(PFail::Recoverable(_)) => Ok((s, false)),
        Err(e) => Err(e),
    }
}

/// The model of `opt_flatten`: a doubly optional value collapsed to a
/// single level.
pub open spec fn opt_flatten_model<O>(
    g: spec_fn(Seq<u8>) -> POut<Option<Option<O>>>,
    s: Seq<u8>,
) -> POut<Option<O>> {
    match g(s) {
        POut::Parsed { rest, val } => POut::Parsed {
            rest,
            val: match val {
                Option::Some(Option::Some(x)) => Option::Some(x),
                _ => Option::None,
            },
        },
        POut::Failed { sev, frames } => POut::Failed { sev, frames },
    }
}

/// Collapses a parser of a doubly optional value to a singly optional one.
pub fn opt_flatten<'a, O, F: Fn(&'a [u8]) -> PResult<'a, Option<Option<O>>>>(
    s: &'a [u8],
    f: F,
) -> (r: PResult<'a, Option<O>>)
    requires
        forall|x: &'a [u8]| #[trigger] call_requires(f, (x,)),
    ensures
        forall|g: spec_fn(Seq<u8>) -> POut<Option<Option<O>>>| conforms(f, g) ==> out_matches(
            r,
            opt_flatten_model(g, s@),
        ),
{
    match f(s) {
        Ok((rest, Some(Some(x)))) => Ok((rest, Some(x))),
        Ok((rest, _)) => Ok((rest, None)),
        Err(e) => Err(e),
    }
}

/// The model of `cond_err`: the inner model when enabled, else a
/// recoverable failure at the input.
pub open spec fn cond_err_model<O>(g: spec_fn(Seq<u8>) -> POut<O>, b: bool, s: Seq<u8>) -> POut<O> {
    if b {
        g(s)
    } else {
        POut::Failed { sev: Sev::Rec, frames: frames1(s.len() as int, ErrKind::NoneOf) }
    }
}

/// Runs the inner parser only when `b` holds; otherwise fails recoverably
/// without consuming anything.
pub fn cond_err<'a, O, F: Fn(&'a [u8]) -> PResult<'a, O>>(s: &'a [u8], b: bool, f: F) -> (r:
    PResult<'a, O>)
    requires
        forall|x: &'a [u8]| #[trigger] call_requires(f, (x,)),
    ensures
        forall|g: spec_fn(Seq<u8>) -> POut<O>| conforms(f, g) ==> out_matches(
            r,
            cond_err_model(g, b, s@),
        ),
{
    if b {
        f(s)
    } else {
        Err(rec_fail(s.len(), ErrKind::NoneOf))
    }
}

/// Does the result of `apply` agree with a model: on a modelled success the
/// input has advanced to the model's rest and the value is returned; on a
/// modelled failure the input is unchanged.
pub open spec fn apply_matches<O>(
    r: Result<O, PFail>,
    before: Seq<u8>,
    after: Seq<u8>,
    m: POut<O>,
) -> bool {
    match m {
        POut::Parsed { rest, val } => match r {
            Result::Ok(v) => v == val && after == rest,
            Result::Err(_) => false,
        },
        POut::Failed { sev, frames } => match r {
            Result::Ok(_) => false,
            Result::Err(pf) => fail_matches(pf, sev, frames) && after == before,
        },
    }
}

/// Applies a parser to an input held in a mutable place: on success the
/// place is advanced past the consumed prefix; on failure it is unchanged.
pub fn apply<'a, O, F: Fn(&'a [u8]) -> PResult<'a, O>>(i: &mut &'a [u8], parser: F) -> (r: Result<
    O,
    PFail,
>)
    requires
        forall|x: &'a [u8]| #[trigger] call_requires(parser, (x,)),
    ensures
        forall|g: spec_fn(Seq<u8>) -> POut<O>| conforms(parser, g) ==> apply_matches(
            r,
            (*old(i))@,
            (*final(i))@,
            g((*old(i))@),
        ),
{
    match parser(*i) {
        Ok((left, res)) => {
            *i = left;
            Ok(res)
        },
        Err(e) => Err(e),
    }
}

/// A model's failure committed: a recoverable failure becomes fatal, so the
/// caller must not try alternatives.
pub open spec fn cut_model<O>(m: POut<O>) -> POut<O> {
    match m {
        POut::Parsed { rest, val } => POut::Parsed { rest, val },
        POut::Failed { sev, frames } => POut::Failed {
            sev: if sev == Sev::Rec {
                Sev::Fatal
            } else {
                sev
            },
            frames,
        },
    }
}

/// As `apply`, but commits: a recoverable failure of the parser is raised
/// as fatal, while the place is still left unchanged.
pub fn cut_apply<'a, O, F: Fn(&'a [u8]) -> PResult<'a, O>>(i: &mut &'a [u8], parser: F) -> (r:
    Result<O, PFail>)
    requires
        forall|x: &'a [u8]| #[trigger] call_requires(parser, (x,)),
    ensures
        forall|g: spec_fn(Seq<u8>) -> POut<O>| conforms(parser, g) ==> apply_matches(
            r,
            (*old(i))@,
            (*final(i))@,
            cut_model(g((*old(i))@)),
        ),
{
    match parser(*i) {
        Ok((left, res)) => {
            *i = left;
            Ok(res)
        },
        Err(PFail::Recoverable(e)) => Err(PFail::Fatal(e)),
        Err(e) => Err(e),
    }
}

} // verus!
