//! The repetition engines.
//!
//! Bounded repetition applies a sub-parser a fixed number of times, or up to
//! a declared capacity with an optional minimum, collecting into a bounded
//! collector without heap growth beyond the bound. Unbounded repetition
//! parses a separator-delimited list that stops on a non-matching separator
//! instead of erroring. Every engine requires each accepted round to consume
//! input strictly, and fails with a non-advancing-repetition error instead
//! of looping when a sub-parser matches a zero-length span.
//!
//! Each engine's contract is stated against any spec model its sub-parser
//! conforms to, and the spec models are total functions, so termination is
//! unconditional.

use vstd::prelude::*;
use crate::bounded::BoundedVec;
use crate::outcome::{ErrKind, PFail, POut, PResult, Sev, frames1, fail_matches, out_matches,
    rec_fail};
use crate::combin::{conforms, conforms_span, erased, opt_kv_ext_model, opt_kv_ext};
use crate::lex::{tag_model, byte_model, integer_model, space0_number_model, tag, one_byte,
    integer, space0_number};

verus! {

broadcast use vstd::slice::group_slice_axioms;

/// Does an executable outcome agree with a model, for vector values, which
/// the model holds as sequences?
pub open spec fn out_matches_vec<'a, O>(y: PResult<'a, Vec<O>>, m: POut<Seq<O>>) -> bool {
    match y {
        Result::Ok((rest, v)) => match m {
            POut::Parsed { rest: mr, val } => rest@ == mr && v@ == val,
            POut::Failed { .. } => false,
        },
        Result::Err(pf) => match m {
            POut::Parsed { .. } => false,
            POut::Failed { sev, frames } => fail_matches(pf, sev, frames),
        },
    }
}

/// Does an executable outcome agree with a model, for bounded-collector
/// values of the given capacity?
pub open spec fn out_matches_bvec<'a, O>(
    y: PResult<'a, BoundedVec<O>>,
    m: POut<Seq<O>>,
    cap: int,
) -> bool {
    match y {
        Result::Ok((rest, v)) => match m {
            POut::Parsed { rest: mr, val } => rest@ == mr && v.spec_items() == val && v.wf()
                && v.spec_cap() == cap,
            POut::Failed { .. } => false,
        },
        Result::Err(pf) => match m {
            POut::Parsed { .. } => false,
            POut::Failed { sev, frames } => fail_matches(pf, sev, frames),
        },
    }
}

/// The model of `many_array` continued from a partial collection: stop with
/// success at capacity; a non-advancing success of the sub-parser is the
/// non-advancing-repetition error; a recoverable failure below the minimum
/// is wrapped and re-raised, at or above the minimum it ends the repetition
/// with the collection so far and the failing round's input unconsumed.
pub open spec fn many_model_from<O>(
    g: spec_fn(Seq<u8>) -> POut<O>,
    s: Seq<u8>,
    taken: Seq<O>,
    min: int,
    cap: int,
) -> POut<Seq<O>>
    decreases cap - taken.len(),
{
    if taken.len() >= cap {
        POut::Parsed { rest: s, val: taken }
    } else {
        match g(s) {
            POut::Parsed { rest, val } => {
                if rest.len() >= s.len() {
                    POut::Failed {
                        sev: Sev::Rec,
                        frames: frames1(s.len() as int, ErrKind::ManyMN),
                    }
                } else {
                    many_model_from(g, rest, taken.push(val), min, cap)
                }
            },
            POut::Failed { sev, frames } => {
                if sev == Sev::Rec {
                    if taken.len() < min {
                        POut::Failed {
                            sev: Sev::Rec,
                            frames: frames.push((s.len() as int, ErrKind::ManyMN)),
                        }
                    } else {
                        POut::Parsed { rest: s, val: taken }
                    }
                } else {
                    POut::Failed { sev, frames }
                }
            },
        }
    }
}

/// The model of `many_array` on a fresh collection.
pub open spec fn many_model<O>(
    g: spec_fn(Seq<u8>) -> POut<O>,
    s: Seq<u8>,
    min: int,
    cap: int,
) -> POut<Seq<O>> {
    many_model_from(g, s, Seq::<O>::empty(), min, cap)
}

/// Repeatedly applies `f`, at most `cap` times, requiring every accepted
/// round to consume input; succeeds at capacity or at the first recoverable
/// failure once `min` rounds have succeeded.
#[verifier::loop_isolation(false)]
pub fn many_array<'a, O, F: Fn(&'a [u8]) -> PResult<'a, O>>(
    s: &'a [u8],
    min: usize,
    cap: usize,
    f: F,
) -> (r: PResult<'a, BoundedVec<O>>)
    requires
        forall|x: &'a [u8]| #[trigger] call_requires(f, (x,)),
    ensures
        forall|g: spec_fn(Seq<u8>) -> POut<O>| #[trigger] conforms(f, g) ==> out_matches_bvec(
            r,
            many_model(g, s@, min as int, cap as int),
            cap as int,
        ),
        r matches Ok((rest, v)) ==> v.wf() && v.spec_cap() == cap as int && (
        v.spec_items().len() >= min || v.spec_items().len() == cap as int),
{
    let mut input: &'a [u8] = s;
    let mut res: BoundedVec<O> = BoundedVec::new(cap);
    if cap == 0 {
        return Ok((input, res));
    }
    loop
        invariant
            res.wf(),
            res.spec_cap() == cap as int,
            res.spec_items().len() < cap as int,
            forall|g: spec_fn(Seq<u8>) -> POut<O>| #[trigger] conforms(f, g)
                ==> many_model_from(g, s@, Seq::<O>::empty(), min as int, cap as int)
                == many_model_from(g, input@, res.spec_items(), min as int, cap as int),
        decreases input@.len(),
    {
        let ghost pre = input@;
        let ghost taken = res.spec_items();
        match f(input) {
            Ok((i1, o)) => {
                if i1.len() >= input.len() {
                    let fail = rec_fail(input.len(), ErrKind::ManyMN);
                    proof {
                        assert forall|g: spec_fn(Seq<u8>) -> POut<O>| #[trigger] conforms(
                            f,
                            g,
                        ) implies out_matches_bvec(
                            Err::<(&'a [u8], BoundedVec<O>), PFail>(fail),
                            many_model(g, s@, min as int, cap as int),
                            cap as int,
                        ) by {
                            assert(out_matches(Ok::<_, PFail>((i1, o)), g(pre)));
                        }
                    }
                    return Err(fail);
                }
                res.push(o);
                input = i1;
                proof {
                    assert forall|g: spec_fn(Seq<u8>) -> POut<O>| #[trigger] conforms(f, g) implies
                        many_model_from(g, s@, Seq::<O>::empty(), min as int, cap as int)
                        == many_model_from(g, input@, res.spec_items(), min as int, cap as int) by {
                        assert(out_matches(Ok::<_, PFail>((i1, o)), g(pre)));
                        assert(many_model_from(g, pre, taken, min as int, cap as int)
                            == many_model_from(g, i1@, taken.push(o), min as int, cap as int));
                    }
                }
                if res.len() == cap {
                    return Ok((input, res));
                }
            },
            Err(PFail::Recoverable(e)) => {
                if res.len() < min {
                    let fail = PFail::Recoverable(e.appended(input.len(), ErrKind::ManyMN));
                    proof {
                        assert forall|g: spec_fn(Seq<u8>) -> POut<O>| #[trigger] conforms(
                            f,
                            g,
                        ) implies out_matches_bvec(
                            Err::<(&'a [u8], BoundedVec<O>), PFail>(fail),
                            many_model(g, s@, min as int, cap as int),
                            cap as int,
                        ) by {
                            assert(out_matches(
                                Err::<(&'a [u8], O), PFail>(PFail::Recoverable(e)),
                                g(pre),
                            ));
                        }
                    }
                    return Err(fail);
                } else {
                    proof {
                        assert forall|g: spec_fn(Seq<u8>) -> POut<O>| #[trigger] conforms(
                            f,
                            g,
                        ) implies out_matches_bvec(
                            Ok::<(&'a [u8], BoundedVec<O>), PFail>((input, res)),
                            many_model(g, s@, min as int, cap as int),
                            cap as int,
                        ) by {
                            assert(out_matches(
                                Err::<(&'a [u8], O), PFail>(PFail::Recoverable(e)),
                                g(pre),
                            ));
                        }
                    }
                    return Ok((input, res));
                }
            },
            Err(e) => {
                proof {
                    assert forall|g: spec_fn(Seq<u8>) -> POut<O>| #[trigger] conforms(
                        f,
                        g,
                    ) implies out_matches_bvec(
                        Err::<(&'a [u8], BoundedVec<O>), PFail>(e),
                        many_model(g, s@, min as int, cap as int),
                        cap as int,
                    ) by {
                        assert(out_matches(Err::<(&'a [u8], O), PFail>(e), g(pre)));
                    }
                }
                return Err(e);
            },
        }
    }
}

/// The model of a fixed-count repetition continued from a partial
/// collection: exactly `n` rounds, any recoverable failure wrapped with a
/// count frame at the repetition's original input `s0`.
pub open spec fn count_model_from<O>(
    g: spec_fn(Seq<u8>) -> POut<O>,
    s0: Seq<u8>,
    s: Seq<u8>,
    taken: Seq<O>,
    n: int,
) -> POut<Seq<O>>
    decreases n - taken.len(),
{
    if taken.len() >= n {
        POut::Parsed { rest: s, val: taken }
    } else {
        match g(s) {
            POut::Parsed { rest, val } => count_model_from(g, s0, rest, taken.push(val), n),
            POut::Failed { sev, frames } => {
                if sev == Sev::Rec {
                    POut::Failed {
                        sev: Sev::Rec,
                        frames: frames.push((s0.len() as int, ErrKind::Count)),
                    }
                } else {
                    POut::Failed { sev, frames }
                }
            },
        }
    }
}

/// The model of a fixed-count repetition.
pub open spec fn count_model<O>(g: spec_fn(Seq<u8>) -> POut<O>, n: int, s: Seq<u8>) -> POut<
    Seq<O>,
> {
    count_model_from(g, s, s, Seq::<O>::empty(), n)
}

/// Applies `f` exactly `n` times into a vector; any failure discards the
/// partial results and is re-raised, wrapped with a count frame at the
/// original start position.
#[verifier::loop_isolation(false)]
pub fn count_cap<'a, O, F: Fn(&'a [u8]) -> PResult<'a, O>>(s: &'a [u8], f: F, n: usize) -> (r:
    PResult<'a, Vec<O>>)
    requires
        forall|x: &'a [u8]| #[trigger] call_requires(f, (x,)),
    ensures
        forall|g: spec_fn(Seq<u8>) -> POut<O>| #[trigger] conforms(f, g) ==> out_matches_vec(
            r,
            count_model(g, n as int, s@),
        ),
        r matches Ok((rest, v)) ==> v@.len() == n,
{
    let mut input: &'a [u8] = s;
    let mut res: Vec<O> = Vec::new();
    let mut k: usize = 0;
    while k < n
        invariant
            k <= n,
            res@.len() == k,
            forall|g: spec_fn(Seq<u8>) -> POut<O>| #[trigger] conforms(f, g) ==> count_model_from(
                g,
                s@,
                s@,
                Seq::<O>::empty(),
                n as int,
            ) == count_model_from(g, s@, input@, res@, n as int),
        decreases n - k,
    {
        let ghost pre = input@;
        let ghost taken = res@;
        match f(input) {
            Ok((i1, o)) => {
                res.push(o);
                input = i1;
                k += 1;
                proof {
                    assert forall|g: spec_fn(Seq<u8>) -> POut<O>| #[trigger] conforms(f, g) implies
                        count_model_from(g, s@, s@, Seq::<O>::empty(), n as int)
                        == count_model_from(g, s@, input@, res@, n as int) by {
                        assert(out_matches(Ok::<_, PFail>((i1, o)), g(pre)));
                        assert(res@ == taken.push(o));
                    }
                }
            },
            Err(PFail::Recoverable(e)) => {
                let fail = PFail::Recoverable(e.appended(s.len(), ErrKind::Count));
                proof {
                    assert forall|g: spec_fn(Seq<u8>) -> POut<O>| #[trigger] conforms(
                        f,
                        g,
                    ) implies out_matches_vec(
                        Err::<(&'a [u8], Vec<O>), PFail>(fail),
                        count_model(g, n as int, s@),
                    ) by {
                        assert(out_matches(
                            Err::<(&'a [u8], O), PFail>(PFail::Recoverable(e)),
                            g(pre),
                        ));
                    }
                }
                return Err(fail);
            },
            Err(e) => {
                proof {
                    assert forall|g: spec_fn(Seq<u8>) -> POut<O>| #[trigger] conforms(
                        f,
                        g,
                    ) implies out_matches_vec(
                        Err::<(&'a [u8], Vec<O>), PFail>(e),
                        count_model(g, n as int, s@),
                    ) by {
                        assert(out_matches(Err::<(&'a [u8], O), PFail>(e), g(pre)));
                    }
                }
                return Err(e);
            },
        }
    }
    Ok((input, res))
}

/// Applies `f` exactly as many times as the collector's capacity, filling
/// it completely; any failure is re-raised with a count frame at the
/// original start position.
#[verifier::loop_isolation(false)]
pub fn count_array<'a, O, F: Fn(&'a [u8]) -> PResult<'a, O>>(s: &'a [u8], cap: usize, f: F) -> (r:
    PResult<'a, BoundedVec<O>>)
    requires
        forall|x: &'a [u8]| #[trigger] call_requires(f, (x,)),
    ensures
        forall|g: spec_fn(Seq<u8>) -> POut<O>| #[trigger] conforms(f, g) ==> out_matches_bvec(
            r,
            count_model(g, cap as int, s@),
            cap as int,
        ),
        r matches Ok((rest, v)) ==> v.wf() && v.spec_cap() == cap as int && v.spec_items().len()
            == cap as int,
{
    let mut input: &'a [u8] = s;
    let mut res: BoundedVec<O> = BoundedVec::new(cap);
    let mut k: usize = 0;
    while k < cap
        invariant
            k <= cap,
            res.wf(),
            res.spec_cap() == cap as int,
            res.spec_items().len() == k,
            forall|g: spec_fn(Seq<u8>) -> POut<O>| #[trigger] conforms(f, g) ==> count_model_from(
                g,
                s@,
                s@,
                Seq::<O>::empty(),
                cap as int,
            ) == count_model_from(g, s@, input@, res.spec_items(), cap as int),
        decreases cap - k,
    {
        let ghost pre = input@;
        let ghost taken = res.spec_items();
        match f(input) {
            Ok((i1, o)) => {
                res.push(o);
                input = i1;
                k += 1;
                proof {
                    assert forall|g: spec_fn(Seq<u8>) -> POut<O>| #[trigger] conforms(f, g) implies
                        count_model_from(g, s@, s@, Seq::<O>::empty(), cap as int)
                        == count_model_from(g, s@, input@, res.spec_items(), cap as int) by {
                        assert(out_matches(Ok::<_, PFail>((i1, o)), g(pre)));
                        assert(res.spec_items() == taken.push(o));
                    }
                }
            },
            Err(PFail::Recoverable(e)) => {
                let fail = PFail::Recoverable(e.appended(s.len(), ErrKind::Count));
                proof {
                    assert forall|g: spec_fn(Seq<u8>) -> POut<O>| #[trigger] conforms(
                        f,
                        g,
                    ) implies out_matches_bvec(
                        Err::<(&'a [u8], BoundedVec<O>), PFail>(fail),
                        count_model(g, cap as int, s@),
                        cap as int,
                    ) by {
                        assert(out_matches(
                            Err::<(&'a [u8], O), PFail>(PFail::Recoverable(e)),
                            g(pre),
                        ));
                    }
                }
                return Err(fail);
            },
            Err(e) => {
                proof {
                    assert forall|g: spec_fn(Seq<u8>) -> POut<O>| #[trigger] conforms(
                        f,
                        g,
                    ) implies out_matches_bvec(
                        Err::<(&'a [u8], BoundedVec<O>), PFail>(e),
                        count_model(g, cap as int, s@),
                        cap as int,
                    ) by {
                        assert(out_matches(Err::<(&'a [u8], O), PFail>(e), g(pre)));
                    }
                }
                return Err(e);
            },
        }
    }
    Ok((input, res))
}

/// Conformance of an index-aware sub-parser to a two-argument model.
pub open spec fn conforms_indexed<'a, O, F: Fn(&'a [u8], usize) -> PResult<'a, O>>(
    f: F,
    g: spec_fn(Seq<u8>, int) -> POut<O>,
) -> bool {
    forall|x: &'a [u8], k: usize, y: PResult<'a, O>| #[trigger] call_ensures(f, (x, k), y)
        ==> out_matches(y, g(x@, k as int))
}

/// The model of an index-aware fixed-count repetition: round `k` runs the
/// sub-parser's model at index `k`.
pub open spec fn count_indexed_model_from<O>(
    g: spec_fn(Seq<u8>, int) -> POut<O>,
    s0: Seq<u8>,
    s: Seq<u8>,
    taken: Seq<O>,
    n: int,
) -> POut<Seq<O>>
    decreases n - taken.len(),
{
    if taken.len() >= n {
        POut::Parsed { rest: s, val: taken }
    } else {
        match g(s, taken.len() as int) {
            POut::Parsed { rest, val } => count_indexed_model_from(
                g,
                s0,
                rest,
                taken.push(val),
                n,
            ),
            POut::Failed { sev, frames } => {
                if sev == Sev::Rec {
                    POut::Failed {
                        sev: Sev::Rec,
                        frames: frames.push((s0.len() as int, ErrKind::Count)),
                    }
                } else {
                    POut::Failed { sev, frames }
                }
            },
        }
    }
}

/// The model of an index-aware fixed-count repetition from the start.
pub open spec fn count_indexed_model<O>(
    g: spec_fn(Seq<u8>, int) -> POut<O>,
    n: int,
    s: Seq<u8>,
) -> POut<Seq<O>> {
    count_indexed_model_from(g, s, s, Seq::<O>::empty(), n)
}

/// Applies `f` exactly `n` times, feeding each round its zero-based index;
/// this is how fixed families of numbered fields are generated from one
/// definition.
#[verifier::loop_isolation(false)]
pub fn count_indexed<'a, O, F: Fn(&'a [u8], usize) -> PResult<'a, O>>(
    s: &'a [u8],
    f: F,
    n: usize,
) -> (r: PResult<'a, Vec<O>>)
    requires
        forall|x: &'a [u8], k: usize| k < n ==> #[trigger] call_requires(f, (x, k)),
    ensures
        forall|g: spec_fn(Seq<u8>, int) -> POut<O>| #[trigger] conforms_indexed(f, g)
            ==> out_matches_vec(r, count_indexed_model(g, n as int, s@)),
        r matches Ok((rest, v)) ==> v@.len() == n,
{
    let mut input: &'a [u8] = s;
    let mut res: Vec<O> = Vec::new();
    let mut k: usize = 0;
    while k < n
        invariant
            k <= n,
            res@.len() == k,
            forall|g: spec_fn(Seq<u8>, int) -> POut<O>| #[trigger] conforms_indexed(f, g)
                ==> count_indexed_model_from(g, s@, s@, Seq::<O>::empty(), n as int)
                == count_indexed_model_from(g, s@, input@, res@, n as int),
        decreases n - k,
    {
        let ghost pre = input@;
        let ghost taken = res@;
        match f(input, k) {
            Ok((i1, o)) => {
                res.push(o);
                input = i1;
                k += 1;
                proof {
                    assert forall|g: spec_fn(Seq<u8>, int) -> POut<O>| #[trigger] conforms_indexed(
                        f,
                        g,
                    ) implies count_indexed_model_from(g, s@, s@, Seq::<O>::empty(), n as int)
                        == count_indexed_model_from(g, s@, input@, res@, n as int) by {
                        assert(out_matches(Ok::<_, PFail>((i1, o)), g(pre, taken.len() as int)));
                        assert(res@ == taken.push(o));
                    }
                }
            },
            Err(PFail::Recoverable(e)) => {
                let fail = PFail::Recoverable(e.appended(s.len(), ErrKind::Count));
                proof {
                    assert forall|g: spec_fn(Seq<u8>, int) -> POut<O>| #[trigger] conforms_indexed(
                        f,
                        g,
                    ) implies out_matches_vec(
                        Err::<(&'a [u8], Vec<O>), PFail>(fail),
                        count_indexed_model(g, n as int, s@),
                    ) by {
                        assert(out_matches(
                            Err::<(&'a [u8], O), PFail>(PFail::Recoverable(e)),
                            g(pre, taken.len() as int),
                        ));
                    }
                }
                return Err(fail);
            },
            Err(e) => {
                proof {
                    assert forall|g: spec_fn(Seq<u8>, int) -> POut<O>| #[trigger] conforms_indexed(
                        f,
                        g,
                    ) implies out_matches_vec(
                        Err::<(&'a [u8], Vec<O>), PFail>(e),
                        count_indexed_model(g, n as int, s@),
                    ) by {
                        assert(out_matches(
                            Err::<(&'a [u8], O), PFail>(e),
                            g(pre, taken.len() as int),
                        ));
                    }
                }
                return Err(e);
            },
        }
    }
    Ok((input, res))
}

/// The model of one round of `many_key_index_int`: an optional key-value
/// line whose key is the prefix followed by the round's index digit and
/// whose value is a signed integer.
pub open spec fn key_index_elem_model(prefix: Seq<u8>, k: int, s: Seq<u8>) -> POut<Option<i64>> {
    opt_kv_ext_model(
        |x: Seq<u8>|
            erased(
                crate::combin::pbind(
                    tag_model(prefix, x),
                    |r1: Seq<u8>, _t: Seq<u8>| byte_model((48 + k) as u8, r1),
                ),
            ),
        |x: Seq<u8>| integer_model(x),
        s,
    )
}

/// The model of `many_key_index_int`.
pub open spec fn many_key_index_int_model(prefix: Seq<u8>, count: int, s: Seq<u8>) -> POut<
    Seq<Option<i64>>,
> {
    count_indexed_model(
        |x: Seq<u8>, k: int| key_index_elem_model(prefix, k, x),
        count,
        s,
    )
}

/// A sequence of `count` optional integers, one per literal key formed from
/// `prefix` and the round's digit, each read independently: absence of any
/// individual key yields no value at that index rather than aborting.
pub fn many_key_index_int<'a>(s: &'a [u8], prefix: &'a [u8], count: usize) -> (r: PResult<
    'a,
    Vec<Option<i64>>,
>)
    requires
        count <= 10,
    ensures
        out_matches_vec(r, many_key_index_int_model(prefix@, count as int, s@)),
{
    let elem = |x: &'a [u8], k: usize| -> (y: PResult<'a, Option<i64>>)
        requires
            k < 10,
        ensures
            out_matches(y, key_index_elem_model(prefix@, k as int, x@)),
        {
            let dig: u8 = 48 + (k as u8);
            let keyp = |xx: &'a [u8]| -> (yy: PResult<'a, u8>)
                ensures
                    crate::combin::span_matches(
                        yy,
                        erased(
                            crate::combin::pbind(
                                tag_model(prefix@, xx@),
                                |r1: Seq<u8>, _t: Seq<u8>| byte_model(dig, r1),
                            ),
                        ),
                    ),
                {
                    match tag(xx, prefix) {
                        Ok((r1, _t)) => one_byte(r1, dig),
                        Err(e) => Err(e),
                    }
                };
            let y = opt_kv_ext(x, keyp, integer);
            proof {
                let gk = |z: Seq<u8>|
                    erased(
                        crate::combin::pbind(
                            tag_model(prefix@, z),
                            |r1: Seq<u8>, _t: Seq<u8>| byte_model(dig, r1),
                        ),
                    );
                let g = |z: Seq<u8>| integer_model(z);
                assert forall|xz: &'a [u8], yz: PResult<'a, u8>| #[trigger] call_ensures(
                    keyp,
                    (xz,),
                    yz,
                ) implies crate::combin::span_matches(yz, gk(xz@)) by {}
                assert(conforms_span(keyp, gk));
                assert forall|xz: &'a [u8], yz: PResult<'a, i64>| #[trigger] call_ensures(
                    integer,
                    (xz,),
                    yz,
                ) implies out_matches(yz, g(xz@)) by {}
                assert(conforms(integer, g));
            }
            y
        };
    let r = count_indexed(s, elem, count);
    proof {
        let gi = |x: Seq<u8>, k: int| key_index_elem_model(prefix@, k, x);
        assert forall|x: &'a [u8], k: usize, y: PResult<'a, Option<i64>>| #[trigger] call_ensures(
            elem,
            (x, k),
            y,
        ) implies out_matches(y, gi(x@, k as int)) by {}
        assert(conforms_indexed(elem, gi));
    }
    r
}

/// The model of `fixed_list_of_numbers`: exactly `len` space-preceded
/// signed integers.
pub open spec fn fixed_list_of_numbers_model(len: int, s: Seq<u8>) -> POut<Seq<i64>> {
    count_model(|x: Seq<u8>| space0_number_model(x), len, s)
}

/// Exactly `len` signed integers, each preceded by optional horizontal
/// whitespace.
pub fn fixed_list_of_numbers<'a>(s: &'a [u8], len: usize) -> (r: PResult<'a, Vec<i64>>)
    ensures
        out_matches_vec(r, fixed_list_of_numbers_model(len as int, s@)),
{
    let r = count_cap(s, space0_number, len);
    proof {
        let g = |x: Seq<u8>| space0_number_model(x);
        assert forall|x: &'a [u8], y: PResult<'a, i64>| #[trigger] call_ensures(
            space0_number,
            (x,),
            y,
        ) implies out_matches(y, g(x@)) by {}
        assert(conforms(space0_number, g));
    }
    r
}

/// The model of the separated list's loop, continued with an accumulated
/// collection: a recoverable failure of the separator ends the list; a
/// non-advancing separator match is the non-advancing-repetition error; a
/// recoverable failure of the element after the separator backtracks past
/// the separator; fatal failures and incompleteness propagate.
pub open spec fn sep_cont_model<O>(
    gsep: spec_fn(Seq<u8>) -> POut<()>,
    g: spec_fn(Seq<u8>) -> POut<O>,
    s: Seq<u8>,
    acc: Seq<O>,
) -> POut<Seq<O>>
    decreases s.len(),
{
    match gsep(s) {
        POut::Failed { sev, frames } => {
            if sev == Sev::Rec {
                POut::Parsed { rest: s, val: acc }
            } else {
                POut::Failed { sev, frames }
            }
        },
        POut::Parsed { rest: s1, val: _u } => {
            if s1.len() >= s.len() {
                POut::Failed {
                    sev: Sev::Rec,
                    frames: frames1(s1.len() as int, ErrKind::SeparatedList),
                }
            } else {
                match g(s1) {
                    POut::Failed { sev, frames } => {
                        if sev == Sev::Rec {
                            POut::Parsed { rest: s, val: acc }
                        } else {
                            POut::Failed { sev, frames }
                        }
                    },
                    POut::Parsed { rest: s2, val: v } => {
                        if s2.len() >= s.len() {
                            POut::Failed {
                                sev: Sev::Rec,
                                frames: frames1(s2.len() as int, ErrKind::SeparatedList),
                            }
                        } else {
                            sep_cont_model(gsep, g, s2, acc.push(v))
                        }
                    },
                }
            }
        },
    }
}

/// The model of `separated_list_first_unchecked`: a recoverable failure of
/// the first element yields the empty list; the first element's advancement
/// is not checked.
pub open spec fn sep_list_model<O>(
    gsep: spec_fn(Seq<u8>) -> POut<()>,
    g: spec_fn(Seq<u8>) -> POut<O>,
    s: Seq<u8>,
) -> POut<Seq<O>> {
    match g(s) {
        POut::Failed { sev, frames } => {
            if sev == Sev::Rec {
                POut::Parsed { rest: s, val: Seq::<O>::empty() }
            } else {
                POut::Failed { sev, frames }
            }
        },
        POut::Parsed { rest: s1, val: v } => sep_cont_model(gsep, g, s1, seq![v]),
    }
}

/// A separator-delimited list that ends at the first non-matching separator
/// instead of erroring; a separator is speculative until an element after
/// it is confirmed, so a trailing separator is left unconsumed.
#[verifier::loop_isolation(false)]
pub fn separated_list_first_unchecked<'a, O, O2, G: Fn(&'a [u8]) -> PResult<'a, O2>, F: Fn(
    &'a [u8],
) -> PResult<'a, O>>(s: &'a [u8], sep: G, f: F) -> (r: PResult<'a, Vec<O>>)
    requires
        forall|x: &'a [u8]| #[trigger] call_requires(sep, (x,)),
        forall|x: &'a [u8]| #[trigger] call_requires(f, (x,)),
    ensures
        forall|gsep: spec_fn(Seq<u8>) -> POut<()>, g: spec_fn(Seq<u8>) -> POut<O>|
            #![trigger conforms_span(sep, gsep), conforms(f, g)]
            conforms_span(sep, gsep) && conforms(f, g) ==> out_matches_vec(
                r,
                sep_list_model(gsep, g, s@),
            ),
{
    let mut res: Vec<O> = Vec::new();
    let mut i: &'a [u8] = s;
    match f(i) {
        Err(PFail::Recoverable(_)) => {
            return Ok((i, res));
        },
        Err(e) => {
            return Err(e);
        },
        Ok((i1, o)) => {
            res.push(o);
            i = i1;
            proof {
                assert(res@ =~= seq![o]);
            }
        },
    }
    loop
        invariant
            forall|gsep: spec_fn(Seq<u8>) -> POut<()>, g: spec_fn(Seq<u8>) -> POut<O>|
                #![trigger conforms_span(sep, gsep), conforms(f, g)]
                conforms_span(sep, gsep) && conforms(f, g) ==> sep_list_model(
                    gsep,
                    g,
                    s@,
                ) == sep_cont_model(gsep, g, i@, res@),
        decreases i@.len(),
    {
        let ghost pre = i@;
        let ghost taken = res@;
        match sep(i) {
            Err(PFail::Recoverable(_)) => {
                return Ok((i, res));
            },
            Err(e) => {
                return Err(e);
            },
            Ok((i1, _u)) => {
                if i1.len() >= i.len() {
                    return Err(rec_fail(i1.len(), ErrKind::SeparatedList));
                }
                match f(i1) {
                    Err(PFail::Recoverable(_)) => {
                        return Ok((i, res));
                    },
                    Err(e) => {
                        return Err(e);
                    },
                    Ok((i2, o)) => {
                        if i2.len() >= i.len() {
                            return Err(rec_fail(i2.len(), ErrKind::SeparatedList));
                        }
                        res.push(o);
                        i = i2;
                        proof {
                            assert(res@ == taken.push(o));
                        }
                    },
                }
            },
        }
    }
}

} // verus!
