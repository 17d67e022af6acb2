use lineparse::lex::{int_bool, integer, one_byte, space0, word};
use lineparse::outcome::{ErrKind, Frame, PFail};
use lineparse::repeat::{
    count_array, count_cap, count_indexed, fixed_list_of_numbers, many_array,
    many_key_index_int, separated_list_first_unchecked,
};

fn frames_of_err<T>(r: Result<T, PFail>) -> Vec<Frame> {
    match r {
        Err(PFail::Recoverable(e)) => e.frames,
        _ => panic!("expected a recoverable failure"),
    }
}

#[test]
fn many_array_stops_at_capacity() {
    // Exactly as many well-formed elements as the capacity, then ill-formed
    // text: full collection, trailing text unconsumed, whatever the minimum.
    for min in 0..4usize {
        let r = many_array(b"101xx", min, 3, int_bool).unwrap();
        assert_eq!(&b"xx"[..], r.0);
        assert_eq!(vec![true, false, true], r.1.into_vec());
    }
}

#[test]
fn many_array_capacity_zero_is_empty() {
    let r = many_array(b"101", 0, 0, int_bool).unwrap();
    assert_eq!(&b"101"[..], r.0);
    assert_eq!(0, r.1.len());
    assert_eq!(0, r.1.capacity());
}

#[test]
fn many_array_stops_at_first_failure_past_min() {
    let r = many_array(b"10xx", 1, 4, int_bool).unwrap();
    assert_eq!(&b"xx"[..], r.0);
    assert_eq!(vec![true, false], r.1.into_vec());
}

#[test]
fn many_array_fails_below_min_at_first_failing_element() {
    // Fewer well-formed elements than the minimum: the whole repetition
    // fails, and the wrapped error points at the first failing element.
    let frames = frames_of_err(many_array(b"10xx", 3, 4, int_bool));
    assert_eq!(2, frames.len());
    assert_eq!(ErrKind::Char, frames[0].kind);
    assert_eq!(2, frames[0].rem);
    assert_eq!(ErrKind::ManyMN, frames[1].kind);
    assert_eq!(2, frames[1].rem);
}

#[test]
fn many_array_rejects_non_advancing_parser() {
    // A sub-parser that can match a zero-length span fails the repetition
    // with a non-advancing-repetition error instead of looping.
    let frames = frames_of_err(many_array(b"abc", 0, 5, space0));
    assert_eq!(1, frames.len());
    assert_eq!(ErrKind::ManyMN, frames[0].kind);
    assert_eq!(3, frames[0].rem);
}

#[test]
fn separated_list_rejects_non_advancing_separator() {
    // A separator that can match a zero-length span fails the list with a
    // non-advancing-repetition error instead of looping.
    let frames = frames_of_err(separated_list_first_unchecked(b"1 2", space0, integer));
    assert_eq!(1, frames.len());
    assert_eq!(ErrKind::SeparatedList, frames[0].kind);
}

#[test]
fn separated_list_leaves_trailing_separator() {
    // A separator is speculative until an element after it is confirmed.
    let comma = |x: &'static [u8]| one_byte(x, b',');
    let r = separated_list_first_unchecked(b"1,2,3,", comma, integer).unwrap();
    assert_eq!(&b","[..], r.0);
    assert_eq!(vec![1, 2, 3], r.1);
}

#[test]
fn separated_list_empty_when_first_fails() {
    let comma = |x: &'static [u8]| one_byte(x, b',');
    let r = separated_list_first_unchecked(b"x", comma, integer).unwrap();
    assert_eq!(&b"x"[..], r.0);
    assert_eq!(Vec::<i64>::new(), r.1);
}

#[test]
fn separated_list_stops_at_separator_mismatch() {
    let comma = |x: &'static [u8]| one_byte(x, b',');
    let r = separated_list_first_unchecked(b"1,2;3", comma, integer).unwrap();
    assert_eq!(&b";3"[..], r.0);
    assert_eq!(vec![1, 2], r.1);
}

#[test]
fn count_cap_needs_every_round() {
    let r = count_cap(b"101", int_bool, 3).unwrap();
    assert_eq!(&b""[..], r.0);
    assert_eq!(vec![true, false, true], r.1);
    let frames = frames_of_err(count_cap(b"1x", int_bool, 2));
    assert_eq!(ErrKind::Char, frames[0].kind);
    assert_eq!(ErrKind::Count, frames[1].kind);
    // The count frame points at the repetition's original start.
    assert_eq!(2, frames[1].rem);
}

#[test]
fn count_array_fills_the_collector() {
    let r = count_array(b"0110", 4, int_bool).unwrap();
    assert_eq!(&b""[..], r.0);
    assert_eq!(4, r.1.capacity());
    assert_eq!(vec![false, true, true, false], r.1.into_vec());
    assert!(count_array(b"01", 3, int_bool).is_err());
}

#[test]
fn count_indexed_feeds_the_round_index() {
    let digit_at = |x: &'static [u8], k: usize| one_byte(x, b'0' + k as u8);
    let r = count_indexed(b"012x", digit_at, 3).unwrap();
    assert_eq!(&b"x"[..], r.0);
    assert_eq!(vec![b'0', b'1', b'2'], r.1);
    assert!(count_indexed(b"021", digit_at, 3).is_err());
}

#[test]
fn many_key_index_int_reads_each_key_independently() {
    let r = many_key_index_int(b"f0 1\nf1 2\n", b"f", 3).unwrap();
    assert_eq!(&b""[..], r.0);
    assert_eq!(vec![Some(1), Some(2), None], r.1);
    // Round zero looks for `f0`, which is absent; round one still finds `f1`.
    let r2 = many_key_index_int(b"f1 2\n", b"f", 2).unwrap();
    assert_eq!(&b""[..], r2.0);
    assert_eq!(vec![None, Some(2)], r2.1);
}

#[test]
fn fixed_list_of_numbers_exact_arity() {
    let r = fixed_list_of_numbers(b" 1 -2  3 tail", 3).unwrap();
    assert_eq!(&b" tail"[..], r.0);
    assert_eq!(vec![1, -2, 3], r.1);
    assert!(fixed_list_of_numbers(b"1 2", 3).is_err());
}

#[test]
fn many_array_elements_in_order() {
    let r = many_array(b"ab cd ef\n", 0, 10, |x: &'static [u8]| {
        match word(x) {
            Ok((rest, w)) => match space0(rest) {
                Ok((rest2, _)) => Ok((rest2, w)),
                Err(e) => Err(e),
            },
            Err(e) => Err(e),
        }
    })
    .unwrap();
    assert_eq!(&b"\n"[..], r.0);
    assert_eq!(vec![&b"ab"[..], &b"cd"[..], &b"ef"[..]], r.1.into_vec());
}

#[test]
fn many_array_capacity_stops_before_min_check() {
    // The minimum is only consulted when a round fails: a collection that
    // reaches capacity succeeds even below the minimum.
    let r = many_array(b"101", 5, 2, int_bool).unwrap();
    assert_eq!(&b"1"[..], r.0);
    assert_eq!(vec![true, false], r.1.into_vec());
}

#[test]
fn bounded_collector_indexing() {
    let r = many_array(b"011", 0, 3, int_bool).unwrap().1;
    assert_eq!(3, r.len());
    assert_eq!(3, r.capacity());
    assert_eq!(&false, r.get(0));
    assert_eq!(&true, r.get(2));
}
