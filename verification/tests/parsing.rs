use lineparse::combin::{
    apply, cond_err, curly_delimited, cut_apply, flag, key_int, kv, kv_eq, kv_ext, kv_kv,
    kv_kv_sep, kv_sep, opt_flatten, opt_key_int, opt_kv, opt_kv_ext, section, section_ext,
    space0_delimited,
};
use lineparse::lex::{
    digit1, end_of_line, eof, idigit1, int_bool, integer, line_ending, not_closing_curly,
    one_byte, optional_str, optional_text, some_text, space0, space0_number, space1,
    space1_number, t_rn, tag, unsigned_number, word,
};
use lineparse::outcome::{ErrKind, PFail, PResult};
use lineparse::render::err_to_kind;

fn kind_of<T>(r: PResult<'_, T>) -> ErrKind {
    err_to_kind(r).err().expect("expected a failure")
}

#[test]
fn test_idigit1() {
    let parser = idigit1;
    assert_eq!(Ok((&b"   "[..], &b"123456"[..])), parser(b"123456   "));
    assert_eq!(Ok((&b"   "[..], &b"-123456"[..])), parser(b"-123456   "));
}

#[test]
fn test_parsed_number() {
    let parser = integer;
    assert_eq!(Ok((&b"   "[..], 123456)), parser(b"123456   "));
    assert_eq!(Ok((&b"   "[..], -123456)), parser(b"-123456   "));
}

#[test]
fn test_t_rn() {
    let parser = t_rn;
    assert_eq!(Ok((&b""[..], &b"\n"[..])), parser(b"\n"));
    assert_eq!(Ok((&b""[..], &b"\r\n"[..])), parser(b"\r\n"));
}

#[test]
fn integer_decimal_round_trip() {
    // The decimal text of a number, followed by whitespace, parses back to
    // the number with the whitespace remaining; likewise its negation.
    assert_eq!(Ok((&b" \t"[..], 0)), integer(b"0 \t"));
    assert_eq!(Ok((&b"  "[..], 907)), integer(b"907  "));
    assert_eq!(Ok((&b"  "[..], -907)), integer(b"-907  "));
    assert_eq!(Ok((&b""[..], 9223372036854775807)), integer(b"9223372036854775807"));
    assert_eq!(Ok((&b""[..], -9223372036854775808)), integer(b"-9223372036854775808"));
}

#[test]
fn integer_overflow_is_conversion_error() {
    assert_eq!(ErrKind::MapRes, kind_of(integer(b"9223372036854775808")));
    assert_eq!(ErrKind::MapRes, kind_of(integer(b"-9223372036854775809")));
    assert_eq!(ErrKind::MapRes, kind_of(integer(b"99999999999999999999999")));
}

#[test]
fn integer_requires_digits() {
    assert_eq!(ErrKind::Digit, kind_of(integer(b"abc")));
    assert_eq!(ErrKind::Digit, kind_of(integer(b"-x")));
    assert_eq!(ErrKind::Digit, kind_of(integer(b"")));
}

#[test]
fn unsigned_number_parses_and_overflows() {
    assert_eq!(Ok((&b""[..], 18446744073709551615)), unsigned_number(b"18446744073709551615"));
    assert_eq!(ErrKind::MapRes, kind_of(unsigned_number(b"18446744073709551616")));
    assert_eq!(ErrKind::Digit, kind_of(unsigned_number(b"-1")));
}

#[test]
fn space_numbers() {
    assert_eq!(Ok((&b""[..], -7)), space0_number(b"-7"));
    assert_eq!(Ok((&b""[..], -7)), space0_number(b"   -7"));
    assert_eq!(Ok((&b""[..], 8)), space1_number(b" 8"));
    assert_eq!(ErrKind::Space, kind_of(space1_number(b"8")));
}

#[test]
fn kv_takes_plain_space_only() {
    // `kv` accepts `key value`; it has no separator support, which `kv_eq`
    // adds.
    assert_eq!(Ok((&b""[..], 42)), kv(b"count 42\r\n", b"count", integer));
    assert!(kv(b"count=42\r\n", b"count", integer).is_err());
    assert_eq!(Ok((&b""[..], 42)), kv_eq(b"count=42\r\n", b"count", integer));
}

#[test]
fn kv_sep_tolerates_spacing() {
    assert_eq!(Ok((&b""[..], 5)), kv_sep(b"n : 5 \n", b"n", b":", integer));
    assert_eq!(Ok((&b""[..], 5)), kv_sep(b"n:5", b"n", b":", integer));
    assert_eq!(ErrKind::Tag, kind_of(kv_sep(b"n=5", b"n", b":", integer)));
}

#[test]
fn kv_ext_and_kv_kv() {
    let keyp = |x: &'static [u8]| word(x);
    assert_eq!(Ok((&b""[..], 3)), kv_ext(b"any 3\n", keyp, integer));
    let r = kv_kv(b"size 12\n", keyp, integer).unwrap();
    assert_eq!((&b""[..], (&b"size"[..], 12)), r);
    let keyq = |x: &'static [u8]| tag(x, b"size");
    let r2 = kv_kv_sep(b"size=12\n", keyq, b"=", integer).unwrap();
    assert_eq!((&b""[..], (&b"size"[..], 12)), r2);
}

#[test]
fn key_int_and_opt_key_int() {
    assert_eq!(Ok((&b""[..], 9)), key_int(b"n 9\n", b"n"));
    assert_eq!(Ok((&b""[..], Some(9))), opt_key_int(b"n 9\n", b"n"));
    assert_eq!(Ok((&b"m 9\n"[..], None)), opt_key_int(b"m 9\n", b"n"));
}

#[test]
fn opt_kv_gates_on_the_key() {
    // Absence of the key is not an error; a malformed value after a present
    // key is.
    assert_eq!(Ok((&b"other\n"[..], None)), opt_kv(b"other\n", b"key", integer));
    assert_eq!(Ok((&b""[..], Some(1))), opt_kv(b"key 1\n", b"key", integer));
    assert!(opt_kv(b"key x\n", b"key", integer).is_err());
    let keyp = |x: &'static [u8]| tag(x, b"key");
    assert_eq!(Ok((&b""[..], Some(1))), opt_kv_ext(b"key 1\n", keyp, integer));
    assert_eq!(Ok((&b"zzz"[..], None)), opt_kv_ext(b"zzz", keyp, integer));
}

#[test]
fn section_matches_exactly() {
    assert_eq!(Ok((&b""[..], &b"header"[..])), section(b"[header]\n", b"header"));
    assert!(section(b"[Header]\n", b"header").is_err());
    assert_eq!(Ok((&b"rest"[..], &b"hd"[..])), section(b"[hd] \nrest", b"hd"));
    assert_eq!(ErrKind::Char, kind_of(section(b"header]\n", b"header")));
}

#[test]
fn section_ext_captures_payload() {
    assert_eq!(Ok((&b""[..], 17)), section_ext(b"[17]\n", integer));
    assert!(section_ext(b"[x]\n", integer).is_err());
}

#[test]
fn delimited_wrappers() {
    assert_eq!(Ok((&b""[..], 4)), curly_delimited(b"{4}", integer));
    assert_eq!(ErrKind::Char, kind_of(curly_delimited(b"{4", integer)));
    assert_eq!(Ok((&b""[..], 4)), space0_delimited(b"  4  ", integer));
    assert_eq!(Ok((&b"}rest"[..], &b"abc"[..])), not_closing_curly(b"abc}rest"));
    assert_eq!(Ok((&b""[..], &b""[..])), not_closing_curly(b""));
}

#[test]
fn optional_str_three_way_policy() {
    // A dash and pure whitespace both mean "absent"; a word is the value.
    assert_eq!(Ok((&b""[..], None)), optional_str(b"-"));
    assert_eq!(Ok((&b""[..], Some(&b"value"[..]))), optional_str(b"value"));
    assert_eq!(Ok((&b""[..], None)), optional_str(b"   "));
    // The dash consumes only itself, and a dash-led word is still "absent".
    assert_eq!(Ok((&b"x"[..], None)), optional_str(b"-x"));
}

#[test]
fn word_and_line_and_text() {
    assert_eq!(Ok((&b" b"[..], &b"a"[..])), word(b"a b"));
    assert_eq!(ErrKind::TakeTill1, kind_of(word(b" lead")));
    assert_eq!(Ok((&b"next"[..], &b"mid"[..])), lineparse::lex::line(b" mid \r\nnext"));
    assert_eq!(Ok((&b""[..], &b"solo"[..])), lineparse::lex::line(b"solo"));
    assert_eq!(ErrKind::CrLf, kind_of(lineparse::lex::line(b"a\rb")));
    assert_eq!(Ok((&b"\nx"[..], &b"t"[..])), some_text(b" t \nx"));
    assert_eq!(Ok((&b""[..], &b""[..])), optional_text(b""));
    assert_eq!(Ok((&b"\r\n"[..], &b"q"[..])), optional_text(b" q \r\n"));
}

#[test]
fn int_bool_digits() {
    assert_eq!(Ok((&b""[..], false)), int_bool(b"0"));
    assert_eq!(Ok((&b"1"[..], true)), int_bool(b"11"));
    assert_eq!(ErrKind::Char, kind_of(int_bool(b"2")));
}

#[test]
fn lexical_primitives() {
    assert_eq!(Ok((&b"bc"[..], &b"a"[..])), tag(b"abc", b"a"));
    assert_eq!(ErrKind::Tag, kind_of(tag(b"abc", b"ax")));
    assert_eq!(Ok((&b"bc"[..], b'a')), one_byte(b"abc", b'a'));
    assert_eq!(Ok((&b"x"[..], &b" \t"[..])), space0(b" \tx"));
    assert_eq!(Ok((&b"x"[..], &b""[..])), space0(b"x"));
    assert_eq!(Ok((&b"x"[..], &b" "[..])), space1(b" x"));
    assert_eq!(Ok((&b"x"[..], &b"907"[..])), digit1(b"907x"));
    assert_eq!(Ok((&b"a"[..], &b"\r\n"[..])), line_ending(b"\r\na"));
    assert_eq!(ErrKind::CrLf, kind_of(line_ending(b"\ra")));
    assert_eq!(Ok((&b""[..], &b""[..])), eof(b""));
    assert_eq!(ErrKind::Eof, kind_of(eof(b"x")));
    assert_eq!(Ok((&b"n"[..], &b"  \n"[..])), end_of_line(b"  \nn"));
    assert_eq!(Ok((&b""[..], &b"  "[..])), end_of_line(b"  "));
    assert_eq!(ErrKind::Eof, kind_of(end_of_line(b"  x")));
    assert_eq!(ErrKind::CrLf, kind_of(t_rn(b"  x")));
}

#[test]
fn digit1_not_at_digit() {
    // The digit run is exact: ASCII digits only, and at least one.
    assert_eq!(Ok((&b""[..], &b"90"[..])), digit1(b"90"));
    assert_eq!(ErrKind::Digit, kind_of(digit1(b"x90")));
}

#[test]
fn apply_advances_on_success_only() {
    let mut i: &[u8] = b"12 rest";
    let v = apply(&mut i, integer).unwrap();
    assert_eq!(12, v);
    assert_eq!(&b" rest"[..], i);
    let r = apply(&mut i, integer);
    assert!(matches!(r, Err(PFail::Recoverable(_))));
    assert_eq!(&b" rest"[..], i);
}

#[test]
fn cut_apply_commits() {
    let mut i: &[u8] = b"abc";
    let r = cut_apply(&mut i, integer);
    assert!(matches!(r, Err(PFail::Fatal(_))));
    assert_eq!(&b"abc"[..], i);
    let v = cut_apply(&mut i, word).unwrap();
    assert_eq!(&b"abc"[..], v);
}

#[test]
fn flag_reports_a_match() {
    assert_eq!(Ok((&b""[..], true)), flag(b"x", |s: &[u8]| one_byte(s, b'x')));
    assert_eq!(Ok((&b"y"[..], false)), flag(b"y", |s: &[u8]| one_byte(s, b'x')));
}

#[test]
fn opt_flatten_collapses() {
    let doubly = |s: &'static [u8]| opt_kv(s, b"k", |x: &'static [u8]| optional_str(x));
    assert_eq!(Ok((&b""[..], Some(&b"v"[..]))), opt_flatten(b"k v\n", doubly));
    assert_eq!(Ok((&b""[..], None)), opt_flatten(b"k -\n", doubly));
    assert_eq!(Ok((&b"zzz"[..], None)), opt_flatten(b"zzz", doubly));
}

#[test]
fn cond_err_gates() {
    assert_eq!(Ok((&b""[..], 3)), cond_err(b"3", true, integer));
    assert_eq!(ErrKind::NoneOf, kind_of(cond_err(b"3", false, integer)));
}
