use lineparse::lex::{int_bool, integer};
use lineparse::repeat::many_array;
use lineparse::outcome::{ErrKind, Frame, ParseError, PFail, PResult};
use lineparse::pathconv::{make_path_conventional, slice_has_none, write_conventional_path};
use lineparse::render::{err_to_kind, nom_err_to_string, nom_err_to_string_bytes};

#[test]
fn err_to_kind_keeps_value_or_innermost_kind() {
    assert_eq!(Ok(5), err_to_kind(integer(b"5")));
    assert_eq!(Err(ErrKind::Digit), err_to_kind(integer(b"x")));
    let fatal: PResult<'_, i64> = Err(PFail::Fatal(ParseError {
        frames: vec![Frame { rem: 1, kind: ErrKind::Tag }],
    }));
    assert_eq!(Err(ErrKind::Tag), err_to_kind(fatal));
    let incomplete: PResult<'_, i64> = Err(PFail::Incomplete);
    assert_eq!(Err(ErrKind::Eof), err_to_kind(incomplete));
}

#[test]
fn text_report_names_offset_and_kind() {
    let res = integer("12 x".as_bytes());
    assert!(nom_err_to_string("12 x", res).is_ok());
    let failed = integer("12x".as_bytes());
    let kept = nom_err_to_string("12x", failed).unwrap();
    assert_eq!((&b"x"[..], 12), kept);
    let res2: PResult<'_, i64> = integer("ab".as_bytes());
    let msg = nom_err_to_string("ab", res2).unwrap_err();
    assert_eq!("input: ab\nError:\n  at offset 0: digit\n", msg);
}

#[test]
fn text_report_marks_fatal_and_incomplete() {
    let fatal: PResult<'_, i64> = Err(PFail::Fatal(ParseError {
        frames: vec![Frame { rem: 1, kind: ErrKind::Tag }],
    }));
    let msg = nom_err_to_string("abc", fatal).unwrap_err();
    assert_eq!("input: abc\nFailure:\n  at offset 2: literal\n", msg);
    let incomplete: PResult<'_, i64> = Err(PFail::Incomplete);
    let msg2 = nom_err_to_string("abc", incomplete).unwrap_err();
    assert_eq!("input: abc\nIncomplete: more input needed\n", msg2);
}

#[test]
fn byte_report_decodes_lossily() {
    // An invalid byte is replaced, not fatal to the render.
    let bytes: &[u8] = &[0xff, b'a'];
    let res: PResult<'_, i64> = integer(bytes);
    let msg = nom_err_to_string_bytes(bytes, res).unwrap_err();
    assert_eq!("input: \u{fffd}a\nError:\n  at offset 0: digit\n", msg);
}

#[test]
fn byte_report_passes_success_through() {
    let bytes: &[u8] = b"33 rest";
    let res = integer(bytes);
    assert_eq!((&b" rest"[..], 33), nom_err_to_string_bytes(bytes, res).unwrap());
}

#[test]
fn report_shows_every_frame() {
    let text = "10xx";
    let res = many_array(text.as_bytes(), 3, 4, int_bool);
    let msg = nom_err_to_string(text, res).unwrap_err();
    assert_eq!(
        "input: 10xx\nError:\n  at offset 2: character\n  at offset 2: bounded repetition\n",
        msg
    );
}

#[test]
fn conventional_path_lowers_and_flips_separators() {
    assert_eq!("a/b/c", make_path_conventional("A\\B/C"));
    assert_eq!("mixed", make_path_conventional("MiXeD"));
}

#[test]
fn conventional_path_trims_and_strips() {
    assert_eq!("x", make_path_conventional("  x  "));
    assert_eq!("a/b", make_path_conventional(" A\\B\\ "));
    assert_eq!("a/b", make_path_conventional("a/b///"));
    assert_eq!("", make_path_conventional("   "));
    assert_eq!("", make_path_conventional("/"));
}

#[test]
fn conventional_path_keeps_inner_whitespace() {
    // Only the ends are trimmed, and only trailing separators are stripped.
    assert_eq!("a b/c", make_path_conventional("A b\\C"));
    assert_eq!("a/b  ", make_path_conventional(" a/b  /"));
}

#[test]
fn write_conventional_path_replaces_buffer() {
    let mut buf = String::from("stale");
    write_conventional_path("New\\Dir", &mut buf);
    assert_eq!("new/dir", buf);
}

#[test]
fn slice_has_none_checks_all() {
    let all_none: [Option<i32>; 3] = [None, None, None];
    assert!(slice_has_none(&all_none));
    let one_some: [Option<i32>; 2] = [None, Some(4)];
    assert!(!slice_has_none(&one_some));
    let empty: [Option<i32>; 0] = [];
    assert!(slice_has_none(&empty));
}
