use ludtwig::error::{ErrorKind, ParsingErrorInformation};
use ludtwig::position::{get_line_and_column_of_subslice, SubsliceOffset, TextRange};

#[test]
fn line_and_column_on_each_line() {
    let input = b"a\nbc\nd";
    let (line, column, r) = get_line_and_column_of_subslice(input, 0);
    assert_eq!((line, column, &input[r.start..r.end]), (1, 1, &b"a"[..]));
    let (line, column, r) = get_line_and_column_of_subslice(input, 3);
    assert_eq!((line, column, &input[r.start..r.end]), (2, 2, &b"bc"[..]));
    let (line, column, r) = get_line_and_column_of_subslice(input, 5);
    assert_eq!((line, column, &input[r.start..r.end]), (3, 1, &b"d"[..]));
}

#[test]
fn offset_at_end_of_input() {
    let input = b"ab\ncd";
    let (line, column, r) = get_line_and_column_of_subslice(input, 5);
    assert_eq!((line, column, r), (2, 3, TextRange { start: 3, end: 5 }));
}

#[test]
fn carriage_returns_separate_lines() {
    let input = b"x\r\ny";
    let (line, column, _) = get_line_and_column_of_subslice(input, 3);
    assert_eq!((line, column), (3, 1));
}

#[test]
fn empty_input() {
    assert_eq!(get_line_and_column_of_subslice(b"", 0), (1, 1, TextRange { start: 0, end: 0 }));
}

#[test]
fn subslice_offset_inside_and_outside() {
    let outer = TextRange { start: 10, end: 20 };
    assert_eq!(outer.subslice_offset(&TextRange { start: 12, end: 14 }), Some(2));
    assert_eq!(outer.subslice_offset(&TextRange { start: 20, end: 20 }), Some(10));
    assert_eq!(outer.subslice_offset(&TextRange { start: 9, end: 12 }), None);
    assert_eq!(outer.subslice_offset(&TextRange { start: 21, end: 22 }), None);
}

#[test]
fn error_information_builders() {
    let e = ParsingErrorInformation::from_error_kind(4, ErrorKind::Tag);
    assert_eq!((e.input, e.kind, e.context.clone()), (4, ErrorKind::Tag, None));
    let e = ParsingErrorInformation::add_context(0, "open tag expected", e);
    assert_eq!(e.context.as_deref(), Some("open tag expected"));
    assert_eq!(e.input, 4);
    let e = ParsingErrorInformation::add_dynamic_context(0, "later".to_string(), e);
    assert_eq!(e.context.as_deref(), Some("later"));
    let c = ParsingErrorInformation::from_char(7, b'x');
    assert_eq!(c.kind, ErrorKind::Not);
    let kept = ParsingErrorInformation::append(1, ErrorKind::Alt, c);
    assert_eq!((kept.input, kept.kind), (7, ErrorKind::Not));
}
