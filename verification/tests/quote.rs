use kg_diag::io::{Position, Quote, Span};
use kg_diag::{CharReader, MemByteReader, MemCharReader, Reader};

const TEN: &str = "line 1;\nline 2;\nline 3; // comment\nline 4;\nline 5;\nline 6;\nline 7;\nline 8;\nline 9;\nline 10;\n";

#[test]
fn quote_of_a_span_with_lines_around() {
    let mut r = MemCharReader::with_path("src/example.txt", TEN.as_bytes());
    r.skip_chars(9).unwrap();
    let from = r.position();
    r.skip_chars(7).unwrap();
    let to = r.position();
    let q = r.quote(from, to, 2, 2, "msg");
    assert_eq!(q.start(), from);
    assert_eq!(q.end(), to);
    assert_eq!(q.span(), Span::with_pos(from, to));
    assert_eq!(q.offset(), 0);
    assert_eq!(q.line(), 0);
    assert_eq!(q.message(), "msg");
    assert_eq!(q.source(), "line 1;\nline 2;\nline 3; // comment\nline 4;");
    assert_eq!(
        q.to_string(),
        " --> src/example.txt:2:1\n  1| line 1;\n  2| line 2;\n   | ^^^^^^^ msg\n  3| line 3; // comment\n  4| line 4;\n"
    );
}

#[test]
fn quote_far_from_the_start() {
    let mut r = MemCharReader::new(TEN.as_bytes());
    r.skip_chars(TEN.len()).unwrap();
    let start = Position::with(72, 7, 5);
    let end = Position::with(73, 7, 6);
    let q = r.quote(start, end, 1, 1, "eight");
    assert_eq!(q.line(), 6);
    assert_eq!(q.offset(), 59);
    assert_eq!(q.source(), "line 7;\nline 8;\nline 9;");
    assert_eq!(q.to_string(), "  7| line 7;\n  8| line 8;\n   |      ^ eight\n  9| line 9;\n");
    let q = r.quote(start, end, 0, 0, "eight");
    assert_eq!(q.line(), 7);
    assert_eq!(q.source(), "line 8;");
    assert_eq!(q.to_string(), "  8| line 8;\n   |      ^ eight\n");
}

#[test]
fn bare_quote_of_the_first_line() {
    let q = Quote::new(None, b"1 + * 2", Position::with(4, 0, 4), Position::with(5, 0, 5), 2, 2, "operand expected");
    assert_eq!(q.to_string(), "1 + * 2\n    ^ operand expected\n");
    let q = Quote::new(None, b"x", Position::new(), Position::new(), 0, 0, "");
    assert_eq!(q.to_string(), "x\n \n");
}

#[test]
fn quote_with_a_path_has_a_header() {
    let q = Quote::new(Some("main.c"), b"int x", Position::with(4, 0, 4), Position::with(5, 0, 5), 0, 0, "unused");
    assert_eq!(q.to_string(), " --> main.c:1:5\n  1| int x\n   |     ^ unused\n");
}

#[test]
fn quote_over_several_lines_marks_the_first_and_the_last() {
    let data = b"a\nbb (\n  c\n) dd\ne";
    let q = Quote::new(None, data, Position::with(5, 1, 3), Position::with(12, 3, 1), 1, 1, "block");
    assert_eq!(q.source(), "a\nbb (\n  c\n) dd\ne");
    assert_eq!(
        q.to_string(),
        "  1| a\n  2| bb (\n   |     block\n  3|   c\n  4| ) dd\n   |     block\n  5| e\n"
    );
}

#[test]
fn line_numbers_take_the_width_of_the_greatest() {
    let mut text = String::new();
    for i in 0..1200 {
        text.push_str(&format!("l{}\n", i));
    }
    let mut r = MemCharReader::new(text.as_bytes());
    let mut start = Position::new();
    while let Some(_) = r.next_char().unwrap() {
        if r.position().line == 999 && r.position().column == 0 {
            start = r.position();
            break;
        }
    }
    assert_eq!(start.line, 999);
    let end = Position::with(start.offset + 2, 999, 2);
    let q = r.quote(start, end, 1, 1, "m");
    assert_eq!(q.line(), 998);
    assert_eq!(q.to_string(), " 999| l998\n1000| l999\n    | ^^ m\n1001| l1000\n");
    let q = Quote::new(Some("f"), text.as_bytes(), start, end, 0, 0, "m");
    assert_eq!(q.to_string(), " --> f:1000:1\n1000| l999\n    | ^^ m\n");
}

#[test]
fn malformed_bytes_are_replaced_in_the_source() {
    let data: &[u8] = &[b'a', 0xFF, b'b', b'\n', b'c'];
    let q = Quote::new(None, data, Position::with(2, 0, 2), Position::with(3, 0, 3), 0, 0, "m");
    assert_eq!(q.source(), "a\u{FFFD}b");
    assert_eq!(q.to_string(), "a\u{FFFD}b\n  ^ m\n");
}

#[test]
fn offsets_past_the_end_count_as_the_end() {
    let q = Quote::new(None, b"ab\ncd", Position::with(4, 1, 1), Position::with(50, 1, 47), 0, 0, "m");
    assert_eq!(q.source(), "cd");
    assert_eq!(q.line(), 1);
    assert_eq!(q.offset(), 3);
    let q = Quote::new(None, b"ab\ncd", Position::with(40, 1, 1), Position::with(50, 1, 2), 0, 3, "m");
    assert_eq!(q.source(), "cd");
    assert_eq!(q.to_string(), "  2| cd\n   |  ^ m\n");
}

#[test]
fn carriage_returns_end_lines_with_line_feeds() {
    let data = b"one\r\ntwo\r\nthree\r";
    let q = Quote::new(None, data, Position::with(5, 1, 0), Position::with(8, 1, 3), 1, 1, "m");
    assert_eq!(q.to_string(), "  1| one\n  2| two\n   | ^^^ m\n  3| three\r\n");
}

#[test]
fn byte_reader_quotes_too() {
    let mut r = MemByteReader::with_path("b.bin", b"x\ny");
    let q = r.quote(Position::with(2, 1, 0), Position::with(3, 1, 1), 0, 0, "m");
    assert_eq!(q.to_string(), " --> b.bin:2:1\n  2| y\n   | ^ m\n");
}

#[test]
fn positions_and_spans_are_printed_from_one() {
    assert_eq!(Position::new().to_string(), "1:1");
    assert_eq!(Position::default(), Position::new());
    assert_eq!(Position::with(100, 9, 41).to_string(), "10:42");
    assert_eq!(Position::with(0, u32::MAX, u32::MAX).to_string(), "4294967296:4294967296");
    let mut p = Position::with(3, 1, 2);
    p.inc_column();
    assert_eq!(p, Position::with(3, 1, 3));
    p.inc_line();
    assert_eq!(p, Position::with(3, 2, 0));
    assert_eq!(Span::new(), Span::default());
    assert_eq!(Span::new().to_string(), "1:1-1");
    assert_eq!(Span::with(0, 0, 0, 7, 0, 7).to_string(), "1:1-8");
    assert_eq!(Span::with(4, 1, 2, 30, 3, 5).to_string(), "2:3-4:6");
    assert_eq!(Span::with(4, 1, 2, 30, 3, 5).start, Position::with(4, 1, 2));
}
