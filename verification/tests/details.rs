use kg_diag::io::{ErrorKind, FileType, IoErrorDetail, OpType, Position, Span};
use kg_diag::parse::{Expected, Input, NumericalErrorKind, ParseErrorDetail};
use kg_diag::{BasicDiag, Detail, Severity};

#[test]
fn expected_is_described() {
    assert_eq!(Expected::Byte(0x0A).to_string(), "0x0A");
    assert_eq!(Expected::ByteRange(0, 0xFF).to_string(), "[0x00-0xFF]");
    assert_eq!(Expected::Char('a').to_string(), "'a'");
    assert_eq!(Expected::Char('\n').to_string(), "'\\n'");
    assert_eq!(Expected::CharRange('0', '9').to_string(), "['0'-'9']");
    assert_eq!(Expected::Custom("a name".to_string()).to_string(), "a name");
    assert_eq!(
        Expected::OneOf(vec![Expected::Char('x'), Expected::Byte(1), Expected::Custom("c".to_string())]).to_string(),
        "one of: 'x', 0x01, c"
    );
    assert_eq!(Expected::OneOf(vec![]).to_string(), "one of: ");
    assert_eq!(Expected::OneOf(vec![Expected::Char('x')]).to_string(), "one of: 'x'");
    assert_eq!(
        Expected::Or(Box::new(Expected::Char('a')), Box::new(Expected::OneOf(vec![Expected::Byte(2), Expected::Byte(3)])))
            .to_string(),
        "'a' or one of: 0x02, 0x03"
    );
}

#[test]
fn one_of_sorts_and_collapses() {
    assert_eq!(Expected::one_of(vec![Expected::Char('a')]), Expected::Char('a'));
    assert_eq!(
        Expected::one_of(vec![Expected::CharRange('0', '9'), Expected::Char('b'), Expected::Char('a'), Expected::Byte(9)]),
        Expected::OneOf(vec![Expected::Byte(9), Expected::Char('a'), Expected::Char('b'), Expected::CharRange('0', '9')])
    );
    assert_eq!(
        Expected::one_of(vec![Expected::Char('b'), Expected::Char('a')]).to_string(),
        Expected::one_of(vec![Expected::Char('a'), Expected::Char('b')]).to_string()
    );
    assert_eq!(Expected::one_of(vec![]), Expected::OneOf(vec![]));
    let e = Expected::Or(Box::new(Expected::Custom("x".to_string())), Box::new(Expected::OneOf(vec![Expected::Byte(1)])));
    assert_eq!(e.clone(), e);
    assert_eq!(e.duplicate().to_string(), e.to_string());
}

#[test]
fn input_is_described() {
    assert_eq!(Input::Byte(0x1F).to_string(), "byte 0x1F");
    assert_eq!(Input::Char('x').to_string(), "character 'x'");
    assert_eq!(Input::Char('\'').to_string(), "character '\\''");
    assert_eq!(Input::Custom("end of block".to_string()).to_string(), "end of block");
}

#[test]
fn io_details_have_codes_kinds_and_messages() {
    let pos = Position::with(12, 2, 4);
    let cases: Vec<(IoErrorDetail, u32, ErrorKind, &str)> = vec![
        (IoErrorDetail::Io { kind: ErrorKind::NotFound, message: String::new() }, 1, ErrorKind::NotFound, "not found"),
        (
            IoErrorDetail::Io { kind: ErrorKind::TimedOut, message: "after 5s".to_string() },
            14,
            ErrorKind::TimedOut,
            "timed out: after 5s",
        ),
        (
            IoErrorDetail::IoPath {
                kind: ErrorKind::PermissionDenied,
                op_type: OpType::Write,
                file_type: FileType::Dir,
                path: "/etc".to_string(),
            },
            2,
            ErrorKind::PermissionDenied,
            "cannot write dir '/etc': permission denied",
        ),
        (
            IoErrorDetail::CurrentDirGet { kind: ErrorKind::Other },
            17,
            ErrorKind::Other,
            "cannot get current dir: other os error",
        ),
        (
            IoErrorDetail::CurrentDirSet { kind: ErrorKind::UnexpectedEof, path: "x".to_string() },
            18,
            ErrorKind::UnexpectedEof,
            "cannot set current dir to x: unexpected end of file",
        ),
        (
            IoErrorDetail::Utf8InvalidEncoding { pos, len: 2 },
            21,
            ErrorKind::InvalidData,
            "invalid utf-8 encoding at 3:5 (offset 12)",
        ),
        (
            IoErrorDetail::UnexpectedEof { pos, expected: None, task: "reading".to_string() },
            22,
            ErrorKind::UnexpectedEof,
            "unexpected end of input at 3:5 while reading",
        ),
        (
            IoErrorDetail::UnexpectedInput {
                pos,
                found: Input::Byte(0),
                expected: Some(Box::new(Expected::Byte(1))),
                task: "reading".to_string(),
            },
            23,
            ErrorKind::InvalidData,
            "unexpected byte 0x00 at 3:5 while reading, expecting 0x01",
        ),
        (IoErrorDetail::Fmt, 99, ErrorKind::Other, "formatting error"),
    ];
    for (detail, code, kind, message) in cases {
        assert_eq!(detail.code(), code);
        assert_eq!(detail.kind(), kind);
        assert_eq!(detail.message(), message);
        assert_eq!(detail.severity(), Severity::Failure);
    }
    assert_eq!(
        IoErrorDetail::file_not_found("a.txt".to_string(), OpType::Read),
        IoErrorDetail::IoPath {
            kind: ErrorKind::NotFound,
            op_type: OpType::Read,
            file_type: FileType::File,
            path: "a.txt".to_string()
        }
    );
    assert_eq!(
        BasicDiag::from(IoErrorDetail::file_not_found("a.txt".to_string(), OpType::Read)).to_string(),
        "error [F0001]: cannot read file 'a.txt': not found\n"
    );
}

#[test]
fn kinds_of_operations_and_files_have_words() {
    let ops = [OpType::Create, OpType::Read, OpType::Write, OpType::Remove, OpType::Stat];
    let words = ["create", "read", "write", "remove", "stat"];
    for (op, word) in ops.iter().zip(words.iter()) {
        assert_eq!(op.text(), *word);
    }
    let files =
        [FileType::Unknown, FileType::File, FileType::Dir, FileType::Link, FileType::Device, FileType::Special];
    let words = ["path", "file", "dir", "link", "device", "special file"];
    for (file, word) in files.iter().zip(words.iter()) {
        assert_eq!(file.text(), *word);
        assert_eq!(file.is_file(), *file == FileType::File);
    }
    assert_eq!(ErrorKind::NotFound.index(), 0);
    assert_eq!(ErrorKind::UnexpectedEof.index(), 17);
    assert_eq!(ErrorKind::WouldBlock.text(), "operation would block");
    assert_eq!(ErrorKind::InvalidInput.text(), "invalid input parameter");
}

#[test]
fn parse_details_have_codes_and_messages() {
    let pos = Position::with(5, 0, 5);
    let eof = ParseErrorDetail::UnexpectedEof {
        pos,
        expected: Some(Expected::CharRange('0', '9')),
        task: "parsing a decimal number literal".to_string(),
    };
    assert_eq!(eof.code(), 40);
    assert_eq!(eof.message(), "unexpected <EOF> at 1:6 while parsing a decimal number literal, expecting ['0'-'9']");
    let input = ParseErrorDetail::UnexpectedInput {
        pos,
        found: Some(Input::Char(' ')),
        expected: None,
        task: "parsing a number literal".to_string(),
    };
    assert_eq!(input.code(), 41);
    assert_eq!(input.message(), "unexpected character ' ' at 1:6 while parsing a number literal");
    let unknown =
        ParseErrorDetail::UnexpectedInput { pos, found: None, expected: None, task: "parsing".to_string() };
    assert_eq!(unknown.message(), "unexpected input at 1:6 while parsing");
    let span = Span::with(0, 0, 0, 3, 0, 3);
    let overflow = ParseErrorDetail::Numerical { span, kind: NumericalErrorKind::Overflow };
    assert_eq!(overflow.code(), 42);
    assert_eq!(overflow.message(), "overflow while converting number literal at 1:1-4");
    let underflow = ParseErrorDetail::Numerical { span, kind: NumericalErrorKind::Underflow };
    assert_eq!(underflow.message(), "underflow while converting number literal at 1:1-4");
    let invalid = ParseErrorDetail::Numerical { span, kind: NumericalErrorKind::Invalid };
    assert_eq!(invalid.message(), "invalid format error while converting number literal at 1:1-4");
    let io = ParseErrorDetail::from_io(IoErrorDetail::Fmt);
    assert_eq!(io, ParseErrorDetail::Io(IoErrorDetail::Fmt));
    assert_eq!(io.code(), 99);
    assert_eq!(io.message(), "formatting error");
    assert_eq!(io.severity(), Severity::Failure);
    assert_eq!(BasicDiag::from(overflow).to_string(), "error [F0042]: overflow while converting number literal at 1:1-4\n");
}
