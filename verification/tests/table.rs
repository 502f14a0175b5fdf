use kg_diag::stacktrace::{trim_frames, FrameInfo, SymbolInfo};
use kg_diag::table::{assign, DiagAttr, KindAttr, TableError};
use kg_diag::{Detail, Severity};

#[allow(unused)]
#[derive(Debug)]
enum TestErrorKind {
    ErrorEmpty,
    ErrorWithPair(usize, usize),
    ErrorWithString(String),
    ErrorWithStruct { a: usize, b: usize },
}

fn test_table() -> Vec<DiagAttr> {
    let kinds = vec![
        KindAttr { code: Some(1), severity: Some(Severity::try_from_char('E').unwrap()) },
        KindAttr { code: Some(2), severity: Some(Severity::try_from_char('F').unwrap()) },
        KindAttr { code: None, severity: Some(Severity::try_from_str("error").unwrap()) },
        KindAttr { code: Some(4), severity: Some(Severity::try_from_str("failure").unwrap()) },
    ];
    assign(1000, Severity::Failure, &kinds).unwrap()
}

impl TestErrorKind {
    fn index(&self) -> usize {
        match *self {
            TestErrorKind::ErrorEmpty => 0,
            TestErrorKind::ErrorWithPair(..) => 1,
            TestErrorKind::ErrorWithString(..) => 2,
            TestErrorKind::ErrorWithStruct { .. } => 3,
        }
    }
}

impl Detail for TestErrorKind {
    fn severity(&self) -> Severity {
        test_table()[self.index()].severity
    }

    fn code(&self) -> u32 {
        test_table()[self.index()].code
    }

    fn message(&self) -> String {
        match self {
            TestErrorKind::ErrorEmpty => "empty error message".to_string(),
            TestErrorKind::ErrorWithPair(a0, a1) => format!("error with pair of {} and {}", a0, a1),
            TestErrorKind::ErrorWithString(a0) => format!("error with \"{}\" string", a0),
            TestErrorKind::ErrorWithStruct { a, b } => format!("error with field a = {} and field b = {}", a, b),
        }
    }
}

#[test]
fn code_deref() {
    let e = TestErrorKind::ErrorWithString("string value".into());
    println!("{}", e.code());
    println!("{}", e.severity().word());
    println!("{}", e.message());
    assert_eq!(e.code(), 1003);
    assert_eq!(e.severity(), Severity::Error);
    assert_eq!(e.message(), "error with \"string value\" string");
    assert_eq!(TestErrorKind::ErrorEmpty.code(), 1001);
    assert_eq!(TestErrorKind::ErrorWithPair(1, 2).severity(), Severity::Failure);
    assert_eq!(TestErrorKind::ErrorWithStruct { a: 1, b: 2 }.code(), 1004);
}

fn kind(code: Option<u32>) -> KindAttr {
    KindAttr { code, severity: None }
}

fn codes(offset: u32, kinds: &[Option<u32>]) -> Result<Vec<u32>, TableError> {
    let kinds: Vec<KindAttr> = kinds.iter().map(|c| kind(*c)).collect();
    assign(offset, Severity::Failure, &kinds).map(|t| t.iter().map(|a| a.code).collect())
}

#[test]
fn kinds_without_codes_are_numbered_on() {
    assert_eq!(codes(0, &[]), Ok(vec![]));
    assert_eq!(codes(0, &[None, None, None]), Ok(vec![1, 2, 3]));
    assert_eq!(codes(100, &[None, None]), Ok(vec![101, 102]));
    assert_eq!(codes(100, &[Some(5), None, None]), Ok(vec![105, 106, 107]));
    assert_eq!(codes(0, &[Some(5), Some(2), None]), Ok(vec![5, 2, 6]));
    assert_eq!(codes(0, &[None, Some(10), None, Some(3), None]), Ok(vec![1, 10, 11, 3, 12]));
    assert_eq!(codes(10, &[Some(0), None]), Ok(vec![10, 11]));
}

#[test]
fn duplicate_codes_make_no_table() {
    assert_eq!(codes(0, &[None, Some(1)]), Err(TableError::DuplicateCode { code: 1, first: 0, second: 1 }));
    assert_eq!(
        codes(7, &[Some(3), Some(4), Some(3), Some(4), Some(3)]),
        Err(TableError::DuplicateCode { code: 10, first: 0, second: 2 })
    );
    assert_eq!(codes(0, &[Some(9), Some(4), Some(4)]), Err(TableError::DuplicateCode { code: 4, first: 1, second: 2 }));
}

#[test]
fn codes_past_the_greatest_number_make_no_table() {
    assert_eq!(codes(u32::MAX, &[Some(0)]), Ok(vec![u32::MAX]));
    assert_eq!(codes(u32::MAX, &[None]), Err(TableError::CodeOverflow { kind: 0 }));
    assert_eq!(codes(u32::MAX - 1, &[None, None]), Err(TableError::CodeOverflow { kind: 1 }));
    assert_eq!(codes(1, &[Some(1), Some(u32::MAX)]), Err(TableError::CodeOverflow { kind: 1 }));
    assert_eq!(codes(1, &[Some(u32::MAX), Some(1), Some(1)]), Err(TableError::CodeOverflow { kind: 0 }));
}

#[test]
fn severities_default_to_that_of_the_enumeration() {
    let kinds = vec![
        KindAttr { code: None, severity: None },
        KindAttr { code: None, severity: Some(Severity::Info) },
        KindAttr { code: None, severity: None },
    ];
    let table = assign(0, Severity::Warning, &kinds).unwrap();
    assert_eq!(
        table,
        vec![
            DiagAttr { code: 1, severity: Severity::Warning },
            DiagAttr { code: 2, severity: Severity::Info },
            DiagAttr { code: 3, severity: Severity::Warning },
        ]
    );
}

const START: &str = "_ZN3std2rt10lang_start28_$u7b$$u7b$closure$u7d$$u7d$";
const TEST: &str = "_ZN4test8run_test28_$u7b$$u7b$closure$u7d$$u7d$";
const FILE: &str = "src/stacktrace.rs";

fn frame(symbols: &[(Option<&str>, Option<&str>)]) -> FrameInfo {
    FrameInfo {
        symbols: symbols
            .iter()
            .map(|(name, file)| SymbolInfo { name: name.map(String::from), filename: file.map(String::from) })
            .collect(),
    }
}

#[test]
fn frames_of_the_capture_and_of_the_runtime_are_cut() {
    let start = format!("{}17h0123456789abcdefE", START);
    let test = format!("{}17h0123456789abcdefE", TEST);
    let frames = vec![
        frame(&[(Some("backtrace::capture"), Some("backtrace.rs"))]),
        frame(&[(Some("new_skip"), Some(FILE)), (Some("inlined"), Some("other.rs"))]),
        frame(&[(Some("new"), Some(FILE))]),
        frame(&[(Some("app::fail"), Some("app.rs"))]),
        frame(&[(Some("app::main"), Some("app.rs"))]),
        frame(&[(None, None), (Some(start.as_str()), None)]),
        frame(&[(Some("later"), Some(FILE))]),
    ];
    assert_eq!(trim_frames(&frames, FILE, 0, START, TEST), Some((3, 5)));
    assert_eq!(trim_frames(&frames, FILE, 1, START, TEST), Some((4, 5)));
    assert_eq!(trim_frames(&frames, FILE, 2, START, TEST), None);
    assert_eq!(trim_frames(&frames, FILE, 4, START, TEST), None);
    assert_eq!(trim_frames(&frames, FILE, usize::MAX, START, TEST), None);
    assert_eq!(trim_frames(&frames, "elsewhere.rs", 0, START, TEST), Some((0, 5)));
    assert_eq!(trim_frames(&frames, "app.rs", 0, START, TEST), None);

    let in_test = vec![
        frame(&[(Some("new"), Some(FILE))]),
        frame(&[(Some("t::case"), Some("t.rs"))]),
        frame(&[(Some("t::closure"), Some("t.rs"))]),
        frame(&[(Some(test.as_str()), Some("test.rs"))]),
        frame(&[(Some(start.as_str()), None)]),
    ];
    assert_eq!(trim_frames(&in_test, FILE, 0, START, TEST), Some((1, 2)));
    assert_eq!(trim_frames(&in_test, FILE, 1, START, TEST), None);

    let unmarked = vec![frame(&[(Some("new"), Some(FILE))]), frame(&[(Some("f"), None)]), frame(&[])];
    assert_eq!(trim_frames(&unmarked, FILE, 0, START, TEST), Some((1, 3)));
    assert_eq!(trim_frames(&vec![], FILE, 0, START, TEST), None);
}
