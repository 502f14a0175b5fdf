use kg_diag::multi::add_err;
use kg_diag::{into_diag_res, map_err_as_cause};
use kg_diag::{
    BasicDiag, CharReader, Detail, Diag, DiagRecord, Diags, Errors, MemCharReader, ParseDiag, Reader, Severity,
    SimpleDiag, Stacktrace,
};

#[derive(Debug)]
enum TestErrorKind {
    ErrorEmpty,
    ErrorWithPair(usize, usize),
    ErrorWithString(String),
    ErrorWithStruct { a: usize, b: usize },
}

impl Detail for TestErrorKind {
    fn severity(&self) -> Severity {
        Severity::Failure
    }

    fn code(&self) -> u32 {
        match *self {
            TestErrorKind::ErrorEmpty => 1,
            TestErrorKind::ErrorWithPair(..) => 2,
            TestErrorKind::ErrorWithString(..) => 3,
            TestErrorKind::ErrorWithStruct { .. } => 4,
        }
    }

    fn message(&self) -> String {
        match *self {
            TestErrorKind::ErrorEmpty => "empty".to_string(),
            TestErrorKind::ErrorWithPair(..) => "pair".to_string(),
            TestErrorKind::ErrorWithString(..) => "string".to_string(),
            TestErrorKind::ErrorWithStruct { .. } => "struct".to_string(),
        }
    }
}

#[derive(Debug)]
struct InvalidToken {
    expected: &'static [&'static str],
    found: String,
}

impl Detail for InvalidToken {
    fn severity(&self) -> Severity {
        Severity::Error
    }

    fn code(&self) -> u32 {
        101
    }

    fn message(&self) -> String {
        format!("invalid token '{}', expected one of {:?}", self.found, self.expected)
    }
}

#[derive(Debug)]
struct Note {
    severity: Severity,
    code: u32,
    text: &'static str,
}

impl Detail for Note {
    fn severity(&self) -> Severity {
        self.severity
    }

    fn code(&self) -> u32 {
        self.code
    }

    fn message(&self) -> String {
        self.text.to_string()
    }
}

fn note(severity: Severity, code: u32, text: &'static str) -> Note {
    Note { severity, code, text }
}

#[test]
fn macro_diags_with_kind() {
    let e = BasicDiag::from(TestErrorKind::ErrorEmpty);
    assert_eq!(e.detail().message(), "empty");

    let e = BasicDiag::from(TestErrorKind::ErrorWithPair(10, 20));
    assert_eq!(e.detail().message(), "pair");

    let e = BasicDiag::from(TestErrorKind::ErrorWithString("aaa".to_string()));
    assert_eq!(e.detail().message(), "string");

    let e = BasicDiag::from(TestErrorKind::ErrorWithStruct { a: 10, b: 20 });
    assert_eq!(e.detail().message(), "struct");
}

#[test]
fn macro_diags_with_kind_and_quotes() {
    let input = "line 1;\nline 2;\nline 3; // comment\nline 4;\nline 5;\nline 6;\nline 7;\nline 8;\nline 9;\nline 10;\n";
    let ref mut r = MemCharReader::with_path("src/example.txt", input.as_bytes());

    r.skip_chars(9).unwrap();
    let from = r.position();
    r.skip_chars(7).unwrap();
    let to = r.position();

    let mut e = ParseDiag::from(TestErrorKind::ErrorEmpty);
    e.add_quote(r.quote(from, to, 2, 2, "msg"));

    let es = e.to_string();

    assert!(es.contains("  2| line 2;\n   | ^^^^^^^ msg\n"));
    assert_eq!(
        es,
        "error [F0001]: empty\n --> src/example.txt:2:1\n  1| line 1;\n  2| line 2;\n   | ^^^^^^^ msg\n  3| line 3; // comment\n  4| line 4;\n"
    );
}

#[test]
fn detail_debug() {
    let err: ParseDiag<InvalidToken> =
        ParseDiag::from(InvalidToken { expected: &["id", "num", "+", "-"], found: "*".into() });

    println!("{:#?}", err);
    println!("{}", err.to_string());
    assert_eq!(
        err.to_string(),
        "error [E0101]: invalid token '*', expected one of [\"id\", \"num\", \"+\", \"-\"]\n"
    );
}

#[test]
fn diagnostics_begin_with_severity_and_code() {
    let cases = vec![
        (Severity::Info, 0, "info [I0000]: "),
        (Severity::Warning, 7, "warning [W0007]: "),
        (Severity::Error, 101, "error [E0101]: "),
        (Severity::Failure, 9999, "error [F9999]: "),
        (Severity::Critical, 12345, "critical error [C12345]: "),
        (Severity::Error, u32::MAX, "error [E4294967295]: "),
    ];
    for (severity, code, opening) in cases {
        let text = BasicDiag::from(note(severity, code, "m")).to_string();
        assert!(text.starts_with(opening));
        assert_eq!(text, format!("{}m\n", opening));
        let text = SimpleDiag::from(note(severity, code, "m")).to_string();
        assert_eq!(text, format!("{}m\n", opening));
        let text = ParseDiag::from(note(severity, code, "m")).to_string();
        assert_eq!(text, format!("{}m\n", opening));
    }
}

#[test]
fn causes_and_stacks_are_printed_after_the_detail() {
    let root = SimpleDiag::with_stacktrace(
        note(Severity::Critical, 3, "disk on fire"),
        Stacktrace::from_text("  at main\n".to_string()),
    );
    let middle = BasicDiag::with_cause(note(Severity::Failure, 2, "cannot read"), root);
    let top = BasicDiag::with_cause_stacktrace(
        "cannot start".to_string(),
        middle,
        Stacktrace::from_text("  at top\n".to_string()),
    );
    assert_eq!(
        top.to_string(),
        "error [F0000]: cannot start\ncaused by: error [F0002]: cannot read\ncaused by: critical error [C0003]: disk on fire\n  at main\n  at top\n"
    );
    assert_eq!(top.severity(), Severity::Failure);
    assert_eq!(top.code(), 0);
    assert_eq!(top.message(), "cannot start");
    assert_eq!(top.detail(), "cannot start");
    assert_eq!(BasicDiag::new(7u8.to_string()).detail(), "7");
    assert_eq!(ParseDiag::new(note(Severity::Info, 8, "n")).detail().code, 8);
    assert_eq!(SimpleDiag::new(note(Severity::Info, 9, "n")).detail().text, "n");
    assert_eq!(top.stacktrace().unwrap().as_str(), "  at top\n");
    let cause = top.cause().unwrap();
    assert_eq!(cause.code(), 2);
    assert_eq!(cause.cause().unwrap().severity(), Severity::Critical);
    assert_eq!(cause.cause().unwrap().stacktrace().unwrap().to_string(), "  at main\n");
    assert!(cause.cause().unwrap().cause().is_none());
    let plain = BasicDiag::new(note(Severity::Info, 1, "x"));
    assert!(plain.cause().is_none());
    assert!(plain.stacktrace().is_none());
}

#[test]
fn records_keep_what_is_printed() {
    let input = "let x = 12a;\n";
    let mut r = MemCharReader::new(input.as_bytes());
    r.skip_chars(11).unwrap();
    let from = r.position();
    r.skip_chars(1).unwrap();
    let to = r.position();
    let mut diag = ParseDiag::with_cause(
        note(Severity::Error, 41, "unexpected character"),
        BasicDiag::new(note(Severity::Warning, 5, "suspicious")),
    );
    diag.add_quote(r.quote(from, to, 0, 0, "here"));
    diag.add_quote(r.quote(from, to, 0, 0, "and here"));
    assert_eq!(diag.quotes().len(), 2);
    assert_eq!(diag.quotes()[1].message(), "and here");
    let text = diag.to_string();
    assert_eq!(
        text,
        "error [E0041]: unexpected character\nlet x = 12a;\n          ^ here\nlet x = 12a;\n          ^ and here\ncaused by: warning [W0005]: suspicious\n"
    );
    let record: DiagRecord = diag.into_record();
    assert_eq!(record.to_string(), text);
    assert_eq!(record.quotes().len(), 2);
    assert_eq!(record.severity(), Severity::Error);
    let wrapped = SimpleDiag::with_cause_stacktrace(
        note(Severity::Failure, 1, "outer"),
        record,
        Stacktrace::from_text("stack".to_string()),
    );
    assert_eq!(wrapped.to_string(), format!("error [F0001]: outer\ncaused by: {}stack", text));
    let other = ParseDiag::with_stacktrace(note(Severity::Info, 0, "i"), Stacktrace::from_text("s".to_string()));
    assert_eq!(other.to_string(), "info [I0000]: i\ns");
    let other = ParseDiag::with_cause_stacktrace(
        note(Severity::Info, 0, "i"),
        BasicDiag::new(note(Severity::Info, 1, "j")),
        Stacktrace::from_text("s".to_string()),
    );
    assert_eq!(other.to_string(), "info [I0000]: i\ncaused by: info [I0001]: j\ns");
    let other = BasicDiag::with_stacktrace(note(Severity::Info, 0, "i"), Stacktrace::from_text("s".to_string()));
    assert_eq!(other.to_string(), "info [I0000]: i\ns");
    let other = SimpleDiag::with_cause(note(Severity::Info, 0, "i"), BasicDiag::new(note(Severity::Info, 1, "j")));
    assert_eq!(other.to_string(), "info [I0000]: i\ncaused by: info [I0001]: j\n");
}

#[test]
fn severities_are_ordered() {
    let all = [Severity::Info, Severity::Warning, Severity::Error, Severity::Failure, Severity::Critical];
    let letters = ['I', 'W', 'E', 'F', 'C'];
    let words = ["info", "warning", "error", "error", "critical error"];
    for (i, s) in all.iter().enumerate() {
        assert_eq!(s.level() as usize, i);
        assert_eq!(s.code_char(), letters[i]);
        assert_eq!(s.code_byte(), letters[i] as u8);
        assert_eq!(s.word(), words[i]);
        assert_eq!(s.is_error(), i >= 2);
        assert_eq!(s.is_recoverable(), i < 3);
        for (j, t) in all.iter().enumerate() {
            assert_eq!(Severity::max(*s, *t), all[i.max(j)]);
            assert_eq!(s < t, i < j);
        }
    }
}

#[test]
fn severities_are_read_from_names_and_letters() {
    assert_eq!(Severity::try_from_str("info"), Ok(Severity::Info));
    assert_eq!(Severity::try_from_str("WARNING"), Ok(Severity::Warning));
    assert_eq!(Severity::try_from_str("Error"), Ok(Severity::Error));
    assert_eq!(Severity::try_from_str("fAiLuRe"), Ok(Severity::Failure));
    assert_eq!(Severity::try_from_str("critical"), Ok(Severity::Critical));
    assert_eq!(Severity::try_from_str("fatal"), Err("fatal"));
    assert_eq!(Severity::try_from_str("errors"), Err("errors"));
    assert_eq!(Severity::try_from_str(""), Err(""));
    assert_eq!(Severity::try_from_char('i'), Ok(Severity::Info));
    assert_eq!(Severity::try_from_char('W'), Ok(Severity::Warning));
    assert_eq!(Severity::try_from_char('e'), Ok(Severity::Error));
    assert_eq!(Severity::try_from_char('F'), Ok(Severity::Failure));
    assert_eq!(Severity::try_from_char('c'), Ok(Severity::Critical));
    assert_eq!(Severity::try_from_char('x'), Err('x'));
}

#[test]
fn collector_keeps_order_and_greatest_severity() {
    let mut diags = Diags::new();
    assert_eq!(diags.len(), 0);
    assert_eq!(diags.max_severity(), Severity::Info);
    assert_eq!(diags.result(5).unwrap(), 5);

    assert!(diags.add_diag(BasicDiag::new(note(Severity::Warning, 1, "first"))).is_ok());
    assert_eq!(diags.max_severity(), Severity::Warning);
    assert_eq!(diags.result("ok").unwrap(), "ok");

    assert!(diags.add_diag(SimpleDiag::new(note(Severity::Error, 2, "second"))).is_ok());
    assert_eq!(diags.max_severity(), Severity::Error);
    let errors = diags.result(()).unwrap_err();
    assert_eq!(Detail::severity(&errors), Severity::Error);

    assert!(diags.add_diag(BasicDiag::new(note(Severity::Info, 3, "third"))).is_ok());
    assert_eq!(diags.max_severity(), Severity::Error);

    let stop = diags.add_diag(ParseDiag::new(note(Severity::Failure, 4, "fourth"))).unwrap_err();
    assert_eq!(Detail::severity(&stop), Severity::Failure);
    let stop = diags.add_diag(BasicDiag::new(note(Severity::Critical, 5, "fifth"))).unwrap_err();
    assert_eq!(Detail::severity(&stop), Severity::Critical);
    let stop = diags.add_diag(BasicDiag::new(note(Severity::Failure, 6, "sixth"))).unwrap_err();
    assert_eq!(Detail::severity(&stop), Severity::Critical);

    assert_eq!(diags.len(), 6);
    let messages: Vec<String> = (0..diags.len()).map(|i| diags.get(i).message()).collect();
    assert_eq!(messages, vec!["first", "second", "third", "fourth", "fifth", "sixth"]);
    assert_eq!(Detail::severity(&diags.result(1).unwrap_err()), Severity::Critical);
}

#[test]
fn errors_of_results_are_collected() {
    let mut diags = Diags::new();
    let fine: Result<u8, BasicDiag<Note>> = Ok(7);
    assert_eq!(add_err(fine, &mut diags).unwrap(), 7);
    assert_eq!(diags.len(), 0);
    let bad: Result<u8, BasicDiag<Note>> = Err(BasicDiag::new(note(Severity::Failure, 9, "bad")));
    let errors = add_err(bad, &mut diags).unwrap_err();
    assert_eq!(Detail::severity(&errors), Severity::Failure);
    assert_eq!(diags.len(), 1);
    assert_eq!(diags.get(0).code(), 9);
}

#[test]
fn errors_stand_for_the_collected() {
    let plain = Errors::new(Severity::Failure);
    assert_eq!(plain.to_string(), "multiple errors\n");
    assert_eq!(Detail::code(&plain), 0);
    assert_eq!(Detail::message(&plain), "multiple errors");
    assert!(Diag::stacktrace(&plain).is_none());
    let traced = Errors::with_stacktrace(Severity::Critical, Stacktrace::from_text("frames\n".to_string()));
    assert_eq!(traced.to_string(), "multiple errors\nframes\n");
    assert_eq!(Diag::severity(&traced), Severity::Critical);
    let mut out = String::new();
    traced.write_to(&mut out);
    assert_eq!(out, "critical error [C0000]: multiple errors\nframes\n");
    assert_eq!(traced.into_record().to_string(), "critical error [C0000]: multiple errors\nframes\n");
}

#[test]
fn a_text_is_a_detail() {
    let text = "something failed".to_string();
    assert_eq!(Detail::severity(&text), Severity::Failure);
    assert_eq!(Detail::code(&text), 0);
    assert_eq!(Detail::message(&text), "something failed");
    assert_eq!(BasicDiag::from(text).to_string(), "error [F0000]: something failed\n");
}

#[test]
fn failures_become_diagnostics() {
    let fine: Result<u8, Note> = Ok(1);
    assert_eq!(into_diag_res(fine).unwrap(), 1);
    let bad: Result<u8, Note> = Err(note(Severity::Error, 12, "bad"));
    let low = into_diag_res(bad).unwrap_err();
    assert_eq!(low.to_string(), "error [E0012]: bad\n");
    let fine: Result<u8, BasicDiag<Note>> = Ok(2);
    assert_eq!(map_err_as_cause(fine, || note(Severity::Failure, 1, "unused")).unwrap(), 2);
    let high = map_err_as_cause(Err::<u8, _>(low), || note(Severity::Failure, 13, "worse")).unwrap_err();
    assert_eq!(high.to_string(), "error [F0013]: worse\ncaused by: error [E0012]: bad\n");
}
