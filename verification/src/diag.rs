//! Diagnostic records: a detail with, optionally, the diagnostic that caused
//! it, a captured call stack, and quotes of the source.

use vstd::prelude::*;
use crate::detail::{Detail, Severity};
use crate::io::quote::{Quote, QuoteView};
use crate::stacktrace::Stacktrace;
use crate::text::{decimal, pad_left, push_padded_decimal};

verus! {

/// What a diagnostic holds, as far as it is printed.
pub struct DiagView {
    pub severity: Severity,
    pub code: u32,
    pub message: Seq<char>,
    pub quotes: Seq<QuoteView>,
    pub cause: Option<Box<DiagView>>,
    pub stacktrace: Option<Seq<char>>,
}

/// The quotes as they are printed, one after the other.
pub open spec fn quotes_text(quotes: Seq<QuoteView>) -> Seq<char>
    decreases quotes.len(),
{
    if quotes.len() == 0 {
        Seq::<char>::empty()
    } else {
        quotes_text(quotes.drop_last()) + quotes.last().text()
    }
}

/// The views of a sequence of quotes.
pub open spec fn quote_views(quotes: Seq<Quote>) -> Seq<QuoteView> {
    Seq::new(quotes.len(), |i: int| quotes[i]@)
}

impl DiagView {
    /// The code as it is printed: the letter of the severity and the
    /// number in four digits at least.
    pub open spec fn code_text(self) -> Seq<char> {
        seq![self.severity.spec_code_byte() as char] + pad_left(decimal(self.code as nat), 4, '0')
    }

    /// The first line: the word of the severity, the code in brackets, and
    /// the message.
    pub open spec fn head(self) -> Seq<char> {
        self.severity.spec_word() + " ["@ + self.code_text() + "]: "@ + self.message + seq!['\n']
    }

    /// What is printed of the cause: the words `caused by: ` and the cause.
    pub open spec fn cause_text(self) -> Seq<char>
        decreases self, 0int,
    {
        match self.cause {
            Some(c) => "caused by: "@ + c.text(),
            None => Seq::<char>::empty(),
        }
    }

    /// What is printed of the call stack.
    pub open spec fn stack_text(self) -> Seq<char> {
        match self.stacktrace {
            Some(s) => s,
            None => Seq::<char>::empty(),
        }
    }

    /// The diagnostic as it is printed: the first line, the quotes, the
    /// cause, and the call stack.
    pub open spec fn text(self) -> Seq<char>
        decreases self, 1int,
    {
        self.head() + quotes_text(self.quotes) + self.cause_text() + self.stack_text()
    }
}

/// A text is the beginning of itself followed by another.
proof fn lemma_begins(a: Seq<char>, b: Seq<char>)
    ensures
        a.is_prefix_of(a + b),
{
    assert(a =~= (a + b).subrange(0, a.len() as int));
}

/// What is the beginning of the beginning of a text is the beginning of
/// the text.
proof fn lemma_begins_transitive(a: Seq<char>, b: Seq<char>, c: Seq<char>)
    requires
        a.is_prefix_of(b),
        b.is_prefix_of(c),
    ensures
        a.is_prefix_of(c),
{
    assert(a =~= c.subrange(0, a.len() as int));
}

impl DiagView {
    /// What every printed diagnostic begins with: the word of the
    /// severity, the code in brackets, a colon and a space.
    pub open spec fn opening(self) -> Seq<char> {
        self.severity.spec_word() + " ["@ + self.code_text() + "]: "@
    }
}

/// A diagnostic is printed with, first, the word of its severity and, in
/// brackets, the letter of the severity and the code in four digits at
/// least, a colon and a space.
pub proof fn lemma_text_begins(v: DiagView)
    ensures
        v.opening().is_prefix_of(v.text()),
{
    assert(v.head() =~= v.opening() + (v.message + seq!['\n']));
    lemma_begins(v.opening(), v.message + seq!['\n']);
    let rest = quotes_text(v.quotes) + v.cause_text() + v.stack_text();
    assert(v.text() =~= v.head() + rest);
    lemma_begins(v.head(), rest);
    lemma_begins_transitive(v.opening(), v.head(), v.text());
}

/// A diagnostic record.
pub trait Diag: Sized {
    /// What the diagnostic holds, as far as it is printed.
    spec fn diag_view(&self) -> DiagView;

    /// The severity of the detail of the diagnostic.
    fn severity(&self) -> (s: Severity)
        ensures
            s == self.diag_view().severity,
    ;

    /// The code of the detail of the diagnostic.
    fn code(&self) -> (c: u32)
        ensures
            c == self.diag_view().code,
    ;

    /// The message of the detail of the diagnostic.
    fn message(&self) -> (m: String)
        ensures
            m@ == self.diag_view().message,
    ;

    /// The diagnostic that caused this one.
    fn cause(&self) -> (c: Option<&DiagRecord>)
        ensures
            c is Some == self.diag_view().cause is Some,
            c matches Some(d) ==> d@ == *self.diag_view().cause->0,
    ;

    /// The call stack that was captured with the diagnostic.
    fn stacktrace(&self) -> (s: Option<&Stacktrace>)
        ensures
            s is Some == self.diag_view().stacktrace is Some,
            s matches Some(t) ==> t@ == self.diag_view().stacktrace->0,
    ;

    /// The diagnostic without the type of its detail: what is printed of it.
    fn into_record(self) -> (r: DiagRecord)
        ensures
            r@ == self.diag_view(),
    ;

    /// Appends the diagnostic, as it is printed, to `out`.
    fn write_to(&self, out: &mut String)
        ensures
            final(out)@ == old(out)@ + self.diag_view().text(),
    ;
}

/// A diagnostic whose detail is kept as what is printed of it: the form in
/// which a diagnostic is the cause of another, whatever the type of its
/// detail was.
#[derive(Debug)]
pub struct DiagRecord {
    severity: Severity,
    code: u32,
    message: String,
    quotes: Vec<Quote>,
    cause: Option<Box<DiagRecord>>,
    stacktrace: Option<Box<Stacktrace>>,
}

impl View for DiagRecord {
    type V = DiagView;

    closed spec fn view(&self) -> DiagView {
        self.record_view()
    }
}

/// The view of the cause of a diagnostic.
pub open spec fn cause_view(cause: Option<Box<DiagRecord>>) -> Option<Box<DiagView>> {
    match cause {
        Some(c) => Some(Box::new(c@)),
        None => None,
    }
}

/// The view of the call stack of a diagnostic.
pub open spec fn stack_view(stacktrace: Option<Box<Stacktrace>>) -> Option<Seq<char>> {
    match stacktrace {
        Some(s) => Some(s@),
        None => None,
    }
}

/// What a diagnostic with the given detail and parts holds.
pub open spec fn view_of<D: Detail>(
    detail: D,
    quotes: Seq<QuoteView>,
    cause: Option<Box<DiagView>>,
    stacktrace: Option<Seq<char>>,
) -> DiagView {
    DiagView {
        severity: detail.spec_severity(),
        code: detail.spec_code(),
        message: detail.spec_message(),
        quotes,
        cause,
        stacktrace,
    }
}

/// Appends the first line of a diagnostic.
fn write_head(out: &mut String, severity: Severity, code: u32, message: &str)
    ensures
        final(out)@ == old(out)@ + (DiagView {
            severity,
            code,
            message: message@,
            quotes: Seq::empty(),
            cause: None,
            stacktrace: None,
        }).head(),
{
    out.push_str(severity.word());
    out.push_str(" [");
    out.push(severity.code_char());
    push_padded_decimal(out, code as u128, 4, '0');
    out.push_str("]: ");
    out.push_str(message);
    out.push('\n');
    assert(out@ =~= old(out)@ + (DiagView {
        severity,
        code,
        message: message@,
        quotes: Seq::empty(),
        cause: None,
        stacktrace: None,
    }).head());
}

/// Appends the quotes, as they are printed.
fn write_quotes(out: &mut String, quotes: &Vec<Quote>)
    ensures
        final(out)@ == old(out)@ + quotes_text(quote_views(quotes@)),
{
    let mut i: usize = 0;
    assert(quote_views(quotes@).subrange(0, 0) =~= Seq::<QuoteView>::empty());
    assert(out@ =~= old(out)@ + quotes_text(quote_views(quotes@).subrange(0, 0)));
    while i < quotes.len()
        invariant
            i <= quotes@.len(),
            out@ == old(out)@ + quotes_text(quote_views(quotes@).subrange(0, i as int)),
        decreases quotes@.len() - i,
    {
        quotes[i].write_to(out);
        proof {
            let before = quote_views(quotes@).subrange(0, i as int);
            let after = quote_views(quotes@).subrange(0, i + 1);
            assert(after.drop_last() =~= before);
            assert(after.last() == quotes@[i as int]@);
            assert(out@ =~= old(out)@ + quotes_text(after));
        }
        i = i + 1;
    }
    assert(quote_views(quotes@).subrange(0, i as int) =~= quote_views(quotes@));
}

/// Appends what follows the quotes of a diagnostic: the cause and the call
/// stack.
fn write_tail(out: &mut String, cause: &Option<Box<DiagRecord>>, stacktrace: &Option<Box<Stacktrace>>)
    ensures
        final(out)@ == old(out)@ + (match *cause {
            Some(c) => "caused by: "@ + c@.text(),
            None => Seq::<char>::empty(),
        }) + (match *stacktrace {
            Some(s) => s@,
            None => Seq::<char>::empty(),
        }),
    decreases *cause, 0int,
{
    match cause {
        Some(c) => {
            out.push_str("caused by: ");
            c.write_record(out);
        },
        None => {},
    }
    let ghost mid = out@;
    assert(mid =~= old(out)@ + (match *cause {
        Some(c) => "caused by: "@ + c@.text(),
        None => Seq::<char>::empty(),
    }));
    match stacktrace {
        Some(s) => {
            out.push_str(s.as_str());
        },
        None => {},
    }
    assert(out@ =~= mid + (match *stacktrace {
        Some(s) => s@,
        None => Seq::<char>::empty(),
    }));
}

/// Appends a diagnostic of the given parts, as it is printed.
pub(crate) fn write_diag(
    out: &mut String,
    severity: Severity,
    code: u32,
    message: &str,
    quotes: &Vec<Quote>,
    cause: &Option<Box<DiagRecord>>,
    stacktrace: &Option<Box<Stacktrace>>,
)
    ensures
        final(out)@ == old(out)@ + (DiagView {
            severity,
            code,
            message: message@,
            quotes: quote_views(quotes@),
            cause: cause_view(*cause),
            stacktrace: stack_view(*stacktrace),
        }).text(),
    decreases *cause, 1int,
{
    let ghost v = DiagView {
        severity,
        code,
        message: message@,
        quotes: quote_views(quotes@),
        cause: cause_view(*cause),
        stacktrace: stack_view(*stacktrace),
    };
    write_head(out, severity, code, message);
    let ghost head = out@;
    assert(head =~= old(out)@ + v.head());
    write_quotes(out, quotes);
    let ghost body = out@;
    write_tail(out, cause, stacktrace);
    assert(out@ =~= body + v.cause_text() + v.stack_text());
    assert(out@ =~= old(out)@ + v.text());
}

impl DiagRecord {
    /// What the record holds.
    pub closed spec fn record_view(&self) -> DiagView
        decreases self,
    {
        DiagView {
            severity: self.severity,
            code: self.code,
            message: self.message@,
            quotes: quote_views(self.quotes@),
            cause: match self.cause {
                Some(c) => Some(Box::new(c.record_view())),
                None => None,
            },
            stacktrace: stack_view(self.stacktrace),
        }
    }

    /// Appends the diagnostic, as it is printed, to `out`.
    fn write_record(&self, out: &mut String)
        ensures
            final(out)@ == old(out)@ + self@.text(),
        decreases self, 2int,
    {
        write_diag(out, self.severity, self.code, self.message.as_str(), &self.quotes, &self.cause, &self.stacktrace);
    }

    /// The record of the given parts.
    pub fn from_parts(
        severity: Severity,
        code: u32,
        message: String,
        quotes: Vec<Quote>,
        cause: Option<Box<DiagRecord>>,
        stacktrace: Option<Box<Stacktrace>>,
    ) -> (r: DiagRecord)
        ensures
            r@ == (DiagView {
                severity,
                code,
                message: message@,
                quotes: quote_views(quotes@),
                cause: cause_view(cause),
                stacktrace: stack_view(stacktrace),
            }),
    {
        DiagRecord { severity, code, message, quotes, cause, stacktrace }
    }

    /// The quotes of the source that the diagnostic carries.
    pub fn quotes(&self) -> (q: &Vec<Quote>)
        ensures
            quote_views(q@) == self@.quotes,
    {
        &self.quotes
    }

    pub fn to_string(&self) -> (s: String)
        ensures
            s@ == self@.text(),
    {
        let mut s = String::new();
        self.write_record(&mut s);
        assert(s@ =~= self@.text());
        s
    }
}

impl Diag for DiagRecord {
    open spec fn diag_view(&self) -> DiagView {
        self@
    }

    fn severity(&self) -> (s: Severity) {
        self.severity
    }

    fn code(&self) -> (c: u32) {
        self.code
    }

    fn message(&self) -> (m: String) {
        self.message.clone()
    }

    fn cause(&self) -> (c: Option<&DiagRecord>) {
        match &self.cause {
            Some(c) => Some(&**c),
            None => None,
        }
    }

    fn stacktrace(&self) -> (s: Option<&Stacktrace>) {
        match &self.stacktrace {
            Some(s) => Some(&**s),
            None => None,
        }
    }

    fn into_record(self) -> (r: DiagRecord) {
        self
    }

    fn write_to(&self, out: &mut String) {
        self.write_record(out);
    }
}

/// A diagnostic with a detail that it holds in place, and optionally a cause
/// and a call stack.
#[derive(Debug)]
pub struct BasicDiag<D: Detail> {
    detail: D,
    cause: Option<Box<DiagRecord>>,
    stacktrace: Option<Box<Stacktrace>>,
}

impl<D: Detail> BasicDiag<D> {
    /// The detail of the diagnostic.
    pub closed spec fn spec_detail(&self) -> D {
        self.detail
    }

    /// What is printed of the diagnostic is what is printed of its detail,
    /// with the quotes, the cause and the call stack.
    pub proof fn lemma_view(&self)
        ensures
            self.diag_view() == view_of(
                self.spec_detail(),
                self.diag_view().quotes,
                self.diag_view().cause,
                self.diag_view().stacktrace,
            ),
    {
    }

    pub fn new(detail: D) -> (d: BasicDiag<D>)
        ensures
            d.diag_view() == view_of(detail, Seq::empty(), None, None),
            d.spec_detail() == detail,
    {
        BasicDiag { detail, cause: None, stacktrace: None }
    }

    /// The diagnostic of `detail`, with no cause and no call stack.
    pub fn from(detail: D) -> (d: BasicDiag<D>)
        ensures
            d.diag_view() == view_of(detail, Seq::empty(), None, None),
            d.spec_detail() == detail,
    {
        BasicDiag { detail, cause: None, stacktrace: None }
    }

    pub fn with_cause<E: Diag>(detail: D, cause: E) -> (d: BasicDiag<D>)
        ensures
            d.diag_view() == view_of(detail, Seq::empty(), Some(Box::new(cause.diag_view())), None),
            d.spec_detail() == detail,
    {
        BasicDiag { detail, cause: Some(Box::new(cause.into_record())), stacktrace: None }
    }

    pub fn with_stacktrace(detail: D, stacktrace: Stacktrace) -> (d: BasicDiag<D>)
        ensures
            d.diag_view() == view_of(detail, Seq::empty(), None, Some(stacktrace@)),
            d.spec_detail() == detail,
    {
        BasicDiag { detail, cause: None, stacktrace: Some(Box::new(stacktrace)) }
    }

    pub fn with_cause_stacktrace<E: Diag>(detail: D, cause: E, stacktrace: Stacktrace) -> (d: BasicDiag<D>)
        ensures
            d.diag_view() == view_of(detail, Seq::empty(), Some(Box::new(cause.diag_view())), Some(stacktrace@)),
            d.spec_detail() == detail,
    {
        BasicDiag {
            detail,
            cause: Some(Box::new(cause.into_record())),
            stacktrace: Some(Box::new(stacktrace)),
        }
    }

    /// The detail of the diagnostic.
    pub fn detail(&self) -> (d: &D)
        ensures
            *d == self.spec_detail(),
            self.diag_view() == view_of(
                *d,
                self.diag_view().quotes,
                self.diag_view().cause,
                self.diag_view().stacktrace,
            ),
    {
        &self.detail
    }

    pub fn to_string(&self) -> (s: String)
        ensures
            s@ == self.diag_view().text(),
    {
        let mut s = String::new();
        self.write_to(&mut s);
        assert(s@ =~= self.diag_view().text());
        s
    }
}

impl<D: Detail> Diag for BasicDiag<D> {
    closed spec fn diag_view(&self) -> DiagView {
        view_of(self.detail, Seq::empty(), cause_view(self.cause), stack_view(self.stacktrace))
    }

    fn severity(&self) -> (s: Severity) {
        self.detail.severity()
    }

    fn code(&self) -> (c: u32) {
        self.detail.code()
    }

    fn message(&self) -> (m: String) {
        self.detail.message()
    }

    fn cause(&self) -> (c: Option<&DiagRecord>) {
        match &self.cause {
            Some(c) => Some(&**c),
            None => None,
        }
    }

    fn stacktrace(&self) -> (s: Option<&Stacktrace>) {
        match &self.stacktrace {
            Some(s) => Some(&**s),
            None => None,
        }
    }

    fn into_record(self) -> (r: DiagRecord) {
        let severity = self.detail.severity();
        let code = self.detail.code();
        let message = self.detail.message();
        assert(quote_views(Seq::<Quote>::empty()) =~= Seq::<QuoteView>::empty());
        DiagRecord { severity, code, message, quotes: Vec::new(), cause: self.cause, stacktrace: self.stacktrace }
    }

    fn write_to(&self, out: &mut String) {
        let message = self.detail.message();
        write_diag(
            out,
            self.detail.severity(),
            self.detail.code(),
            message.as_str(),
            &Vec::new(),
            &self.cause,
            &self.stacktrace,
        );
    }
}

/// A diagnostic with a detail that it holds on the heap, for details that are
/// large.
#[derive(Debug)]
pub struct SimpleDiag<D: Detail> {
    detail: Box<D>,
    cause: Option<Box<DiagRecord>>,
    stacktrace: Option<Box<Stacktrace>>,
}

impl<D: Detail> SimpleDiag<D> {
    /// The detail of the diagnostic.
    pub closed spec fn spec_detail(&self) -> D {
        *self.detail
    }

    /// What is printed of the diagnostic is what is printed of its detail,
    /// with the quotes, the cause and the call stack.
    pub proof fn lemma_view(&self)
        ensures
            self.diag_view() == view_of(
                self.spec_detail(),
                self.diag_view().quotes,
                self.diag_view().cause,
                self.diag_view().stacktrace,
            ),
    {
    }

    pub fn new(detail: D) -> (d: SimpleDiag<D>)
        ensures
            d.diag_view() == view_of(detail, Seq::empty(), None, None),
            d.spec_detail() == detail,
    {
        SimpleDiag { detail: Box::new(detail), cause: None, stacktrace: None }
    }

    /// The diagnostic of `detail`, with no cause and no call stack.
    pub fn from(detail: D) -> (d: SimpleDiag<D>)
        ensures
            d.diag_view() == view_of(detail, Seq::empty(), None, None),
            d.spec_detail() == detail,
    {
        SimpleDiag { detail: Box::new(detail), cause: None, stacktrace: None }
    }

    pub fn with_cause<E: Diag>(detail: D, cause: E) -> (d: SimpleDiag<D>)
        ensures
            d.diag_view() == view_of(detail, Seq::empty(), Some(Box::new(cause.diag_view())), None),
            d.spec_detail() == detail,
    {
        SimpleDiag { detail: Box::new(detail), cause: Some(Box::new(cause.into_record())), stacktrace: None }
    }

    pub fn with_stacktrace(detail: D, stacktrace: Stacktrace) -> (d: SimpleDiag<D>)
        ensures
            d.diag_view() == view_of(detail, Seq::empty(), None, Some(stacktrace@)),
            d.spec_detail() == detail,
    {
        SimpleDiag { detail: Box::new(detail), cause: None, stacktrace: Some(Box::new(stacktrace)) }
    }

    pub fn with_cause_stacktrace<E: Diag>(detail: D, cause: E, stacktrace: Stacktrace) -> (d: SimpleDiag<D>)
        ensures
            d.diag_view() == view_of(detail, Seq::empty(), Some(Box::new(cause.diag_view())), Some(stacktrace@)),
            d.spec_detail() == detail,
    {
        SimpleDiag {
            detail: Box::new(detail),
            cause: Some(Box::new(cause.into_record())),
            stacktrace: Some(Box::new(stacktrace)),
        }
    }

    /// The detail of the diagnostic.
    pub fn detail(&self) -> (d: &D)
        ensures
            *d == self.spec_detail(),
            self.diag_view() == view_of(
                *d,
                self.diag_view().quotes,
                self.diag_view().cause,
                self.diag_view().stacktrace,
            ),
    {
        &*self.detail
    }

    pub fn to_string(&self) -> (s: String)
        ensures
            s@ == self.diag_view().text(),
    {
        let mut s = String::new();
        self.write_to(&mut s);
        assert(s@ =~= self.diag_view().text());
        s
    }
}

impl<D: Detail> Diag for SimpleDiag<D> {
    closed spec fn diag_view(&self) -> DiagView {
        view_of(*self.detail, Seq::empty(), cause_view(self.cause), stack_view(self.stacktrace))
    }

    fn severity(&self) -> (s: Severity) {
        self.detail.severity()
    }

    fn code(&self) -> (c: u32) {
        self.detail.code()
    }

    fn message(&self) -> (m: String) {
        self.detail.message()
    }

    fn cause(&self) -> (c: Option<&DiagRecord>) {
        match &self.cause {
            Some(c) => Some(&**c),
            None => None,
        }
    }

    fn stacktrace(&self) -> (s: Option<&Stacktrace>) {
        match &self.stacktrace {
            Some(s) => Some(&**s),
            None => None,
        }
    }

    fn into_record(self) -> (r: DiagRecord) {
        let severity = self.detail.severity();
        let code = self.detail.code();
        let message = self.detail.message();
        assert(quote_views(Seq::<Quote>::empty()) =~= Seq::<QuoteView>::empty());
        DiagRecord { severity, code, message, quotes: Vec::new(), cause: self.cause, stacktrace: self.stacktrace }
    }

    fn write_to(&self, out: &mut String) {
        let message = self.detail.message();
        write_diag(
            out,
            self.detail.severity(),
            self.detail.code(),
            message.as_str(),
            &Vec::new(),
            &self.cause,
            &self.stacktrace,
        );
    }
}

/// A diagnostic of parsing: a detail with quotes of the source, and
/// optionally a cause and a call stack.
#[derive(Debug)]
pub struct ParseDiag<D: Detail> {
    detail: Box<D>,
    quotes: Vec<Quote>,
    cause: Option<Box<DiagRecord>>,
    stacktrace: Option<Box<Stacktrace>>,
}

impl<D: Detail> ParseDiag<D> {
    /// The detail of the diagnostic.
    pub closed spec fn spec_detail(&self) -> D {
        *self.detail
    }

    /// What is printed of the diagnostic is what is printed of its detail,
    /// with the quotes, the cause and the call stack.
    pub proof fn lemma_view(&self)
        ensures
            self.diag_view() == view_of(
                self.spec_detail(),
                self.diag_view().quotes,
                self.diag_view().cause,
                self.diag_view().stacktrace,
            ),
    {
    }

    pub fn new(detail: D) -> (d: ParseDiag<D>)
        ensures
            d.diag_view() == view_of(detail, Seq::empty(), None, None),
            d.spec_detail() == detail,
    {
        assert(quote_views(Seq::<Quote>::empty()) =~= Seq::<QuoteView>::empty());
        ParseDiag { detail: Box::new(detail), quotes: Vec::new(), cause: None, stacktrace: None }
    }

    /// The diagnostic of `detail`, with no cause and no call stack.
    pub fn from(detail: D) -> (d: ParseDiag<D>)
        ensures
            d.diag_view() == view_of(detail, Seq::empty(), None, None),
            d.spec_detail() == detail,
    {
        assert(quote_views(Seq::<Quote>::empty()) =~= Seq::<QuoteView>::empty());
        ParseDiag { detail: Box::new(detail), quotes: Vec::new(), cause: None, stacktrace: None }
    }

    pub fn with_cause<E: Diag>(detail: D, cause: E) -> (d: ParseDiag<D>)
        ensures
            d.diag_view() == view_of(detail, Seq::empty(), Some(Box::new(cause.diag_view())), None),
            d.spec_detail() == detail,
    {
        assert(quote_views(Seq::<Quote>::empty()) =~= Seq::<QuoteView>::empty());
        ParseDiag {
            detail: Box::new(detail),
            quotes: Vec::new(),
            cause: Some(Box::new(cause.into_record())),
            stacktrace: None,
        }
    }

    pub fn with_stacktrace(detail: D, stacktrace: Stacktrace) -> (d: ParseDiag<D>)
        ensures
            d.diag_view() == view_of(detail, Seq::empty(), None, Some(stacktrace@)),
            d.spec_detail() == detail,
    {
        assert(quote_views(Seq::<Quote>::empty()) =~= Seq::<QuoteView>::empty());
        ParseDiag {
            detail: Box::new(detail),
            quotes: Vec::new(),
            cause: None,
            stacktrace: Some(Box::new(stacktrace)),
        }
    }

    pub fn with_cause_stacktrace<E: Diag>(detail: D, cause: E, stacktrace: Stacktrace) -> (d: ParseDiag<D>)
        ensures
            d.diag_view() == view_of(detail, Seq::empty(), Some(Box::new(cause.diag_view())), Some(stacktrace@)),
            d.spec_detail() == detail,
    {
        assert(quote_views(Seq::<Quote>::empty()) =~= Seq::<QuoteView>::empty());
        ParseDiag {
            detail: Box::new(detail),
            quotes: Vec::new(),
            cause: Some(Box::new(cause.into_record())),
            stacktrace: Some(Box::new(stacktrace)),
        }
    }

    /// The detail of the diagnostic.
    pub fn detail(&self) -> (d: &D)
        ensures
            *d == self.spec_detail(),
            self.diag_view() == view_of(
                *d,
                self.diag_view().quotes,
                self.diag_view().cause,
                self.diag_view().stacktrace,
            ),
    {
        &*self.detail
    }

    /// The quotes of the source, in the order in which they were added.
    pub fn quotes(&self) -> (q: &Vec<Quote>)
        ensures
            quote_views(q@) == self.diag_view().quotes,
    {
        &self.quotes
    }

    /// Adds a quote after those that the diagnostic has.
    pub fn add_quote(&mut self, quote: Quote)
        ensures
            final(self).spec_detail() == old(self).spec_detail(),
            final(self).diag_view() == (DiagView {
                quotes: old(self).diag_view().quotes.push(quote@),
                ..old(self).diag_view()
            }),
    {
        self.quotes.push(quote);
        assert(quote_views(self.quotes@) =~= quote_views(old(self).quotes@).push(quote@));
    }

    pub fn to_string(&self) -> (s: String)
        ensures
            s@ == self.diag_view().text(),
    {
        let mut s = String::new();
        self.write_to(&mut s);
        assert(s@ =~= self.diag_view().text());
        s
    }
}

impl<D: Detail> Diag for ParseDiag<D> {
    closed spec fn diag_view(&self) -> DiagView {
        view_of(*self.detail, quote_views(self.quotes@), cause_view(self.cause), stack_view(self.stacktrace))
    }

    fn severity(&self) -> (s: Severity) {
        self.detail.severity()
    }

    fn code(&self) -> (c: u32) {
        self.detail.code()
    }

    fn message(&self) -> (m: String) {
        self.detail.message()
    }

    fn cause(&self) -> (c: Option<&DiagRecord>) {
        match &self.cause {
            Some(c) => Some(&**c),
            None => None,
        }
    }

    fn stacktrace(&self) -> (s: Option<&Stacktrace>) {
        match &self.stacktrace {
            Some(s) => Some(&**s),
            None => None,
        }
    }

    fn into_record(self) -> (r: DiagRecord) {
        let severity = self.detail.severity();
        let code = self.detail.code();
        let message = self.detail.message();
        DiagRecord { severity, code, message, quotes: self.quotes, cause: self.cause, stacktrace: self.stacktrace }
    }

    fn write_to(&self, out: &mut String) {
        let message = self.detail.message();
        write_diag(
            out,
            self.detail.severity(),
            self.detail.code(),
            message.as_str(),
            &self.quotes,
            &self.cause,
            &self.stacktrace,
        );
    }
}

/// The value of a success; the diagnostic of the detail of a failure.
pub fn into_diag_res<T, D: Detail>(res: Result<T, D>) -> (r: Result<T, BasicDiag<D>>)
    ensures
        match res {
            Ok(value) => r == Ok::<T, BasicDiag<D>>(value),
            Err(detail) => r matches Err(d) && d.spec_detail() == detail && d.diag_view() == view_of(
                detail,
                Seq::empty(),
                None,
                None,
            ),
        },
{
    match res {
        Ok(value) => Ok(value),
        Err(detail) => Err(BasicDiag::from(detail)),
    }
}

/// The value of a success; for a failure, the diagnostic of the detail
/// that `op` gives, with the diagnostic of the failure as its cause.
pub fn map_err_as_cause<T, E: Diag, D: Detail, O: FnOnce() -> D>(res: Result<T, E>, op: O) -> (r: Result<
    T,
    BasicDiag<D>,
>)
    requires
        res is Err ==> call_requires(op, ()),
    ensures
        match res {
            Ok(value) => r == Ok::<T, BasicDiag<D>>(value),
            Err(e) => r matches Err(d) && exists|detail: D|
                call_ensures(op, (), detail) && d.spec_detail() == detail && d.diag_view() == view_of(
                    detail,
                    Seq::empty(),
                    Some(Box::new(e.diag_view())),
                    None,
                ),
        },
{
    match res {
        Ok(value) => Ok(value),
        Err(e) => {
            let detail = op();
            Err(BasicDiag::with_cause(detail, e))
        },
    }
}

} // verus!
