//! The collector of diagnostics, and the error that stands for what it
//! collected.

use vstd::prelude::*;
use crate::detail::{Detail, Severity};
use crate::diag::{quote_views, stack_view, Diag, DiagRecord, DiagView};
use crate::io::quote::{Quote, QuoteView};
use crate::stacktrace::Stacktrace;

verus! {

/// The error that stands for the diagnostics that a collector holds, with
/// the greatest of their severities.
#[derive(Debug)]
pub struct Errors {
    severity: Severity,
    stacktrace: Option<Box<Stacktrace>>,
}

impl Errors {
    pub closed spec fn spec_stacktrace(&self) -> Option<Seq<char>> {
        stack_view(self.stacktrace)
    }

    /// The text of the error: the words `multiple errors` on a line, and
    /// the call stack after it.
    pub open spec fn spec_text(&self) -> Seq<char> {
        "multiple errors\n"@ + match self.spec_stacktrace() {
            Some(s) => s,
            None => Seq::<char>::empty(),
        }
    }

    pub fn new(severity: Severity) -> (e: Errors)
        ensures
            e.spec_severity() == severity,
            e.spec_stacktrace() is None,
    {
        Errors { severity, stacktrace: None }
    }

    pub fn with_stacktrace(severity: Severity, stacktrace: Stacktrace) -> (e: Errors)
        ensures
            e.spec_severity() == severity,
            e.spec_stacktrace() == Some(stacktrace@),
    {
        Errors { severity, stacktrace: Some(Box::new(stacktrace)) }
    }

    pub fn to_string(&self) -> (s: String)
        ensures
            s@ == self.spec_text(),
    {
        let mut s = String::new();
        s.push_str("multiple errors\n");
        match &self.stacktrace {
            Some(t) => {
                s.push_str(t.as_str());
            },
            None => {},
        }
        assert(s@ =~= self.spec_text());
        s
    }
}

impl Detail for Errors {
    closed spec fn spec_severity(&self) -> Severity {
        self.severity
    }

    open spec fn spec_code(&self) -> u32 {
        0
    }

    open spec fn spec_message(&self) -> Seq<char> {
        "multiple errors"@
    }

    fn severity(&self) -> (s: Severity) {
        self.severity
    }

    fn code(&self) -> (c: u32) {
        0
    }

    fn message(&self) -> (m: String) {
        "multiple errors".to_owned()
    }
}

impl Diag for Errors {
    open spec fn diag_view(&self) -> DiagView {
        DiagView {
            severity: self.spec_severity(),
            code: 0,
            message: "multiple errors"@,
            quotes: Seq::empty(),
            cause: None,
            stacktrace: self.spec_stacktrace(),
        }
    }

    fn severity(&self) -> (s: Severity) {
        self.severity
    }

    fn code(&self) -> (c: u32) {
        0
    }

    fn message(&self) -> (m: String) {
        "multiple errors".to_owned()
    }

    fn cause(&self) -> (c: Option<&DiagRecord>) {
        None
    }

    fn stacktrace(&self) -> (s: Option<&Stacktrace>) {
        match &self.stacktrace {
            Some(s) => Some(&**s),
            None => None,
        }
    }

    fn into_record(self) -> (r: DiagRecord) {
        assert(quote_views(Seq::<Quote>::empty()) =~= Seq::<QuoteView>::empty());
        DiagRecord::from_parts(self.severity, 0, "multiple errors".to_owned(), Vec::new(), None, self.stacktrace)
    }

    fn write_to(&self, out: &mut String) {
        crate::diag::write_diag(out, self.severity, 0, "multiple errors", &Vec::new(), &None, &self.stacktrace);
        assert(quote_views(Seq::<Quote>::empty()) =~= Seq::<QuoteView>::empty());
    }
}

/// What a collector holds.
pub struct DiagsView {
    /// The diagnostics, in the order in which they were added.
    pub diags: Seq<DiagView>,
    /// The greatest severity among them, `Info` where there are none.
    pub max_severity: Severity,
}

/// The greatest severity among the diagnostics, `Info` where there are none.
pub open spec fn greatest(diags: Seq<DiagView>) -> Severity
    decreases diags.len(),
{
    if diags.len() == 0 {
        Severity::Info
    } else {
        let rest = greatest(diags.drop_last());
        if rest.rank() >= diags.last().severity.rank() {
            rest
        } else {
            diags.last().severity
        }
    }
}

/// The views of a sequence of records.
pub open spec fn record_views(records: Seq<DiagRecord>) -> Seq<DiagView> {
    Seq::new(records.len(), |i: int| records[i]@)
}

/// A collector of diagnostics that knows the greatest severity among them.
#[derive(Debug)]
pub struct Diags {
    diags: Vec<DiagRecord>,
    max_severity: Severity,
}

impl View for Diags {
    type V = DiagsView;

    closed spec fn view(&self) -> DiagsView {
        DiagsView { diags: record_views(self.diags@), max_severity: self.max_severity }
    }
}

impl Diags {
    /// The invariant of the collector: the severity that it knows is the
    /// greatest among its diagnostics.
    pub open spec fn wf(&self) -> bool {
        self@.max_severity == greatest(self@.diags)
    }

    pub fn new() -> (d: Diags)
        ensures
            d.wf(),
            d@.diags == Seq::<DiagView>::empty(),
            d@.max_severity == Severity::Info,
    {
        let d = Diags { diags: Vec::new(), max_severity: Severity::Info };
        assert(d@.diags =~= Seq::<DiagView>::empty());
        d
    }

    /// Adds a diagnostic after those that the collector holds. The
    /// collection can go on where the diagnostic is recoverable; else the
    /// error that stands for the collected diagnostics is returned.
    pub fn add_diag<D: Diag>(&mut self, diag: D) -> (r: Result<(), Errors>)
        requires
            old(self).wf(),
        ensures
            final(self).wf(),
            final(self)@.diags == old(self)@.diags.push(diag.diag_view()),
            diag.diag_view().severity.rank() < Severity::Failure.rank() ==> r is Ok,
            diag.diag_view().severity.rank() >= Severity::Failure.rank() ==> (r matches Err(e) && e.spec_severity()
                == final(self)@.max_severity && e.spec_stacktrace() is None),
    {
        let severity = diag.severity();
        self.max_severity = self.max_severity.max(severity);
        let recover = severity.is_recoverable();
        let record = diag.into_record();
        self.diags.push(record);
        proof {
            assert(self@.diags =~= old(self)@.diags.push(diag.diag_view()));
            assert(self@.diags.drop_last() =~= old(self)@.diags);
        }
        if recover {
            Ok(())
        } else {
            Err(Errors::new(self.max_severity))
        }
    }

    /// The value, unless a diagnostic of severity `Error` or above was
    /// collected: then the error that stands for the collected diagnostics.
    pub fn result<T>(&self, res: T) -> (r: Result<T, Errors>)
        ensures
            self@.max_severity.rank() < Severity::Error.rank() ==> r == Ok::<T, Errors>(res),
            self@.max_severity.rank() >= Severity::Error.rank() ==> (r matches Err(e) && e.spec_severity()
                == self@.max_severity && e.spec_stacktrace() is None),
    {
        if self.max_severity.is_error() {
            Err(Errors::new(self.max_severity))
        } else {
            Ok(res)
        }
    }

    /// The greatest severity among the collected diagnostics.
    pub fn max_severity(&self) -> (s: Severity)
        ensures
            s == self@.max_severity,
    {
        self.max_severity
    }

    /// The number of collected diagnostics.
    pub fn len(&self) -> (n: usize)
        ensures
            n == self@.diags.len(),
    {
        self.diags.len()
    }

    /// The diagnostic that was added as the `i`-th, counted from 0.
    pub fn get(&self, i: usize) -> (d: &DiagRecord)
        requires
            i < self@.diags.len(),
        ensures
            d@ == self@.diags[i as int],
    {
        &self.diags[i]
    }
}

/// The value of a success; the error of a failure is added to the
/// collector, and the error that stands for what it has collected is
/// returned in its place.
pub fn add_err<T, E: Diag>(res: Result<T, E>, diags: &mut Diags) -> (r: Result<T, Errors>)
    requires
        old(diags).wf(),
        res matches Err(e) ==> e.diag_view().severity.rank() >= Severity::Failure.rank(),
    ensures
        final(diags).wf(),
        match res {
            Ok(value) => r == Ok::<T, Errors>(value) && final(diags)@ == old(diags)@,
            Err(e) => final(diags)@.diags == old(diags)@.diags.push(e.diag_view()) && (r matches Err(errors)
                && errors.spec_severity() == final(diags)@.max_severity),
        },
{
    match res {
        Ok(value) => Ok(value),
        Err(err) => {
            match diags.add_diag(err) {
                Err(errors) => Err(errors),
                Ok(()) => Err(Errors::new(diags.max_severity())),
            }
        },
    }
}

} // verus!
