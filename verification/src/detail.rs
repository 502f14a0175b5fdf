use vstd::prelude::*;

verus! {

/// `str::eq_ignore_ascii_case` tells whether two texts are the same but,
/// perhaps, for the case of their ASCII letters.
pub assume_specification[ str::eq_ignore_ascii_case ](a: &str, b: &str) -> (r: bool)
    ensures
        r == same_ignoring_ascii_case(a@, b@),
;

/// The lower-case letter for an upper-case ASCII letter, any other
/// character itself.
pub open spec fn ascii_lower(c: char) -> char {
    if 'A' <= c <= 'Z' {
        ((c as u32) + 32) as char
    } else {
        c
    }
}

/// Whether two texts are the same but, perhaps, for the case of their ASCII
/// letters.
pub open spec fn same_ignoring_ascii_case(a: Seq<char>, b: Seq<char>) -> bool {
    &&& a.len() == b.len()
    &&& forall|i: int| 0 <= i < a.len() ==> ascii_lower(#[trigger] a[i]) == ascii_lower(b[i])
}

/// Classification of a diagnostic, ordered `Info < Warning < Error < Failure < Critical`.
#[derive(Debug, Clone, Copy, PartialEq, Eq, Structural, PartialOrd, Ord, Hash)]
pub enum Severity {
    Info,
    Warning,
    /// Error that is recoverable: processing may continue and collect further diagnostics.
    Error,
    /// Non-recoverable error.
    Failure,
    /// Fatal error, usually terminating the process abnormally.
    Critical,
}

impl Severity {
    /// Rank of the severity in the total order, `Info` being 0.
    pub open spec fn rank(self) -> nat {
        match self {
            Severity::Info => 0,
            Severity::Warning => 1,
            Severity::Error => 2,
            Severity::Failure => 3,
            Severity::Critical => 4,
        }
    }

    /// The single-letter wire code of the severity, as a byte.
    pub open spec fn spec_code_byte(self) -> u8 {
        match self {
            Severity::Info => 0x49,
            Severity::Warning => 0x57,
            Severity::Error => 0x45,
            Severity::Failure => 0x46,
            Severity::Critical => 0x43,
        }
    }

    /// The word that opens a rendered diagnostic of this severity.
    pub open spec fn spec_word(self) -> Seq<char> {
        match self {
            Severity::Info => "info"@,
            Severity::Warning => "warning"@,
            Severity::Error => "error"@,
            Severity::Failure => "error"@,
            Severity::Critical => "critical error"@,
        }
    }

    pub fn code_byte(&self) -> (b: u8)
        ensures
            b == self.spec_code_byte(),
    {
        match *self {
            Severity::Info => 0x49,
            Severity::Warning => 0x57,
            Severity::Error => 0x45,
            Severity::Failure => 0x46,
            Severity::Critical => 0x43,
        }
    }

    pub fn code_char(&self) -> (c: char)
        ensures
            c == self.spec_code_byte() as char,
    {
        match *self {
            Severity::Info => 'I',
            Severity::Warning => 'W',
            Severity::Error => 'E',
            Severity::Failure => 'F',
            Severity::Critical => 'C',
        }
    }

    /// Numeric rank, `Info` being 0, by which severities are compared.
    pub fn level(&self) -> (n: u8)
        ensures
            n == self.rank(),
    {
        match *self {
            Severity::Info => 0,
            Severity::Warning => 1,
            Severity::Error => 2,
            Severity::Failure => 3,
            Severity::Critical => 4,
        }
    }

    pub fn is_error(&self) -> (b: bool)
        ensures
            b == (self.rank() >= Severity::Error.rank()),
    {
        self.level() >= 2
    }

    pub fn is_recoverable(&self) -> (b: bool)
        ensures
            b == (self.rank() < Severity::Failure.rank()),
    {
        self.level() < 3
    }

    /// The greater of two severities.
    pub fn max(self, other: Severity) -> (m: Severity)
        ensures
            m == if self.rank() >= other.rank() { self } else { other },
    {
        if self.level() >= other.level() {
            self
        } else {
            other
        }
    }

    /// The severity that a name stands for, whatever the case of its
    /// letters.
    pub open spec fn spec_from_name(name: Seq<char>) -> Option<Severity> {
        if same_ignoring_ascii_case(name, "info"@) {
            Some(Severity::Info)
        } else if same_ignoring_ascii_case(name, "warning"@) {
            Some(Severity::Warning)
        } else if same_ignoring_ascii_case(name, "error"@) {
            Some(Severity::Error)
        } else if same_ignoring_ascii_case(name, "failure"@) {
            Some(Severity::Failure)
        } else if same_ignoring_ascii_case(name, "critical"@) {
            Some(Severity::Critical)
        } else {
            None
        }
    }

    /// The severity that a letter stands for, in either case.
    pub open spec fn spec_from_letter(letter: char) -> Option<Severity> {
        if letter == 'I' || letter == 'i' {
            Some(Severity::Info)
        } else if letter == 'W' || letter == 'w' {
            Some(Severity::Warning)
        } else if letter == 'E' || letter == 'e' {
            Some(Severity::Error)
        } else if letter == 'F' || letter == 'f' {
            Some(Severity::Failure)
        } else if letter == 'C' || letter == 'c' {
            Some(Severity::Critical)
        } else {
            None
        }
    }

    /// The severity that the name stands for, or the name back where it
    /// stands for none.
    pub fn try_from_str(value: &str) -> (r: Result<Severity, &str>)
        ensures
            match Severity::spec_from_name(value@) {
                Some(s) => r == Ok::<Severity, &str>(s),
                None => r == Err::<Severity, &str>(value),
            },
    {
        if value.eq_ignore_ascii_case("info") {
            Ok(Severity::Info)
        } else if value.eq_ignore_ascii_case("warning") {
            Ok(Severity::Warning)
        } else if value.eq_ignore_ascii_case("error") {
            Ok(Severity::Error)
        } else if value.eq_ignore_ascii_case("failure") {
            Ok(Severity::Failure)
        } else if value.eq_ignore_ascii_case("critical") {
            Ok(Severity::Critical)
        } else {
            Err(value)
        }
    }

    /// The severity that the letter stands for, or the letter back where it
    /// stands for none.
    pub fn try_from_char(value: char) -> (r: Result<Severity, char>)
        ensures
            match Severity::spec_from_letter(value) {
                Some(s) => r == Ok::<Severity, char>(s),
                None => r == Err::<Severity, char>(value),
            },
    {
        if value == 'I' || value == 'i' {
            Ok(Severity::Info)
        } else if value == 'W' || value == 'w' {
            Ok(Severity::Warning)
        } else if value == 'E' || value == 'e' {
            Ok(Severity::Error)
        } else if value == 'F' || value == 'f' {
            Ok(Severity::Failure)
        } else if value == 'C' || value == 'c' {
            Ok(Severity::Critical)
        } else {
            Err(value)
        }
    }

    /// The word that opens a rendered diagnostic of this severity.
    pub fn word(&self) -> (s: &'static str)
        ensures
            s@ == self.spec_word(),
    {
        match *self {
            Severity::Info => "info",
            Severity::Warning => "warning",
            Severity::Error => "error",
            Severity::Failure => "error",
            Severity::Critical => "critical error",
        }
    }
}

/// The payload of a diagnostic: a message for people, a numeric code and a
/// severity. A detail that does not say otherwise is a failure with the code
/// 0.
pub trait Detail {
    /// The severity of the detail.
    open spec fn spec_severity(&self) -> Severity {
        Severity::Failure
    }

    /// The code of the detail.
    open spec fn spec_code(&self) -> u32 {
        0
    }

    /// The message of the detail.
    open spec fn spec_message(&self) -> Seq<char> {
        Seq::empty()
    }

    fn severity(&self) -> (s: Severity)
        ensures
            s == self.spec_severity(),
    ;

    fn code(&self) -> (c: u32)
        ensures
            c == self.spec_code(),
    ;

    /// The message of the detail, as it stands after the code in a rendered
    /// diagnostic.
    fn message(&self) -> (m: String)
        ensures
            m@ == self.spec_message(),
    ;
}

/// A text is the detail of a failure whose message it is.
impl Detail for String {
    open spec fn spec_severity(&self) -> Severity {
        Severity::Failure
    }

    open spec fn spec_code(&self) -> u32 {
        0
    }

    open spec fn spec_message(&self) -> Seq<char> {
        self@
    }

    fn severity(&self) -> (s: Severity) {
        Severity::Failure
    }

    fn code(&self) -> (c: u32) {
        0
    }

    fn message(&self) -> (m: String) {
        self.clone()
    }
}

} // verus!
