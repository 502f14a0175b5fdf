//! Excerpts of a source buffer, printed with line numbers and with carets
//! under the quoted span.

use vstd::prelude::*;
use vstd::utf8::*;
use crate::io::decode::lines;
use crate::io::{Position, Span};
use crate::text::{decimal, decimal_len, pad_left, push_padded_decimal, push_repeat, repeat};

verus! {

/// The text that `String::from_utf8_lossy` makes of bytes: the text that
/// they encode, with the replacement character in place of each malformed
/// sequence.
pub uninterp spec fn lossy_decode(bytes: Seq<u8>) -> Seq<char>;

/// The text of the bytes, as `String::from_utf8_lossy` gives it: that of
/// well-formed UTF-8 is the text that the bytes encode.
#[verifier::external_body]
fn lossy_text(bytes: &[u8]) -> (s: String)
    ensures
        s@ == lossy_decode(bytes@),
        valid_utf8(bytes@) ==> s@ == decode_utf8(bytes@),
{
    String::from_utf8_lossy(bytes).into_owned()
}

/// The offset at which an excerpt begins that reaches `before` whole lines
/// back from the line of offset `at`.
pub open spec fn snippet_start(data: Seq<u8>, at: int, before: nat) -> int
    decreases at,
{
    if at <= 0 {
        0
    } else if data[at - 1] == 0x0A {
        if before == 0 {
            at
        } else {
            snippet_start(data, at - 1, (before - 1) as nat)
        }
    } else {
        snippet_start(data, at - 1, before)
    }
}

/// The offset at which an excerpt ends that reaches `after` whole lines
/// on from the line of offset `at`.
pub open spec fn snippet_end(data: Seq<u8>, at: int, after: nat) -> int
    decreases data.len() - at,
{
    if at >= data.len() {
        data.len() as int
    } else if data[at] == 0x0A {
        if after == 0 {
            at
        } else {
            snippet_end(data, at + 1, (after - 1) as nat)
        }
    } else {
        snippet_end(data, at + 1, after)
    }
}

/// The smaller of an offset and the length of the buffer.
pub open spec fn clamp(data: Seq<u8>, offset: usize) -> int {
    if offset <= data.len() {
        offset as int
    } else {
        data.len() as int
    }
}

/// The zero-based number of the line on which the excerpt begins.
pub open spec fn snippet_line(data: Seq<u8>, start: Position, before: u32) -> int {
    if lines(data.subrange(0, clamp(data, start.offset))) > before {
        start.line - before
    } else {
        0
    }
}

pub proof fn lemma_snippet_bounds(data: Seq<u8>, at: int, n: nat)
    requires
        0 <= at <= data.len(),
    ensures
        0 <= snippet_start(data, at, n) <= at,
        at <= snippet_end(data, at, n) <= data.len(),
{
    lemma_snippet_start_bounds(data, at, n);
    lemma_snippet_end_bounds(data, at, n);
}

proof fn lemma_snippet_start_bounds(data: Seq<u8>, at: int, n: nat)
    requires
        0 <= at <= data.len(),
    ensures
        0 <= snippet_start(data, at, n) <= at,
    decreases at,
{
    if at > 0 {
        if data[at - 1] == 0x0A {
            if n > 0 {
                lemma_snippet_start_bounds(data, at - 1, (n - 1) as nat);
            }
        } else {
            lemma_snippet_start_bounds(data, at - 1, n);
        }
    }
}

proof fn lemma_snippet_end_bounds(data: Seq<u8>, at: int, n: nat)
    requires
        0 <= at <= data.len(),
    ensures
        at <= snippet_end(data, at, n) <= data.len(),
    decreases data.len() - at,
{
    if at < data.len() {
        if data[at] == 0x0A {
            if n > 0 {
                lemma_snippet_end_bounds(data, at + 1, (n - 1) as nat);
            }
        } else {
            lemma_snippet_end_bounds(data, at + 1, n);
        }
    }
}

/// The lines read so far and the line that is being read, after the
/// characters of `s`.
pub open spec fn line_state(s: Seq<char>) -> (Seq<Seq<char>>, Seq<char>)
    decreases s.len(),
{
    if s.len() == 0 {
        (Seq::<Seq<char>>::empty(), Seq::<char>::empty())
    } else {
        let (done, cur) = line_state(s.drop_last());
        if s.last() == '\n' {
            (done.push(without_cr(cur)), Seq::<char>::empty())
        } else {
            (done, cur.push(s.last()))
        }
    }
}

/// The line without the carriage return at its end, if it has one.
pub open spec fn without_cr(line: Seq<char>) -> Seq<char> {
    if line.len() > 0 && line.last() == '\r' {
        line.drop_last()
    } else {
        line
    }
}

/// The lines of a text: it is split at each line feed, a carriage return
/// before a line feed belongs to the line ending, and a text that ends with
/// a line ending has no empty line after it.
pub open spec fn text_lines(s: Seq<char>) -> Seq<Seq<char>> {
    let (done, cur) = line_state(s);
    if cur.len() > 0 {
        done.push(cur)
    } else {
        done
    }
}

/// The views of a sequence of strings.
pub open spec fn views(items: Seq<String>) -> Seq<Seq<char>> {
    Seq::new(items.len(), |i: int| items[i]@)
}

/// Splits a text into its lines.
pub fn split_lines(s: &str) -> (v: Vec<String>)
    ensures
        views(v@) == text_lines(s@),
{
    let mut done: Vec<String> = Vec::new();
    let mut cur: String = String::new();
    let mut last: char = ' ';
    let mut any: bool = false;
    let ghost mut seen: Seq<char> = Seq::empty();
    for c in it: s.chars()
        invariant
            it.seq() == s@,
            seen == s@.subrange(0, it.index() as int),
            views(done@) == line_state(seen).0,
            cur@ == line_state(seen).1,
            any == (cur@.len() > 0),
            any ==> last == cur@.last(),
    {
        proof {
            let next = s@.subrange(0, it.index() + 1);
            assert(next.drop_last() =~= seen);
            assert(next.last() == c);
            seen = next;
        }
        if c == '\n' {
            let mut line = String::new();
            if any && last == '\r' {
                let n = cur.as_str().unicode_len();
                line = cur.as_str().substring_char(0, n - 1).to_owned();
                assert(line@ =~= without_cr(cur@));
            } else {
                line = cur;
            }
            let ghost before = done@;
            done.push(line);
            assert(views(done@) =~= views(before).push(line@));
            cur = String::new();
            any = false;
        } else {
            cur.push(c);
            last = c;
            any = true;
        }
    }
    assert(seen =~= s@);
    if any {
        let ghost before = done@;
        done.push(cur);
        assert(views(done@) =~= views(before).push(cur@));
    }
    done
}

/// True when `q` is the quote of the span from `start` to `end` of `data`,
/// with `lines_before` whole lines before it and `lines_after` after it: the
/// excerpt begins and ends at line boundaries, and is the text of those
/// bytes, malformed sequences replaced.
pub open spec fn is_quote_of(
    q: QuoteView,
    path: Option<Seq<char>>,
    data: Seq<u8>,
    start: Position,
    end: Position,
    lines_before: u32,
    lines_after: u32,
    message: Seq<char>,
) -> bool {
    let from = snippet_start(data, clamp(data, start.offset), lines_before as nat);
    let to = snippet_end(data, clamp(data, end.offset), lines_after as nat);
    &&& q.path == path
    &&& q.span == (Span { start, end })
    &&& q.offset == from
    &&& q.line == snippet_line(data, start, lines_before)
    &&& q.source == lossy_decode(data.subrange(from, to))
    &&& valid_utf8(data.subrange(from, to)) ==> q.source == decode_utf8(data.subrange(from, to))
    &&& q.message == message
}

/// What `Quote::new` asks of its arguments: the span does not end before it
/// begins, and the line of its start is not less than the number of lines
/// that are found before it.
pub open spec fn quotable(data: Seq<u8>, start: Position, end: Position, lines_before: u32) -> bool {
    &&& start.offset <= end.offset
    &&& lines(data.subrange(0, clamp(data, start.offset))) > lines_before ==> start.line >= lines_before
}

/// An excerpt of a source buffer around a span, with a message for the span.
#[derive(Debug, Clone)]
pub struct Quote {
    path: Option<String>,
    span: Span,
    offset: usize,
    line: u32,
    source: String,
    message: String,
}

/// What a quote holds.
pub struct QuoteView {
    /// The path of the source, if it is known.
    pub path: Option<Seq<char>>,
    /// The span that is quoted.
    pub span: Span,
    /// The byte offset at which the excerpt begins.
    pub offset: usize,
    /// The zero-based number of the line on which the excerpt begins.
    pub line: u32,
    /// The text of the excerpt.
    pub source: Seq<char>,
    /// The message for the span.
    pub message: Seq<char>,
}

impl QuoteView {
    /// The lines of the excerpt.
    pub open spec fn lines(self) -> Seq<Seq<char>> {
        text_lines(self.source)
    }

    /// Whether the lines are printed with their numbers: they are not where
    /// no path is known and the excerpt is the first line of the source alone.
    pub open spec fn numbered(self) -> bool {
        self.path is Some || self.line != 0 || self.lines().len() != 1
    }

    /// The width in which line numbers are printed: that of the number of
    /// the last line, and three at least.
    pub open spec fn width(self) -> nat {
        if self.numbered() {
            let digits = decimal((self.line + self.lines().len()) as nat).len();
            if digits > 3 {
                digits
            } else {
                3
            }
        } else {
            0
        }
    }

    /// The line that names the place of the span, where a path is known.
    pub open spec fn header(self) -> Seq<char> {
        match self.path {
            Some(p) => pad_left(" -->"@, self.width(), ' ') + seq![' '] + p + seq![':'] + self.span.start.spec_text()
                + seq!['\n'],
            None => Seq::<char>::empty(),
        }
    }

    /// The number of carets under the span.
    pub open spec fn carets(self) -> nat {
        if self.span.end.column > self.span.start.column {
            (self.span.end.column - self.span.start.column) as nat
        } else {
            0
        }
    }

    /// The row of carets under a line of the span, with the message.
    pub open spec fn caret_row(self) -> Seq<char> {
        (if self.numbered() {
            repeat(' ', self.width()) + "| "@
        } else {
            Seq::<char>::empty()
        }) + repeat(' ', self.span.start.column as nat) + repeat('^', self.carets()) + seq![' '] + self.message
            + seq!['\n']
    }

    /// Whether a row of carets stands under the line of index `k`: it does
    /// under the line on which the span begins and under that on which it ends.
    pub open spec fn marked(self, k: int) -> bool {
        self.line + k == self.span.start.line || self.line + k == self.span.end.line
    }

    /// The line of index `k` as it is printed, with the row of carets under
    /// it where it has one.
    pub open spec fn row(self, k: int) -> Seq<char> {
        (if self.numbered() {
            pad_left(decimal((self.line + k + 1) as nat), self.width(), ' ') + "| "@
        } else {
            Seq::<char>::empty()
        }) + self.lines()[k] + seq!['\n'] + if self.marked(k) {
            self.caret_row()
        } else {
            Seq::<char>::empty()
        }
    }

    /// The first `n` lines as they are printed.
    pub open spec fn rows(self, n: nat) -> Seq<char>
        decreases n,
    {
        if n == 0 {
            Seq::<char>::empty()
        } else {
            self.rows((n - 1) as nat) + self.row(n - 1)
        }
    }

    /// The quote as it is printed.
    pub open spec fn text(self) -> Seq<char> {
        self.header() + self.rows(self.lines().len())
    }
}

impl View for Quote {
    type V = QuoteView;

    closed spec fn view(&self) -> QuoteView {
        QuoteView {
            path: match self.path {
                Some(p) => Some(p@),
                None => None,
            },
            span: self.span,
            offset: self.offset,
            line: self.line,
            source: self.source@,
            message: self.message@,
        }
    }
}

impl Quote {
    /// The excerpt of `data` around the span from `start` to `end`, with
    /// `lines_before` whole lines before the line of `start` and
    /// `lines_after` after that of `end`. Offsets past the end of the buffer
    /// count as its end.
    pub fn new(
        path: Option<&str>,
        data: &[u8],
        start: Position,
        end: Position,
        lines_before: u32,
        lines_after: u32,
        message: &str,
    ) -> (q: Quote)
        requires
            quotable(data@, start, end, lines_before),
        ensures
            is_quote_of(
                q@,
                match path {
                    Some(p) => Some(p@),
                    None => None,
                },
                data@,
                start,
                end,
                lines_before,
                lines_after,
                message@,
            ),
    {
        let n = data.len();
        let from: usize = if start.offset <= n {
            start.offset
        } else {
            n
        };
        let to: usize = if end.offset <= n {
            end.offset
        } else {
            n
        };
        let mut line: u32 = 0;
        let mut off1: usize = 0;
        let mut count: u32 = 0;
        let mut at: usize = from;
        proof {
            assert(data@.subrange(0, from as int).subrange(0, from as int) =~= data@.subrange(0, from as int));
        }
        while at > 0
            invariant_except_break
                count <= lines_before,
                off1 == 0,
                line == 0,
                snippet_start(data@, from as int, lines_before as nat) == snippet_start(
                    data@,
                    at as int,
                    (lines_before - count) as nat,
                ),
                lines(data@.subrange(0, from as int)) == lines(data@.subrange(0, at as int)) + count,
            invariant
                at <= from <= n,
                n == data@.len(),
                lines(data@.subrange(0, from as int)) > lines_before ==> start.line >= lines_before,
            ensures
                off1 == snippet_start(data@, from as int, lines_before as nat),
                line == if lines(data@.subrange(0, from as int)) > lines_before {
                    start.line - lines_before
                } else {
                    0
                },
            decreases at,
        {
            proof {
                let s = data@.subrange(0, at as int);
                assert(s.drop_last() =~= data@.subrange(0, at - 1));
                assert(s.last() == data@[at - 1]);
            }
            if data[at - 1] == 0x0A {
                if count < lines_before {
                    count = count + 1;
                } else {
                    off1 = at;
                    line = start.line - lines_before;
                    break ;
                }
            }
            at = at - 1;
        }
        let mut off2: usize = n;
        let mut count: u32 = 0;
        let mut at: usize = to;
        while at < n
            invariant_except_break
                count <= lines_after,
                off2 == n,
                snippet_end(data@, to as int, lines_after as nat) == snippet_end(
                    data@,
                    at as int,
                    (lines_after - count) as nat,
                ),
            invariant
                to <= at <= n,
                n == data@.len(),
            ensures
                off2 == snippet_end(data@, to as int, lines_after as nat),
            decreases n - at,
        {
            if data[at] == 0x0A {
                if count < lines_after {
                    count = count + 1;
                } else {
                    off2 = at;
                    break ;
                }
            }
            at = at + 1;
        }
        proof {
            lemma_snippet_bounds(data@, from as int, lines_before as nat);
            lemma_snippet_bounds(data@, to as int, lines_after as nat);
        }
        let source = lossy_text(vstd::slice::slice_subrange(data, off1, off2));
        Quote {
            path: match path {
                Some(p) => Some(p.to_owned()),
                None => None,
            },
            span: Span::with_pos(start, end),
            offset: off1,
            line,
            source,
            message: message.to_owned(),
        }
    }

    pub fn start(&self) -> (p: Position)
        ensures
            p == self@.span.start,
    {
        self.span.start
    }

    pub fn end(&self) -> (p: Position)
        ensures
            p == self@.span.end,
    {
        self.span.end
    }

    pub fn span(&self) -> (s: Span)
        ensures
            s == self@.span,
    {
        self.span
    }

    pub fn message(&self) -> (m: &str)
        ensures
            m@ == self@.message,
    {
        self.message.as_str()
    }

    pub fn offset(&self) -> (o: usize)
        ensures
            o == self@.offset,
    {
        self.offset
    }

    pub fn line(&self) -> (l: u32)
        ensures
            l == self@.line,
    {
        self.line
    }

    pub fn source(&self) -> (s: &str)
        ensures
            s@ == self@.source,
    {
        self.source.as_str()
    }

    /// Appends the row of carets, with the message.
    fn write_caret_row(&self, out: &mut String, width: usize, numbered: bool)
        requires
            width == self@.width(),
            numbered == self@.numbered(),
        ensures
            final(out)@ == old(out)@ + self@.caret_row(),
    {
        let carets: usize = if self.span.end.column > self.span.start.column {
            (self.span.end.column - self.span.start.column) as usize
        } else {
            0
        };
        if numbered {
            push_repeat(out, ' ', width);
            out.push_str("| ");
        }
        let ghost gutter = out@;
        assert(gutter =~= old(out)@ + if numbered {
            repeat(' ', width as nat) + "| "@
        } else {
            Seq::<char>::empty()
        });
        push_repeat(out, ' ', self.span.start.column as usize);
        push_repeat(out, '^', carets);
        out.push(' ');
        out.push_str(self.message.as_str());
        out.push('\n');
        assert(out@ =~= gutter + repeat(' ', self.span.start.column as nat) + repeat('^', carets as nat) + seq![' ']
            + self.message@ + seq!['\n']);
        assert(out@ =~= old(out)@ + self@.caret_row());
    }

    /// Appends the line of index `k` as it is printed.
    fn write_row(&self, out: &mut String, lines: &Vec<String>, k: usize, width: usize, numbered: bool)
        requires
            k < lines@.len(),
            self@.lines() == views(lines@),
            width == self@.width(),
            numbered == self@.numbered(),
        ensures
            final(out)@ == old(out)@ + self@.row(k as int),
    {
        if numbered {
            push_padded_decimal(out, self.line as u128 + k as u128 + 1, width, ' ');
            out.push_str("| ");
        }
        let ghost gutter = out@;
        assert(gutter =~= old(out)@ + if numbered {
            pad_left(decimal((self.line + k + 1) as nat), width as nat, ' ') + "| "@
        } else {
            Seq::<char>::empty()
        });
        out.push_str(lines[k].as_str());
        out.push('\n');
        let ghost body = out@;
        assert(lines@[k as int]@ == self@.lines()[k as int]);
        assert(body =~= gutter + self@.lines()[k as int] + seq!['\n']);
        let ln: u128 = self.line as u128 + k as u128;
        if ln == self.span.start.line as u128 || ln == self.span.end.line as u128 {
            self.write_caret_row(out, width, numbered);
        }
        assert(out@ =~= body + if self@.marked(k as int) {
            self@.caret_row()
        } else {
            Seq::<char>::empty()
        });
        assert(out@ =~= old(out)@ + self@.row(k as int));
    }

    /// Appends the line that names the place of the span.
    fn write_header(&self, out: &mut String, width: usize)
        requires
            width == self@.width(),
        ensures
            final(out)@ == old(out)@ + self@.header(),
    {
        match &self.path {
            Some(p) => {
                proof {
                    reveal_strlit(" -->");
                }
                if width > 4 {
                    push_repeat(out, ' ', width - 4);
                }
                out.push_str(" -->");
                let ghost arrow = out@;
                assert(arrow =~= old(out)@ + pad_left(" -->"@, width as nat, ' '));
                out.push(' ');
                out.push_str(p.as_str());
                out.push(':');
                self.span.start.write_to(out);
                out.push('\n');
                assert(out@ =~= arrow + seq![' '] + p@ + seq![':'] + self.span.start.spec_text() + seq!['\n']);
            },
            None => {},
        }
        assert(out@ =~= old(out)@ + self@.header());
    }

    /// Appends the quote, as it is printed, to `out`.
    pub fn write_to(&self, out: &mut String)
        ensures
            final(out)@ == old(out)@ + self@.text(),
    {
        let lines = split_lines(self.source.as_str());
        let n = lines.len();
        let numbered = self.path.is_some() || self.line != 0 || n != 1;
        let mut width: usize = 0;
        if numbered {
            width = decimal_len(self.line as u128 + n as u128);
            if width < 3 {
                width = 3;
            }
        }
        assert(self@.lines() == views(lines@));
        self.write_header(out, width);
        let ghost head = out@;
        let mut k: usize = 0;
        assert(out@ =~= head + self@.rows(0));
        while k < n
            invariant
                k <= n,
                n == lines@.len(),
                self@.lines() == views(lines@),
                width == self@.width(),
                numbered == self@.numbered(),
                out@ == head + self@.rows(k as nat),
            decreases n - k,
        {
            self.write_row(out, &lines, k, width, numbered);
            proof {
                assert(self@.rows((k + 1) as nat) == self@.rows(k as nat) + self@.row(k as int));
                assert(out@ =~= head + self@.rows((k + 1) as nat));
            }
            k = k + 1;
        }
        assert(out@ =~= old(out)@ + self@.text());
    }

    pub fn to_string(&self) -> (s: String)
        ensures
            s@ == self@.text(),
    {
        let mut s = String::new();
        self.write_to(&mut s);
        assert(s@ =~= self@.text());
        s
    }
}

} // verus!
