//! Captured call stacks, as diagnostics carry them.

use vstd::prelude::*;
use vstd::string::StringSliceAdditionalSpecFns;
use crate::io::reader::{bytes_at, starts_with_at};

verus! {

/// A captured call stack, held as the text that it is printed as.
#[derive(Debug, Clone)]
pub struct Stacktrace {
    text: String,
}

impl View for Stacktrace {
    type V = Seq<char>;

    closed spec fn view(&self) -> Seq<char> {
        self.text@
    }
}

impl Stacktrace {
    /// The call stack that is printed as `text`.
    pub fn from_text(text: String) -> (s: Stacktrace)
        ensures
            s@ == text@,
    {
        Stacktrace { text }
    }

    /// The text that the call stack is printed as.
    pub fn as_str(&self) -> (s: &str)
        ensures
            s@ == self@,
    {
        self.text.as_str()
    }

    pub fn to_string(&self) -> (s: String)
        ensures
            s@ == self@,
    {
        self.text.clone()
    }
}

/// What is known of a function that a frame of a call stack is in.
#[derive(Debug, Clone)]
pub struct SymbolInfo {
    /// The name of the function.
    pub name: Option<String>,
    /// The file that the function is defined in.
    pub filename: Option<String>,
}

/// What is known of a frame of a call stack: the functions that it is in.
#[derive(Debug, Clone)]
pub struct FrameInfo {
    pub symbols: Vec<SymbolInfo>,
}

/// Whether a function of the frame is defined in the file.
pub open spec fn in_file(frame: FrameInfo, file: Seq<char>) -> bool {
    exists|j: int| 0 <= j < frame.symbols@.len() && symbol_in_file(#[trigger] frame.symbols@[j], file)
}

/// Whether the function is defined in the file.
pub open spec fn symbol_in_file(symbol: SymbolInfo, file: Seq<char>) -> bool {
    symbol.filename matches Some(f) && f@ == file
}

/// Whether the name of the function begins with the bytes.
pub open spec fn named_with(symbol: SymbolInfo, prefix: Seq<u8>) -> bool {
    symbol.name matches Some(n) && bytes_at(vstd::utf8::encode_utf8(n@), 0, prefix)
}

/// The index of the first function of the frame, from index `j` on, whose
/// name begins with one of the two texts; the number of functions where
/// there is none.
pub open spec fn marker_at(frame: FrameInfo, start: Seq<u8>, test: Seq<u8>, j: int) -> int
    decreases frame.symbols@.len() - j,
{
    if j < 0 || j >= frame.symbols@.len() {
        frame.symbols@.len() as int
    } else if named_with(frame.symbols@[j], start) || named_with(frame.symbols@[j], test) {
        j
    } else {
        marker_at(frame, start, test, j + 1)
    }
}

/// The index of the last frame of the first run of frames in the file, from
/// index `i` on; `found` tells whether a frame of the run came before `i`.
/// Nothing where no frame is in the file.
pub open spec fn run_end(frames: Seq<FrameInfo>, file: Seq<char>, i: int, found: Option<int>) -> Option<int>
    decreases frames.len() - i,
{
    if i < 0 || i >= frames.len() {
        found
    } else if in_file(frames[i], file) {
        run_end(frames, file, i + 1, Some(i))
    } else if found is Some {
        found
    } else {
        run_end(frames, file, i + 1, found)
    }
}

/// The index of the first frame, from index `i` on, that has a function
/// whose name begins with one of the two texts; the number of frames where
/// there is none.
pub open spec fn marked_frame(frames: Seq<FrameInfo>, start: Seq<u8>, test: Seq<u8>, i: int) -> int
    decreases frames.len() - i,
{
    if i < 0 || i >= frames.len() {
        frames.len() as int
    } else if marker_at(frames[i], start, test, 0) < frames[i].symbols@.len() {
        i
    } else {
        marked_frame(frames, start, test, i + 1)
    }
}

/// The frames of a captured call stack that belong to the program: those
/// after the frames of the capturing itself, which are in `file`, and after
/// `skip` more, up to the frame that started the program or, in a test, up to
/// the frame before the one that started the test. The result is the range
/// of the indices of those frames; there is none where no frame is left.
pub open spec fn kept_frames(
    frames: Seq<FrameInfo>,
    file: Seq<char>,
    skip: usize,
    start: Seq<u8>,
    test: Seq<u8>,
) -> Option<(int, int)> {
    let lo = match run_end(frames, file, 0, None) {
        Some(i) => i + skip + 1,
        None => 0,
    };
    if lo > frames.len() {
        None
    } else {
        let m = marked_frame(frames, start, test, lo);
        let hi = if m >= frames.len() {
            frames.len() as int
        } else if named_with(frames[m].symbols@[marker_at(frames[m], start, test, 0)], start) {
            m
        } else {
            m - 1
        };
        if lo < hi {
            Some((lo, hi))
        } else {
            None
        }
    }
}

/// Whether a function of the frame is defined in the file.
fn frame_in_file(frame: &FrameInfo, file: &str) -> (r: bool)
    ensures
        r == in_file(*frame, file@),
{
    let mut j: usize = 0;
    while j < frame.symbols.len()
        invariant
            j <= frame.symbols@.len(),
            forall|k: int| 0 <= k < j ==> !symbol_in_file(#[trigger] frame.symbols@[k], file@),
        decreases frame.symbols@.len() - j,
    {
        match &frame.symbols[j].filename {
            Some(f) => {
                if same_text(f.as_str(), file) {
                    return true;
                }
            },
            None => {},
        }
        j = j + 1;
    }
    false
}

/// Whether two texts are the same.
fn same_text(a: &str, b: &str) -> (r: bool)
    ensures
        r == (a@ == b@),
{
    let x = a.as_bytes();
    let y = b.as_bytes();
    proof {
        vstd::utf8::encode_utf8_decode_utf8(a@);
        vstd::utf8::encode_utf8_decode_utf8(b@);
    }
    if x.len() != y.len() {
        return false;
    }
    let r = starts_with_at(x, 0, y);
    proof {
        assert(x@.subrange(0, x@.len() as int) =~= x@);
    }
    r
}

/// Whether the name of the function begins with the text.
fn name_begins(symbol: &SymbolInfo, prefix: &str) -> (r: bool)
    ensures
        r == named_with(*symbol, prefix.spec_bytes()),
{
    match &symbol.name {
        Some(n) => starts_with_at(n.as_str().as_bytes(), 0, prefix.as_bytes()),
        None => false,
    }
}

/// The index of the first function of the frame whose name begins with one
/// of the two texts, the number of functions where there is none.
fn find_marker(frame: &FrameInfo, start: &str, test: &str) -> (j: usize)
    ensures
        j == marker_at(*frame, start.spec_bytes(), test.spec_bytes(), 0),
        j <= frame.symbols@.len(),
{
    let mut j: usize = 0;
    while j < frame.symbols.len()
        invariant
            j <= frame.symbols@.len(),
            marker_at(*frame, start.spec_bytes(), test.spec_bytes(), 0) == marker_at(
                *frame,
                start.spec_bytes(),
                test.spec_bytes(),
                j as int,
            ),
        decreases frame.symbols@.len() - j,
    {
        if name_begins(&frame.symbols[j], start) || name_begins(&frame.symbols[j], test) {
            return j;
        }
        j = j + 1;
    }
    j
}

/// The range of the indices of the frames of a captured call stack that
/// belong to the program, as `kept_frames` describes it.
pub fn trim_frames(frames: &Vec<FrameInfo>, file: &str, skip: usize, start: &str, test: &str) -> (r: Option<
    (usize, usize),
>)
    ensures
        match kept_frames(frames@, file@, skip, start.spec_bytes(), test.spec_bytes()) {
            Some((lo, hi)) => r == Some((lo as usize, hi as usize)) && lo < hi <= frames@.len(),
            None => r is None,
        },
{
    let n = frames.len();
    let mut first: Option<usize> = None;
    let mut i: usize = 0;
    while i < n
        invariant
            i <= n,
            n == frames@.len(),
            first matches Some(k) ==> k < i,
            run_end(frames@, file@, 0, None) == run_end(
                frames@,
                file@,
                i as int,
                match first {
                    Some(k) => Some(k as int),
                    None => None,
                },
            ),
        ensures
            run_end(frames@, file@, 0, None) == match first {
                Some(k) => Some(k as int),
                None => None::<int>,
            },
            first matches Some(k) ==> k < n,
        decreases n - i,
    {
        if frame_in_file(&frames[i], file) {
            first = Some(i);
        } else if first.is_some() {
            break ;
        }
        i = i + 1;
    }
    let lo: usize = match first {
        Some(k) => {
            if skip >= n - k {
                return None;
            }
            k + skip + 1
        },
        None => 0,
    };
    let mut m: usize = lo;
    let mut hi: usize = n;
    while m < n
        invariant
            lo <= m <= n,
            n == frames@.len(),
            hi == n,
            marked_frame(frames@, start.spec_bytes(), test.spec_bytes(), lo as int) == marked_frame(
                frames@,
                start.spec_bytes(),
                test.spec_bytes(),
                m as int,
            ),
        ensures
            lo <= m <= n,
            m == marked_frame(frames@, start.spec_bytes(), test.spec_bytes(), lo as int),
            m < n ==> marker_at(frames@[m as int], start.spec_bytes(), test.spec_bytes(), 0)
                < frames@[m as int].symbols@.len(),
        decreases n - m,
    {
        let j = find_marker(&frames[m], start, test);
        if j < frames[m].symbols.len() {
            break ;
        }
        m = m + 1;
    }
    if m < n {
        let j = find_marker(&frames[m], start, test);
        if name_begins(&frames[m].symbols[j], start) {
            hi = m;
        } else {
            if m == 0 {
                return None;
            }
            hi = m - 1;
        }
    }
    if lo < hi {
        Some((lo, hi))
    } else {
        None
    }
}

} // verus!
