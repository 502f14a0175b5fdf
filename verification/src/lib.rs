//! Diagnostics and parsing substrate: position-tracking readers over in-memory
//! buffers, diagnostic records with source quotes, and a configurable
//! recogniser and converter for numeric literals.

pub mod detail;
pub mod diag;
pub mod io;
pub mod multi;
pub mod parse;
pub mod stacktrace;
pub mod table;
pub mod text;

pub use crate::detail::{Detail, Severity};
pub use crate::diag::{into_diag_res, map_err_as_cause, BasicDiag, Diag, DiagRecord, ParseDiag, SimpleDiag};
pub use crate::multi::{Diags, Errors};
pub use crate::stacktrace::Stacktrace;
pub use crate::io::{
    ByteReader, CharReader, FileBuffer, FileType, IoErrorDetail, IoResult, LexTerm, LexToken, MemByteReader,
    MemCharReader, OpType, Position, Quote, Reader, Span,
};
