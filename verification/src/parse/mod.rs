//! Errors of parsing, and the recogniser and converter of numeric literals.

use vstd::prelude::*;

pub mod convert;
pub mod error;
pub mod laws;
pub mod num;
pub mod numerical;

pub use self::error::{Expected, Input, NumericalErrorKind, ParseErrorDetail};
pub use self::num::{
    BinaryConfig, Case, DecimalConfig, HexConfig, Notation, Number, NumberParser, OctalConfig, Sign,
};
pub use self::numerical::Numerical;

verus! {

pub type ParseResult<T> = Result<T, ParseErrorDetail>;

} // verus!
