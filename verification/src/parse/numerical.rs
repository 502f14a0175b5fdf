//! The numeric types that a number literal can be converted to.

use vstd::prelude::*;

verus! {

/// Whether `v` is no less than `min` and no greater than `max`.
pub open spec fn within(v: int, min: int, max: int) -> bool {
    min <= v <= max
}

/// A type of numbers that a literal can be converted to: it has the digits
/// as values, and sums, differences and the products by the radices that
/// fail where the result is out of its range.
pub trait Numerical: Copy {
    /// The number that a value of the type stands for.
    spec fn value(self) -> int;

    /// The least number of the type.
    spec fn min_value() -> int;

    /// The greatest number of the type.
    spec fn max_value() -> int;

    /// The type holds zero and every digit.
    proof fn lemma_range()
        ensures
            Self::min_value() <= 0,
            15 <= Self::max_value(),
    ;

    /// A value stands for a number of the range of the type.
    proof fn lemma_value(self)
        ensures
            Self::min_value() <= self.value() <= Self::max_value(),
    ;

    /// The value of a small number.
    fn from_u8(d: u8) -> (n: Self)
        ensures
            d <= Self::max_value() ==> n.value() == d,
    ;

    /// The sum, if it is in the range of the type.
    fn add(a: Self, b: Self) -> (r: Option<Self>)
        ensures
            within(a.value() + b.value(), Self::min_value(), Self::max_value()) ==> (r matches Some(n) && n.value()
                == a.value() + b.value()),
            !within(a.value() + b.value(), Self::min_value(), Self::max_value()) ==> r is None,
    ;

    /// The difference, if it is in the range of the type.
    fn sub(a: Self, b: Self) -> (r: Option<Self>)
        ensures
            within(a.value() - b.value(), Self::min_value(), Self::max_value()) ==> (r matches Some(n) && n.value()
                == a.value() - b.value()),
            !within(a.value() - b.value(), Self::min_value(), Self::max_value()) ==> r is None,
    ;

    /// Twice the value, if that is in the range of the type.
    fn mul2(a: Self) -> (r: Option<Self>)
        ensures
            within(2 * a.value(), Self::min_value(), Self::max_value()) ==> (r matches Some(n) && n.value()
                == 2 * a.value()),
            !within(2 * a.value(), Self::min_value(), Self::max_value()) ==> r is None,
    ;

    /// Eight times the value, if that is in the range of the type.
    fn mul8(a: Self) -> (r: Option<Self>)
        ensures
            within(8 * a.value(), Self::min_value(), Self::max_value()) ==> (r matches Some(n) && n.value()
                == 8 * a.value()),
            !within(8 * a.value(), Self::min_value(), Self::max_value()) ==> r is None,
    ;

    /// Ten times the value, if that is in the range of the type.
    fn mul10(a: Self) -> (r: Option<Self>)
        ensures
            within(10 * a.value(), Self::min_value(), Self::max_value()) ==> (r matches Some(n) && n.value()
                == 10 * a.value()),
            !within(10 * a.value(), Self::min_value(), Self::max_value()) ==> r is None,
    ;

    /// Sixteen times the value, if that is in the range of the type.
    fn mul16(a: Self) -> (r: Option<Self>)
        ensures
            within(16 * a.value(), Self::min_value(), Self::max_value()) ==> (r matches Some(n) && n.value()
                == 16 * a.value()),
            !within(16 * a.value(), Self::min_value(), Self::max_value()) ==> r is None,
    ;
}

/// Whether the number is in the range of the type.
pub open spec fn in_range<N: Numerical>(v: int) -> bool {
    within(v, N::min_value(), N::max_value())
}

impl Numerical for u8 {
    open spec fn value(self) -> int {
        self as int
    }

    open spec fn min_value() -> int {
        u8::MIN as int
    }

    open spec fn max_value() -> int {
        u8::MAX as int
    }

    proof fn lemma_range() {
    }

    proof fn lemma_value(self) {
    }

    fn from_u8(d: u8) -> (n: Self) {
        d as u8
    }

    fn add(a: Self, b: Self) -> (r: Option<Self>) {
        a.checked_add(b)
    }

    fn sub(a: Self, b: Self) -> (r: Option<Self>) {
        a.checked_sub(b)
    }

    fn mul2(a: Self) -> (r: Option<Self>) {
        a.checked_mul(2)
    }

    fn mul8(a: Self) -> (r: Option<Self>) {
        a.checked_mul(8)
    }

    fn mul10(a: Self) -> (r: Option<Self>) {
        a.checked_mul(10)
    }

    fn mul16(a: Self) -> (r: Option<Self>) {
        a.checked_mul(16)
    }
}

impl Numerical for i8 {
    open spec fn value(self) -> int {
        self as int
    }

    open spec fn min_value() -> int {
        i8::MIN as int
    }

    open spec fn max_value() -> int {
        i8::MAX as int
    }

    proof fn lemma_range() {
    }

    proof fn lemma_value(self) {
    }

    fn from_u8(d: u8) -> (n: Self) {
        if d <= 127 {
            d as i8
        } else {
            0
        }
    }

    fn add(a: Self, b: Self) -> (r: Option<Self>) {
        a.checked_add(b)
    }

    fn sub(a: Self, b: Self) -> (r: Option<Self>) {
        a.checked_sub(b)
    }

    fn mul2(a: Self) -> (r: Option<Self>) {
        a.checked_mul(2)
    }

    fn mul8(a: Self) -> (r: Option<Self>) {
        a.checked_mul(8)
    }

    fn mul10(a: Self) -> (r: Option<Self>) {
        a.checked_mul(10)
    }

    fn mul16(a: Self) -> (r: Option<Self>) {
        a.checked_mul(16)
    }
}

impl Numerical for u16 {
    open spec fn value(self) -> int {
        self as int
    }

    open spec fn min_value() -> int {
        u16::MIN as int
    }

    open spec fn max_value() -> int {
        u16::MAX as int
    }

    proof fn lemma_range() {
    }

    proof fn lemma_value(self) {
    }

    fn from_u8(d: u8) -> (n: Self) {
        d as u16
    }

    fn add(a: Self, b: Self) -> (r: Option<Self>) {
        a.checked_add(b)
    }

    fn sub(a: Self, b: Self) -> (r: Option<Self>) {
        a.checked_sub(b)
    }

    fn mul2(a: Self) -> (r: Option<Self>) {
        a.checked_mul(2)
    }

    fn mul8(a: Self) -> (r: Option<Self>) {
        a.checked_mul(8)
    }

    fn mul10(a: Self) -> (r: Option<Self>) {
        a.checked_mul(10)
    }

    fn mul16(a: Self) -> (r: Option<Self>) {
        a.checked_mul(16)
    }
}

impl Numerical for i16 {
    open spec fn value(self) -> int {
        self as int
    }

    open spec fn min_value() -> int {
        i16::MIN as int
    }

    open spec fn max_value() -> int {
        i16::MAX as int
    }

    proof fn lemma_range() {
    }

    proof fn lemma_value(self) {
    }

    fn from_u8(d: u8) -> (n: Self) {
        d as i16
    }

    fn add(a: Self, b: Self) -> (r: Option<Self>) {
        a.checked_add(b)
    }

    fn sub(a: Self, b: Self) -> (r: Option<Self>) {
        a.checked_sub(b)
    }

    fn mul2(a: Self) -> (r: Option<Self>) {
        a.checked_mul(2)
    }

    fn mul8(a: Self) -> (r: Option<Self>) {
        a.checked_mul(8)
    }

    fn mul10(a: Self) -> (r: Option<Self>) {
        a.checked_mul(10)
    }

    fn mul16(a: Self) -> (r: Option<Self>) {
        a.checked_mul(16)
    }
}

impl Numerical for u32 {
    open spec fn value(self) -> int {
        self as int
    }

    open spec fn min_value() -> int {
        u32::MIN as int
    }

    open spec fn max_value() -> int {
        u32::MAX as int
    }

    proof fn lemma_range() {
    }

    proof fn lemma_value(self) {
    }

    fn from_u8(d: u8) -> (n: Self) {
        d as u32
    }

    fn add(a: Self, b: Self) -> (r: Option<Self>) {
        a.checked_add(b)
    }

    fn sub(a: Self, b: Self) -> (r: Option<Self>) {
        a.checked_sub(b)
    }

    fn mul2(a: Self) -> (r: Option<Self>) {
        a.checked_mul(2)
    }

    fn mul8(a: Self) -> (r: Option<Self>) {
        a.checked_mul(8)
    }

    fn mul10(a: Self) -> (r: Option<Self>) {
        a.checked_mul(10)
    }

    fn mul16(a: Self) -> (r: Option<Self>) {
        a.checked_mul(16)
    }
}

impl Numerical for i32 {
    open spec fn value(self) -> int {
        self as int
    }

    open spec fn min_value() -> int {
        i32::MIN as int
    }

    open spec fn max_value() -> int {
        i32::MAX as int
    }

    proof fn lemma_range() {
    }

    proof fn lemma_value(self) {
    }

    fn from_u8(d: u8) -> (n: Self) {
        d as i32
    }

    fn add(a: Self, b: Self) -> (r: Option<Self>) {
        a.checked_add(b)
    }

    fn sub(a: Self, b: Self) -> (r: Option<Self>) {
        a.checked_sub(b)
    }

    fn mul2(a: Self) -> (r: Option<Self>) {
        a.checked_mul(2)
    }

    fn mul8(a: Self) -> (r: Option<Self>) {
        a.checked_mul(8)
    }

    fn mul10(a: Self) -> (r: Option<Self>) {
        a.checked_mul(10)
    }

    fn mul16(a: Self) -> (r: Option<Self>) {
        a.checked_mul(16)
    }
}

impl Numerical for u64 {
    open spec fn value(self) -> int {
        self as int
    }

    open spec fn min_value() -> int {
        u64::MIN as int
    }

    open spec fn max_value() -> int {
        u64::MAX as int
    }

    proof fn lemma_range() {
    }

    proof fn lemma_value(self) {
    }

    fn from_u8(d: u8) -> (n: Self) {
        d as u64
    }

    fn add(a: Self, b: Self) -> (r: Option<Self>) {
        a.checked_add(b)
    }

    fn sub(a: Self, b: Self) -> (r: Option<Self>) {
        a.checked_sub(b)
    }

    fn mul2(a: Self) -> (r: Option<Self>) {
        a.checked_mul(2)
    }

    fn mul8(a: Self) -> (r: Option<Self>) {
        a.checked_mul(8)
    }

    fn mul10(a: Self) -> (r: Option<Self>) {
        a.checked_mul(10)
    }

    fn mul16(a: Self) -> (r: Option<Self>) {
        a.checked_mul(16)
    }
}

impl Numerical for i64 {
    open spec fn value(self) -> int {
        self as int
    }

    open spec fn min_value() -> int {
        i64::MIN as int
    }

    open spec fn max_value() -> int {
        i64::MAX as int
    }

    proof fn lemma_range() {
    }

    proof fn lemma_value(self) {
    }

    fn from_u8(d: u8) -> (n: Self) {
        d as i64
    }

    fn add(a: Self, b: Self) -> (r: Option<Self>) {
        a.checked_add(b)
    }

    fn sub(a: Self, b: Self) -> (r: Option<Self>) {
        a.checked_sub(b)
    }

    fn mul2(a: Self) -> (r: Option<Self>) {
        a.checked_mul(2)
    }

    fn mul8(a: Self) -> (r: Option<Self>) {
        a.checked_mul(8)
    }

    fn mul10(a: Self) -> (r: Option<Self>) {
        a.checked_mul(10)
    }

    fn mul16(a: Self) -> (r: Option<Self>) {
        a.checked_mul(16)
    }
}

impl Numerical for u128 {
    open spec fn value(self) -> int {
        self as int
    }

    open spec fn min_value() -> int {
        u128::MIN as int
    }

    open spec fn max_value() -> int {
        u128::MAX as int
    }

    proof fn lemma_range() {
    }

    proof fn lemma_value(self) {
    }

    fn from_u8(d: u8) -> (n: Self) {
        d as u128
    }

    fn add(a: Self, b: Self) -> (r: Option<Self>) {
        a.checked_add(b)
    }

    fn sub(a: Self, b: Self) -> (r: Option<Self>) {
        a.checked_sub(b)
    }

    fn mul2(a: Self) -> (r: Option<Self>) {
        a.checked_mul(2)
    }

    fn mul8(a: Self) -> (r: Option<Self>) {
        a.checked_mul(8)
    }

    fn mul10(a: Self) -> (r: Option<Self>) {
        a.checked_mul(10)
    }

    fn mul16(a: Self) -> (r: Option<Self>) {
        a.checked_mul(16)
    }
}

impl Numerical for i128 {
    open spec fn value(self) -> int {
        self as int
    }

    open spec fn min_value() -> int {
        i128::MIN as int
    }

    open spec fn max_value() -> int {
        i128::MAX as int
    }

    proof fn lemma_range() {
    }

    proof fn lemma_value(self) {
    }

    fn from_u8(d: u8) -> (n: Self) {
        d as i128
    }

    fn add(a: Self, b: Self) -> (r: Option<Self>) {
        a.checked_add(b)
    }

    fn sub(a: Self, b: Self) -> (r: Option<Self>) {
        a.checked_sub(b)
    }

    fn mul2(a: Self) -> (r: Option<Self>) {
        a.checked_mul(2)
    }

    fn mul8(a: Self) -> (r: Option<Self>) {
        a.checked_mul(8)
    }

    fn mul10(a: Self) -> (r: Option<Self>) {
        a.checked_mul(10)
    }

    fn mul16(a: Self) -> (r: Option<Self>) {
        a.checked_mul(16)
    }
}

impl Numerical for usize {
    open spec fn value(self) -> int {
        self as int
    }

    open spec fn min_value() -> int {
        usize::MIN as int
    }

    open spec fn max_value() -> int {
        usize::MAX as int
    }

    proof fn lemma_range() {
    }

    proof fn lemma_value(self) {
    }

    fn from_u8(d: u8) -> (n: Self) {
        d as usize
    }

    fn add(a: Self, b: Self) -> (r: Option<Self>) {
        a.checked_add(b)
    }

    fn sub(a: Self, b: Self) -> (r: Option<Self>) {
        a.checked_sub(b)
    }

    fn mul2(a: Self) -> (r: Option<Self>) {
        a.checked_mul(2)
    }

    fn mul8(a: Self) -> (r: Option<Self>) {
        a.checked_mul(8)
    }

    fn mul10(a: Self) -> (r: Option<Self>) {
        a.checked_mul(10)
    }

    fn mul16(a: Self) -> (r: Option<Self>) {
        a.checked_mul(16)
    }
}

impl Numerical for isize {
    open spec fn value(self) -> int {
        self as int
    }

    open spec fn min_value() -> int {
        isize::MIN as int
    }

    open spec fn max_value() -> int {
        isize::MAX as int
    }

    proof fn lemma_range() {
    }

    proof fn lemma_value(self) {
    }

    fn from_u8(d: u8) -> (n: Self) {
        d as isize
    }

    fn add(a: Self, b: Self) -> (r: Option<Self>) {
        a.checked_add(b)
    }

    fn sub(a: Self, b: Self) -> (r: Option<Self>) {
        a.checked_sub(b)
    }

    fn mul2(a: Self) -> (r: Option<Self>) {
        a.checked_mul(2)
    }

    fn mul8(a: Self) -> (r: Option<Self>) {
        a.checked_mul(8)
    }

    fn mul10(a: Self) -> (r: Option<Self>) {
        a.checked_mul(10)
    }

    fn mul16(a: Self) -> (r: Option<Self>) {
        a.checked_mul(16)
    }
}

} // verus!
