//! The numeric model that every processor in this crate is generic over.
//!
//! A sample type supplies a zero, a one and the four ring/field operations.
//! Each operation is described by a spec function of the type, so the
//! contracts of the processors can state exactly which expression (in which
//! order of evaluation) they compute, whatever the sample type is.
use vstd::prelude::*;

verus! {

/// Arithmetic needed by the filters: constants `0` and `1` and the
/// operations `+`, `-`, `*`, `/`, plus a conversion from a count.
///
/// The exec methods are tied to the spec functions by their contracts, so
/// every implementation is held to its own spec model.
pub trait Scalar: Copy + Sized {
    /// The additive identity.
    spec fn spec_zero() -> Self;

    /// The multiplicative identity.
    spec fn spec_one() -> Self;

    /// `self + rhs` in this type's arithmetic.
    spec fn spec_plus(self, rhs: Self) -> Self;

    /// `self - rhs` in this type's arithmetic.
    spec fn spec_minus(self, rhs: Self) -> Self;

    /// `self * rhs` in this type's arithmetic.
    spec fn spec_times(self, rhs: Self) -> Self;

    /// `self / rhs` in this type's arithmetic (total: every divisor gives
    /// some value).
    spec fn spec_divide(self, rhs: Self) -> Self;

    /// The value that stands for the count `n`, when the type has one.
    spec fn spec_from_count(n: usize) -> Option<Self>;

    fn zero() -> (r: Self)
        ensures
            r == Self::spec_zero(),
    ;

    fn one() -> (r: Self)
        ensures
            r == Self::spec_one(),
    ;

    fn plus(self, rhs: Self) -> (r: Self)
        ensures
            r == self.spec_plus(rhs),
    ;

    fn minus(self, rhs: Self) -> (r: Self)
        ensures
            r == self.spec_minus(rhs),
    ;

    fn times(self, rhs: Self) -> (r: Self)
        ensures
            r == self.spec_times(rhs),
    ;

    fn divide(self, rhs: Self) -> (r: Self)
        ensures
            r == self.spec_divide(rhs),
    ;

    fn from_count(n: usize) -> (r: Option<Self>)
        ensures
            r == Self::spec_from_count(n),
    ;

    /// Whether `self` is the zero value.
    fn is_zero(self) -> (r: bool)
        ensures
            r == (self == Self::spec_zero()),
    ;
}

/// Two's-complement 32-bit arithmetic: `+ - *` wrap modulo 2^32, `/`
/// truncates toward zero, and a zero divisor (or the one overflowing
/// quotient `MIN / -1`) yields `0`.
impl Scalar for i32 {
    open spec fn spec_zero() -> i32 {
        0
    }

    open spec fn spec_one() -> i32 {
        1
    }

    open spec fn spec_plus(self, rhs: i32) -> i32 {
        vstd::wrapping::i32_specs::wrapping_add(self, rhs)
    }

    open spec fn spec_minus(self, rhs: i32) -> i32 {
        vstd::wrapping::i32_specs::wrapping_sub(self, rhs)
    }

    open spec fn spec_times(self, rhs: i32) -> i32 {
        vstd::wrapping::i32_specs::wrapping_mul(self, rhs)
    }

    open spec fn spec_divide(self, rhs: i32) -> i32 {
        match self.checked_div(rhs) {
            Some(q) => q,
            None => 0,
        }
    }

    open spec fn spec_from_count(n: usize) -> Option<i32> {
        if n <= i32::MAX {
            Some(n as i32)
        } else {
            None
        }
    }

    fn zero() -> (r: i32) {
        0
    }

    fn one() -> (r: i32) {
        1
    }

    fn plus(self, rhs: i32) -> (r: i32) {
        self.wrapping_add(rhs)
    }

    fn minus(self, rhs: i32) -> (r: i32) {
        self.wrapping_sub(rhs)
    }

    fn times(self, rhs: i32) -> (r: i32) {
        self.wrapping_mul(rhs)
    }

    fn divide(self, rhs: i32) -> (r: i32) {
        match self.checked_div(rhs) {
            Some(q) => q,
            None => 0,
        }
    }

    fn is_zero(self) -> (r: bool) {
        self == 0
    }

    fn from_count(n: usize) -> (r: Option<i32>) {
        if n <= 2147483647usize {
            Some(n as i32)
        } else {
            None
        }
    }
}

/// Two's-complement 64-bit arithmetic, with the same conventions as the
/// 32-bit instance.
impl Scalar for i64 {
    open spec fn spec_zero() -> i64 {
        0
    }

    open spec fn spec_one() -> i64 {
        1
    }

    open spec fn spec_plus(self, rhs: i64) -> i64 {
        vstd::wrapping::i64_specs::wrapping_add(self, rhs)
    }

    open spec fn spec_minus(self, rhs: i64) -> i64 {
        vstd::wrapping::i64_specs::wrapping_sub(self, rhs)
    }

    open spec fn spec_times(self, rhs: i64) -> i64 {
        vstd::wrapping::i64_specs::wrapping_mul(self, rhs)
    }

    open spec fn spec_divide(self, rhs: i64) -> i64 {
        match self.checked_div(rhs) {
            Some(q) => q,
            None => 0,
        }
    }

    open spec fn spec_from_count(n: usize) -> Option<i64> {
        if n <= i64::MAX {
            Some(n as i64)
        } else {
            None
        }
    }

    fn zero() -> (r: i64) {
        0
    }

    fn one() -> (r: i64) {
        1
    }

    fn plus(self, rhs: i64) -> (r: i64) {
        self.wrapping_add(rhs)
    }

    fn minus(self, rhs: i64) -> (r: i64) {
        self.wrapping_sub(rhs)
    }

    fn times(self, rhs: i64) -> (r: i64) {
        self.wrapping_mul(rhs)
    }

    fn divide(self, rhs: i64) -> (r: i64) {
        match self.checked_div(rhs) {
            Some(q) => q,
            None => 0,
        }
    }

    fn is_zero(self) -> (r: bool) {
        self == 0
    }

    fn from_count(n: usize) -> (r: Option<i64>) {
        if (n as u64) <= 9223372036854775807u64 {
            Some(n as i64)
        } else {
            None
        }
    }
}

} // verus!
