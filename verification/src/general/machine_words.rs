//! [`Integer`] for the primitive machine words: the signed and the unsigned
//! types of 8, 16, 32 and 64 bits, `isize` and `usize`.
//!
//! Each operation is the primitive one; what is proved is that it meets the
//! statement that the trait makes over mathematical integers.
use crate::general::numbers::{lemma_truncated_quotient_range, Integer, Number};
use vstd::prelude::*;

verus! {

impl Number for i8 {

}

impl Integer for i8 {
    open spec fn value(self) -> int {
        self as int
    }

    open spec fn lowest() -> int {
        i8::MIN as int
    }

    open spec fn highest() -> int {
        i8::MAX as int
    }

    proof fn lemma_in_range(self) {
    }

    proof fn lemma_word_range() {
    }

    proof fn lemma_value_identifies(self, other: Self) {
    }

    fn zero() -> Self {
        0
    }

    fn one() -> Self {
        1
    }

    fn max_value() -> Self {
        i8::MAX
    }

    fn to_i128(self) -> i128 {
        self as i128
    }

    fn is_equal(self, rhs: Self) -> bool {
        self == rhs
    }

    fn is_less(self, rhs: Self) -> bool {
        self < rhs
    }

    fn is_at_most(self, rhs: Self) -> bool {
        self <= rhs
    }

    fn plus(self, rhs: Self) -> Self {
        self + rhs
    }

    fn minus(self, rhs: Self) -> Self {
        self - rhs
    }

    fn times(self, rhs: Self) -> Self {
        self * rhs
    }

    fn quotient(self, rhs: Self) -> Self {
        proof {
            lemma_truncated_quotient_range(self as int, rhs as int);
        }
        self / rhs
    }

    fn remainder(self, rhs: Self) -> Self {
        self % rhs
    }

    fn checked_mul(self, rhs: Self) -> Option<Self> {
        self.checked_mul(rhs)
    }
}

impl Number for i16 {

}

impl Integer for i16 {
    open spec fn value(self) -> int {
        self as int
    }

    open spec fn lowest() -> int {
        i16::MIN as int
    }

    open spec fn highest() -> int {
        i16::MAX as int
    }

    proof fn lemma_in_range(self) {
    }

    proof fn lemma_word_range() {
    }

    proof fn lemma_value_identifies(self, other: Self) {
    }

    fn zero() -> Self {
        0
    }

    fn one() -> Self {
        1
    }

    fn max_value() -> Self {
        i16::MAX
    }

    fn to_i128(self) -> i128 {
        self as i128
    }

    fn is_equal(self, rhs: Self) -> bool {
        self == rhs
    }

    fn is_less(self, rhs: Self) -> bool {
        self < rhs
    }

    fn is_at_most(self, rhs: Self) -> bool {
        self <= rhs
    }

    fn plus(self, rhs: Self) -> Self {
        self + rhs
    }

    fn minus(self, rhs: Self) -> Self {
        self - rhs
    }

    fn times(self, rhs: Self) -> Self {
        self * rhs
    }

    fn quotient(self, rhs: Self) -> Self {
        proof {
            lemma_truncated_quotient_range(self as int, rhs as int);
        }
        self / rhs
    }

    fn remainder(self, rhs: Self) -> Self {
        self % rhs
    }

    fn checked_mul(self, rhs: Self) -> Option<Self> {
        self.checked_mul(rhs)
    }
}

impl Number for i32 {

}

impl Integer for i32 {
    open spec fn value(self) -> int {
        self as int
    }

    open spec fn lowest() -> int {
        i32::MIN as int
    }

    open spec fn highest() -> int {
        i32::MAX as int
    }

    proof fn lemma_in_range(self) {
    }

    proof fn lemma_word_range() {
    }

    proof fn lemma_value_identifies(self, other: Self) {
    }

    fn zero() -> Self {
        0
    }

    fn one() -> Self {
        1
    }

    fn max_value() -> Self {
        i32::MAX
    }

    fn to_i128(self) -> i128 {
        self as i128
    }

    fn is_equal(self, rhs: Self) -> bool {
        self == rhs
    }

    fn is_less(self, rhs: Self) -> bool {
        self < rhs
    }

    fn is_at_most(self, rhs: Self) -> bool {
        self <= rhs
    }

    fn plus(self, rhs: Self) -> Self {
        self + rhs
    }

    fn minus(self, rhs: Self) -> Self {
        self - rhs
    }

    fn times(self, rhs: Self) -> Self {
        self * rhs
    }

    fn quotient(self, rhs: Self) -> Self {
        proof {
            lemma_truncated_quotient_range(self as int, rhs as int);
        }
        self / rhs
    }

    fn remainder(self, rhs: Self) -> Self {
        self % rhs
    }

    fn checked_mul(self, rhs: Self) -> Option<Self> {
        self.checked_mul(rhs)
    }
}

impl Number for i64 {

}

impl Integer for i64 {
    open spec fn value(self) -> int {
        self as int
    }

    open spec fn lowest() -> int {
        i64::MIN as int
    }

    open spec fn highest() -> int {
        i64::MAX as int
    }

    proof fn lemma_in_range(self) {
    }

    proof fn lemma_word_range() {
    }

    proof fn lemma_value_identifies(self, other: Self) {
    }

    fn zero() -> Self {
        0
    }

    fn one() -> Self {
        1
    }

    fn max_value() -> Self {
        i64::MAX
    }

    fn to_i128(self) -> i128 {
        self as i128
    }

    fn is_equal(self, rhs: Self) -> bool {
        self == rhs
    }

    fn is_less(self, rhs: Self) -> bool {
        self < rhs
    }

    fn is_at_most(self, rhs: Self) -> bool {
        self <= rhs
    }

    fn plus(self, rhs: Self) -> Self {
        self + rhs
    }

    fn minus(self, rhs: Self) -> Self {
        self - rhs
    }

    fn times(self, rhs: Self) -> Self {
        self * rhs
    }

    fn quotient(self, rhs: Self) -> Self {
        proof {
            lemma_truncated_quotient_range(self as int, rhs as int);
        }
        self / rhs
    }

    fn remainder(self, rhs: Self) -> Self {
        self % rhs
    }

    fn checked_mul(self, rhs: Self) -> Option<Self> {
        self.checked_mul(rhs)
    }
}

impl Number for isize {

}

impl Integer for isize {
    open spec fn value(self) -> int {
        self as int
    }

    open spec fn lowest() -> int {
        isize::MIN as int
    }

    open spec fn highest() -> int {
        isize::MAX as int
    }

    proof fn lemma_in_range(self) {
    }

    proof fn lemma_word_range() {
    }

    proof fn lemma_value_identifies(self, other: Self) {
    }

    fn zero() -> Self {
        0
    }

    fn one() -> Self {
        1
    }

    fn max_value() -> Self {
        isize::MAX
    }

    fn to_i128(self) -> i128 {
        self as i128
    }

    fn is_equal(self, rhs: Self) -> bool {
        self == rhs
    }

    fn is_less(self, rhs: Self) -> bool {
        self < rhs
    }

    fn is_at_most(self, rhs: Self) -> bool {
        self <= rhs
    }

    fn plus(self, rhs: Self) -> Self {
        self + rhs
    }

    fn minus(self, rhs: Self) -> Self {
        self - rhs
    }

    fn times(self, rhs: Self) -> Self {
        self * rhs
    }

    fn quotient(self, rhs: Self) -> Self {
        proof {
            lemma_truncated_quotient_range(self as int, rhs as int);
        }
        self / rhs
    }

    fn remainder(self, rhs: Self) -> Self {
        self % rhs
    }

    fn checked_mul(self, rhs: Self) -> Option<Self> {
        self.checked_mul(rhs)
    }
}

impl Number for u8 {

}

impl Integer for u8 {
    open spec fn value(self) -> int {
        self as int
    }

    open spec fn lowest() -> int {
        0
    }

    open spec fn highest() -> int {
        u8::MAX as int
    }

    proof fn lemma_in_range(self) {
    }

    proof fn lemma_word_range() {
    }

    proof fn lemma_value_identifies(self, other: Self) {
    }

    fn zero() -> Self {
        0
    }

    fn one() -> Self {
        1
    }

    fn max_value() -> Self {
        u8::MAX
    }

    fn to_i128(self) -> i128 {
        self as i128
    }

    fn is_equal(self, rhs: Self) -> bool {
        self == rhs
    }

    fn is_less(self, rhs: Self) -> bool {
        self < rhs
    }

    fn is_at_most(self, rhs: Self) -> bool {
        self <= rhs
    }

    fn plus(self, rhs: Self) -> Self {
        self + rhs
    }

    fn minus(self, rhs: Self) -> Self {
        self - rhs
    }

    fn times(self, rhs: Self) -> Self {
        self * rhs
    }

    fn quotient(self, rhs: Self) -> Self {
        proof {
            lemma_truncated_quotient_range(self as int, rhs as int);
        }
        self / rhs
    }

    fn remainder(self, rhs: Self) -> Self {
        self % rhs
    }

    fn checked_mul(self, rhs: Self) -> Option<Self> {
        self.checked_mul(rhs)
    }
}

impl Number for u16 {

}

impl Integer for u16 {
    open spec fn value(self) -> int {
        self as int
    }

    open spec fn lowest() -> int {
        0
    }

    open spec fn highest() -> int {
        u16::MAX as int
    }

    proof fn lemma_in_range(self) {
    }

    proof fn lemma_word_range() {
    }

    proof fn lemma_value_identifies(self, other: Self) {
    }

    fn zero() -> Self {
        0
    }

    fn one() -> Self {
        1
    }

    fn max_value() -> Self {
        u16::MAX
    }

    fn to_i128(self) -> i128 {
        self as i128
    }

    fn is_equal(self, rhs: Self) -> bool {
        self == rhs
    }

    fn is_less(self, rhs: Self) -> bool {
        self < rhs
    }

    fn is_at_most(self, rhs: Self) -> bool {
        self <= rhs
    }

    fn plus(self, rhs: Self) -> Self {
        self + rhs
    }

    fn minus(self, rhs: Self) -> Self {
        self - rhs
    }

    fn times(self, rhs: Self) -> Self {
        self * rhs
    }

    fn quotient(self, rhs: Self) -> Self {
        proof {
            lemma_truncated_quotient_range(self as int, rhs as int);
        }
        self / rhs
    }

    fn remainder(self, rhs: Self) -> Self {
        self % rhs
    }

    fn checked_mul(self, rhs: Self) -> Option<Self> {
        self.checked_mul(rhs)
    }
}

impl Number for u32 {

}

impl Integer for u32 {
    open spec fn value(self) -> int {
        self as int
    }

    open spec fn lowest() -> int {
        0
    }

    open spec fn highest() -> int {
        u32::MAX as int
    }

    proof fn lemma_in_range(self) {
    }

    proof fn lemma_word_range() {
    }

    proof fn lemma_value_identifies(self, other: Self) {
    }

    fn zero() -> Self {
        0
    }

    fn one() -> Self {
        1
    }

    fn max_value() -> Self {
        u32::MAX
    }

    fn to_i128(self) -> i128 {
        self as i128
    }

    fn is_equal(self, rhs: Self) -> bool {
        self == rhs
    }

    fn is_less(self, rhs: Self) -> bool {
        self < rhs
    }

    fn is_at_most(self, rhs: Self) -> bool {
        self <= rhs
    }

    fn plus(self, rhs: Self) -> Self {
        self + rhs
    }

    fn minus(self, rhs: Self) -> Self {
        self - rhs
    }

    fn times(self, rhs: Self) -> Self {
        self * rhs
    }

    fn quotient(self, rhs: Self) -> Self {
        proof {
            lemma_truncated_quotient_range(self as int, rhs as int);
        }
        self / rhs
    }

    fn remainder(self, rhs: Self) -> Self {
        self % rhs
    }

    fn checked_mul(self, rhs: Self) -> Option<Self> {
        self.checked_mul(rhs)
    }
}

impl Number for u64 {

}

impl Integer for u64 {
    open spec fn value(self) -> int {
        self as int
    }

    open spec fn lowest() -> int {
        0
    }

    open spec fn highest() -> int {
        u64::MAX as int
    }

    proof fn lemma_in_range(self) {
    }

    proof fn lemma_word_range() {
    }

    proof fn lemma_value_identifies(self, other: Self) {
    }

    fn zero() -> Self {
        0
    }

    fn one() -> Self {
        1
    }

    fn max_value() -> Self {
        u64::MAX
    }

    fn to_i128(self) -> i128 {
        self as i128
    }

    fn is_equal(self, rhs: Self) -> bool {
        self == rhs
    }

    fn is_less(self, rhs: Self) -> bool {
        self < rhs
    }

    fn is_at_most(self, rhs: Self) -> bool {
        self <= rhs
    }

    fn plus(self, rhs: Self) -> Self {
        self + rhs
    }

    fn minus(self, rhs: Self) -> Self {
        self - rhs
    }

    fn times(self, rhs: Self) -> Self {
        self * rhs
    }

    fn quotient(self, rhs: Self) -> Self {
        proof {
            lemma_truncated_quotient_range(self as int, rhs as int);
        }
        self / rhs
    }

    fn remainder(self, rhs: Self) -> Self {
        self % rhs
    }

    fn checked_mul(self, rhs: Self) -> Option<Self> {
        self.checked_mul(rhs)
    }
}

impl Number for usize {

}

impl Integer for usize {
    open spec fn value(self) -> int {
        self as int
    }

    open spec fn lowest() -> int {
        0
    }

    open spec fn highest() -> int {
        usize::MAX as int
    }

    proof fn lemma_in_range(self) {
    }

    proof fn lemma_word_range() {
    }

    proof fn lemma_value_identifies(self, other: Self) {
    }

    fn zero() -> Self {
        0
    }

    fn one() -> Self {
        1
    }

    fn max_value() -> Self {
        usize::MAX
    }

    fn to_i128(self) -> i128 {
        self as i128
    }

    fn is_equal(self, rhs: Self) -> bool {
        self == rhs
    }

    fn is_less(self, rhs: Self) -> bool {
        self < rhs
    }

    fn is_at_most(self, rhs: Self) -> bool {
        self <= rhs
    }

    fn plus(self, rhs: Self) -> Self {
        self + rhs
    }

    fn minus(self, rhs: Self) -> Self {
        self - rhs
    }

    fn times(self, rhs: Self) -> Self {
        self * rhs
    }

    fn quotient(self, rhs: Self) -> Self {
        proof {
            lemma_truncated_quotient_range(self as int, rhs as int);
        }
        self / rhs
    }

    fn remainder(self, rhs: Self) -> Self {
        self % rhs
    }

    fn checked_mul(self, rhs: Self) -> Option<Self> {
        self.checked_mul(rhs)
    }
}

} // verus!
