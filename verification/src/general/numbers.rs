//! Numeric capability traits.
//!
//! [`Integer`] is what the algorithms of this library ask of a numeric type: a
//! mathematical value, a bounded range, the ring operations with truncating
//! division, a total order, and a multiplication that reports overflow instead
//! of wrapping. The sibling module `machine_words` implements it for the
//! primitive types.
use vstd::prelude::*;

verus! {

/// The quotient of `a` by `b` rounded toward zero, as machine division gives
/// it. It is stated over the quotient of specifications, which rounds the
/// other way for a negative dividend.
pub open spec fn truncated_quotient(a: int, b: int) -> int {
    if a >= 0 {
        a / b
    } else {
        -((-a) / b)
    }
}

/// Remainder that goes with [`truncated_quotient`]: it carries the sign of `a`.
pub open spec fn truncated_remainder(a: int, b: int) -> int {
    if a >= 0 {
        a % b
    } else {
        -((-a) % b)
    }
}

/// Absolute value.
pub open spec fn magnitude(a: int) -> int {
    if a >= 0 {
        a
    } else {
        -a
    }
}

/// A truncated quotient is no larger in magnitude than its dividend, has the
/// sign that the two operands give it, and is at most half the dividend when
/// the divisor is neither one nor minus one.
pub proof fn lemma_truncated_quotient_range(a: int, b: int)
    requires
        b != 0,
    ensures
        magnitude(truncated_quotient(a, b)) <= magnitude(a),
        (a >= 0 && b > 0) || (a <= 0 && b < 0) ==> truncated_quotient(a, b) >= 0,
        (a >= 0 && b < 0) || (a <= 0 && b > 0) ==> truncated_quotient(a, b) <= 0,
        b != 1 && b != -1 ==> 2 * magnitude(truncated_quotient(a, b)) <= magnitude(a),
{
    let m = magnitude(a);
    assert(-m <= m / b <= m && (b > 0 ==> m / b >= 0) && (b < 0 ==> m / b <= 0) && (b != 1 && b
        != -1 ==> -m <= 2 * (m / b) <= m)) by (nonlinear_arith)
        requires
            m >= 0,
            b != 0,
    ;
}

/// Any numeric kind: a plain value that is copied freely.
pub trait Number: Sized + Copy {

}

/// A fixed-width integer of at most 64 bits, signed or unsigned.
///
/// Every operation is stated over [`Integer::value`]. An operation whose exact
/// result may not fit asks the caller to show that it does; `checked_mul` is the
/// one that tests for it at run time.
pub trait Integer: Number {
    /// The mathematical integer that this machine value stands for.
    spec fn value(self) -> int;

    /// The least value of the type.
    spec fn lowest() -> int;

    /// The greatest value of the type.
    spec fn highest() -> int;

    /// Every value lies in the range of its type.
    proof fn lemma_in_range(self)
        ensures
            Self::lowest() <= self.value() <= Self::highest(),
    ;

    /// The range is that of a machine word: unsigned or two's complement, at
    /// least seven and at most sixty-four value bits.
    proof fn lemma_word_range()
        ensures
            Self::lowest() == 0 || Self::lowest() == -Self::highest() - 1,
            127 <= Self::highest() <= u64::MAX,
    ;

    /// Two machine values that stand for the same integer are the same value.
    proof fn lemma_value_identifies(self, other: Self)
        ensures
            self.value() == other.value() ==> self == other,
    ;

    /// The additive identity.
    fn zero() -> (r: Self)
        ensures
            r.value() == 0,
    ;

    /// The multiplicative identity.
    fn one() -> (r: Self)
        ensures
            r.value() == 1,
    ;

    /// The greatest value of the type.
    fn max_value() -> (r: Self)
        ensures
            r.value() == Self::highest(),
    ;

    /// The value, widened to 128 bits.
    fn to_i128(self) -> (r: i128)
        ensures
            r == self.value(),
    ;

    /// `self == rhs`.
    fn is_equal(self, rhs: Self) -> (r: bool)
        ensures
            r == (self.value() == rhs.value()),
    ;

    /// `self < rhs`.
    fn is_less(self, rhs: Self) -> (r: bool)
        ensures
            r == (self.value() < rhs.value()),
    ;

    /// `self <= rhs`.
    fn is_at_most(self, rhs: Self) -> (r: bool)
        ensures
            r == (self.value() <= rhs.value()),
    ;

    /// `self + rhs`, for a sum that fits.
    fn plus(self, rhs: Self) -> (r: Self)
        requires
            Self::lowest() <= self.value() + rhs.value() <= Self::highest(),
        ensures
            r.value() == self.value() + rhs.value(),
    ;

    /// `self - rhs`, for a difference that fits.
    fn minus(self, rhs: Self) -> (r: Self)
        requires
            Self::lowest() <= self.value() - rhs.value() <= Self::highest(),
        ensures
            r.value() == self.value() - rhs.value(),
    ;

    /// `self * rhs`, for a product that fits.
    fn times(self, rhs: Self) -> (r: Self)
        requires
            Self::lowest() <= self.value() * rhs.value() <= Self::highest(),
        ensures
            r.value() == self.value() * rhs.value(),
    ;

    /// `self / rhs`, rounded toward zero. The divisor is not zero, and the
    /// quotient is not that of the least value by minus one.
    fn quotient(self, rhs: Self) -> (r: Self)
        requires
            rhs.value() != 0,
            !(self.value() == -Self::highest() - 1 && rhs.value() == -1),
        ensures
            r.value() == truncated_quotient(self.value(), rhs.value()),
    ;

    /// `self % rhs`, with the sign of `self`. Same conditions as `quotient`.
    fn remainder(self, rhs: Self) -> (r: Self)
        requires
            rhs.value() != 0,
            !(self.value() == -Self::highest() - 1 && rhs.value() == -1),
        ensures
            r.value() == truncated_remainder(self.value(), rhs.value()),
    ;

    /// `self * rhs` when the product fits, `None` when it does not.
    fn checked_mul(self, rhs: Self) -> (r: Option<Self>)
        ensures
            match r {
                Some(p) => p.value() == self.value() * rhs.value(),
                None => !(Self::lowest() <= self.value() * rhs.value() <= Self::highest()),
            },
    ;
}

/// The integers that a sequence of machine values stands for.
pub open spec fn values<T: Integer>(s: Seq<T>) -> Seq<int> {
    s.map_values(|v: T| v.value())
}

/// A numeric kind with a partial order and no bounded range. No algorithm of
/// this library is written against it.
pub trait Float: Number {

}

} // verus!
