//! The modulus operation of this library.
//!
//! It is the literal formula `(a rem b) + b`, with the truncated remainder. For
//! a positive modulus the result is congruent to `a` and lies in `(0, 2b)`: in
//! `[b, 2b)` for an `a` that is not negative, in `(0, b]` for a negative one. It
//! is therefore not reduced to `[0, b)`; the Wilson test is written against
//! exactly this form.
use crate::general::numbers::{truncated_remainder, Integer};
use crate::number_theory::divisibility::{
    divides, lemma_divides_multiple, lemma_truncated_division,
};
use vstd::prelude::*;

verus! {

/// `(a rem b) + b`, for the truncated remainder.
pub open spec fn modulus_of(a: int, b: int) -> int {
    truncated_remainder(a, b) + b
}

/// For a positive modulus the result is positive, below twice the modulus,
/// and congruent to the operand.
pub proof fn lemma_modulus_range(a: int, b: int)
    requires
        b > 0,
    ensures
        0 < modulus_of(a, b) < 2 * b,
        a >= 0 ==> b <= modulus_of(a, b),
        a < 0 ==> modulus_of(a, b) <= b,
        divides(b, modulus_of(a, b) - a),
{
    lemma_truncated_division(a, b);
    let q = crate::general::numbers::truncated_quotient(a, b);
    lemma_divides_multiple(b, 1 - q);
    assert(modulus_of(a, b) - a == b * (1 - q)) by (nonlinear_arith)
        requires
            a == b * q + truncated_remainder(a, b),
            modulus_of(a, b) == truncated_remainder(a, b) + b,
    ;
}

/// The modulus operation.
pub trait Modulus<T: Integer>: Integer {
    /// `(self rem b) + b`. The modulus is not zero, the remainder is not that
    /// of the least value by minus one, and the sum fits the type.
    fn modulus(self, b: T) -> (r: T)
        requires
            b.value() != 0,
            !(self.value() == -T::highest() - 1 && b.value() == -1),
            T::lowest() <= modulus_of(self.value(), b.value()) <= T::highest(),
        ensures
            r.value() == modulus_of(self.value(), b.value()),
    ;
}

impl<T: Integer> Modulus<T> for T {
    fn modulus(self, b: T) -> (r: T) {
        self.remainder(b).plus(b)
    }
}

/// `(a rem b) + b` on machine words, under the conditions of
/// [`Modulus::modulus`].
pub fn modulo(a: isize, b: isize) -> (r: isize)
    requires
        b != 0,
        !(a == isize::MIN && b == -1),
        isize::MIN <= modulus_of(a as int, b as int) <= isize::MAX,
    ensures
        r == modulus_of(a as int, b as int),
{
    Modulus::modulus(a, b)
}

} // verus!
