//! Parity of an integer.
use crate::general::numbers::Integer;
use crate::number_theory::divisibility::lemma_truncated_division;
use vstd::prelude::*;

verus! {

/// The two parities.
#[derive(Debug, Clone, Copy, PartialEq, Eq, Structural)]
pub enum NumParity {
    Even,
    Odd,
}

/// Parity checks.
pub trait Parity<T: Integer>: Integer {
    /// Even or odd.
    fn parity(self) -> (p: NumParity)
        ensures
            p == if self.value() % 2 == 0 {
                NumParity::Even
            } else {
                NumParity::Odd
            },
    ;

    /// Whether two does not divide `self`.
    fn is_odd(self) -> (r: bool)
        ensures
            r == (self.value() % 2 != 0),
    ;

    /// Whether two divides `self`.
    fn is_even(self) -> (r: bool)
        ensures
            r == (self.value() % 2 == 0),
    ;
}

impl<T: Integer> Parity<T> for T {
    fn parity(self) -> (p: NumParity) {
        if Parity::is_even(self) {
            NumParity::Even
        } else {
            NumParity::Odd
        }
    }

    fn is_odd(self) -> (r: bool) {
        proof {
            T::lemma_word_range();
            lemma_truncated_division(self.value(), 2);
        }
        let two = T::one().plus(T::one());
        !self.remainder(two).is_equal(T::zero())
    }

    fn is_even(self) -> (r: bool) {
        proof {
            T::lemma_word_range();
            lemma_truncated_division(self.value(), 2);
        }
        let two = T::one().plus(T::one());
        self.remainder(two).is_equal(T::zero())
    }
}

} // verus!
