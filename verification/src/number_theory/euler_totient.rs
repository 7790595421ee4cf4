//! Euler's totient, by counting.
use crate::general::numbers::Integer;
use crate::number_theory::divisibility::{
    divides, is_prime, lemma_divides_multiple, lemma_divisor_at_most,
};
use crate::number_theory::gcd::{lemma_remainder_descent_is_gcd, remainder_descent};
use crate::number_theory::primality::Primality;
use vstd::prelude::*;

verus! {

/// How many of the numbers from one up to, and not including, `below` are
/// coprime to `n`: have one as their greatest common divisor with it.
pub open spec fn coprime_count(n: int, below: int) -> int
    decreases below,
{
    if below <= 1 {
        0
    } else if remainder_descent(n, below - 1) == 1 {
        coprime_count(n, below - 1) + 1
    } else {
        coprime_count(n, below - 1)
    }
}

/// The totient of `n` as this library counts it: the numbers in `[1, n)`
/// coprime to `n`. (For one that is none.)
pub open spec fn totient_of(n: int) -> int {
    coprime_count(n, n)
}

/// The count is not negative and below the bound.
pub proof fn lemma_coprime_count_range(n: int, below: int)
    ensures
        0 <= coprime_count(n, below),
        below >= 1 ==> coprime_count(n, below) < below,
    decreases below,
{
    if below > 1 {
        lemma_coprime_count_range(n, below - 1);
    }
}

/// Everything below a prime is coprime to it.
pub proof fn lemma_prime_coprime_count(n: int, below: int)
    requires
        is_prime(n),
        1 <= below <= n,
    ensures
        coprime_count(n, below) == below - 1,
    decreases below,
{
    if below > 1 {
        lemma_prime_coprime_count(n, below - 1);
        let i = below - 1;
        let g = remainder_descent(n, i);
        lemma_remainder_descent_is_gcd(n, i);
        // g divides i, so it is positive and at most i; it divides n, so it is one
        assert(divides(i, i)) by {
            lemma_divides_multiple(i, 1);
        }
        if g == 0 {
            // everything would divide i, and i + 1 does not
            lemma_divides_multiple(i + 1, 0);
            assert(divides(i + 1, g));
            assert(divides(i + 1, i));
            lemma_divisor_at_most(i + 1, i);
        } else {
            lemma_divides_multiple(g, 1);
            assert(divides(g, g));
            assert(divides(g, n) && divides(g, i));
            lemma_divisor_at_most(g, i);
        }
    }
}

/// For a prime the totient is its predecessor.
pub proof fn lemma_totient_of_prime(n: int)
    requires
        is_prime(n),
    ensures
        totient_of(n) == n - 1,
{
    lemma_prime_coprime_count(n, n);
}

/// Euler's totient function.
pub trait EulerTotient<T: Integer>: Integer {
    /// The count of the numbers in `[1, self)` that are coprime to `self`.
    fn euler_totient(self) -> (count: T)
        ensures
            count.value() == totient_of(self.value()),
    ;

    /// The same count, found at once for a prime.
    fn primality_checked_euler_totient(self) -> (count: T)
        ensures
            count.value() == totient_of(self.value()),
    ;
}

impl<T: Integer> EulerTotient<T> for T {
    fn euler_totient(self) -> (count: T) {
        let one = T::one();
        let mut count = T::zero();
        let mut i = one;
        proof {
            T::lemma_word_range();
            self.lemma_in_range();
        }
        while i.is_less(self)
            invariant
                one.value() == 1,
                1 <= i.value(),
                i.value() <= self.value() || i.value() == 1,
                count.value() == coprime_count(self.value(), i.value()),
                self.value() <= T::highest(),
                127 <= T::highest(),
                T::lowest() <= 0,
            decreases self.value() - i.value(),
        {
            proof {
                lemma_coprime_count_range(self.value(), i.value());
            }
            if self.relative_primality(i) {
                count = count.plus(one);
            }
            i = i.plus(one);
        }
        count
    }

    fn primality_checked_euler_totient(self) -> (count: T) {
        let one = T::one();
        if self.primality() {
            proof {
                T::lemma_word_range();
                self.lemma_in_range();
                lemma_totient_of_prime(self.value());
            }
            self.minus(one)
        } else {
            self.euler_totient()
        }
    }
}

} // verus!
