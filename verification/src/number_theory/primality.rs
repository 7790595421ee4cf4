//! Primality by trial division, coprimality, and prime factorization.
use crate::general::errors::NumberTheoryErr;
use crate::general::numbers::{truncated_remainder, values, Integer};
use crate::number_theory::divisibility::{
    divides, is_greatest_common_divisor, is_prime, lemma_cofactor, lemma_divides_multiple,
    lemma_divisor_at_most, lemma_divisor_of_quotient, lemma_exact_division,
    lemma_least_divisor_is_prime, lemma_not_divided_by_multiple, lemma_prime_by_trial,
};
use crate::number_theory::factorial::{
    factorial_of, is_factorial_overflow, lemma_factorial_grows, lemma_factorial_table, Factorial,
};
use crate::number_theory::gcd::{remainder_descent, remainders_fit, Gcd};
use vstd::arithmetic::div_mod::lemma_fundamental_div_mod;
use vstd::prelude::*;

verus! {

/// The product of the members of a sequence; one for the empty sequence.
pub open spec fn product_of(s: Seq<int>) -> int
    decreases s.len(),
{
    if s.len() == 0 {
        1
    } else {
        s[0] * product_of(s.drop_first())
    }
}

/// `s` is a prime factorization of `n`: primes in non-decreasing order whose
/// product is `n`.
pub open spec fn is_prime_factorization(s: Seq<int>, n: int) -> bool {
    &&& product_of(s) == n
    &&& forall|i: int| 0 <= i < s.len() ==> is_prime(#[trigger] s[i])
    &&& forall|i: int, j: int| 0 <= i <= j < s.len() ==> s[i] <= s[j]
}

/// The least divisor of `n` among the numbers from `from` on, for `from` at
/// least two; `n` itself where nothing below it divides it.
pub open spec fn least_divisor_from(n: int, from: int) -> int
    decreases n - from,
{
    if from <= 1 || from >= n {
        n
    } else if n % from == 0 {
        from
    } else {
        least_divisor_from(n, from + 1)
    }
}

/// The prime factors of `n` with multiplicity, least first: the least divisor
/// above one, then the prime factors of what is left when it is divided out.
/// A number below two has none.
pub open spec fn prime_factors_of(n: int) -> Seq<int>
    decreases n,
    via prime_factors_of_terminates
{
    if n <= 1 {
        Seq::empty()
    } else {
        seq![least_divisor_from(n, 2)] + prime_factors_of(n / least_divisor_from(n, 2))
    }
}

#[via_fn]
proof fn prime_factors_of_terminates(n: int) {
    if n > 1 {
        lemma_least_divisor_from(n, 2);
        lemma_cofactor(least_divisor_from(n, 2), n);
    }
}

/// What the search for the least divisor finds: a divisor of `n`, not below
/// `from`, below which nothing from `from` on divides `n`.
pub proof fn lemma_least_divisor_from(n: int, from: int)
    requires
        2 <= from <= n,
    ensures
        from <= least_divisor_from(n, from) <= n,
        divides(least_divisor_from(n, from), n),
        forall|d: int| from <= d < least_divisor_from(n, from) ==> !#[trigger] divides(d, n),
    decreases n - from,
{
    if from >= n {
        lemma_divides_multiple(n, 1);
    } else if n % from != 0 {
        lemma_least_divisor_from(n, from + 1);
    }
}

/// The least divisor above one, recognised: a divisor `x` of `n`, itself above
/// one, below which nothing but one divides `n`, is the one that the search
/// finds.
pub proof fn lemma_least_divisor_is(n: int, x: int)
    requires
        x >= 2,
        n >= 1,
        divides(x, n),
        forall|d: int| 1 < d < x ==> !#[trigger] divides(d, n),
    ensures
        least_divisor_from(n, 2) == x,
{
    lemma_divisor_at_most(x, n);
    lemma_least_divisor_from(n, 2);
}

/// The prime factors of a number that has a least divisor `x` above one: `x`,
/// then the prime factors of the quotient.
pub proof fn lemma_prime_factors_step(n: int, x: int)
    requires
        x >= 2,
        n >= 1,
        divides(x, n),
        forall|d: int| 1 < d < x ==> !#[trigger] divides(d, n),
    ensures
        prime_factors_of(n) == seq![x] + prime_factors_of(n / x),
{
    lemma_divisor_at_most(x, n);
    lemma_least_divisor_is(n, x);
}

/// What `prime_factors_of` lists is a prime factorization, and none of its
/// members is below `floor`, where nothing between one and `floor` divides `n`.
pub proof fn lemma_prime_factors_above(n: int, floor: int)
    requires
        n >= 1,
        forall|d: int| 1 < d < floor ==> !#[trigger] divides(d, n),
    ensures
        is_prime_factorization(prime_factors_of(n), n),
        forall|i: int|
            0 <= i < prime_factors_of(n).len() ==> floor <= #[trigger] prime_factors_of(n)[i],
    decreases n,
{
    if n > 1 {
        let p = least_divisor_from(n, 2);
        lemma_least_divisor_from(n, 2);
        lemma_least_divisor_is_prime(p, n);
        lemma_cofactor(p, n);
        let m = n / p;
        assert forall|d: int| 1 < d < p implies !#[trigger] divides(d, m) by {
            if divides(d, m) {
                lemma_divisor_of_quotient(d, p, n);
            }
        }
        lemma_prime_factors_above(m, p);
        let rest = prime_factors_of(m);
        let all = prime_factors_of(n);
        assert(all =~= seq![p] + rest);
        assert(all.drop_first() =~= rest);
        assert forall|i: int| 0 <= i < all.len() implies is_prime(#[trigger] all[i]) && floor
            <= all[i] by {
            if i > 0 {
                assert(all[i] == rest[i - 1]);
            }
        }
        assert forall|i: int, j: int| 0 <= i <= j < all.len() implies all[i] <= all[j] by {
            if i > 0 {
                assert(all[i] == rest[i - 1] && all[j] == rest[j - 1]);
            } else if j > 0 {
                assert(all[j] == rest[j - 1]);
            }
        }
    }
}

/// Every positive number is the product of its prime factors:
/// `prime_factors_of` lists primes, in non-decreasing order, that multiply
/// back to the number.
pub proof fn lemma_prime_factors(n: int)
    requires
        n >= 1,
    ensures
        is_prime_factorization(prime_factors_of(n), n),
{
    lemma_prime_factors_above(n, 2);
}

/// The test of Wilson's theorem, `(n - 1)! ≡ -1 (mod n)`, in the form in which
/// it is computed: with truncated remainders, both sides moved up by one.
pub open spec fn wilson_holds(n: int) -> bool {
    truncated_remainder(factorial_of(n - 1), n) + 2 == truncated_remainder(1, n) + n
}

/// Which numbers up to twenty-one are prime.
pub proof fn lemma_primes_to_twenty_one(n: int)
    requires
        n <= 21,
    ensures
        is_prime(n) <==> n == 2 || n == 3 || n == 5 || n == 7 || n == 11 || n == 13 || n == 17
            || n == 19,
{
    if n == 2 {
    } else if n == 3 {
        assert forall|d: int| 1 < d < 3 implies !#[trigger] divides(d, n) by {
            assert(d == 2);
        }
    } else if n == 5 || n == 7 || n == 11 || n == 13 || n == 17 || n == 19 {
        assert forall|d: int| 1 < d < 5 implies !#[trigger] divides(d, n) by {
            assert(d == 2 || d == 3 || d == 4);
        }
        lemma_prime_by_trial(n, 5);
    } else if n >= 4 {
        if n % 2 == 0 {
            assert(divides(2, n));
        } else {
            assert(n == 9 || n == 15 || n == 21);
            assert(divides(3, n));
        }
    }
}

/// What `(n - 1)!` leaves on division by `n`, for `n` up to twenty-one:
/// `n - 1` for the primes and for one, something else for the others.
proof fn lemma_wilson_remainders(n: int)
    requires
        1 <= n <= 21,
    ensures
        factorial_of(n - 1) % n == n - 1 <==> n == 1 || n == 2 || n == 3 || n == 5 || n == 7 || n
            == 11 || n == 13 || n == 17 || n == 19,
{
    lemma_factorial_table();
    if n == 1 {
        assert(factorial_of(0) == 1);
        assert(1int % 1 == 0);
    } else if n == 2 {
        assert(factorial_of(1) == 1);
        assert(1int % 2 == 1);
    } else if n == 3 {
        assert(factorial_of(2) == 2);
        assert(2int % 3 == 2);
    } else if n == 4 {
        assert(factorial_of(3) == 6);
        assert(6int % 4 == 2);
    } else if n == 5 {
        assert(factorial_of(4) == 24);
        assert(24int % 5 == 4);
    } else if n == 6 {
        assert(factorial_of(5) == 120);
        assert(120int % 6 == 0);
    } else if n == 7 {
        assert(factorial_of(6) == 720);
        assert(720int % 7 == 6);
    } else if n == 8 {
        assert(factorial_of(7) == 5040);
        assert(5040int % 8 == 0);
    } else if n == 9 {
        assert(factorial_of(8) == 40320);
        assert(40320int % 9 == 0);
    } else if n == 10 {
        assert(factorial_of(9) == 362880);
        assert(362880int % 10 == 0);
    } else if n == 11 {
        assert(factorial_of(10) == 3628800);
        assert(3628800int % 11 == 10);
    } else if n == 12 {
        assert(factorial_of(11) == 39916800);
        assert(39916800int % 12 == 0);
    } else if n == 13 {
        assert(factorial_of(12) == 479001600);
        assert(479001600int % 13 == 12);
    } else if n == 14 {
        assert(factorial_of(13) == 6227020800);
        assert(6227020800int % 14 == 0);
    } else if n == 15 {
        assert(factorial_of(14) == 87178291200);
        assert(87178291200int % 15 == 0);
    } else if n == 16 {
        assert(factorial_of(15) == 1307674368000);
        assert(1307674368000int % 16 == 0);
    } else if n == 17 {
        assert(factorial_of(16) == 20922789888000);
        assert(20922789888000int % 17 == 16);
    } else if n == 18 {
        assert(factorial_of(17) == 355687428096000);
        assert(355687428096000int % 18 == 0);
    } else if n == 19 {
        assert(factorial_of(18) == 6402373705728000);
        assert(6402373705728000int % 19 == 18);
    } else if n == 20 {
        assert(factorial_of(19) == 121645100408832000);
        assert(121645100408832000int % 20 == 0);
    } else if n == 21 {
        assert(factorial_of(20) == 2432902008176640000);
        assert(2432902008176640000int % 21 == 0);
    }
}

/// Wilson's theorem for every number whose test can be computed in 64 bits:
/// where `(n - 1)!` fits, the test holds of `n` exactly when `n` is prime.
pub proof fn lemma_wilson(n: int)
    requires
        n != 0,
        factorial_of(n - 1) <= u64::MAX,
    ensures
        wilson_holds(n) <==> is_prime(n),
{
    lemma_factorial_table();
    if n >= 22 {
        lemma_factorial_grows(21, n - 1);
    } else if n >= 1 {
        lemma_primes_to_twenty_one(n);
        lemma_wilson_remainders(n);
        lemma_factorial_grows(n - 1, n - 1);
        if n >= 2 {
            vstd::arithmetic::div_mod::lemma_small_mod(1, n as nat);
        }
    } else {
        assert(factorial_of(n - 1) == 1);
    }
}

/// Primality tests and prime factorization.
pub trait Primality<T: Integer>: Integer {
    /// Whether `self` is prime, by trial division with the candidates
    /// `6k - 1` and `6k + 1` up to the square root.
    fn primality(self) -> (r: bool)
        ensures
            r == is_prime(self.value()),
    ;

    /// Whether the descent by remainders on `self` and `other` ends in one. For
    /// operands that are not negative that is whether they are coprime.
    fn relative_primality(self, other: T) -> (r: bool)
        requires
            remainders_fit(self.value(), other.value(), T::highest()),
        ensures
            r == (remainder_descent(self.value(), other.value()) == 1),
            self.value() >= 0 && other.value() >= 0 ==> r == is_greatest_common_divisor(
                self.value(),
                other.value(),
                1,
            ),
    ;

    /// The prime factors of a positive number, with multiplicity, in
    /// non-decreasing order. One has none.
    fn prime_factorization(self) -> (factors: Vec<T>)
        requires
            self.value() >= 1,
        ensures
            values(factors@) == prime_factors_of(self.value()),
            is_prime_factorization(values(factors@), self.value()),
    ;
}

impl<T: Integer> Primality<T> for T {
    fn primality(self) -> (r: bool) {
        let zero = T::zero();
        let one = T::one();
        proof {
            T::lemma_word_range();
            self.lemma_in_range();
        }
        let two = one.plus(one);
        let three = two.plus(one);
        let six = three.plus(three);
        let ghost n = self.value();
        if self.is_at_most(three) {
            proof {
                if n == 3 {
                    assert forall|d: int| 1 < d < n implies !#[trigger] divides(d, n) by {
                        assert(d == 2);
                    }
                }
            }
            return one.is_less(self);
        } else if self.remainder(two).is_equal(zero) || self.remainder(three).is_equal(zero) {
            proof {
                if n % 2 == 0 {
                    assert(divides(2, n));
                } else {
                    assert(divides(3, n));
                }
            }
            return false;
        }
        let mut b = three.plus(two);
        proof {
            assert forall|d: int| 1 < d < 5 implies !#[trigger] divides(d, n) by {
                if d == 4 {
                    assert(divides(2, 4));
                    lemma_not_divided_by_multiple(2, 4, n);
                }
            }
        }
        while b.is_at_most(self.quotient(b))
            invariant
                n == self.value(),
                n > 3,
                two.value() == 2,
                six.value() == 6,
                zero.value() == 0,
                b.value() >= 5,
                b.value() % 6 == 5,
                b.value() <= n,
                forall|d: int| 1 < d < b.value() ==> !#[trigger] divides(d, n),
                T::lowest() <= 0,
                n <= T::highest(),
            decreases n - b.value(),
        {
            let ghost c = b.value();
            proof {
                lemma_fundamental_div_mod(n, c);
                // c * c <= n, so c + 6 <= n
                assert(c + 6 <= n) by (nonlinear_arith)
                    requires
                        c >= 5,
                        c <= n / c,
                        n == c * (n / c) + n % c,
                        0 <= n % c,
                ;
            }
            if self.remainder(b).is_equal(zero) || self.remainder(b.plus(two)).is_equal(zero) {
                proof {
                    if n % c == 0 {
                        assert(divides(c, n));
                    } else {
                        assert(divides(c + 2, n));
                    }
                }
                return false;
            }
            proof {
                assert forall|d: int| 1 < d < c + 6 implies !#[trigger] divides(d, n) by {
                    if d == c + 1 || d == c + 3 || d == c + 5 {
                        assert(divides(2, d));
                        lemma_not_divided_by_multiple(2, d, n);
                    } else if d == c + 4 {
                        assert(divides(3, d));
                        lemma_not_divided_by_multiple(3, d, n);
                    }
                }
            }
            b = b.plus(six);
        }
        proof {
            lemma_prime_by_trial(n, b.value());
        }
        true
    }

    fn relative_primality(self, other: T) -> (r: bool) {
        let g = self.gcd(other);
        proof {
            if self.value() >= 0 && other.value() >= 0 {
                if is_greatest_common_divisor(self.value(), other.value(), 1) {
                    crate::number_theory::gcd::lemma_gcd_unique(
                        self.value(),
                        other.value(),
                        1,
                        g.value(),
                    );
                }
            }
        }
        g.is_equal(T::one())
    }

    fn prime_factorization(self) -> (factors: Vec<T>) {
        let zero = T::zero();
        let one = T::one();
        proof {
            T::lemma_word_range();
            self.lemma_in_range();
            lemma_prime_factors(self.value());
        }
        let two = one.plus(one);
        let three = two.plus(one);
        let mut n = self;
        let mut output: Vec<T> = Vec::new();
        proof {
            assert(values(output@) + prime_factors_of(n.value()) =~= prime_factors_of(
                self.value(),
            ));
        }
        // while even, divide out 2
        while n.remainder(two).is_equal(zero)
            invariant
                n.value() >= 1,
                two.value() == 2,
                zero.value() == 0,
                values(output@) + prime_factors_of(n.value()) == prime_factors_of(self.value()),
                T::lowest() <= 0,
            decreases n.value(),
        {
            let ghost m = n.value();
            let ghost done = values(output@);
            proof {
                n.lemma_in_range();
                assert(divides(2, m));
                lemma_prime_factors_step(m, 2);
                assert(values(output@.push(two)) =~= done.push(2));
                assert(done.push(2) + prime_factors_of(m / 2) =~= done + prime_factors_of(m));
                lemma_cofactor(2, m);
            }
            output.push(two);
            n = n.quotient(two);
        }
        proof {
            assert forall|d: int| 1 < d < 3 implies !#[trigger] divides(d, n.value()) by {
                assert(d == 2);
            }
        }
        // odd trial divisors, up to the square root of what is left
        let mut x = three;
        while x.is_at_most(n.quotient(x))
            invariant
                n.value() >= 1,
                x.value() >= 3,
                x.value() % 2 == 1,
                two.value() == 2,
                zero.value() == 0,
                values(output@) + prime_factors_of(n.value()) == prime_factors_of(self.value()),
                forall|d: int| 1 < d < x.value() ==> !#[trigger] divides(d, n.value()),
                T::lowest() <= 0,
            decreases T::highest() - x.value(),
        {
            proof {
                n.lemma_in_range();
                lemma_fundamental_div_mod(n.value(), x.value());
                assert(x.value() + 2 <= n.value()) by (nonlinear_arith)
                    requires
                        x.value() >= 3,
                        x.value() <= n.value() / x.value(),
                        n.value() == x.value() * (n.value() / x.value()) + n.value() % x.value(),
                        0 <= n.value() % x.value(),
                ;
            }
            while n.remainder(x).is_equal(zero)
                invariant
                    n.value() >= 1,
                    x.value() >= 3,
                    x.value() + 2 <= T::highest(),
                    zero.value() == 0,
                    values(output@) + prime_factors_of(n.value()) == prime_factors_of(
                        self.value(),
                    ),
                    forall|d: int| 1 < d < x.value() ==> !#[trigger] divides(d, n.value()),
                    T::lowest() <= 0,
                decreases n.value(),
            {
                let ghost m = n.value();
                let ghost p = x.value();
                let ghost done = values(output@);
                proof {
                    n.lemma_in_range();
                    assert(divides(p, m));
                    lemma_prime_factors_step(m, p);
                    lemma_cofactor(p, m);
                    assert(values(output@.push(x)) =~= done.push(p));
                    assert(done.push(p) + prime_factors_of(m / p) =~= done + prime_factors_of(m));
                    assert forall|d: int| 1 < d < p implies !#[trigger] divides(d, m / p) by {
                        if divides(d, m / p) {
                            lemma_divisor_of_quotient(d, p, m);
                        }
                    }
                }
                output.push(x);
                n = n.quotient(x);
            }
            proof {
                let m = n.value();
                let p = x.value();
                assert forall|d: int| 1 < d < p + 2 implies !#[trigger] divides(d, m) by {
                    if d == p + 1 {
                        assert(divides(2, d));
                        assert(!divides(2, m));
                        lemma_not_divided_by_multiple(2, d, m);
                    }
                }
            }
            x = x.plus(two);
        }
        // what is left is one or a prime
        let ghost m = n.value();
        let ghost done = values(output@);
        if two.is_less(n) {
            proof {
                lemma_prime_by_trial(m, x.value());
                lemma_divides_multiple(m, 1);
                lemma_prime_factors_step(m, m);
                lemma_exact_division(m, 1);
                assert(values(output@.push(n)) =~= done.push(m));
                assert(done.push(m) =~= done + prime_factors_of(m));
            }
            output.push(n);
        } else {
            proof {
                if m == 2 {
                    lemma_divides_multiple(2, 1);
                    assert(divides(2, m));
                }
                assert(done =~= done + prime_factors_of(m));
            }
        }
        output
    }
}

/// Primality by Wilson's theorem. The factorial it needs outgrows every
/// machine word after a few steps: use [`Primality::primality`] for real work.
pub trait WilsonsPrimality<T: Integer>: Integer {
    /// Whether `(self - 1)! ≡ -1 (mod self)`, which is whether `self` is
    /// prime; an overflow error when `(self - 1)!` does not fit the type. The
    /// operand is not zero, and `self - 1` is a value of the type.
    fn wilson(self) -> (r: Result<bool, NumberTheoryErr>)
        requires
            self.value() != 0,
            self.value() > T::lowest(),
        ensures
            r is Ok <==> factorial_of(self.value() - 1) <= T::highest(),
            match r {
                Ok(b) => b == wilson_holds(self.value()) && b == is_prime(self.value()),
                Err(e) => is_factorial_overflow(e, self.value() - 1, T::highest()),
            },
    ;
}

impl<T: Integer> WilsonsPrimality<T> for T {
    fn wilson(self) -> (r: Result<bool, NumberTheoryErr>) {
        let one = T::one();
        proof {
            T::lemma_word_range();
            self.lemma_in_range();
        }
        match self.minus(one).factorial() {
            Ok(val) => {
                proof {
                    let n = self.value();
                    val.lemma_in_range();
                    lemma_wilson(n);
                    lemma_factorial_table();
                    if n >= 22 {
                        lemma_factorial_grows(21, n - 1);
                    }
                    lemma_factorial_grows(n - 1, n - 1);
                    if n < -1 {
                        // the factorial is one, and so is its remainder
                        assert(factorial_of(n - 1) == 1);
                        vstd::arithmetic::div_mod::lemma_small_mod(1, (-n) as nat);
                    }
                    crate::number_theory::divisibility::lemma_truncated_division(val.value(), n);
                    crate::number_theory::divisibility::lemma_truncated_division(1, n);
                }
                let left = val.remainder(self).plus(one).plus(one);
                let right = one.remainder(self).plus(self);
                Ok(left.is_equal(right))
            },
            Err(error) => Err(error),
        }
    }
}

/// Whether a machine word is prime.
pub fn primality(a: usize) -> (r: bool)
    ensures
        r == is_prime(a as int),
{
    Primality::primality(a)
}

/// Whether two machine words are coprime: whether one is their greatest
/// common divisor.
pub fn relative_primality(a: usize, b: usize) -> (r: bool)
    ensures
        r == is_greatest_common_divisor(a as int, b as int, 1),
{
    Primality::relative_primality(a, b)
}

/// The prime factors of a positive machine word, with multiplicity, in
/// non-decreasing order.
pub fn prime_factorization(n: usize) -> (factors: Vec<usize>)
    requires
        n >= 1,
    ensures
        values(factors@) == prime_factors_of(n as int),
        is_prime_factorization(values(factors@), n as int),
{
    Primality::prime_factorization(n)
}

/// Whether a machine word is prime, by Wilson's theorem; an overflow error
/// when the factorial of its predecessor does not fit.
pub fn wilson(p: isize) -> (r: Result<bool, NumberTheoryErr>)
    requires
        p != 0,
        p > isize::MIN,
    ensures
        r is Ok <==> factorial_of(p - 1) <= isize::MAX,
        match r {
            Ok(b) => b == is_prime(p as int),
            Err(e) => is_factorial_overflow(e, p - 1, isize::MAX as int),
        },
{
    WilsonsPrimality::wilson(p)
}

} // verus!
