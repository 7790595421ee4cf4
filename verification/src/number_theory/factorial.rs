//! Factorial, with overflow reported instead of wrapped.
use crate::general::errors::NumberTheoryErr;
use crate::general::numbers::Integer;
use crate::general::text::{append_decimal, decimal};
use vstd::prelude::*;
use vstd::string::StringExecFns;

verus! {

/// `n!`: the product of the integers from one to `n`; one when there are none.
pub open spec fn factorial_of(n: int) -> int
    decreases n,
{
    if n <= 1 {
        1
    } else {
        n * factorial_of(n - 1)
    }
}

/// What the report of a factorial overflow says: the fixed sentence, then the
/// last factorial that did fit.
pub open spec fn factorial_overflow_text(reached: int) -> Seq<char> {
    "Factorial overflow at: "@ + decimal(reached)
}

/// `e` reports that `n!` does not fit below `highest`: it is an overflow, and
/// its text gives `k!` for the last `k` whose factorial fits.
pub open spec fn is_factorial_overflow(e: NumberTheoryErr, n: int, highest: int) -> bool {
    e matches NumberTheoryErr::Overflow(what) && exists|k: int|
        1 <= k < n && #[trigger] factorial_of(k) <= highest < factorial_of(k + 1) && what@
            == factorial_overflow_text(factorial_of(k))
}

/// Factorials are positive and do not decrease.
pub proof fn lemma_factorial_grows(i: int, j: int)
    requires
        i <= j,
    ensures
        1 <= factorial_of(i) <= factorial_of(j),
    decreases j,
{
    if j <= 1 {
    } else if i == j {
        lemma_factorial_grows(j - 1, j - 1);
        assert(factorial_of(j) >= 1) by (nonlinear_arith)
            requires
                factorial_of(j) == j * factorial_of(j - 1),
                factorial_of(j - 1) >= 1,
                j >= 1,
        ;
    } else {
        lemma_factorial_grows(i, j - 1);
        assert(factorial_of(j) >= factorial_of(j - 1)) by (nonlinear_arith)
            requires
                factorial_of(j) == j * factorial_of(j - 1),
                factorial_of(j - 1) >= 1,
                j >= 1,
        ;
    }
}

/// The factorials up to that of twenty-one, the first beyond 64 bits.
pub proof fn lemma_factorial_table()
    ensures
        factorial_of(0) == 1,
        factorial_of(1) == 1,
        factorial_of(2) == 2,
        factorial_of(3) == 6,
        factorial_of(4) == 24,
        factorial_of(5) == 120,
        factorial_of(6) == 720,
        factorial_of(7) == 5040,
        factorial_of(8) == 40320,
        factorial_of(9) == 362880,
        factorial_of(10) == 3628800,
        factorial_of(11) == 39916800,
        factorial_of(12) == 479001600,
        factorial_of(13) == 6227020800,
        factorial_of(14) == 87178291200,
        factorial_of(15) == 1307674368000,
        factorial_of(16) == 20922789888000,
        factorial_of(17) == 355687428096000,
        factorial_of(18) == 6402373705728000,
        factorial_of(19) == 121645100408832000,
        factorial_of(20) == 2432902008176640000,
        factorial_of(21) == 51090942171709440000,
{
    assert(factorial_of(2) == 2 * factorial_of(1));
    assert(factorial_of(3) == 3 * factorial_of(2));
    assert(factorial_of(4) == 4 * factorial_of(3));
    assert(factorial_of(5) == 5 * factorial_of(4));
    assert(factorial_of(6) == 6 * factorial_of(5));
    assert(factorial_of(7) == 7 * factorial_of(6));
    assert(factorial_of(8) == 8 * factorial_of(7));
    assert(factorial_of(9) == 9 * factorial_of(8));
    assert(factorial_of(10) == 10 * factorial_of(9));
    assert(factorial_of(11) == 11 * factorial_of(10));
    assert(factorial_of(12) == 12 * factorial_of(11));
    assert(factorial_of(13) == 13 * factorial_of(12));
    assert(factorial_of(14) == 14 * factorial_of(13));
    assert(factorial_of(15) == 15 * factorial_of(14));
    assert(factorial_of(16) == 16 * factorial_of(15));
    assert(factorial_of(17) == 17 * factorial_of(16));
    assert(factorial_of(18) == 18 * factorial_of(17));
    assert(factorial_of(19) == 19 * factorial_of(18));
    assert(factorial_of(20) == 20 * factorial_of(19));
    assert(factorial_of(21) == 21 * factorial_of(20));
}

/// The error that reports a factorial overflow after `reached` was computed.
fn factorial_overflow(reached: i128) -> (e: NumberTheoryErr)
    ensures
        e matches NumberTheoryErr::Overflow(what) && what@ == factorial_overflow_text(
            reached as int,
        ),
{
    let mut what = String::from_str("Factorial overflow at: ");
    append_decimal(&mut what, reached);
    NumberTheoryErr::Overflow(what)
}

/// The factorial operation.
pub trait Factorial<T: Integer = Self>: Integer {
    /// `self!`, or an overflow error when it does not fit the type. The
    /// factorial of a number below two is one.
    fn factorial(&self) -> (r: Result<T, NumberTheoryErr>)
        ensures
            r is Ok <==> factorial_of(self.value()) <= T::highest(),
            match r {
                Ok(v) => v.value() == factorial_of(self.value()),
                Err(e) => is_factorial_overflow(e, self.value(), T::highest()),
            },
    ;
}

impl<T: Integer> Factorial<T> for T {
    fn factorial(&self) -> (r: Result<T, NumberTheoryErr>) {
        let n = *self;
        let one = T::one();
        let mut i = T::one();
        let mut acc = T::one();
        proof {
            T::lemma_word_range();
            n.lemma_in_range();
        }
        while i.is_less(n)
            invariant
                n == *self,
                one.value() == 1,
                1 <= i.value(),
                i.value() <= n.value() || i.value() == 1,
                acc.value() == factorial_of(i.value()),
                n.value() <= T::highest(),
                T::lowest() <= 0,
            decreases n.value() - i.value(),
        {
            let ghost k = i.value();
            i = i.plus(one);
            match acc.checked_mul(i) {
                Some(product) => {
                    proof {
                        assert(acc.value() * i.value() == (k + 1) * factorial_of(k))
                            by (nonlinear_arith)
                            requires
                                acc.value() == factorial_of(k),
                                i.value() == k + 1,
                        ;
                    }
                    acc = product;
                },
                None => {
                    proof {
                        let f = factorial_of(k);
                        assert(acc.value() * i.value() == (k + 1) * f) by (nonlinear_arith)
                            requires
                                acc.value() == f,
                                i.value() == k + 1,
                        ;
                        assert(factorial_of(k + 1) == (k + 1) * f);
                        lemma_factorial_grows(0, k + 1);
                        lemma_factorial_grows(k + 1, n.value());
                        acc.lemma_in_range();
                        assert(f <= T::highest() < factorial_of(k + 1));
                    }
                    let e = factorial_overflow(acc.to_i128());
                    return Err(e);
                },
            }
        }
        proof {
            acc.lemma_in_range();
        }
        Ok(acc)
    }
}

/// The factorial of a machine word, or an overflow error.
pub fn factorial(a: isize) -> (r: Result<isize, NumberTheoryErr>)
    ensures
        r is Ok <==> factorial_of(a as int) <= isize::MAX,
        match r {
            Ok(v) => v == factorial_of(a as int),
            Err(e) => is_factorial_overflow(e, a as int, isize::MAX as int),
        },
{
    Factorial::factorial(&a)
}

} // verus!
