//! The simple continued fraction of a ratio of two integers.
use crate::general::numbers::{values, Integer};
use crate::number_theory::gcd::remainder_descent;
use vstd::arithmetic::div_mod::lemma_fundamental_div_mod;
use vstd::prelude::*;

verus! {

/// The partial quotients of `a / b`, for `a` not negative and `b` positive:
/// the whole part of the ratio, then, unless nothing is left over, the partial
/// quotients of the reciprocal of what is.
pub open spec fn quotients_of(a: int, b: int) -> Seq<int>
    decreases b,
{
    if b <= 0 {
        Seq::empty()
    } else if a % b == 0 {
        seq![a / b]
    } else {
        seq![a / b] + quotients_of(b, a % b)
    }
}

/// The value of a continued fraction, from its last partial quotient back to
/// its first, as a numerator and a denominator. The empty fraction stands for
/// one over zero.
pub open spec fn evaluate(quotients: Seq<int>) -> (int, int)
    decreases quotients.len(),
{
    if quotients.len() == 0 {
        (1, 0)
    } else {
        let (n, d) = evaluate(quotients.drop_first());
        (quotients[0] * n + d, n)
    }
}

/// The continued fraction of `a / b` evaluates to `a / b` exactly, and in
/// lowest terms: its numerator and denominator, each multiplied by the
/// greatest common divisor of `a` and `b`, are `a` and `b`.
pub proof fn lemma_quotients_evaluate(a: int, b: int)
    requires
        a >= 0,
        b > 0,
    ensures
        ({
            let (n, d) = evaluate(quotients_of(a, b));
            let g = remainder_descent(a, b);
            &&& g > 0
            &&& d > 0
            &&& a == g * n
            &&& b == g * d
            &&& n * b == d * a
        }),
    decreases b,
{
    let q = a / b;
    let r = a % b;
    let cf = quotients_of(a, b);
    lemma_fundamental_div_mod(a, b);
    assert(remainder_descent(a, b) == remainder_descent(b, r));
    if r == 0 {
        assert(cf.drop_first() =~= Seq::<int>::empty());
        assert(evaluate(cf.drop_first()) == (1int, 0int));
        assert(remainder_descent(b, 0) == b);
        assert(q * 1 + 0 == q && q * b == 1 * a) by (nonlinear_arith)
            requires
                a == b * q + r,
                r == 0,
        ;
    } else {
        lemma_quotients_evaluate(b, r);
        assert(cf.drop_first() =~= quotients_of(b, r));
        let (n1, d1) = evaluate(quotients_of(b, r));
        let g = remainder_descent(b, r);
        let n = q * n1 + d1;
        assert(evaluate(cf) == (n, n1));
        assert(a == g * n && n * b == n1 * a && n1 > 0) by (nonlinear_arith)
            requires
                a == b * q + r,
                b == g * n1,
                r == g * d1,
                n == q * n1 + d1,
                g > 0,
                b > 0,
        ;
    }
}

/// Expansion of a ratio into a continued fraction.
pub trait ContinuedFraction<T: Integer>: Integer {
    /// The partial quotients of `self / other`, for `self` not negative and
    /// `other` positive. A ratio below one starts with the quotient zero.
    fn continued_frac(self, other: T) -> (fraction: Vec<T>)
        requires
            self.value() >= 0,
            other.value() > 0,
        ensures
            values(fraction@) == quotients_of(self.value(), other.value()),
    ;
}

impl<T: Integer> ContinuedFraction<T> for T {
    fn continued_frac(self, other: T) -> (fraction: Vec<T>) {
        let zero = T::zero();
        let mut fraction: Vec<T> = Vec::new();
        let mut a = self;
        let mut b = other;
        proof {
            T::lemma_word_range();
            assert(values(fraction@) + quotients_of(a.value(), b.value()) =~= quotients_of(
                self.value(),
                other.value(),
            ));
        }
        loop
            invariant_except_break
                a.value() >= 0,
                b.value() > 0,
                values(fraction@) + quotients_of(a.value(), b.value()) == quotients_of(
                    self.value(),
                    other.value(),
                ),
            invariant
                zero.value() == 0,
                T::lowest() <= 0,
            ensures
                values(fraction@) == quotients_of(self.value(), other.value()),
            decreases b.value(),
        {
            let ghost done = values(fraction@);
            let ghost x = a.value();
            let ghost y = b.value();
            proof {
                a.lemma_in_range();
                b.lemma_in_range();
                lemma_fundamental_div_mod(x, y);
                vstd::arithmetic::div_mod::lemma_div_pos_is_pos(x, y);
                assert(0 <= y * (x / y) <= x) by (nonlinear_arith)
                    requires
                        x == y * (x / y) + x % y,
                        0 <= x % y,
                        x / y >= 0,
                        y > 0,
                ;
            }
            // the whole part of the ratio
            let i = a.quotient(b);
            fraction.push(i);
            // what is left over
            a = a.minus(b.times(i));
            proof {
                assert(values(fraction@) =~= done.push(x / y));
                assert(a.value() == x % y);
                if x % y == 0 {
                    assert(done.push(x / y) =~= done + quotients_of(x, y));
                } else {
                    assert(done.push(x / y) + quotients_of(y, x % y) =~= done + quotients_of(
                        x,
                        y,
                    ));
                }
            }
            if a.is_equal(zero) {
                break ;
            }
            // the reciprocal of the fraction that is left
            let temp = b;
            b = a;
            a = temp;
        }
        fraction
    }
}

/// The partial quotients of `a / b`, for machine words with `b` positive.
pub fn continued_fraction(a: usize, b: usize) -> (fraction: Vec<usize>)
    requires
        b > 0,
    ensures
        values(fraction@) == quotients_of(a as int, b as int),
{
    ContinuedFraction::continued_frac(a, b)
}

} // verus!
