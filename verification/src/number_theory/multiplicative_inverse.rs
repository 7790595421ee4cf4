//! Modular multiplicative inverse: the `x` with `a * x ≡ 1 (mod b)`.
use crate::general::errors::NumberTheoryErr;
use crate::general::numbers::Integer;
use crate::general::text::{append_decimal, decimal};
use crate::number_theory::divisibility::lemma_exact_division;
use crate::number_theory::euclidean_algs::{coefficients_fit, extended_euclid, ExtendedEuclidean};
use crate::number_theory::gcd::remainder_descent;
use vstd::prelude::*;
use vstd::string::StringExecFns;

verus! {

/// What the report of a missing inverse says: the fixed sentence with the two
/// operands.
pub open spec fn no_inverse_text(a: int, b: int) -> Seq<char> {
    "No modular multiplicative inverse exists "@ + decimal(a) + " mod "@ + decimal(b)
}

/// The error that reports that `a` has no inverse modulo `b`.
fn no_inverse(a: i128, b: i128) -> (e: NumberTheoryErr)
    ensures
        e matches NumberTheoryErr::InverseDNE(what) && what@ == no_inverse_text(
            a as int,
            b as int,
        ),
{
    let mut what = String::from_str("No modular multiplicative inverse exists ");
    append_decimal(&mut what, a);
    what.append(" mod ");
    append_decimal(&mut what, b);
    NumberTheoryErr::InverseDNE(what)
}

/// `x` is an inverse of `a` modulo `b`: the product `a * x` is one more than a
/// multiple of `b`.
pub open spec fn is_inverse(a: int, b: int, x: int) -> bool {
    if b == 0 {
        a * x == 1
    } else {
        (a * x - 1) % b == 0
    }
}

/// An inverse by Bézout: where `1 == a * x + b * y`, the coefficient `x` is an
/// inverse of `a` modulo `b`.
pub proof fn lemma_bezout_inverse(a: int, b: int, x: int, y: int)
    requires
        1 == a * x + b * y,
    ensures
        is_inverse(a, b, x),
{
    assert(a * x - 1 == b * (-y)) by (nonlinear_arith)
        requires
            1 == a * x + b * y,
    ;
    if b != 0 {
        lemma_exact_division(b, -y);
    }
}

/// The modular multiplicative inverse.
pub trait MultiplicativeInverse<T: Integer>: Integer {
    /// The inverse of `self` modulo `b`: the first Bézout coefficient, when the
    /// extended algorithm ends in one; an error that names the operands when it
    /// ends in anything else.
    fn multiplicative_inverse(&self, b: T) -> (r: Result<T, NumberTheoryErr>)
        requires
            coefficients_fit(self.value(), b.value(), T::lowest(), T::highest()),
        ensures
            r is Ok <==> remainder_descent(self.value(), b.value()) == 1,
            match r {
                Ok(x) => {
                    &&& x.value() == extended_euclid(self.value(), b.value()).1
                    &&& is_inverse(self.value(), b.value(), x.value())
                },
                Err(e) => e matches NumberTheoryErr::InverseDNE(what) && what@ == no_inverse_text(
                    self.value(),
                    b.value(),
                ),
            },
    ;
}

impl<T: Integer> MultiplicativeInverse<T> for T {
    fn multiplicative_inverse(&self, b: T) -> (r: Result<T, NumberTheoryErr>) {
        // the greatest common divisor and the Bézout coefficients
        let egcd = self.egcd(b);
        if !egcd.0.is_equal(T::one()) {
            Err(no_inverse(self.to_i128(), b.to_i128()))
        } else {
            proof {
                lemma_bezout_inverse(self.value(), b.value(), egcd.1.value(), egcd.2.value());
            }
            Ok(egcd.1)
        }
    }
}

} // verus!
