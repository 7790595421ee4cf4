//! Greatest common divisor: by remainders, by subtraction, and by recursion.
use crate::general::numbers::{magnitude, truncated_remainder, Integer};
use crate::number_theory::divisibility::{
    divides, is_greatest_common_divisor, lemma_divides_combination, lemma_divides_magnitude,
    lemma_divides_multiple, lemma_divisor_at_most, lemma_truncated_division,
};
use vstd::prelude::*;

verus! {

/// Where Euclid's descent by remainders ends: `(a, b)` is replaced by
/// `(b, a rem b)` until the second component is zero, and the first is the
/// result. The remainder is the truncated one, so the result may be negative
/// when an operand is.
pub open spec fn remainder_descent(a: int, b: int) -> int
    decreases magnitude(b),
    via remainder_descent_terminates
{
    if b == 0 {
        a
    } else {
        remainder_descent(b, truncated_remainder(a, b))
    }
}

#[via_fn]
proof fn remainder_descent_terminates(a: int, b: int) {
    if b != 0 {
        lemma_truncated_division(a, b);
    }
}

/// Where the descent by subtraction ends: the larger of two distinct positive
/// numbers is lessened by the smaller until the two are equal.
pub open spec fn subtraction_descent(a: int, b: int) -> int
    decreases magnitude(a) + magnitude(b),
{
    if a == b || a <= 0 || b <= 0 {
        a
    } else if a > b {
        subtraction_descent(a - b, b)
    } else {
        subtraction_descent(a, b - a)
    }
}

/// The two operands for which the descent by remainders would divide the
/// least value of a signed type by minus one are left out.
pub open spec fn remainders_fit(a: int, b: int, highest: int) -> bool {
    !(a == -highest - 1 && b == -1) && !(a == -1 && b == -highest - 1)
}

/// One step of the descent by remainders keeps the common divisors.
pub proof fn lemma_remainder_step(a: int, b: int, d: int)
    requires
        b != 0,
    ensures
        divides(d, a) && divides(d, b) <==> divides(d, b) && divides(d, truncated_remainder(a, b)),
{
    lemma_truncated_division(a, b);
    let q = crate::general::numbers::truncated_quotient(a, b);
    let r = truncated_remainder(a, b);
    if divides(d, a) && divides(d, b) {
        lemma_divides_combination(d, a, b, -q);
        assert(a + (-q) * b == r) by (nonlinear_arith)
            requires
                a == b * q + r,
        ;
    }
    if divides(d, b) && divides(d, r) {
        lemma_divides_combination(d, r, b, q);
        assert(r + q * b == a) by (nonlinear_arith)
            requires
                a == b * q + r,
        ;
    }
}

/// The descent by remainders ends in a greatest common divisor, up to sign:
/// stripped of signs, its result is the greatest common divisor of the
/// operands stripped of theirs. On operands that are not negative the result
/// is not negative either.
pub proof fn lemma_remainder_descent_is_gcd(a: int, b: int)
    ensures
        is_greatest_common_divisor(
            magnitude(a),
            magnitude(b),
            magnitude(remainder_descent(a, b)),
        ),
        a >= 0 && b >= 0 ==> remainder_descent(a, b) >= 0,
    decreases magnitude(b),
{
    let g = magnitude(remainder_descent(a, b));
    if b == 0 {
        assert forall|d: int| #[trigger]
            divides(d, g) <==> divides(d, magnitude(a)) && divides(d, magnitude(b)) by {
            if d > 0 {
                lemma_divides_multiple(d, 0);
            }
        }
    } else {
        let r = truncated_remainder(a, b);
        lemma_truncated_division(a, b);
        lemma_remainder_descent_is_gcd(b, r);
        assert forall|d: int| #[trigger]
            divides(d, g) <==> divides(d, magnitude(a)) && divides(d, magnitude(b)) by {
            lemma_remainder_step(a, b, d);
            lemma_divides_magnitude(d, a);
            lemma_divides_magnitude(d, b);
            lemma_divides_magnitude(d, r);
        }
    }
}

/// The descent by subtraction, on two positive operands, ends in their
/// greatest common divisor.
pub proof fn lemma_subtraction_descent_is_gcd(a: int, b: int)
    requires
        a > 0,
        b > 0,
    ensures
        is_greatest_common_divisor(a, b, subtraction_descent(a, b)),
        subtraction_descent(a, b) > 0,
    decreases a + b,
{
    let g = subtraction_descent(a, b);
    if a == b {
    } else if a > b {
        lemma_subtraction_descent_is_gcd(a - b, b);
        assert forall|d: int| #[trigger] divides(d, g) <==> divides(d, a) && divides(d, b) by {
            if divides(d, a) && divides(d, b) {
                lemma_divides_combination(d, a, b, -1);
                assert(a + (-1) * b == a - b);
            }
            if divides(d, a - b) && divides(d, b) {
                lemma_divides_combination(d, a - b, b, 1);
                assert(a - b + 1 * b == a);
            }
        }
    } else {
        lemma_subtraction_descent_is_gcd(a, b - a);
        assert forall|d: int| #[trigger] divides(d, g) <==> divides(d, a) && divides(d, b) by {
            if divides(d, a) && divides(d, b) {
                lemma_divides_combination(d, b, a, -1);
                assert(b + (-1) * a == b - a);
            }
            if divides(d, b - a) && divides(d, a) {
                lemma_divides_combination(d, b - a, a, 1);
                assert(b - a + 1 * a == b);
            }
        }
    }
}

/// Two numbers have one greatest common divisor.
pub proof fn lemma_gcd_unique(a: int, b: int, g: int, h: int)
    requires
        is_greatest_common_divisor(a, b, g),
        is_greatest_common_divisor(a, b, h),
    ensures
        g == h,
{
    if g > 0 {
        lemma_divides_multiple(g, 1);
        assert(divides(g, g));
        assert(divides(g, h));
    }
    if h > 0 {
        lemma_divides_multiple(h, 1);
        assert(divides(h, h));
        assert(divides(h, g));
    }
    if g > 0 && h > 0 {
        lemma_divisor_at_most(g, h);
        lemma_divisor_at_most(h, g);
    } else if g > 0 {
        // h == 0: every positive number divides h, so g + 1 divides g
        lemma_divides_multiple(g + 1, 0);
        assert(divides(g + 1, h));
        assert(divides(g + 1, g));
        lemma_divisor_at_most(g + 1, g);
    } else if h > 0 {
        lemma_divides_multiple(h + 1, 0);
        assert(divides(h + 1, g));
        assert(divides(h + 1, h));
        lemma_divisor_at_most(h + 1, h);
    }
}

/// The greatest common divisor of two positive numbers is the same by
/// remainders, by subtraction and by recursion: the two descents end in the
/// same number. (With a zero operand the descent by subtraction never ends.)
pub proof fn lemma_gcd_variants_agree(a: int, b: int)
    requires
        a > 0,
        b > 0,
    ensures
        remainder_descent(a, b) == subtraction_descent(a, b),
        is_greatest_common_divisor(a, b, remainder_descent(a, b)),
{
    lemma_remainder_descent_is_gcd(a, b);
    lemma_subtraction_descent_is_gcd(a, b);
    lemma_gcd_unique(a, b, remainder_descent(a, b), subtraction_descent(a, b));
}

/// Greatest common divisor of two integers.
pub trait Gcd<T: Integer>: Integer {
    /// Euclid's algorithm by remainders. The result is where the descent by
    /// remainders ends; without its sign it is the greatest common divisor of
    /// the operands without theirs.
    fn gcd(self, other: T) -> (g: T)
        requires
            remainders_fit(self.value(), other.value(), T::highest()),
        ensures
            g.value() == remainder_descent(self.value(), other.value()),
            is_greatest_common_divisor(
                magnitude(self.value()),
                magnitude(other.value()),
                magnitude(g.value()),
            ),
            self.value() >= 0 && other.value() >= 0 ==> g.value() >= 0,
    ;

    /// The algorithm by subtraction, for two positive operands or two equal
    /// ones. On any other pair the subtraction does not come to an end.
    fn gcd_subtraction(self, other: T) -> (g: T)
        requires
            self.value() == other.value() || (self.value() > 0 && other.value() > 0),
        ensures
            g.value() == subtraction_descent(self.value(), other.value()),
            self.value() > 0 && other.value() > 0 ==> is_greatest_common_divisor(
                self.value(),
                other.value(),
                g.value(),
            ),
    ;
}

impl<T: Integer> Gcd<T> for T {
    fn gcd(self, other: T) -> (g: T) {
        let mut a = self;
        let mut b = other;
        proof {
            lemma_remainder_descent_is_gcd(self.value(), other.value());
        }
        while !b.is_equal(T::zero())
            invariant
                remainders_fit(a.value(), b.value(), T::highest()),
                remainder_descent(a.value(), b.value()) == remainder_descent(
                    self.value(),
                    other.value(),
                ),
            decreases magnitude(b.value()),
        {
            let temp = b;
            proof {
                lemma_truncated_division(a.value(), b.value());
                a.lemma_in_range();
                b.lemma_in_range();
                T::lemma_word_range();
                if b.value() == -T::highest() - 1 {
                    // the remainder by the least value is zero or `a` itself
                    if a.value() == b.value() {
                        vstd::arithmetic::div_mod::lemma_mod_self_0(magnitude(b.value()));
                    } else {
                        vstd::arithmetic::div_mod::lemma_small_mod(
                            magnitude(a.value()) as nat,
                            magnitude(b.value()) as nat,
                        );
                    }
                }
            }
            b = a.remainder(b);
            a = temp;
        }
        a
    }

    fn gcd_subtraction(self, other: T) -> (g: T) {
        let mut a = self;
        let mut b = other;
        proof {
            if self.value() > 0 && other.value() > 0 {
                lemma_subtraction_descent_is_gcd(self.value(), other.value());
            }
        }
        while !a.is_equal(b)
            invariant
                a.value() == b.value() || (a.value() > 0 && b.value() > 0),
                subtraction_descent(a.value(), b.value()) == subtraction_descent(
                    self.value(),
                    other.value(),
                ),
            decreases a.value() + b.value(),
        {
            proof {
                a.lemma_in_range();
                b.lemma_in_range();
                T::lemma_word_range();
            }
            if b.is_less(a) {
                a = a.minus(b);
            } else {
                b = b.minus(a);
            }
        }
        a
    }
}

/// Greatest common divisor of two machine words, by remainders.
pub fn gcd(a: usize, b: usize) -> (g: usize)
    ensures
        is_greatest_common_divisor(a as int, b as int, g as int),
        g == remainder_descent(a as int, b as int),
{
    Gcd::gcd(a, b)
}

/// Greatest common divisor of two positive machine words, or of two equal
/// ones, by subtraction.
pub fn gcd_subtraction(a: usize, b: usize) -> (g: usize)
    requires
        a == b || (a > 0 && b > 0),
    ensures
        g == subtraction_descent(a as int, b as int),
        a > 0 && b > 0 ==> is_greatest_common_divisor(a as int, b as int, g as int),
{
    Gcd::gcd_subtraction(a, b)
}

/// Greatest common divisor of two machine words, by recursion on the
/// remainder.
pub fn gcd_recursive(a: usize, b: usize) -> (g: usize)
    ensures
        is_greatest_common_divisor(a as int, b as int, g as int),
        g == remainder_descent(a as int, b as int),
    decreases b,
{
    proof {
        lemma_remainder_descent_is_gcd(a as int, b as int);
    }
    if b == 0 {
        a
    } else {
        gcd_recursive(b, a % b)
    }
}

} // verus!
