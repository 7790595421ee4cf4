//! Euclid's algorithm and its extension to Bézout coefficients.
use crate::general::numbers::{
    lemma_truncated_quotient_range, magnitude, truncated_quotient, Integer,
};
use crate::number_theory::divisibility::{is_greatest_common_divisor, lemma_truncated_division};
use crate::number_theory::gcd::{
    lemma_remainder_descent_is_gcd, remainder_descent, remainders_fit, Gcd,
};
use vstd::arithmetic::div_mod::lemma_fundamental_div_mod;
use vstd::prelude::*;

verus! {

/// Where the extended descent ends. Each step divides the previous
/// remainder by the current one and replaces the three pairs
/// `(previous, current)` of remainders and of coefficients by
/// `(current, previous - quotient * current)`. When the current remainder is
/// zero the result is the previous remainder, the previous coefficients, and
/// the current coefficients.
pub open spec fn extended_descent(
    prev_rem: int,
    rem: int,
    prev_x: int,
    x: int,
    prev_y: int,
    y: int,
) -> (int, int, int, int, int)
    decreases magnitude(rem),
    via extended_descent_terminates
{
    if rem == 0 {
        (prev_rem, prev_x, prev_y, x, y)
    } else {
        let q = truncated_quotient(prev_rem, rem);
        extended_descent(rem, prev_rem - q * rem, x, prev_x - q * x, y, prev_y - q * y)
    }
}

#[via_fn]
proof fn extended_descent_terminates(
    prev_rem: int,
    rem: int,
    prev_x: int,
    x: int,
    prev_y: int,
    y: int,
) {
    if rem != 0 {
        lemma_remainder_by_quotient(prev_rem, rem);
    }
}

/// What the extended algorithm gives for `a` and `b`: the end of the extended
/// descent from the remainders `a`, `b` and the coefficients `1, 0` and
/// `0, 1`.
pub open spec fn extended_euclid(a: int, b: int) -> (int, int, int, int, int) {
    extended_descent(a, b, 1, 0, 0, 1)
}

/// Strictly of the same sign.
pub open spec fn agree(u: int, v: int) -> bool {
    (u > 0 && v > 0) || (u < 0 && v < 0)
}

/// Strictly of opposite signs.
pub open spec fn differ(u: int, v: int) -> bool {
    (u > 0 && v < 0) || (u < 0 && v > 0)
}

/// The coefficients alternate against the remainders: where two successive
/// remainders agree in sign the two coefficients do not, and where the
/// remainders differ the coefficients do not.
pub open spec fn alternates(prev_rem: int, rem: int, prev_c: int, c: int) -> bool {
    &&& agree(prev_rem, rem) ==> !agree(prev_c, c)
    &&& differ(prev_rem, rem) ==> !differ(prev_c, c)
}

/// The operands for which no step of the extended algorithm leaves the type:
/// both are within `highest` in magnitude, and the type has the negative
/// numbers that the coefficients need. Where one operand is zero the
/// coefficients are zero and one, and an unsigned type will do.
pub open spec fn coefficients_fit(a: int, b: int, lowest: int, highest: int) -> bool {
    magnitude(a) <= highest && magnitude(b) <= highest && (lowest < 0 || a == 0 || b == 0)
}

/// The remainder, computed from the quotient: `a - q * b` for the truncated
/// quotient `q` is the truncated remainder.
pub proof fn lemma_remainder_by_quotient(a: int, b: int)
    requires
        b != 0,
    ensures
        a - truncated_quotient(a, b) * b == crate::general::numbers::truncated_remainder(a, b),
        magnitude(a - truncated_quotient(a, b) * b) < magnitude(b),
{
    lemma_truncated_division(a, b);
    let q = truncated_quotient(a, b);
    assert(q * b == b * q) by (nonlinear_arith);
}

/// The sign and the magnitude of a product.
pub proof fn lemma_product_sign(u: int, v: int)
    ensures
        agree(u, v) ==> u * v > 0,
        differ(u, v) ==> u * v < 0,
        u == 0 || v == 0 ==> u * v == 0,
        magnitude(u * v) == magnitude(u) * magnitude(v),
{
    assert((agree(u, v) ==> u * v > 0) && (differ(u, v) ==> u * v < 0) && (u == 0 || v == 0 ==> u
        * v == 0)) by (nonlinear_arith);
    assert(magnitude(u * v) == magnitude(u) * magnitude(v)) by (nonlinear_arith);
}

/// One step of the extended descent, for one of the two coefficients. The
/// cross sum of magnitudes, `|prev_rem| * |c| + |rem| * |prev_c|`, stays what it
/// is, the alternation of signs goes on, and neither the new coefficient nor
/// the product subtracted for it exceeds the cross sum.
pub proof fn lemma_coefficient_step(prev_rem: int, rem: int, prev_c: int, c: int, bound: int)
    requires
        rem != 0,
        alternates(prev_rem, rem, prev_c, c),
        magnitude(prev_rem) * magnitude(c) + magnitude(rem) * magnitude(prev_c) == bound,
    ensures
        ({
            let q = truncated_quotient(prev_rem, rem);
            let next_rem = prev_rem - q * rem;
            let next_c = prev_c - q * c;
            &&& magnitude(rem) * magnitude(next_c) + magnitude(next_rem) * magnitude(c) == bound
            &&& next_rem != 0 ==> alternates(rem, next_rem, c, next_c)
            &&& magnitude(next_c) <= bound
            &&& magnitude(q * c) <= bound
            &&& magnitude(q * rem) <= magnitude(prev_rem)
        }),
{
    let q = truncated_quotient(prev_rem, rem);
    let next_rem = prev_rem - q * rem;
    let next_c = prev_c - q * c;
    let t = q * c;
    lemma_truncated_division(prev_rem, rem);
    lemma_truncated_quotient_range(prev_rem, rem);
    lemma_remainder_by_quotient(prev_rem, rem);
    lemma_product_sign(q, c);
    lemma_product_sign(q, rem);
    let big_p = magnitude(prev_rem);
    let big_r = magnitude(rem);
    let big_q = magnitude(q);
    let big_c = magnitude(c);
    let big_pc = magnitude(prev_c);
    lemma_fundamental_div_mod(big_p, big_r);
    assert(big_q == big_p / big_r);
    assert(magnitude(next_rem) == big_p % big_r);
    // the product subtracted is opposite in sign to the previous coefficient
    assert(magnitude(next_c) == big_pc + magnitude(t));
    assert(magnitude(t) == big_q * big_c);
    assert(big_r * (big_pc + big_q * big_c) + (big_p % big_r) * big_c == bound && big_q * big_r
        <= big_p) by (nonlinear_arith)
        requires
            big_p == big_r * big_q + big_p % big_r,
            big_p * big_c + big_r * big_pc == bound,
            0 <= big_p % big_r,
    ;
    assert(big_pc + big_q * big_c <= bound && big_q * big_c <= bound) by (nonlinear_arith)
        requires
            big_r * (big_pc + big_q * big_c) + (big_p % big_r) * big_c == bound,
            big_r >= 1,
            big_pc >= 0,
            big_q >= 0,
            big_c >= 0,
            0 <= big_p % big_r,
    ;
}

/// The extended descent runs over the same remainders as the plain one, so it
/// ends in the same number.
pub proof fn lemma_extended_descent_remainder(
    prev_rem: int,
    rem: int,
    prev_x: int,
    x: int,
    prev_y: int,
    y: int,
)
    ensures
        extended_descent(prev_rem, rem, prev_x, x, prev_y, y).0 == remainder_descent(prev_rem, rem),
    decreases magnitude(rem),
{
    if rem != 0 {
        let q = truncated_quotient(prev_rem, rem);
        lemma_remainder_by_quotient(prev_rem, rem);
        lemma_extended_descent_remainder(
            rem,
            prev_rem - q * rem,
            x,
            prev_x - q * x,
            y,
            prev_y - q * y,
        );
    }
}

/// Bézout's identity along the extended descent: where each remainder is
/// `a` times its first coefficient plus `b` times its second at the start, the
/// same holds of what the descent ends in, for the previous pair and for the
/// current one, whose remainder is zero.
pub proof fn lemma_extended_descent_identity(
    a: int,
    b: int,
    prev_rem: int,
    rem: int,
    prev_x: int,
    x: int,
    prev_y: int,
    y: int,
)
    requires
        prev_rem == a * prev_x + b * prev_y,
        rem == a * x + b * y,
    ensures
        ({
            let (g, bx, by, qx, qy) = extended_descent(prev_rem, rem, prev_x, x, prev_y, y);
            g == a * bx + b * by && 0 == a * qx + b * qy
        }),
    decreases magnitude(rem),
{
    if rem != 0 {
        let q = truncated_quotient(prev_rem, rem);
        lemma_remainder_by_quotient(prev_rem, rem);
        assert(prev_rem - q * rem == a * (prev_x - q * x) + b * (prev_y - q * y))
            by (nonlinear_arith)
            requires
                prev_rem == a * prev_x + b * prev_y,
                rem == a * x + b * y,
        ;
        lemma_extended_descent_identity(
            a,
            b,
            rem,
            prev_rem - q * rem,
            x,
            prev_x - q * x,
            y,
            prev_y - q * y,
        );
    }
}

/// Bézout's identity: the extended algorithm ends in a number `g` and
/// coefficients `x`, `y` with `g == a * x + b * y`, for every `a` and `b`. That
/// number is where the plain descent by remainders ends, the greatest common
/// divisor up to sign; the last pair of coefficients combines `a` and `b` to
/// zero.
pub proof fn lemma_bezout(a: int, b: int)
    ensures
        ({
            let (g, x, y, qx, qy) = extended_euclid(a, b);
            &&& g == a * x + b * y
            &&& 0 == a * qx + b * qy
            &&& g == remainder_descent(a, b)
            &&& is_greatest_common_divisor(magnitude(a), magnitude(b), magnitude(g))
        }),
{
    assert(a == a * 1 + b * 0 && b == a * 0 + b * 1) by (nonlinear_arith);
    lemma_extended_descent_identity(a, b, a, b, 1, 0, 0, 1);
    lemma_extended_descent_remainder(a, b, 1, 0, 0, 1);
    lemma_remainder_descent_is_gcd(a, b);
}

/// Euclid's algorithm in its standard form.
pub trait Euclidean<T: Integer>: Integer {
    /// The greatest common divisor by remainders: the same as
    /// [`Gcd::gcd`].
    fn euclidean(self, other: T) -> (g: T)
        requires
            remainders_fit(self.value(), other.value(), T::highest()),
        ensures
            g.value() == remainder_descent(self.value(), other.value()),
            is_greatest_common_divisor(
                magnitude(self.value()),
                magnitude(other.value()),
                magnitude(g.value()),
            ),
            self.value() >= 0 && other.value() >= 0 ==> g.value() >= 0,
    ;
}

impl<T: Integer> Euclidean<T> for T {
    fn euclidean(self, other: T) -> (g: T) {
        self.gcd(other)
    }
}

/// The extended algorithm: solves `a * x + b * y == gcd(a, b)` for `x` and `y`.
pub trait ExtendedEuclidean<T: Integer>: Integer {
    /// Everything the algorithm computes: the greatest common divisor, the two
    /// Bézout coefficients, and the last pair of coefficients, which combines
    /// the operands to zero.
    fn extended_euclidean(self, other: T) -> (r: (T, T, T, T, T))
        requires
            coefficients_fit(self.value(), other.value(), T::lowest(), T::highest()),
        ensures
            (r.0.value(), r.1.value(), r.2.value(), r.3.value(), r.4.value()) == extended_euclid(
                self.value(),
                other.value(),
            ),
            r.0.value() == self.value() * r.1.value() + other.value() * r.2.value(),
            0 == self.value() * r.3.value() + other.value() * r.4.value(),
            r.0.value() == remainder_descent(self.value(), other.value()),
            is_greatest_common_divisor(
                magnitude(self.value()),
                magnitude(other.value()),
                magnitude(r.0.value()),
            ),
    ;

    /// The greatest common divisor and the two Bézout coefficients.
    fn egcd(self, other: T) -> (r: (T, T, T))
        requires
            coefficients_fit(self.value(), other.value(), T::lowest(), T::highest()),
        ensures
            r.0.value() == extended_euclid(self.value(), other.value()).0,
            r.1.value() == extended_euclid(self.value(), other.value()).1,
            r.2.value() == extended_euclid(self.value(), other.value()).2,
            r.0.value() == self.value() * r.1.value() + other.value() * r.2.value(),
            r.0.value() == remainder_descent(self.value(), other.value()),
            is_greatest_common_divisor(
                magnitude(self.value()),
                magnitude(other.value()),
                magnitude(r.0.value()),
            ),
    ;

    /// The two Bézout coefficients.
    fn bezout(self, other: T) -> (r: (T, T))
        requires
            coefficients_fit(self.value(), other.value(), T::lowest(), T::highest()),
        ensures
            r.0.value() == extended_euclid(self.value(), other.value()).1,
            r.1.value() == extended_euclid(self.value(), other.value()).2,
            remainder_descent(self.value(), other.value()) == self.value() * r.0.value()
                + other.value() * r.1.value(),
    ;
}

impl<T: Integer> ExtendedEuclidean<T> for T {
    fn extended_euclidean(self, other: T) -> (r: (T, T, T, T, T)) {
        let zero = T::zero();
        let mut x = T::zero();
        let mut y = T::one();
        let mut prev_x = T::one();
        let mut prev_y = T::zero();
        let mut rem = other;
        let mut prev_rem = self;
        let ghost a = self.value();
        let ghost b = other.value();
        proof {
            T::lemma_word_range();
            lemma_bezout(a, b);
            assert(magnitude(a) * 0 + magnitude(b) * 1 == magnitude(b)) by (nonlinear_arith);
            assert(magnitude(a) * 1 + magnitude(b) * 0 == magnitude(a)) by (nonlinear_arith);
        }
        while !rem.is_equal(zero)
            invariant
                zero.value() == 0,
                T::lowest() == -T::highest() - 1 || T::lowest() == 0,
                T::lowest() == 0 ==> rem.value() == 0 || (prev_rem.value() == 0 && x.value() == 0
                    && prev_x.value() == 1 && y.value() == 1 && prev_y.value() == 0),
                magnitude(a) <= T::highest(),
                magnitude(b) <= T::highest(),
                magnitude(prev_rem.value()) <= T::highest(),
                magnitude(rem.value()) <= T::highest(),
                rem.value() != 0 ==> alternates(
                    prev_rem.value(),
                    rem.value(),
                    prev_x.value(),
                    x.value(),
                ),
                rem.value() != 0 ==> alternates(
                    prev_rem.value(),
                    rem.value(),
                    prev_y.value(),
                    y.value(),
                ),
                magnitude(prev_rem.value()) * magnitude(x.value()) + magnitude(rem.value())
                    * magnitude(prev_x.value()) == magnitude(b),
                magnitude(prev_rem.value()) * magnitude(y.value()) + magnitude(rem.value())
                    * magnitude(prev_y.value()) == magnitude(a),
                extended_descent(
                    prev_rem.value(),
                    rem.value(),
                    prev_x.value(),
                    x.value(),
                    prev_y.value(),
                    y.value(),
                ) == extended_euclid(a, b),
            decreases magnitude(rem.value()),
        {
            proof {
                lemma_coefficient_step(
                    prev_rem.value(),
                    rem.value(),
                    prev_x.value(),
                    x.value(),
                    magnitude(b),
                );
                lemma_coefficient_step(
                    prev_rem.value(),
                    rem.value(),
                    prev_y.value(),
                    y.value(),
                    magnitude(a),
                );
                lemma_remainder_by_quotient(prev_rem.value(), rem.value());
                if prev_rem.value() == 0 {
                    vstd::arithmetic::div_mod::lemma_div_of0(magnitude(rem.value()));
                    lemma_truncated_division(0, rem.value());
                }
                rem.lemma_in_range();
            }
            // quotient
            let q = prev_rem.quotient(rem);
            // update
            let next_rem = prev_rem.minus(q.times(rem));
            let next_x = prev_x.minus(q.times(x));
            let next_y = prev_y.minus(q.times(y));
            prev_rem = rem;
            rem = next_rem;
            prev_x = x;
            x = next_x;
            prev_y = y;
            y = next_y;
        }
        // gcd, bezout_x, bezout_y, quotient_x, quotient_y
        (prev_rem, prev_x, prev_y, x, y)
    }

    fn egcd(self, other: T) -> (r: (T, T, T)) {
        let out = self.extended_euclidean(other);
        (out.0, out.1, out.2)
    }

    fn bezout(self, other: T) -> (r: (T, T)) {
        let out = self.extended_euclidean(other);
        (out.1, out.2)
    }
}

} // verus!
