//! Divisibility over the mathematical integers: the vocabulary in which the
//! contracts of this library are written, and the lemmas behind them.
use crate::general::numbers::{magnitude, truncated_quotient, truncated_remainder};
use vstd::arithmetic::div_mod::{lemma_fundamental_div_mod, lemma_mod_multiples_basic};
use vstd::prelude::*;

verus! {

/// `d` is a positive divisor of `n`.
pub open spec fn divides(d: int, n: int) -> bool {
    d > 0 && n % d == 0
}

/// `n` is prime: at least two, with no divisor strictly between one and itself.
pub open spec fn is_prime(n: int) -> bool {
    n >= 2 && forall|d: int| 1 < d < n ==> !#[trigger] divides(d, n)
}

/// `g` is the greatest common divisor of `a` and `b`: it is not negative, and
/// its divisors are exactly the common divisors of `a` and `b`. For `a` and `b`
/// both zero that makes `g` zero, as every number divides zero.
pub open spec fn is_greatest_common_divisor(a: int, b: int, g: int) -> bool {
    g >= 0 && forall|d: int| #[trigger] divides(d, g) <==> divides(d, a) && divides(d, b)
}

/// A multiple of `d` is divisible by `d`.
pub proof fn lemma_divides_multiple(d: int, k: int)
    requires
        d > 0,
    ensures
        divides(d, d * k),
        divides(d, k * d),
{
    lemma_mod_multiples_basic(k, d);
    assert(d * k == k * d) by (nonlinear_arith);
}

/// What `d` divides is `d` times the quotient.
pub proof fn lemma_divides_quotient(d: int, n: int)
    requires
        divides(d, n),
    ensures
        n == d * (n / d),
{
    lemma_fundamental_div_mod(n, d);
}

/// A divisor of `x` and of `y` divides `x + k * y`, for every `k`.
pub proof fn lemma_divides_combination(d: int, x: int, y: int, k: int)
    requires
        divides(d, x),
        divides(d, y),
    ensures
        divides(d, x + k * y),
{
    lemma_divides_quotient(d, x);
    lemma_divides_quotient(d, y);
    let qx = x / d;
    let qy = y / d;
    assert(x + k * y == d * (qx + k * qy)) by (nonlinear_arith)
        requires
            x == d * qx,
            y == d * qy,
    ;
    lemma_divides_multiple(d, qx + k * qy);
}

/// Divisibility does not depend on the sign of what is divided.
pub proof fn lemma_divides_magnitude(d: int, n: int)
    ensures
        divides(d, n) <==> divides(d, magnitude(n)),
{
    if d > 0 {
        lemma_mod_multiples_basic(0, d);
        assert(0 * d == 0);
        if divides(d, n) {
            lemma_divides_combination(d, 0, n, -1);
            assert(0 + (-1) * n == -n);
        }
        if divides(d, -n) {
            lemma_divides_combination(d, 0, -n, -1);
            assert(0 + (-1) * (-n) == n);
        }
    }
}

/// A divisor of a positive number is no larger than it.
pub proof fn lemma_divisor_at_most(d: int, n: int)
    requires
        divides(d, n),
        n > 0,
    ensures
        d <= n,
{
    if d > n {
        vstd::arithmetic::div_mod::lemma_small_mod(n as nat, d as nat);
    }
}

/// A divisor of a divisor is a divisor.
pub proof fn lemma_divides_transitive(d: int, m: int, n: int)
    requires
        divides(d, m),
        divides(m, n),
    ensures
        divides(d, n),
{
    lemma_divides_quotient(m, n);
    lemma_divides_combination(d, 0, m, n / m);
    lemma_mod_multiples_basic(0, d);
    assert(0 * d == 0);
    assert(0 + (n / m) * m == m * (n / m)) by (nonlinear_arith);
}

/// The cofactor of a divisor: with `d` a divisor of the positive `n`, `n / d`
/// is a divisor too, the two multiply to `n`, and each is proper when the other
/// is more than one.
pub proof fn lemma_cofactor(d: int, n: int)
    requires
        divides(d, n),
        n > 0,
    ensures
        divides(n / d, n),
        d * (n / d) == n,
        1 <= n / d <= n,
        d > 1 ==> n / d < n,
        d < n ==> n / d > 1,
{
    lemma_divides_quotient(d, n);
    let e = n / d;
    assert(e >= 1 && (d > 1 ==> e < n) && (d < n ==> e > 1)) by (nonlinear_arith)
        requires
            d * e == n,
            d > 0,
            n > 0,
    ;
    lemma_divides_multiple(e, d);
}

/// A divisor of a quotient divides the dividend: what divides `n / x`, for `x`
/// a divisor of `n`, divides `n`.
pub proof fn lemma_divisor_of_quotient(d: int, x: int, n: int)
    requires
        divides(x, n),
        divides(d, n / x),
    ensures
        divides(d, n),
{
    lemma_divides_quotient(x, n);
    lemma_divides_quotient(d, n / x);
    let e = (n / x) / d;
    assert(n == d * (e * x)) by (nonlinear_arith)
        requires
            n == x * (n / x),
            n / x == d * e,
    ;
    lemma_divides_multiple(d, e * x);
}

/// The least divisor above one is prime: a divisor `x > 1` of `n`, below which
/// nothing but one divides `n`, has no proper divisor itself.
pub proof fn lemma_least_divisor_is_prime(x: int, n: int)
    requires
        x > 1,
        divides(x, n),
        forall|d: int| 1 < d < x ==> !#[trigger] divides(d, n),
    ensures
        is_prime(x),
{
    assert forall|d: int| 1 < d < x implies !#[trigger] divides(d, x) by {
        if divides(d, x) {
            lemma_divides_transitive(d, x, n);
        }
    }
}

/// Trial division may stop at the square root: a number above one, with no
/// divisor between one and `x` and with `x * x` beyond it, is prime.
pub proof fn lemma_prime_by_trial(n: int, x: int)
    requires
        n > 1,
        x > 0,
        n / x < x,
        forall|d: int| 1 < d < x ==> !#[trigger] divides(d, n),
    ensures
        is_prime(n),
{
    assert forall|d: int| 1 < d < n implies !#[trigger] divides(d, n) by {
        if divides(d, n) {
            lemma_cofactor(d, n);
            let e = n / d;
            assert(divides(e, n));
            // both d and e are at least x, so their product is beyond n
            lemma_fundamental_div_mod(n, x);
            assert(false) by (nonlinear_arith)
                requires
                    d >= x,
                    e >= x,
                    d * e == n,
                    n == x * (n / x) + n % x,
                    0 <= n % x < x,
                    n / x < x,
                    x > 0,
            ;
        }
    }
}

/// A multiple of a multiple: what is divisible by `m` is divisible by every
/// divisor of `m`, so a number that `p` does not divide has no divisor that `p`
/// divides.
pub proof fn lemma_not_divided_by_multiple(p: int, d: int, n: int)
    requires
        divides(p, d),
        !divides(p, n),
    ensures
        !divides(d, n),
{
    if divides(d, n) {
        lemma_divides_transitive(p, d, n);
    }
}

/// What a truncated remainder is: the dividend less the divisor times the
/// truncated quotient, smaller in magnitude than the divisor, and of the sign of
/// the dividend.
pub proof fn lemma_truncated_division(a: int, b: int)
    requires
        b != 0,
    ensures
        a == b * truncated_quotient(a, b) + truncated_remainder(a, b),
        magnitude(truncated_remainder(a, b)) < magnitude(b),
        a >= 0 ==> truncated_remainder(a, b) >= 0,
        a <= 0 ==> truncated_remainder(a, b) <= 0,
        magnitude(truncated_remainder(a, b)) == magnitude(a) % magnitude(b),
        magnitude(truncated_quotient(a, b)) == magnitude(a) / magnitude(b),
{
    let m = magnitude(a);
    let n = magnitude(b);
    lemma_fundamental_div_mod(m, b);
    lemma_fundamental_div_mod(m, n);
    assert(0 <= m % b < n);
    if b < 0 {
        let q = m / n;
        let r = m % n;
        assert(m == (-q) * b + r) by (nonlinear_arith)
            requires
                m == n * q + r,
                n == -b,
        ;
        assert(0 <= r < n);
        lemma_negative_divisor(m, b, -q, r);
    }
    if a < 0 {
        assert(a == b * (-(m / b)) + (-(m % b))) by (nonlinear_arith)
            requires
                m == b * (m / b) + m % b,
                a == -m,
        ;
    }
}

/// Division of a multiple is exact: `f * m` divided by the nonzero `f` is `m`,
/// with nothing left over, whatever the signs.
pub proof fn lemma_exact_division(f: int, m: int)
    requires
        f != 0,
    ensures
        (f * m) % f == 0,
        (f * m) / f == m,
{
    assert(f * m == m * f + 0) by (nonlinear_arith);
    if f > 0 {
        vstd::arithmetic::div_mod::lemma_fundamental_div_mod_converse(f * m, f, m, 0);
    } else {
        lemma_negative_divisor(f * m, f, m, 0);
    }
}

/// Division by a negative divisor: from `m == q * b + r` with `0 <= r < -b`,
/// `q` is the quotient and `r` the remainder.
proof fn lemma_negative_divisor(m: int, b: int, q: int, r: int)
    requires
        b < 0,
        0 <= r < -b,
        m == q * b + r,
    ensures
        m / b == q,
        m % b == r,
{
    lemma_fundamental_div_mod(m, b);
    let q0 = m / b;
    let r0 = m % b;
    assert(0 <= r0 < -b);
    assert(q0 == q) by (nonlinear_arith)
        requires
            b < 0,
            0 <= r < -b,
            0 <= r0 < -b,
            q * b + r == b * q0 + r0,
    ;
    assert(r0 == r) by (nonlinear_arith)
        requires
            q0 == q,
            q * b + r == b * q0 + r0,
    ;
}

} // verus!
