use math_lib::general::errors::NumberTheoryErr;
use math_lib::general::numbers::Integer;
use math_lib::number_theory::continued_fraction::ContinuedFraction;
use math_lib::number_theory::euclidean_algs::{Euclidean, ExtendedEuclidean};
use math_lib::number_theory::euler_totient::EulerTotient;
use math_lib::number_theory::factorial::Factorial;
use math_lib::number_theory::gcd::Gcd;
use math_lib::number_theory::modulus::Modulus;
use math_lib::number_theory::multiplicative_inverse::MultiplicativeInverse;
use math_lib::number_theory::parity::{NumParity, Parity};
use math_lib::number_theory::primality::{Primality, WilsonsPrimality};

#[test]
fn integer_operations_on_machine_words() {
    assert_eq!(<i32 as Integer>::zero(), 0);
    assert_eq!(<u64 as Integer>::one(), 1);
    assert_eq!(<i64 as Integer>::max_value(), i64::MAX);
    assert_eq!(Integer::plus(3i32, 4), 7);
    assert_eq!(Integer::minus(3i32, 4), -1);
    assert_eq!(Integer::times(-3i64, 4), -12);
    assert_eq!(Integer::quotient(-7isize, 2), -3);
    assert_eq!(Integer::remainder(-7isize, 2), -1);
    assert_eq!(Integer::quotient(7i32, -2), -3);
    assert_eq!(Integer::remainder(7i32, -2), 1);
    assert_eq!(Integer::quotient(i64::MIN, 2), i64::MIN / 2);
    assert_eq!(Integer::checked_mul(1u32 << 16, 1u32 << 15), Some(1u32 << 31));
    assert_eq!(Integer::checked_mul(1u32 << 16, 1u32 << 16), None);
    assert_eq!(Integer::checked_mul(i32::MIN, -1), None);
    assert_eq!(Integer::to_i128(u64::MAX), u64::MAX as i128);
    assert_eq!(Integer::to_i128(i64::MIN), i64::MIN as i128);
    assert!(Integer::is_less(-1i32, 0));
    assert!(Integer::is_at_most(5usize, 5));
    assert!(!Integer::is_equal(5usize, 6));
}

#[test]
fn gcd_on_signed_and_unsigned_words() {
    assert_eq!(1073usize.gcd(29), 29);
    assert_eq!(1073usize.gcd(25), 1);
    assert_eq!(1073isize.gcd(29), 29);
    assert_eq!(1073isize.gcd(25), 1);
    assert_eq!(1073usize.gcd_subtraction(29), 29);
    assert_eq!(1073isize.gcd_subtraction(25), 1);
    assert_eq!(1073u64.euclidean(29), 29);
    assert_eq!(1073i64.euclidean(25), 1);
    // with a negative operand the result is a gcd up to sign
    assert_eq!((-4i32).gcd(6), 2);
    assert_eq!(4i32.gcd(-6), -2);
    assert_eq!(i64::MIN.gcd(6), -2);
    assert_eq!(0u32.gcd(0), 0);
}

#[test]
fn extended_euclidean_gives_bezout_coefficients() {
    assert_eq!(1073isize.egcd(29), (29, 0, 1));
    assert_eq!(1073isize.egcd(25), (1, 12, -515));
    assert_eq!(1073isize.bezout(25), (12, -515));
    assert_eq!(240i64.extended_euclidean(46), (2, -9, 47, 23, -120));
    assert_eq!(5u32.extended_euclidean(0), (5, 1, 0, 0, 1));
    assert_eq!(0u32.extended_euclidean(5), (5, 0, 1, 1, 0));
    for a in -40i64..40 {
        for b in -40i64..40 {
            let (g, x, y, qx, qy) = a.extended_euclidean(b);
            assert_eq!(g, a * x + b * y);
            assert_eq!(0, a * qx + b * qy);
            assert_eq!(g, a.gcd(b));
        }
    }
    let (g, x, y) = i64::MAX.egcd(i64::MAX - 1);
    assert_eq!(g as i128, i64::MAX as i128 * x as i128 + (i64::MAX - 1) as i128 * y as i128);
    assert_eq!(g, 1);
}

#[test]
fn multiplicative_inverse_exists_for_coprime_operands() {
    assert_eq!(1isize.multiplicative_inverse(1).unwrap(), 0);
    assert_eq!(9isize.multiplicative_inverse(26).unwrap(), 3);
    assert_eq!(1073isize.multiplicative_inverse(25).unwrap(), 12);
    match 1073isize.multiplicative_inverse(29) {
        Err(NumberTheoryErr::InverseDNE(what)) => {
            assert_eq!(what, "No modular multiplicative inverse exists 1073 mod 29");
        }
        other => panic!("expected no inverse, got {:?}", other),
    }
    match (-4i32).multiplicative_inverse(6) {
        Err(e) => assert_eq!(
            e.message(),
            "Inverse does not exist:\nNo modular multiplicative inverse exists -4 mod 6\n"
        ),
        other => panic!("expected no inverse, got {:?}", other),
    }
    for a in 1i64..50 {
        for b in 2i64..50 {
            match a.multiplicative_inverse(b) {
                Ok(x) => assert_eq!((a * x - 1).rem_euclid(b), 0),
                Err(_) => assert_ne!(a.gcd(b), 1),
            }
        }
    }
}

#[test]
fn modulus_on_signed_and_unsigned_words() {
    assert_eq!(1usize.modulus(1), 1);
    assert_eq!(38usize.modulus(12), 14);
    assert_eq!(2usize.modulus(5), 7);
    assert_eq!(1isize.modulus(1), 1);
    assert_eq!(38isize.modulus(12), 14);
    assert_eq!(2isize.modulus(5), 7);
    assert_eq!((-38i64).modulus(12), 10);
}

#[test]
fn factorial_on_several_widths() {
    assert_eq!(1usize.factorial().unwrap(), 1);
    assert_eq!(2usize.factorial().unwrap(), 2);
    assert_eq!(3usize.factorial().unwrap(), 6);
    assert_eq!(4isize.factorial().unwrap(), 24);
    assert_eq!(11isize.factorial().unwrap(), 39916800);
    assert_eq!(12i32.factorial().unwrap(), 479001600);
    assert_eq!(13i64.factorial().unwrap(), 6227020800);
    assert_eq!(20u64.factorial().unwrap(), 2432902008176640000);
    match 13i32.factorial() {
        Err(e) => assert_eq!(
            e.message(),
            "Operation overflow error:\nFactorial overflow at: 479001600\n"
        ),
        other => panic!("expected an overflow, got {:?}", other),
    }
    assert!(matches!(13u32.factorial(), Err(NumberTheoryErr::Overflow(_))));
    assert!(matches!(21u64.factorial(), Err(NumberTheoryErr::Overflow(_))));
}

#[test]
fn wilson_on_several_widths() {
    assert_eq!(2usize.wilson().unwrap(), true);
    assert_eq!(3usize.wilson().unwrap(), true);
    assert_eq!(5isize.wilson().unwrap(), true);
    assert_eq!(15isize.wilson().unwrap(), false);
    assert_eq!(4usize.wilson().unwrap(), false);
    assert_eq!(9isize.wilson().unwrap(), false);
    assert_eq!(1u32.wilson().unwrap(), false);
    assert_eq!(13i32.wilson().unwrap(), true);
    assert!(matches!(14i32.wilson(), Err(NumberTheoryErr::Overflow(_))));
    assert!(matches!(22usize.wilson(), Err(NumberTheoryErr::Overflow(_))));
    assert!(matches!(29isize.wilson(), Err(NumberTheoryErr::Overflow(_))));
    assert!(matches!(1000i32.wilson(), Err(NumberTheoryErr::Overflow(_))));
}

#[test]
fn primality_on_several_widths() {
    assert_eq!(2usize.primality(), true);
    assert_eq!(3isize.primality(), true);
    assert_eq!(5u32.primality(), true);
    assert_eq!(15i32.primality(), false);
    assert_eq!(30u64.primality(), false);
    assert_eq!(225i64.primality(), false);
    assert_eq!((-7i32).primality(), false);
    assert_eq!(i32::MAX.primality(), true);
    assert_eq!(u32::MAX.primality(), false);
    assert_eq!(9223372036854775783i64.primality(), true);
    assert_eq!(1073i32.relative_primality(25), true);
    assert_eq!(1073i32.relative_primality(29), false);
    // coprime, but the descent by remainders ends in minus one
    assert_eq!(4i32.relative_primality(-1), false);
}

#[test]
fn prime_factorization_on_several_widths() {
    assert_eq!(2usize.prime_factorization(), vec![2]);
    assert_eq!(3isize.prime_factorization(), vec![3]);
    assert_eq!(4u32.prime_factorization(), vec![2, 2]);
    assert_eq!(5i32.prime_factorization(), vec![5]);
    assert_eq!(6u64.prime_factorization(), vec![2, 3]);
    assert_eq!(9i64.prime_factorization(), vec![3, 3]);
    assert_eq!(315usize.prime_factorization(), vec![3, 3, 5, 7]);
    assert_eq!(i32::MAX.prime_factorization(), vec![i32::MAX]);
    assert_eq!(u32::MAX.prime_factorization(), vec![3, 5, 17, 257, 65537]);
}

#[test]
fn euler_totient_counts_the_coprime_numbers_below() {
    for (n, expected) in [(2usize, 1usize), (3, 2), (5, 4), (9, 6), (200, 80)] {
        assert_eq!(n.euler_totient(), expected);
        assert_eq!(n.primality_checked_euler_totient(), expected);
    }
    for (n, expected) in [(2isize, 1isize), (3, 2), (5, 4), (9, 6), (200, 80)] {
        assert_eq!(n.euler_totient(), expected);
        assert_eq!(n.primality_checked_euler_totient(), expected);
    }
    assert_eq!(1u32.euler_totient(), 0);
    assert_eq!(0u32.euler_totient(), 0);
    assert_eq!((-5i32).euler_totient(), 0);
    assert_eq!(97u64.primality_checked_euler_totient(), 96);
}

#[test]
fn continued_frac_on_signed_and_unsigned_words() {
    assert_eq!(649usize.continued_frac(200), vec![3, 4, 12, 4]);
    assert_eq!(43isize.continued_frac(19), vec![2, 3, 1, 4]);
    assert_eq!(19u32.continued_frac(43), vec![0, 2, 3, 1, 4]);
    assert_eq!(7i64.continued_frac(3), vec![2, 3]);
    assert_eq!(3u64.continued_frac(7), vec![0, 2, 3]);
}

#[test]
fn parity_of_signed_and_unsigned_words() {
    for (a, even) in [(1usize, false), (2, true), (3, false), (300, true), (301, false)] {
        assert_eq!(a.is_even(), even);
        assert_eq!(a.is_odd(), !even);
    }
    for (a, even) in [
        (1isize, false),
        (2, true),
        (3, false),
        (300, true),
        (301, false),
        (-1, false),
        (-2, true),
        (-3, false),
        (-300, true),
        (-301, false),
    ] {
        assert_eq!(a.is_even(), even);
        assert_eq!(a.is_odd(), !even);
    }
    assert_eq!(4u32.parity(), NumParity::Even);
    assert_eq!((-7i64).parity(), NumParity::Odd);
    assert_eq!(0i32.parity(), NumParity::Even);
}

#[test]
fn the_narrow_words_work_to_the_edge_of_their_range() {
    assert_eq!(5i8.factorial().unwrap(), 120);
    match 6i8.factorial() {
        Err(NumberTheoryErr::Overflow(what)) => assert_eq!(what, "Factorial overflow at: 120"),
        other => panic!("expected an overflow, got {:?}", other),
    }
    assert_eq!(5u8.factorial().unwrap(), 120);
    assert_eq!(8u16.factorial().unwrap(), 40320);
    assert!(matches!(9u16.factorial(), Err(NumberTheoryErr::Overflow(_))));
    assert_eq!(7i16.factorial().unwrap(), 5040);
    // trial division stops at the square root without squaring past the type
    assert_eq!(127i8.primality(), true);
    assert_eq!(121i8.primality(), false);
    assert_eq!(251u8.primality(), true);
    assert_eq!(255u8.primality(), false);
    assert_eq!(32749i16.primality(), true);
    assert_eq!(65521u16.primality(), true);
    assert_eq!(65535u16.prime_factorization(), vec![3, 5, 17, 257]);
    assert_eq!(126i8.prime_factorization(), vec![2, 3, 3, 7]);
    assert_eq!(i8::MIN.gcd(6), -2);
    assert_eq!(5i8.wilson().unwrap(), true);
    assert_eq!(6i8.wilson().unwrap(), false);
    assert!(matches!(7i8.wilson(), Err(NumberTheoryErr::Overflow(_))));
    assert_eq!(100u8.gcd(75), 25);
    assert_eq!(99i8.egcd(78), (3, -11, 14));
    assert_eq!(17i8.multiplicative_inverse(120).unwrap(), -7);
    assert_eq!(200u8.euler_totient(), 80);
    assert_eq!(u8::MAX.euler_totient(), 128);
    assert_eq!(255u8.continued_frac(254), vec![1, 254]);
}
