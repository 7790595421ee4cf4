use math_lib::general::errors::NumberTheoryErr;
use math_lib::number_theory::continued_fraction::continued_fraction;
use math_lib::number_theory::factorial::factorial;
use math_lib::number_theory::gcd::{gcd, gcd_recursive, gcd_subtraction};
use math_lib::number_theory::modulus::modulo;
use math_lib::number_theory::primality::{
    prime_factorization, primality, relative_primality, wilson,
};

#[test]
fn test_factorial() {
    assert_eq!(factorial(5).unwrap(), 5 * 4 * 3 * 2 * 1);
    assert_eq!(factorial(15).unwrap(), 1307674368000);
}

#[test]
fn test_wilson() {
    assert_eq!(wilson(5).unwrap(), true);
    assert_eq!(wilson(2).unwrap(), true);
    assert_eq!(wilson(15).unwrap(), false);
    // 29! is beyond every machine word: the test cannot be computed
    assert!(matches!(wilson(30), Err(NumberTheoryErr::Overflow(_))));
}

#[test]
fn test_primality() {
    assert_eq!(primality(5), true);
    assert_eq!(primality(2), true);
    assert_eq!(primality(15), false);
    assert_eq!(primality(222), false);
}

#[test]
fn test_gcd() {
    assert_eq!(gcd(1073, 29), 29);
    assert_eq!(gcd(1073, 25), 1);
}

#[test]
fn test_gcd_subtraction() {
    assert_eq!(gcd_subtraction(1073, 29), 29);
    assert_eq!(gcd_subtraction(1073, 25), 1);
}

#[test]
fn test_gcd_recursive() {
    assert_eq!(gcd_recursive(1073, 29), 29);
    assert_eq!(gcd_recursive(1073, 25), 1);
}

#[test]
fn test_continued_fraction() {
    assert_eq!(continued_fraction(649, 200), vec![3, 4, 12, 4]);
    assert_eq!(continued_fraction(43, 19), vec![2, 3, 1, 4]);
    assert_eq!(continued_fraction(19, 43), vec![0, 2, 3, 1, 4]);
    assert_eq!(continued_fraction(7, 3), vec![2, 3]);
    assert_eq!(continued_fraction(3, 7), vec![0, 2, 3]);
}

#[test]
fn test_prime_factorization() {
    assert_eq!(prime_factorization(315), vec![3, 3, 5, 7]);
    assert_eq!(prime_factorization(3), vec![3]);
    assert_eq!(prime_factorization(4), vec![2, 2]);
}

#[test]
fn modulo_is_the_remainder_plus_the_modulus() {
    assert_eq!(modulo(1, 1), 1);
    assert_eq!(modulo(38, 12), 14);
    assert_eq!(modulo(2, 5), 7);
    // a negative operand lands in (0, b]
    assert_eq!(modulo(-7, 5), 3);
    assert_eq!(modulo(-10, 5), 5);
}

#[test]
fn factorial_of_small_operands_is_one() {
    assert_eq!(factorial(0).unwrap(), 1);
    assert_eq!(factorial(1).unwrap(), 1);
    assert_eq!(factorial(-3).unwrap(), 1);
}

#[test]
fn factorial_reports_overflow_with_the_last_value_that_fit() {
    assert_eq!(factorial(13).unwrap(), 6227020800);
    assert_eq!(factorial(14).unwrap(), 87178291200);
    assert_eq!(factorial(20).unwrap(), 2432902008176640000);
    match factorial(21) {
        Err(NumberTheoryErr::Overflow(what)) => {
            assert_eq!(what, "Factorial overflow at: 2432902008176640000");
        }
        other => panic!("expected an overflow, got {:?}", other),
    }
}

#[test]
fn wilson_agrees_with_trial_division_where_it_can_be_computed() {
    for n in 1isize..=21 {
        assert_eq!(wilson(n).unwrap(), primality(n as usize), "n = {}", n);
    }
    assert!(matches!(wilson(22), Err(NumberTheoryErr::Overflow(_))));
    assert_eq!(wilson(-7).unwrap(), false);
}

#[test]
fn wilson_reports_overflow() {
    match wilson(1000) {
        Err(NumberTheoryErr::Overflow(what)) => {
            assert_eq!(what, "Factorial overflow at: 2432902008176640000");
        }
        other => panic!("expected an overflow, got {:?}", other),
    }
}

#[test]
fn primality_of_small_and_large_numbers() {
    assert_eq!(primality(0), false);
    assert_eq!(primality(1), false);
    assert_eq!(primality(3), true);
    assert_eq!(primality(4), false);
    assert_eq!(primality(25), false);
    assert_eq!(primality(49), false);
    assert_eq!(primality(97), true);
    assert_eq!(primality(225), false);
    assert_eq!(primality(7919), true);
    assert_eq!(primality(7921), false);
    // the greatest prime below 2^32 and the greatest word
    assert_eq!(primality(4294967291), true);
    assert_eq!(primality(usize::MAX), false);
}

#[test]
fn relative_primality_is_a_gcd_of_one() {
    assert_eq!(relative_primality(1073, 25), true);
    assert_eq!(relative_primality(1073, 29), false);
    assert_eq!(relative_primality(1, 0), true);
    assert_eq!(relative_primality(0, 0), false);
}

#[test]
fn the_three_gcds_agree() {
    for a in 1usize..60 {
        for b in 1usize..60 {
            let g = gcd(a, b);
            assert_eq!(g, gcd_subtraction(a, b));
            assert_eq!(g, gcd_recursive(a, b));
            assert_eq!(a % g, 0);
            assert_eq!(b % g, 0);
        }
    }
    assert_eq!(gcd(0, 0), 0);
    assert_eq!(gcd(0, 7), 7);
    assert_eq!(gcd(7, 0), 7);
    assert_eq!(gcd_recursive(0, 7), 7);
    assert_eq!(gcd_subtraction(0, 0), 0);
}

#[test]
fn prime_factorization_multiplies_back() {
    assert_eq!(prime_factorization(1), Vec::<usize>::new());
    assert_eq!(prime_factorization(2), vec![2]);
    assert_eq!(prime_factorization(6), vec![2, 3]);
    assert_eq!(prime_factorization(9), vec![3, 3]);
    assert_eq!(prime_factorization(1024), vec![2; 10]);
    assert_eq!(prime_factorization(7919 * 7919), vec![7919, 7919]);
    for n in 1usize..2000 {
        let factors = prime_factorization(n);
        assert_eq!(factors.iter().product::<usize>(), n);
        assert!(factors.iter().all(|&p| primality(p)));
        assert!(factors.windows(2).all(|w| w[0] <= w[1]));
    }
}

#[test]
fn continued_fraction_evaluates_back_to_the_ratio() {
    for a in 0usize..40 {
        for b in 1usize..40 {
            let quotients = continued_fraction(a, b);
            let (mut n, mut d) = (1usize, 0usize);
            for &q in quotients.iter().rev() {
                let next = q * n + d;
                d = n;
                n = next;
            }
            assert_eq!(n * b, d * a, "{} / {}", a, b);
            assert_eq!(gcd(n, d), 1);
        }
    }
    assert_eq!(continued_fraction(0, 5), vec![0]);
    assert_eq!(continued_fraction(10, 5), vec![2]);
}
