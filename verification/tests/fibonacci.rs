use math_lib::number_theory::fibonacci::{
    even_fibonacci_sequence, fibonacci, fibonacci_sequence, max_even_fibonacci_sequence,
    max_fibonacci, max_fibonacci_sequence, max_odd_fibonacci_sequence, odd_fibonacci_sequence,
    sum_max_even_fibonacci, sum_max_fibonacci, sum_max_odd_fibonacci, sum_n_even_fibonacci,
    sum_n_fibonacci, sum_n_odd_fibonacci,
};

#[test]
fn test_fibonacci() {
    assert_eq!(fibonacci(0), 0);
    assert_eq!(fibonacci(1), 1);
    assert_eq!(fibonacci(2), 1);
    assert_eq!(fibonacci(3), 2);
    assert_eq!(fibonacci(4), 3);
    assert_eq!(fibonacci(5), 5);
    assert_eq!(fibonacci(6), 8);
    assert_eq!(fibonacci(7), 13);
    assert_eq!(fibonacci(8), 21);
}

#[test]
fn test_max_fibonacci() {
    assert_eq!(max_fibonacci(100), 89);
}

#[test]
fn test_fibonacci_sqeuence() {
    assert_eq!(
        fibonacci_sequence(12),
        vec![0, 1, 1, 2, 3, 5, 8, 13, 21, 34, 55, 89, 144]
    );
}

#[test]
fn test_max_fibonacci_sqeuence() {
    assert_eq!(
        max_fibonacci_sequence(144),
        vec![0, 1, 1, 2, 3, 5, 8, 13, 21, 34, 55, 89, 144]
    );
}

#[test]
fn test_even_fibonacci_sqeuence() {
    assert_eq!(even_fibonacci_sequence(12), vec![0, 2, 8, 34, 144]);
}

#[test]
fn test_odd_fibonacci_sqeuence() {
    assert_eq!(odd_fibonacci_sequence(12), vec![1, 1, 3, 5, 13, 21, 55, 89]);
}

#[test]
fn test_max_even_fibonacci_sqeuence() {
    assert_eq!(max_even_fibonacci_sequence(144), vec![0, 2, 8, 34, 144]);
}

#[test]
fn test_max_odd_fibonacci_sqeuence() {
    assert_eq!(
        max_odd_fibonacci_sequence(144),
        vec![1, 1, 3, 5, 13, 21, 55, 89]
    );
}

#[test]
fn test_sum_n_fibonacci() {
    assert_eq!(sum_n_fibonacci(4), 7);
}

#[test]
fn test_sum_n_even_fibonacci() {
    assert_eq!(sum_n_even_fibonacci(4), 2);
}

#[test]
fn test_sum_n_odd_fibonacci() {
    assert_eq!(sum_n_odd_fibonacci(4), 5);
}

#[test]
fn test_sum_max_fibonacci() {
    assert_eq!(sum_max_fibonacci(3), 7);
}

#[test]
fn test_sum_max_even_fibonacci() {
    assert_eq!(sum_max_even_fibonacci(3), 2);
}

#[test]
fn test_sum_max_odd_fibonacci() {
    assert_eq!(sum_max_odd_fibonacci(3), 5);
}

#[test]
fn fibonacci_sequence_of_eight_steps() {
    assert_eq!(fibonacci_sequence(8), vec![0, 1, 1, 2, 3, 5, 8, 13, 21]);
    assert_eq!(fibonacci_sequence(0), vec![0]);
    assert_eq!(fibonacci_sequence(1), vec![0, 1]);
}

#[test]
fn fibonacci_runs_in_linear_time_up_to_the_last_term_of_32_bits() {
    assert_eq!(fibonacci(47), 2971215073);
    assert_eq!(fibonacci(40), 102334155);
}

#[test]
fn max_fibonacci_at_the_edges() {
    assert_eq!(max_fibonacci(0), 0);
    assert_eq!(max_fibonacci(1), 0);
    assert_eq!(max_fibonacci(2), 1);
    assert_eq!(max_fibonacci(3), 2);
    assert_eq!(max_fibonacci(89), 55);
    assert_eq!(max_fibonacci(90), 89);
    // the bound is a word, and so is the answer
    let top = max_fibonacci(usize::MAX);
    assert!(top < usize::MAX);
    assert!(top.checked_add(max_fibonacci(top)).map_or(true, |next| next >= usize::MAX));
}

#[test]
fn sequences_by_value_at_the_edges() {
    assert_eq!(max_fibonacci_sequence(0), vec![0]);
    assert_eq!(max_fibonacci_sequence(1), vec![0, 1, 1]);
    assert_eq!(max_fibonacci_sequence(4), vec![0, 1, 1, 2, 3]);
    assert_eq!(max_even_fibonacci_sequence(0), vec![0]);
    assert_eq!(max_odd_fibonacci_sequence(0), Vec::<usize>::new());
    assert_eq!(max_even_fibonacci_sequence(7), vec![0, 2]);
    assert_eq!(max_odd_fibonacci_sequence(7), vec![1, 1, 3, 5]);
    let all = max_fibonacci_sequence(usize::MAX);
    assert!(all.windows(3).all(|w| w[2] == w[0] + w[1]));
    assert!(all[all.len() - 1].checked_add(all[all.len() - 2]).is_none());
}

#[test]
fn sums_are_the_sums_of_the_sequences() {
    for steps in 0usize..40 {
        assert_eq!(sum_n_fibonacci(steps), fibonacci_sequence(steps).iter().sum());
        assert_eq!(sum_n_even_fibonacci(steps), even_fibonacci_sequence(steps).iter().sum());
        assert_eq!(sum_n_odd_fibonacci(steps), odd_fibonacci_sequence(steps).iter().sum());
    }
    for max in 0usize..200 {
        assert_eq!(sum_max_fibonacci(max), max_fibonacci_sequence(max).iter().sum());
        assert_eq!(sum_max_even_fibonacci(max), max_even_fibonacci_sequence(max).iter().sum());
        assert_eq!(sum_max_odd_fibonacci(max), max_odd_fibonacci_sequence(max).iter().sum());
    }
    assert_eq!(sum_n_fibonacci(10), 143);
    assert_eq!(sum_max_even_fibonacci(4000000), 4613732);
}
