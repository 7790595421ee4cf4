use math_lib::number_theory::multiples::{multiples, multiples_of, sum_of_multiples};

#[test]
fn multiples_test_multiples() {
    assert_eq!(multiples(vec![3, 5], 10), vec![3, 5, 6, 9]);
    assert_eq!(
        multiples(vec![2, 5], 20),
        vec![2, 4, 5, 6, 8, 10, 12, 14, 15, 16, 18]
    );
}

#[test]
fn multiples_test_sum_of_multiples() {
    assert_eq!(sum_of_multiples(vec![3, 5], 10), 23);
    assert_eq!(sum_of_multiples(vec![2, 5], 20), 110);
}

#[test]
fn test_multiples() {
    assert_eq!(multiples(vec![3usize, 5], 10), vec![3, 5, 6, 9]);
    assert_eq!(
        multiples(vec![2usize, 5], 20),
        vec![2, 4, 5, 6, 8, 10, 12, 14, 15, 16, 18]
    );
}

#[test]
fn test_sum_of_multiples() {
    assert_eq!(sum_of_multiples(vec![3usize, 5], 10), 23);
    assert_eq!(sum_of_multiples(vec![2usize, 5], 20), 110);
}

#[test]
fn test_multiples_of() {
    assert_eq!(
        multiples_of(300000000),
        vec![300000000, 600000000, 900000000, 1200000000, 1500000000, 1800000000, 2100000000]
    );
}

#[test]
fn multiples_are_ascending_unique_and_below_the_bound() {
    let factors = vec![4u64, 6, 9, 6];
    let list = multiples(factors.clone(), 100);
    assert!(list.windows(2).all(|w| w[0] < w[1]));
    assert!(list.iter().all(|&x| x < 100 && factors.iter().any(|&f| x % f == 0)));
    for x in 1u64..100 {
        assert_eq!(list.contains(&x), factors.iter().any(|&f| x % f == 0));
    }
}

#[test]
fn multiples_at_the_edges() {
    assert_eq!(multiples(Vec::<i32>::new(), 10), Vec::<i32>::new());
    assert_eq!(multiples(vec![3], 3), Vec::<i32>::new());
    assert_eq!(multiples(vec![3], 4), vec![3]);
    assert_eq!(multiples(vec![3], 0), Vec::<i32>::new());
    assert_eq!(multiples(vec![3], -5), Vec::<i32>::new());
    // a negative factor has no positive multiple below the bound
    assert_eq!(multiples(vec![-3], 10), Vec::<i32>::new());
    assert_eq!(multiples(vec![-3, 4], 10), vec![4, 8]);
    assert_eq!(multiples(vec![1u32], 5), vec![1, 2, 3, 4]);
    // near the top of the type no product wraps
    assert_eq!(multiples(vec![100i16], i16::MAX).len(), 327);
    assert_eq!(multiples(vec![i16::MAX - 1], i16::MAX), vec![i16::MAX - 1]);
    assert_eq!(sum_of_multiples(vec![7u64, 11], 1), 0);
    assert_eq!(sum_of_multiples(vec![3u64, 5], 1000), 233168);
}

#[test]
fn multiples_of_stops_where_the_product_no_longer_fits() {
    assert_eq!(multiples_of(1000000000i32), vec![1000000000, 2000000000]);
    assert_eq!(multiples_of(i32::MAX), vec![i32::MAX]);
    assert_eq!(multiples_of(2000000000u32), vec![2000000000, 4000000000]);
    assert_eq!(multiples_of(-1000000000i32), vec![-2000000000, -1000000000]);
    assert_eq!(multiples_of(i32::MIN), vec![i32::MIN]);
    // a count that reaches the greatest value ends the list as well
    assert_eq!(multiples_of(1i8), (1..=127).collect::<Vec<i8>>());
    assert_eq!(multiples_of(-1i8), (-127..=-1).collect::<Vec<i8>>());
    assert_eq!(multiples_of(50i8), vec![50, 100]);
    assert_eq!(multiples_of(-50i8), vec![-100, -50]);
    assert_eq!(multiples_of(1u8).len(), 255);
    assert_eq!(multiples_of(-64i8), vec![-128, -64]);
    let list = multiples_of(5000000000000000000u64);
    assert_eq!(list, vec![5000000000000000000, 10000000000000000000, 15000000000000000000]);
}
