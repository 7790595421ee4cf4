//! The Fibonacci sequence: single terms, prefixes by index or by value, their
//! even and odd members, and the sums of each.
//!
//! Every term is computed by iteration on two running values. A function that
//! takes an index asks for the term at that index to fit a machine word; one
//! that takes a bound on the values needs no such condition, because it stops
//! before the word is exceeded. A function that sums asks for the sum to fit.
use crate::general::numbers::values;
use crate::general::sequences::{sum_of, total_of};
use vstd::prelude::*;

verus! {

/// The term of index `n`, counted from zero: `F(0) = 0`, `F(1) = 1`, and each
/// later term the sum of the two before it.
pub open spec fn fibonacci_number(n: nat) -> nat
    decreases n,
{
    if n == 0 {
        0
    } else if n == 1 {
        1
    } else {
        fibonacci_number((n - 1) as nat) + fibonacci_number((n - 2) as nat)
    }
}

/// Whether a value is kept by a choice of parities.
pub open spec fn is_kept(v: int, keep_even: bool, keep_odd: bool) -> bool {
    if v % 2 == 0 {
        keep_even
    } else {
        keep_odd
    }
}

/// Those of the first `count` terms whose parity is kept, in order.
pub open spec fn fibonacci_members(count: nat, keep_even: bool, keep_odd: bool) -> Seq<int>
    decreases count,
{
    if count == 0 {
        Seq::empty()
    } else {
        let earlier = fibonacci_members((count - 1) as nat, keep_even, keep_odd);
        let term = fibonacci_number((count - 1) as nat) as int;
        if is_kept(term, keep_even, keep_odd) {
            earlier.push(term)
        } else {
            earlier
        }
    }
}

/// The first `count` terms are those that do not exceed `max`.
pub open spec fn is_count_up_to(count: nat, max: int) -> bool {
    count >= 1 && fibonacci_number((count - 1) as nat) <= max < fibonacci_number(count)
}

/// The index of the first term above `max`, searched from `from` on.
pub open spec fn first_index_above(max: int, from: nat) -> nat
    decreases max + 2 - from,
    via first_index_above_terminates
{
    if fibonacci_number(from) > max {
        from
    } else {
        first_index_above(max, from + 1)
    }
}

#[via_fn]
proof fn first_index_above_terminates(max: int, from: nat) {
    lemma_fibonacci_at_least(from);
}

/// How many terms do not exceed `max`: the index of the first term above it.
/// No term is negative, so for a negative bound that is none.
pub open spec fn terms_up_to(max: int) -> nat {
    first_index_above(max, 0)
}

/// Each term is at least its index less one.
pub proof fn lemma_fibonacci_at_least(n: nat)
    ensures
        fibonacci_number(n) >= n - 1,
    decreases n,
{
    if n >= 2 {
        lemma_fibonacci_at_least((n - 1) as nat);
        lemma_fibonacci_at_least((n - 2) as nat);
        if n <= 4 {
            reveal_with_fuel(fibonacci_number, 5);
        }
    }
}

/// The search finds the count: from an index up to which no term exceeds
/// `max`, it ends at the index of the first term that does.
pub proof fn lemma_first_index_above(max: int, from: nat)
    requires
        forall|i: nat| i < from ==> fibonacci_number(i) <= max,
    ensures
        from <= first_index_above(max, from),
        fibonacci_number(first_index_above(max, from)) > max,
        forall|i: nat| i < first_index_above(max, from) ==> fibonacci_number(i) <= max,
    decreases max + 2 - from,
{
    lemma_fibonacci_at_least(from);
    if fibonacci_number(from) <= max {
        lemma_first_index_above(max, from + 1);
    }
}

/// The count that goes with a bound is `terms_up_to`.
pub proof fn lemma_terms_up_to(count: nat, max: int)
    ensures
        is_count_up_to(count, max) <==> max >= 0 && count == terms_up_to(max),
{
    lemma_first_index_above(max, 0);
    let found = terms_up_to(max);
    if max >= 0 {
        assert(fibonacci_number(0) <= max);
        assert(found >= 1);
        assert(fibonacci_number((found - 1) as nat) <= max);
        assert(is_count_up_to(found, max));
        if is_count_up_to(count, max) {
            lemma_count_up_to_unique(count, found, max);
        }
    } else {
        if is_count_up_to(count, max) {
            assert(fibonacci_number((count - 1) as nat) >= 0);
        }
    }
}

/// At most one count goes with a bound.
pub proof fn lemma_count_up_to_unique(first: nat, second: nat, max: int)
    requires
        is_count_up_to(first, max),
        is_count_up_to(second, max),
    ensures
        first == second,
{
    if first < second {
        lemma_fibonacci_grows(first, (second - 1) as nat);
    }
    if second < first {
        lemma_fibonacci_grows(second, (first - 1) as nat);
    }
}

/// The terms do not decrease.
pub proof fn lemma_fibonacci_grows(i: nat, j: nat)
    requires
        i <= j,
    ensures
        fibonacci_number(i) <= fibonacci_number(j),
    decreases j,
{
    if i < j {
        if j >= 2 {
            lemma_fibonacci_grows(i, (j - 1) as nat);
        }
    }
}

/// The terms up to index forty-seven fit in 32 bits, and so in every machine
/// word; the forty-seventh is 2971215073.
pub proof fn lemma_fibonacci_fits(n: nat)
    requires
        n <= 47,
    ensures
        fibonacci_number(n) <= 2971215073,
        fibonacci_number(n) <= usize::MAX,
{
    lemma_fibonacci_grows(n, 47);
    assert(fibonacci_number(47) == 2971215073) by {
        assert(fibonacci_number(0) == 0);
        assert(fibonacci_number(1) == 1);
        assert(fibonacci_number(2) == 1);
        assert(fibonacci_number(3) == 2);
        assert(fibonacci_number(4) == 3);
        assert(fibonacci_number(5) == 5);
        assert(fibonacci_number(6) == 8);
        assert(fibonacci_number(7) == 13);
        assert(fibonacci_number(8) == 21);
        assert(fibonacci_number(9) == 34);
        assert(fibonacci_number(10) == 55);
        assert(fibonacci_number(11) == 89);
        assert(fibonacci_number(12) == 144);
        assert(fibonacci_number(13) == 233);
        assert(fibonacci_number(14) == 377);
        assert(fibonacci_number(15) == 610);
        assert(fibonacci_number(16) == 987);
        assert(fibonacci_number(17) == 1597);
        assert(fibonacci_number(18) == 2584);
        assert(fibonacci_number(19) == 4181);
        assert(fibonacci_number(20) == 6765);
        assert(fibonacci_number(21) == 10946);
        assert(fibonacci_number(22) == 17711);
        assert(fibonacci_number(23) == 28657);
        assert(fibonacci_number(24) == 46368);
        assert(fibonacci_number(25) == 75025);
        assert(fibonacci_number(26) == 121393);
        assert(fibonacci_number(27) == 196418);
        assert(fibonacci_number(28) == 317811);
        assert(fibonacci_number(29) == 514229);
        assert(fibonacci_number(30) == 832040);
        assert(fibonacci_number(31) == 1346269);
        assert(fibonacci_number(32) == 2178309);
        assert(fibonacci_number(33) == 3524578);
        assert(fibonacci_number(34) == 5702887);
        assert(fibonacci_number(35) == 9227465);
        assert(fibonacci_number(36) == 14930352);
        assert(fibonacci_number(37) == 24157817);
        assert(fibonacci_number(38) == 39088169);
        assert(fibonacci_number(39) == 63245986);
        assert(fibonacci_number(40) == 102334155);
        assert(fibonacci_number(41) == 165580141);
        assert(fibonacci_number(42) == 267914296);
        assert(fibonacci_number(43) == 433494437);
        assert(fibonacci_number(44) == 701408733);
        assert(fibonacci_number(45) == 1134903170);
        assert(fibonacci_number(46) == 1836311903);
    }
}

/// With every parity kept, the members are the terms themselves.
pub proof fn lemma_all_members(count: nat)
    ensures
        fibonacci_members(count, true, true).len() == count,
        forall|i: int|
            0 <= i < count ==> #[trigger] fibonacci_members(count, true, true)[i]
                == fibonacci_number(i as nat),
    decreases count,
{
    if count > 0 {
        lemma_all_members((count - 1) as nat);
    }
}

/// Whether a word is kept by a choice of parities.
fn keeps(v: usize, keep_even: bool, keep_odd: bool) -> (r: bool)
    ensures
        r == is_kept(v as int, keep_even, keep_odd),
{
    if v % 2 == 0 {
        keep_even
    } else {
        keep_odd
    }
}

/// Those of the terms up to index `steps` whose parity is kept.
fn members_to_index(steps: usize, keep_even: bool, keep_odd: bool) -> (members: Vec<usize>)
    requires
        fibonacci_number(steps as nat) <= usize::MAX,
    ensures
        values(members@) == fibonacci_members((steps + 1) as nat, keep_even, keep_odd),
{
    let mut members: Vec<usize> = Vec::new();
    // the term at index i, and the one before it; before the first stands one
    let mut current: usize = 0;
    let mut previous: usize = 1;
    let mut i: usize = 0;
    assert(values(members@) =~= fibonacci_members(0, keep_even, keep_odd));
    while i < steps
        invariant
            i <= steps,
            fibonacci_number(steps as nat) <= usize::MAX,
            current == fibonacci_number(i as nat),
            previous == if i == 0 {
                1
            } else {
                fibonacci_number((i - 1) as nat)
            },
            values(members@) == fibonacci_members(i as nat, keep_even, keep_odd),
        decreases steps - i,
    {
        proof {
            lemma_fibonacci_grows((i + 1) as nat, steps as nat);
        }
        if keeps(current, keep_even, keep_odd) {
            assert(values(members@.push(current)) =~= values(members@).push(current as int));
            members.push(current);
        }
        let next = previous + current;
        previous = current;
        current = next;
        i = i + 1;
    }
    if keeps(current, keep_even, keep_odd) {
        assert(values(members@.push(current)) =~= values(members@).push(current as int));
        members.push(current);
    }
    members
}

/// Those of the terms not above `max` whose parity is kept.
fn members_to_value(max: usize, keep_even: bool, keep_odd: bool) -> (members: Vec<usize>)
    ensures
        values(members@) == fibonacci_members(terms_up_to(max as int), keep_even, keep_odd),
{
    let mut members: Vec<usize> = Vec::new();
    let mut current: usize = 0;
    let mut next: usize = 1;
    let ghost mut k: nat = 0;
    assert(values(members@) =~= fibonacci_members(0, keep_even, keep_odd));
    loop
        invariant_except_break
            current == fibonacci_number(k),
            next == fibonacci_number(k + 1),
            current <= max,
            values(members@) == fibonacci_members(k, keep_even, keep_odd),
        ensures
            is_count_up_to(k, max as int),
            values(members@) == fibonacci_members(k, keep_even, keep_odd),
        decreases 2 * usize::MAX - current - next,
    {
        if keeps(current, keep_even, keep_odd) {
            assert(values(members@.push(current)) =~= values(members@).push(current as int));
            members.push(current);
        }
        if next > max {
            proof {
                k = k + 1;
            }
            break ;
        }
        proof {
            lemma_fibonacci_grows(1, k + 1);
            assert(fibonacci_number(k + 2) == fibonacci_number(k + 1) + fibonacci_number(k));
            assert(values(members@) == fibonacci_members(k + 1, keep_even, keep_odd));
        }
        match current.checked_add(next) {
            Some(sum) => {
                current = next;
                next = sum;
                proof {
                    k = k + 1;
                }
            },
            None => {
                // the term after `next` is beyond every word, so `next` is the last
                if keeps(next, keep_even, keep_odd) {
                    assert(values(members@.push(next)) =~= values(members@).push(next as int));
                    members.push(next);
                }
                proof {
                    k = k + 2;
                    assert(values(members@) == fibonacci_members(k, keep_even, keep_odd));
                }
                break ;
            },
        }
    }
    proof {
        lemma_terms_up_to(k, max as int);
    }
    members
}

/// The term of index `steps`.
pub fn fibonacci(steps: usize) -> (term: usize)
    requires
        fibonacci_number(steps as nat) <= usize::MAX,
    ensures
        term == fibonacci_number(steps as nat),
{
    let mut current: usize = 0;
    let mut previous: usize = 1;
    let mut i: usize = 0;
    while i < steps
        invariant
            i <= steps,
            fibonacci_number(steps as nat) <= usize::MAX,
            current == fibonacci_number(i as nat),
            previous == if i == 0 {
                1
            } else {
                fibonacci_number((i - 1) as nat)
            },
        decreases steps - i,
    {
        proof {
            lemma_fibonacci_grows((i + 1) as nat, steps as nat);
        }
        let next = previous + current;
        previous = current;
        current = next;
        i = i + 1;
    }
    current
}

/// The largest term below `max`; zero when `max` is zero and no term is below
/// it.
pub fn max_fibonacci(max: usize) -> (term: usize)
    ensures
        max == 0 ==> term == 0,
        max > 0 ==> term == fibonacci_number((terms_up_to(max - 1) - 1) as nat) && term < max,
{
    if max == 0 {
        return 0;
    }
    let mut current: usize = 0;
    let mut next: usize = 1;
    let ghost mut k: nat = 0;
    while next < max
        invariant
            current == fibonacci_number(k),
            next == fibonacci_number(k + 1),
            current < max,
        decreases 2 * usize::MAX - current - next,
    {
        proof {
            lemma_fibonacci_grows(1, k + 1);
            assert(fibonacci_number(k + 2) == fibonacci_number(k + 1) + fibonacci_number(k));
        }
        match current.checked_add(next) {
            Some(sum) => {
                current = next;
                next = sum;
                proof {
                    k = k + 1;
                }
            },
            None => {
                // the term after `next` is beyond every word, so `next` is the last
                proof {
                    assert(is_count_up_to(k + 2, max - 1));
                    lemma_terms_up_to(k + 2, max - 1);
                }
                return next;
            },
        }
    }
    proof {
        assert(is_count_up_to(k + 1, max - 1));
        lemma_terms_up_to(k + 1, max - 1);
    }
    current
}

/// The terms up to index `steps`.
pub fn fibonacci_sequence(steps: usize) -> (terms: Vec<usize>)
    requires
        fibonacci_number(steps as nat) <= usize::MAX,
    ensures
        terms@.len() == steps + 1,
        forall|i: int| 0 <= i <= steps ==> #[trigger] terms@[i] == fibonacci_number(i as nat),
{
    let terms = members_to_index(steps, true, true);
    proof {
        lemma_all_members((steps + 1) as nat);
        assert forall|i: int| 0 <= i <= steps implies #[trigger] terms@[i] == fibonacci_number(
            i as nat,
        ) by {
            assert(values(terms@)[i] == terms@[i] as int);
        }
    }
    terms
}

/// The terms that do not exceed `max`.
pub fn max_fibonacci_sequence(max: usize) -> (terms: Vec<usize>)
    ensures
        terms@.len() == terms_up_to(max as int),
        forall|i: int|
            0 <= i < terms@.len() ==> #[trigger] terms@[i] == fibonacci_number(i as nat),
{
    let terms = members_to_value(max, true, true);
    proof {
        let count = terms_up_to(max as int);
        lemma_all_members(count);
        assert forall|i: int| 0 <= i < terms@.len() implies #[trigger] terms@[i]
            == fibonacci_number(i as nat) by {
            assert(values(terms@)[i] == terms@[i] as int);
        }
    }
    terms
}

/// The even terms among those up to index `steps`.
pub fn even_fibonacci_sequence(steps: usize) -> (terms: Vec<usize>)
    requires
        fibonacci_number(steps as nat) <= usize::MAX,
    ensures
        values(terms@) == fibonacci_members((steps + 1) as nat, true, false),
{
    members_to_index(steps, true, false)
}

/// The odd terms among those up to index `steps`.
pub fn odd_fibonacci_sequence(steps: usize) -> (terms: Vec<usize>)
    requires
        fibonacci_number(steps as nat) <= usize::MAX,
    ensures
        values(terms@) == fibonacci_members((steps + 1) as nat, false, true),
{
    members_to_index(steps, false, true)
}

/// The even terms among those that do not exceed `max`.
pub fn max_even_fibonacci_sequence(max: usize) -> (terms: Vec<usize>)
    ensures
        values(terms@) == fibonacci_members(terms_up_to(max as int), true, false),
{
    members_to_value(max, true, false)
}

/// The odd terms among those that do not exceed `max`.
pub fn max_odd_fibonacci_sequence(max: usize) -> (terms: Vec<usize>)
    ensures
        values(terms@) == fibonacci_members(terms_up_to(max as int), false, true),
{
    members_to_value(max, false, true)
}

/// The sum of the terms up to index `steps`.
pub fn sum_n_fibonacci(steps: usize) -> (sum: usize)
    requires
        fibonacci_number(steps as nat) <= usize::MAX,
        total_of(fibonacci_members((steps + 1) as nat, true, true)) <= usize::MAX,
    ensures
        sum == total_of(fibonacci_members((steps + 1) as nat, true, true)),
{
    let terms = members_to_index(steps, true, true);
    sum_of(&terms)
}

/// The sum of the even terms among those up to index `steps`.
pub fn sum_n_even_fibonacci(steps: usize) -> (sum: usize)
    requires
        fibonacci_number(steps as nat) <= usize::MAX,
        total_of(fibonacci_members((steps + 1) as nat, true, false)) <= usize::MAX,
    ensures
        sum == total_of(fibonacci_members((steps + 1) as nat, true, false)),
{
    let terms = members_to_index(steps, true, false);
    sum_of(&terms)
}

/// The sum of the odd terms among those up to index `steps`.
pub fn sum_n_odd_fibonacci(steps: usize) -> (sum: usize)
    requires
        fibonacci_number(steps as nat) <= usize::MAX,
        total_of(fibonacci_members((steps + 1) as nat, false, true)) <= usize::MAX,
    ensures
        sum == total_of(fibonacci_members((steps + 1) as nat, false, true)),
{
    let terms = members_to_index(steps, false, true);
    sum_of(&terms)
}

/// The sum of the terms that do not exceed `max`.
pub fn sum_max_fibonacci(max: usize) -> (sum: usize)
    requires
        total_of(fibonacci_members(terms_up_to(max as int), true, true)) <= usize::MAX,
    ensures
        sum == total_of(fibonacci_members(terms_up_to(max as int), true, true)),
{
    let terms = members_to_value(max, true, true);
    sum_of(&terms)
}

/// The sum of the even terms among those that do not exceed `max`.
pub fn sum_max_even_fibonacci(max: usize) -> (sum: usize)
    requires
        total_of(fibonacci_members(terms_up_to(max as int), true, false)) <= usize::MAX,
    ensures
        sum == total_of(fibonacci_members(terms_up_to(max as int), true, false)),
{
    let terms = members_to_value(max, true, false);
    sum_of(&terms)
}

/// The sum of the odd terms among those that do not exceed `max`.
pub fn sum_max_odd_fibonacci(max: usize) -> (sum: usize)
    requires
        total_of(fibonacci_members(terms_up_to(max as int), false, true)) <= usize::MAX,
    ensures
        sum == total_of(fibonacci_members(terms_up_to(max as int), false, true)),
{
    let terms = members_to_value(max, false, true);
    sum_of(&terms)
}

} // verus!
