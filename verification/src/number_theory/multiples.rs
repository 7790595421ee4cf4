//! Multiples of a set of factors below a bound, their sum, and the multiples
//! of one factor that a numeric type can hold.
use crate::general::numbers::{values, Integer};
use crate::general::sequences::{sum_of, total_of};
use crate::number_theory::divisibility::{
    divides, lemma_divides_multiple, lemma_divides_quotient, lemma_exact_division,
};
use vstd::prelude::*;

verus! {

/// `x` is a multiple of one of the positive members of `factors`.
pub open spec fn has_factor_among(x: int, factors: Seq<int>) -> bool {
    exists|i: int| 0 <= i < factors.len() && divides(#[trigger] factors[i], x)
}

/// Each member is less than the next.
pub open spec fn is_strictly_ascending(s: Seq<int>) -> bool {
    forall|i: int, j: int| 0 <= i < j < s.len() ==> s[i] < s[j]
}

/// `s` lists, in ascending order and once each, the positive numbers below
/// `max` that are multiples of a positive member of `factors`.
pub open spec fn is_multiples_below(s: Seq<int>, factors: Seq<int>, max: int) -> bool {
    &&& is_strictly_ascending(s)
    &&& forall|x: int| #[trigger] s.contains(x) <==> 0 < x < max && has_factor_among(x, factors)
}

/// The positive numbers below `max` that are multiples of a positive member
/// of `factors`, in ascending order.
pub open spec fn multiples_below(factors: Seq<int>, max: int) -> Seq<int>
    decreases max,
{
    if max <= 1 {
        Seq::empty()
    } else if has_factor_among(max - 1, factors) {
        multiples_below(factors, max - 1).push(max - 1)
    } else {
        multiples_below(factors, max - 1)
    }
}

/// The sum of the positive numbers below `max` that are multiples of a
/// positive member of `factors`.
pub open spec fn sum_of_multiples_below(factors: Seq<int>, max: int) -> int {
    total_of(multiples_below(factors, max))
}

/// `x` is `factor` taken `k` times, for a `k` from one to `highest`.
pub open spec fn is_counted_multiple(x: int, factor: int, highest: int) -> bool {
    factor != 0 && x % factor == 0 && 1 <= x / factor <= highest
}

/// `s` lists, in ascending order and once each, the values between `lowest`
/// and `highest` that are `factor` taken a number of times that is itself
/// between one and `highest`.
pub open spec fn is_multiples_within(s: Seq<int>, factor: int, lowest: int, highest: int) -> bool {
    &&& is_strictly_ascending(s)
    &&& forall|x: int| #[trigger]
        s.contains(x) <==> lowest <= x <= highest && is_counted_multiple(x, factor, highest)
}

/// One factor more: the multiples of the first `n + 1` factors are those of
/// the first `n` and those of the one after them.
pub proof fn lemma_one_more_factor(x: int, factors: Seq<int>, n: int)
    requires
        0 <= n < factors.len(),
    ensures
        has_factor_among(x, factors.take(n + 1)) <==> has_factor_among(x, factors.take(n))
            || divides(factors[n], x),
{
    let shorter = factors.take(n);
    let longer = factors.take(n + 1);
    if has_factor_among(x, longer) {
        let i = choose|i: int| 0 <= i < longer.len() && divides(#[trigger] longer[i], x);
        if i < n {
            assert(divides(shorter[i], x));
        }
    }
    if has_factor_among(x, shorter) {
        let i = choose|i: int| 0 <= i < shorter.len() && divides(#[trigger] shorter[i], x);
        assert(divides(longer[i], x));
    }
    if divides(factors[n], x) {
        assert(divides(longer[n], x));
    }
}

/// The multiples below a bound are listed as the contract says: in strictly
/// ascending order, so without duplicates, and holding exactly the positive
/// numbers below the bound that a positive factor divides.
pub proof fn lemma_multiples_below_listed(factors: Seq<int>, max: int)
    ensures
        is_multiples_below(multiples_below(factors, max), factors, max),
    decreases max,
{
    let s = multiples_below(factors, max);
    if max <= 1 {
        assert forall|x: int| #[trigger]
            s.contains(x) <==> 0 < x < max && has_factor_among(x, factors) by {}
    } else {
        let top = max - 1;
        let lower = multiples_below(factors, top);
        lemma_multiples_below_listed(factors, top);
        assert forall|x: int| #[trigger]
            s.contains(x) <==> 0 < x < max && has_factor_among(x, factors) by {
            if has_factor_among(top, factors) {
                lemma_push_contains(lower, top, x);
            }
            assert(lower.contains(x) <==> 0 < x < top && has_factor_among(x, factors));
        }
        if has_factor_among(top, factors) {
            assert forall|i: int, j: int| 0 <= i < j < s.len() implies s[i] < s[j] by {
                assert(lower.contains(lower[i]));
                if j < lower.len() {
                    assert(s[i] == lower[i] && s[j] == lower[j]);
                }
            }
        }
    }
}

/// There is one such list: a list of the multiples below `max` is
/// `multiples_below`.
pub proof fn lemma_multiples_below_unique(s: Seq<int>, factors: Seq<int>, max: int)
    requires
        is_multiples_below(s, factors, max),
    ensures
        s == multiples_below(factors, max),
    decreases max,
{
    if max <= 1 {
        if s.len() > 0 {
            assert(s.contains(s[0]));
        }
        assert(s =~= multiples_below(factors, max));
    } else {
        let top = max - 1;
        if has_factor_among(top, factors) {
            assert(s.contains(top));
            let i = choose|i: int| 0 <= i < s.len() && s[i] == top;
            let last = s.len() - 1;
            assert(s.contains(s[last]));
            assert(i == last);
            let rest = s.drop_last();
            assert forall|x: int| #[trigger]
                rest.contains(x) <==> 0 < x < top && has_factor_among(x, factors) by {
                if rest.contains(x) {
                    let k = choose|k: int| 0 <= k < rest.len() && rest[k] == x;
                    assert(s[k] == x);
                    assert(s.contains(x));
                }
                if 0 < x < top && has_factor_among(x, factors) {
                    assert(s.contains(x));
                    let k = choose|k: int| 0 <= k < s.len() && s[k] == x;
                    assert(rest[k] == x);
                }
            }
            lemma_multiples_below_unique(rest, factors, top);
            assert(s =~= rest.push(top));
        } else {
            assert forall|x: int| #[trigger]
                s.contains(x) <==> 0 < x < top && has_factor_among(x, factors) by {}
            lemma_multiples_below_unique(s, factors, top);
        }
    }
}

/// The multiples of the positive `factor` below `max`, in ascending order.
fn multiples_of_one<T: Integer>(factor: T, max: T) -> (run: Vec<T>)
    requires
        factor.value() > 0,
    ensures
        is_strictly_ascending(values(run@)),
        forall|x: int| #[trigger]
            values(run@).contains(x) <==> 0 < x < max.value() && divides(factor.value(), x),
{
    let one = T::one();
    let mut run: Vec<T> = Vec::new();
    let mut i = T::one();
    let ghost f = factor.value();
    proof {
        T::lemma_word_range();
        max.lemma_in_range();
    }
    loop
        invariant_except_break
            i.value() >= 1,
            run@.len() == i.value() - 1,
        invariant
            f == factor.value(),
            f > 0,
            one.value() == 1,
            max.value() <= T::highest(),
            T::lowest() <= 0,
            forall|k: int| 0 <= k < run@.len() ==> (#[trigger] values(run@)[k]) == f * (k + 1),
            forall|k: int| 0 <= k < run@.len() ==> (#[trigger] values(run@)[k]) < max.value(),
        ensures
            max.value() <= f * (run@.len() + 1),
        decreases T::highest() - i.value(),
    {
        proof {
            i.lemma_in_range();
        }
        match factor.checked_mul(i) {
            Some(current) => {
                if current.is_less(max) {
                    proof {
                        assert(values(run@.push(current)) =~= values(run@).push(current.value()));
                        assert(i.value() <= f * i.value()) by (nonlinear_arith)
                            requires
                                f >= 1,
                                i.value() >= 1,
                        ;
                    }
                    run.push(current);
                } else {
                    break ;
                }
            },
            None => {
                break ;
            },
        }
        i = i.plus(one);
    }
    proof {
        let s = values(run@);
        let n = s.len() as int;
        assert forall|a: int, b: int| 0 <= a < b < s.len() implies s[a] < s[b] by {
            assert(f * (a + 1) < f * (b + 1)) by (nonlinear_arith)
                requires
                    f > 0,
                    a < b,
            ;
        }
        assert forall|x: int| #[trigger]
            s.contains(x) <==> 0 < x < max.value() && divides(f, x) by {
            if s.contains(x) {
                let k = choose|k: int| 0 <= k < s.len() && s[k] == x;
                assert(s[k] == f * (k + 1));
                lemma_divides_multiple(f, k + 1);
                assert(f * (k + 1) > 0) by (nonlinear_arith)
                    requires
                        f > 0,
                        k >= 0,
                ;
            }
            if 0 < x < max.value() && divides(f, x) {
                lemma_divides_quotient(f, x);
                let q = x / f;
                assert(1 <= q <= n) by (nonlinear_arith)
                    requires
                        x == f * q,
                        0 < x,
                        x < f * (n + 1),
                        f > 0,
                ;
                assert(s[q - 1] == f * (q - 1 + 1));
            }
        }
    }
    run
}

/// The union of two strictly ascending lists, strictly ascending.
fn merge<T: Integer>(first: &Vec<T>, second: &Vec<T>) -> (merged: Vec<T>)
    requires
        is_strictly_ascending(values(first@)),
        is_strictly_ascending(values(second@)),
    ensures
        is_strictly_ascending(values(merged@)),
        forall|x: int| #[trigger]
            values(merged@).contains(x) <==> values(first@).contains(x) || values(
                second@,
            ).contains(x),
{
    let mut merged: Vec<T> = Vec::new();
    let mut i: usize = 0;
    let mut j: usize = 0;
    let ghost a = values(first@);
    let ghost b = values(second@);
    while i < first.len() || j < second.len()
        invariant
            a == values(first@),
            b == values(second@),
            is_strictly_ascending(a),
            is_strictly_ascending(b),
            i <= first.len(),
            j <= second.len(),
            is_strictly_ascending(values(merged@)),
            forall|x: int| #[trigger]
                values(merged@).contains(x) <==> a.take(i as int).contains(x) || b.take(
                    j as int,
                ).contains(x),
            forall|k: int|
                0 <= k < merged@.len() && i < first.len() ==> (#[trigger] values(merged@)[k])
                    < a[i as int],
            forall|k: int|
                0 <= k < merged@.len() && j < second.len() ==> (#[trigger] values(merged@)[k])
                    < b[j as int],
        decreases first.len() - i + second.len() - j,
    {
        let ghost before = values(merged@);
        let take_first = if i < first.len() && j < second.len() {
            !second[j].is_less(first[i])
        } else {
            i < first.len()
        };
        let take_second = if i < first.len() && j < second.len() {
            !first[i].is_less(second[j])
        } else {
            j < second.len()
        };
        let next = if take_first {
            first[i]
        } else {
            second[j]
        };
        proof {
            let v = next.value();
            assert(values(merged@.push(next)) =~= before.push(v));
            let after = before.push(v);
            let ni = if take_first {
                i + 1
            } else {
                i as int
            };
            let nj = if take_second {
                j + 1
            } else {
                j as int
            };
            assert forall|x: int| #[trigger]
                after.contains(x) <==> a.take(ni).contains(x) || b.take(nj).contains(x) by {
                lemma_push_contains(before, v, x);
                if take_first {
                    lemma_take_contains(a, i as int, x);
                }
                if take_second {
                    lemma_take_contains(b, j as int, x);
                }
            }
            assert forall|p: int, q: int| 0 <= p < q < after.len() implies after[p] < after[q] by {
                if q < before.len() {
                    assert(after[p] == before[p] && after[q] == before[q]);
                } else {
                    assert(after[p] == before[p]);
                }
            }
        }
        merged.push(next);
        let ghost old_i = i as int;
        let ghost old_j = j as int;
        if take_first {
            i = i + 1;
        }
        if take_second {
            j = j + 1;
        }
        proof {
            let after = values(merged@);
            assert(after =~= before.push(next.value()));
            assert forall|k: int| 0 <= k < after.len() && i < first.len() implies (
            #[trigger] after[k]) < a[i as int] by {
                if k < before.len() {
                    assert(after[k] == before[k]);
                }
                if take_first {
                    assert(a[old_i] < a[old_i + 1]);
                }
            }
            assert forall|k: int| 0 <= k < after.len() && j < second.len() implies (
            #[trigger] after[k]) < b[j as int] by {
                if k < before.len() {
                    assert(after[k] == before[k]);
                }
                if take_second {
                    assert(b[old_j] < b[old_j + 1]);
                }
            }
        }
    }
    proof {
        assert(a.take(i as int) =~= a);
        assert(b.take(j as int) =~= b);
    }
    merged
}

/// What a list one member longer contains.
proof fn lemma_push_contains(s: Seq<int>, v: int, x: int)
    ensures
        s.push(v).contains(x) <==> s.contains(x) || x == v,
{
    let t = s.push(v);
    if s.contains(x) {
        let k = choose|k: int| 0 <= k < s.len() && s[k] == x;
        assert(t[k] == x);
    }
    if x == v {
        assert(t[s.len() as int] == x);
    }
    if t.contains(x) {
        let k = choose|k: int| 0 <= k < t.len() && t[k] == x;
        if k < s.len() {
            assert(s[k] == x);
        }
    }
}

/// What a prefix one member longer contains.
proof fn lemma_take_contains(s: Seq<int>, n: int, x: int)
    requires
        0 <= n < s.len(),
    ensures
        s.take(n + 1).contains(x) <==> s.take(n).contains(x) || x == s[n],
{
    assert(s.take(n + 1) =~= s.take(n).push(s[n]));
    lemma_push_contains(s.take(n), s[n], x);
}

/// The list in the opposite order.
fn reversed<T: Integer>(list: Vec<T>) -> (turned: Vec<T>)
    ensures
        turned@.len() == list@.len(),
        forall|k: int| 0 <= k < list@.len() ==> #[trigger] turned@[k] == list@[list@.len() - 1 - k],
{
    let mut turned: Vec<T> = Vec::new();
    let mut i: usize = list.len();
    while i > 0
        invariant
            i <= list.len(),
            turned@.len() == list@.len() - i,
            forall|k: int|
                0 <= k < turned@.len() ==> #[trigger] turned@[k] == list@[list@.len() - 1 - k],
        decreases i,
    {
        i = i - 1;
        turned.push(list[i]);
    }
    turned
}

/// Every multiple of `factor` that the type can hold: `factor` taken once,
/// twice, and so on until the product no longer fits or the count has reached
/// the greatest value. The list is in ascending order, so for a negative
/// factor it starts with the product of the largest count. The factor is not
/// zero.
pub fn multiples_of<T: Integer>(factor: T) -> (list: Vec<T>)
    requires
        factor.value() != 0,
    ensures
        is_multiples_within(values(list@), factor.value(), T::lowest(), T::highest()),
{
    let one = T::one();
    let top = T::max_value();
    let mut run: Vec<T> = Vec::new();
    let mut i = T::one();
    let ghost f = factor.value();
    proof {
        T::lemma_word_range();
    }
    loop
        invariant_except_break
            i.value() >= 1,
            run@.len() == i.value() - 1,
        invariant
            f == factor.value(),
            f != 0,
            one.value() == 1,
            top.value() == T::highest(),
            T::lowest() <= 0,
            forall|k: int| 0 <= k < run@.len() ==> (#[trigger] values(run@)[k]) == f * (k + 1),
            forall|k: int|
                0 <= k < run@.len() ==> T::lowest() <= (#[trigger] values(run@)[k])
                    <= T::highest(),
        ensures
            run@.len() <= T::highest(),
            run@.len() < T::highest() ==> !(T::lowest() <= f * (run@.len() + 1) <= T::highest()),
        decreases T::highest() - i.value(),
    {
        proof {
            i.lemma_in_range();
        }
        match factor.checked_mul(i) {
            Some(current) => {
                proof {
                    current.lemma_in_range();
                    assert(values(run@.push(current)) =~= values(run@).push(current.value()));
                }
                run.push(current);
            },
            None => {
                break ;
            },
        }
        if i.is_equal(top) {
            break ;
        }
        i = i.plus(one);
    }
    let ghost s = values(run@);
    let ghost n = s.len() as int;
    proof {
        assert forall|x: int| #[trigger]
            s.contains(x) <==> T::lowest() <= x <= T::highest() && is_counted_multiple(
                x,
                f,
                T::highest(),
            ) by {
            if s.contains(x) {
                let k = choose|k: int| 0 <= k < s.len() && s[k] == x;
                assert(s[k] == f * (k + 1));
                lemma_exact_division(f, k + 1);
            }
            if T::lowest() <= x <= T::highest() && is_counted_multiple(x, f, T::highest()) {
                let q = x / f;
                vstd::arithmetic::div_mod::lemma_fundamental_div_mod(x, f);
                if q > n {
                    // the product that did not fit is no larger in magnitude than x
                    assert(T::lowest() <= f * (n + 1) <= T::highest()) by (nonlinear_arith)
                        requires
                            x == f * q,
                            q >= n + 1,
                            n >= 0,
                            T::lowest() <= x <= T::highest(),
                            T::lowest() <= 0 <= T::highest(),
                    ;
                }
                assert(s[q - 1] == f * (q - 1 + 1));
            }
        }
    }
    if factor.is_less(T::zero()) {
        let list = reversed(run);
        proof {
            let t = values(list@);
            assert forall|k: int| 0 <= k < t.len() implies #[trigger] t[k] == s[n - 1 - k] by {
                assert(list@[k] == run@[n - 1 - k]);
            }
            assert forall|a: int, b: int| 0 <= a < b < t.len() implies t[a] < t[b] by {
                let p = n - 1 - a;
                let q = n - 1 - b;
                assert(s[p] == f * (p + 1) && s[q] == f * (q + 1));
                assert(f * (p + 1) < f * (q + 1)) by (nonlinear_arith)
                    requires
                        f < 0,
                        q < p,
                ;
            }
            assert forall|x: int| #[trigger] t.contains(x) <==> s.contains(x) by {
                if t.contains(x) {
                    let k = choose|k: int| 0 <= k < t.len() && t[k] == x;
                    assert(s[n - 1 - k] == x);
                }
                if s.contains(x) {
                    let k = choose|k: int| 0 <= k < s.len() && s[k] == x;
                    assert(t[n - 1 - k] == x);
                }
            }
        }
        list
    } else {
        proof {
            assert forall|a: int, b: int| 0 <= a < b < s.len() implies s[a] < s[b] by {
                assert(s[a] == f * (a + 1) && s[b] == f * (b + 1));
                assert(f * (a + 1) < f * (b + 1)) by (nonlinear_arith)
                    requires
                        f > 0,
                        a < b,
                ;
            }
        }
        run
    }
}

/// The positive multiples of the members of `factors` that are strictly below
/// `max`, each once, in ascending order. Only a positive factor has such
/// multiples. No factor is zero.
pub fn multiples<T: Integer>(factors: Vec<T>, max: T) -> (list: Vec<T>)
    requires
        forall|i: int| 0 <= i < factors@.len() ==> (#[trigger] values(factors@)[i]) != 0,
    ensures
        values(list@) == multiples_below(values(factors@), max.value()),
        is_multiples_below(values(list@), values(factors@), max.value()),
{
    let zero = T::zero();
    let mut list: Vec<T> = Vec::new();
    let mut n: usize = 0;
    let ghost all = values(factors@);
    proof {
        assert forall|x: int| #[trigger]
            values(list@).contains(x) <==> 0 < x < max.value() && has_factor_among(
                x,
                all.take(0),
            ) by {}
    }
    while n < factors.len()
        invariant
            n <= factors.len(),
            all == values(factors@),
            zero.value() == 0,
            is_multiples_below(values(list@), all.take(n as int), max.value()),
        decreases factors.len() - n,
    {
        let factor = factors[n];
        let ghost before = values(list@);
        proof {
            assert(all[n as int] == factor.value());
        }
        if zero.is_less(factor) {
            let run = multiples_of_one(factor, max);
            list = merge(&list, &run);
        }
        proof {
            assert forall|x: int| #[trigger]
                values(list@).contains(x) <==> 0 < x < max.value() && has_factor_among(
                    x,
                    all.take(n + 1),
                ) by {
                lemma_one_more_factor(x, all, n as int);
                assert(before.contains(x) <==> 0 < x < max.value() && has_factor_among(
                    x,
                    all.take(n as int),
                ));
            }
        }
        n = n + 1;
    }
    proof {
        assert(all.take(n as int) =~= all);
        lemma_multiples_below_unique(values(list@), all, max.value());
    }
    list
}

/// The sum of the positive multiples of the members of `factors` that are
/// strictly below `max`, each counted once. No factor is zero, and the sum
/// fits the type.
pub fn sum_of_multiples<T: Integer>(factors: Vec<T>, max: T) -> (sum: T)
    requires
        forall|i: int| 0 <= i < factors@.len() ==> (#[trigger] values(factors@)[i]) != 0,
        sum_of_multiples_below(values(factors@), max.value()) <= T::highest(),
    ensures
        sum.value() == sum_of_multiples_below(values(factors@), max.value()),
{
    let ghost all = values(factors@);
    let list = multiples(factors, max);
    proof {
        assert forall|i: int| 0 <= i < list@.len() implies (#[trigger] values(list@)[i]) >= 0 by {
            assert(values(list@).contains(values(list@)[i]));
        }
    }
    sum_of(&list)
}

} // verus!
