//! Sums over sequences of integers, and the list of machine values that
//! carries one.
use crate::general::numbers::{values, Integer};
use vstd::prelude::*;

verus! {

/// The sum of the members of a sequence.
pub open spec fn total_of(s: Seq<int>) -> int
    decreases s.len(),
{
    if s.len() == 0 {
        0
    } else {
        total_of(s.drop_last()) + s.last()
    }
}

/// The sum of a prefix: nothing for the empty one, and one member more for
/// each step.
pub proof fn lemma_total_prefixes(s: Seq<int>, n: int)
    requires
        0 <= n <= s.len(),
    ensures
        n == 0 ==> total_of(s.take(n)) == 0,
        n > 0 ==> total_of(s.take(n)) == total_of(s.take(n - 1)) + s[n - 1],
{
    if n > 0 {
        assert(s.take(n).drop_last() =~= s.take(n - 1));
    }
}

/// Where no member is negative, neither is the sum.
pub proof fn lemma_total_nonnegative(s: Seq<int>)
    requires
        forall|i: int| 0 <= i < s.len() ==> s[i] >= 0,
    ensures
        total_of(s) >= 0,
    decreases s.len(),
{
    if s.len() > 0 {
        lemma_total_nonnegative(s.drop_last());
    }
}

/// Where no member is negative, the sum of a prefix is at most the whole sum.
pub proof fn lemma_total_monotone(s: Seq<int>, n: int)
    requires
        0 <= n <= s.len(),
        forall|i: int| 0 <= i < s.len() ==> s[i] >= 0,
    ensures
        0 <= total_of(s.take(n)) <= total_of(s),
    decreases s.len() - n,
{
    if n == s.len() {
        assert(s.take(n) =~= s);
        lemma_total_nonnegative(s);
    } else {
        lemma_total_monotone(s, n + 1);
        lemma_total_prefixes(s, n + 1);
        lemma_total_nonnegative(s.take(n));
    }
}

/// The sum of a list of values none of which is negative, for a sum that fits
/// the type.
pub fn sum_of<T: Integer>(list: &Vec<T>) -> (sum: T)
    requires
        forall|i: int| 0 <= i < list@.len() ==> (#[trigger] values(list@)[i]) >= 0,
        total_of(values(list@)) <= T::highest(),
    ensures
        sum.value() == total_of(values(list@)),
{
    let mut sum = T::zero();
    let mut i: usize = 0;
    proof {
        T::lemma_word_range();
        lemma_total_prefixes(values(list@), 0);
    }
    while i < list.len()
        invariant
            i <= list.len(),
            sum.value() == total_of(values(list@).take(i as int)),
            forall|i: int| 0 <= i < list@.len() ==> (#[trigger] values(list@)[i]) >= 0,
            total_of(values(list@)) <= T::highest(),
            T::lowest() <= 0,
        decreases list.len() - i,
    {
        proof {
            lemma_total_prefixes(values(list@), i as int + 1);
            lemma_total_monotone(values(list@), i as int + 1);
            lemma_total_monotone(values(list@), i as int);
            assert(values(list@)[i as int] == list@[i as int].value());
        }
        sum = sum.plus(list[i]);
        i = i + 1;
    }
    proof {
        assert(values(list@).take(list.len() as int) =~= values(list@));
    }
    sum
}

} // verus!
