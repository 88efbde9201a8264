use vstd::prelude::*;
use vstd::relations::{sorted_by, total_ordering};
use vstd::std_specs::cmp::PartialOrdSpec;
use crate::finder::{greater, i32_values, is_first_max, is_largest_at, is_max_value, weakly_ordered};

verus! {

/// `s` sorted into ascending order.
pub open spec fn sorted_ascending(s: Seq<int>) -> Seq<int> {
    s.sort_by(|a: int, b: int| a <= b)
}

/// A sequence has at most one largest value.
pub proof fn lemma_max_value_unique(s: Seq<int>, m1: int, m2: int)
    requires
        is_max_value(s, m1),
        is_max_value(s, m2),
    ensures
        m1 == m2,
{
}

/// The largest value of a non-empty sequence is the last element of the
/// sequence sorted into ascending order.
pub proof fn lemma_max_is_last_of_sorted(s: Seq<int>, m: int)
    requires
        is_max_value(s, m),
    ensures
        m == sorted_ascending(s).last(),
{
    broadcast use vstd::seq_lib::group_to_multiset_ensures;

    let leq = |a: int, b: int| a <= b;
    assert(total_ordering(leq));
    s.lemma_sort_by_ensures(leq);
    let t = s.sort_by(leq);
    assert(t.to_multiset().len() == s.to_multiset().len());
    assert(t.len() == s.len());
    let last = t.len() - 1;
    assert(t.contains(t[last]));
    assert(s.to_multiset().count(t[last]) > 0);
    assert(s.contains(t[last]));
    assert(t.to_multiset().count(m) > 0);
    let k = choose|k: int| 0 <= k < t.len() && t[k] == m;
    if k < last {
        assert(sorted_by(t, leq));
        assert(leq(t[k], t[last]));
    }
}

/// The largest value of a one-element sequence is its element.
pub proof fn lemma_single_element(x: int, m: int)
    ensures
        is_max_value(seq![x], x),
        is_max_value(seq![x], m) <==> m == x,
{
    assert(seq![x][0] == x);
}

/// Reordering a sequence does not change its largest value.
pub proof fn lemma_max_value_permutation(s: Seq<int>, t: Seq<int>, m1: int, m2: int)
    requires
        s.to_multiset() == t.to_multiset(),
        is_max_value(s, m1),
        is_max_value(t, m2),
    ensures
        m1 == m2,
{
    broadcast use vstd::seq_lib::group_to_multiset_ensures;

    assert(s.to_multiset().count(m1) > 0);
    assert(t.contains(m1));
    assert(t.to_multiset().count(m2) > 0);
    assert(s.contains(m2));
}

/// The order of `i32` is a strict weak order on every sequence, so the
/// generic finders are exact on it.
pub proof fn lemma_i32_weakly_ordered(s: Seq<i32>)
    ensures
        <i32 as PartialOrdSpec>::obeys_partial_cmp_spec(),
        weakly_ordered(s),
{
}

/// On `i32`, the position that the generic finder yields holds the largest
/// value, and every element before it is strictly smaller: of several equal
/// largest elements, the first is taken.
pub proof fn lemma_i32_largest_at(s: Seq<i32>, i: int)
    requires
        is_largest_at(s, i),
    ensures
        is_max_value(i32_values(s), s[i] as int),
        forall|j: int| 0 <= j < i ==> s[j] < s[i],
{
    lemma_i32_weakly_ordered(s);
    assert(is_first_max(s, i));
    assert(i32_values(s)[i] == s[i] as int);
    assert forall|j: int| 0 <= j < s.len() implies #[trigger] i32_values(s)[j] <= s[i] as int by {
        assert(!greater(s[j], s[i]));
    }
    assert forall|j: int| 0 <= j < i implies s[j] < s[i] by {
        assert(greater(s[i], s[j]));
    }
}

} // verus!
