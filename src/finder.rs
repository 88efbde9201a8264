use vstd::prelude::*;
use vstd::std_specs::cmp::PartialOrdSpec;

verus! {

/// `m` is a largest value of `s`: it occurs in `s` and no element exceeds it.
pub open spec fn is_max_value(s: Seq<int>, m: int) -> bool {
    &&& s.contains(m)
    &&& forall|j: int| 0 <= j < s.len() ==> #[trigger] s[j] <= m
}

/// The elements of a slice of `i32`, as mathematical integers.
pub open spec fn i32_values(s: Seq<i32>) -> Seq<int> {
    s.map_values(|x: i32| x as int)
}

/// Returns the largest element of `list`, which must not be empty.
pub fn largest_i32(list: &[i32]) -> (r: i32)
    requires
        list@.len() > 0,
    ensures
        is_max_value(i32_values(list@), r as int),
{
    let mut largest: i32 = list[0];
    let ghost mut at: int = 0;
    let mut i: usize = 1;
    while i < list.len()
        invariant
            0 < i <= list@.len(),
            0 <= at < i,
            list@[at] == largest,
            forall|j: int| 0 <= j < i ==> list@[j] <= largest,
        decreases list@.len() - i,
    {
        if list[i] > largest {
            largest = list[i];
            proof {
                at = i as int;
            }
        }
        i = i + 1;
    }
    assert(i32_values(list@)[at] == largest as int);
    largest
}

/// The elements of a slice of `char`, as their Unicode scalar values.
pub open spec fn char_codes(s: Seq<char>) -> Seq<int> {
    s.map_values(|c: char| c as int)
}

/// Returns a copy of the largest character of `list`, which must not be empty.
pub fn largest_char_copy(list: &[char]) -> (r: char)
    requires
        list@.len() > 0,
    ensures
        is_max_value(char_codes(list@), r as int),
{
    let mut largest: char = list[0];
    let ghost mut at: int = 0;
    let mut i: usize = 1;
    while i < list.len()
        invariant
            0 < i <= list@.len(),
            0 <= at < i,
            list@[at] == largest,
            forall|j: int| 0 <= j < i ==> (list@[j] as int) <= (largest as int),
        decreases list@.len() - i,
    {
        if list[i] > largest {
            largest = list[i];
            proof {
                at = i as int;
            }
        }
        i = i + 1;
    }
    assert(char_codes(list@)[at] == largest as int);
    largest
}

/// Returns a reference to the first occurrence of the largest character of
/// `list`, which must not be empty.
pub fn largest_char_ref(list: &[char]) -> (r: &char)
    requires
        list@.len() > 0,
    ensures
        is_max_value(char_codes(list@), *r as int),
{
    let mut best: usize = 0;
    let mut i: usize = 1;
    while i < list.len()
        invariant
            0 < i <= list@.len(),
            0 <= best < i,
            forall|j: int| 0 <= j < i ==> (list@[j] as int) <= (list@[best as int] as int),
        decreases list@.len() - i,
    {
        if list[i] > list[best] {
            best = i;
        }
        i = i + 1;
    }
    assert(char_codes(list@)[best as int] == list@[best as int] as int);
    &list[best]
}

/// `a > b` as `T`'s `PartialOrd` decides it.
pub open spec fn greater<T: PartialOrd>(a: T, b: T) -> bool {
    a.partial_cmp_spec(&b) == Some(core::cmp::Ordering::Greater)
}

/// On the elements of `s`, `greater` is a strict weak order: it is
/// irreflexive and transitive, and whenever `a > c`, every `b` lies above `c`
/// or below `a`. Total orders such as that of the integers satisfy this.
pub open spec fn weakly_ordered<T: PartialOrd>(s: Seq<T>) -> bool {
    &&& forall|a: int| 0 <= a < s.len() ==> !greater(#[trigger] s[a], s[a])
    &&& forall|a: int, b: int, c: int|
        #![trigger s[a], s[b], s[c]]
        0 <= a < s.len() && 0 <= b < s.len() && 0 <= c < s.len() ==> {
            &&& greater(s[a], s[b]) && greater(s[b], s[c]) ==> greater(s[a], s[c])
            &&& greater(s[a], s[c]) ==> greater(s[a], s[b]) || greater(s[b], s[c])
        }
}

/// Position `i` holds the first largest element of `s`: nothing in `s` is
/// greater than it, and it is greater than everything before it.
pub open spec fn is_first_max<T: PartialOrd>(s: Seq<T>, i: int) -> bool {
    &&& 0 <= i < s.len()
    &&& forall|j: int| 0 <= j < s.len() ==> !greater(#[trigger] s[j], s[i])
    &&& forall|j: int| 0 <= j < i ==> greater(s[i], #[trigger] s[j])
}

/// What a left-to-right scan that keeps the earliest largest element yields
/// at position `i`: nothing after `i` is greater than `s[i]`, and where the
/// order is a strict weak order on `s`, `i` is the first largest position.
pub open spec fn is_largest_at<T: PartialOrd>(s: Seq<T>, i: int) -> bool {
    &&& 0 <= i < s.len()
    &&& T::obeys_partial_cmp_spec() ==> forall|j: int|
        i < j < s.len() ==> !greater(#[trigger] s[j], s[i])
    &&& T::obeys_partial_cmp_spec() && weakly_ordered(s) ==> is_first_max(s, i)
}

/// Returns the position of the first largest element of `list`, or `None`
/// when `list` is empty.
pub fn largest_index<T: PartialOrd>(list: &[T]) -> (r: Option<usize>)
    ensures
        r is None <==> list@.len() == 0,
        r matches Some(i) ==> is_largest_at(list@, i as int),
{
    if list.len() == 0 {
        return None;
    }
    let mut best: usize = 0;
    let mut i: usize = 1;
    while i < list.len()
        invariant
            0 < i <= list@.len(),
            0 <= best < i,
            T::obeys_partial_cmp_spec() ==> forall|j: int|
                best < j < i ==> !greater(#[trigger] list@[j], list@[best as int]),
            T::obeys_partial_cmp_spec() && weakly_ordered(list@) ==> {
                &&& forall|j: int| 0 <= j < i ==> !greater(#[trigger] list@[j], list@[best as int])
                &&& forall|j: int| 0 <= j < best ==> greater(list@[best as int], #[trigger] list@[j])
            },
        decreases list@.len() - i,
    {
        if list[i] > list[best] {
            proof {
                if T::obeys_partial_cmp_spec() && weakly_ordered(list@) {
                    let s = list@;
                    assert(!greater(s[i as int], s[i as int]));
                    assert forall|j: int| 0 <= j < i implies !greater(#[trigger] s[j], s[i as int]) by {
                        assert(!greater(s[j], s[best as int]));
                        assert(greater(s[j], s[i as int]) && greater(s[i as int], s[best as int])
                            ==> greater(s[j], s[best as int]));
                    }
                    assert forall|j: int| 0 <= j < i implies greater(s[i as int], #[trigger] s[j]) by {
                        assert(!greater(s[j], s[best as int]));
                        assert(greater(s[i as int], s[best as int])
                            ==> greater(s[i as int], s[j]) || greater(s[j], s[best as int]));
                    }
                }
            }
            best = i;
        }
        i = i + 1;
    }
    Some(best)
}

/// Returns a reference to the first largest element of `list`, which must
/// not be empty.
pub fn largest_generic<T: PartialOrd>(list: &[T]) -> (r: &T)
    requires
        list@.len() > 0,
    ensures
        exists|i: int| is_largest_at(list@, i) && *r == list@[i],
{
    let best = largest_index(list).unwrap();
    &list[best]
}

/// Returns a copy of the first largest element of `list`, which must not be
/// empty.
pub fn largest_generic_copy<T: PartialOrd + Copy>(list: &[T]) -> (r: T)
    requires
        list@.len() > 0,
    ensures
        exists|i: int| is_largest_at(list@, i) && r == list@[i],
{
    let best = largest_index(list).unwrap();
    list[best]
}

} // verus!
