//! Stable sorting by insertion, stated over sequences.
//!
//! An order is given as a relation `before`: `before(a, b)` holds where `a`
//! has to stand in front of `b`. Two items of which neither has to stand in
//! front of the other are tied, and a stable sort leaves tied items in the
//! order in which they came.

use crate::search::{first_place, lemma_first_place, lemma_first_place_is};
use vstd::prelude::*;

verus! {

/// Where `x` goes into the sorted sequence `s`: in front of the first item
/// that it has to stand before, and so behind every item that it is tied
/// with.
pub open spec fn insert_index<T>(s: Seq<T>, x: T, before: spec_fn(T, T) -> bool) -> int {
    first_place(s, stands_behind(x, before))
}

/// The condition of having to stand behind `x`.
pub open spec fn stands_behind<T>(x: T, before: spec_fn(T, T) -> bool) -> spec_fn(T) -> bool {
    |item: T| before(x, item)
}

/// The sorted sequence `s` with `x` put in its place.
pub open spec fn stable_insert<T>(s: Seq<T>, x: T, before: spec_fn(T, T) -> bool) -> Seq<T> {
    s.insert(insert_index(s, x, before), x)
}

/// The items of `s` in the order that `before` asks for, tied items in the
/// order in which they stand in `s`.
pub open spec fn stable_sort<T>(s: Seq<T>, before: spec_fn(T, T) -> bool) -> Seq<T>
    decreases s.len(),
{
    if s.len() == 0 {
        s
    } else {
        stable_insert(stable_sort(s.drop_last(), before), s.last(), before)
    }
}

/// No item of `s` has to stand in front of an item that stands before it.
pub open spec fn ordered<T>(s: Seq<T>, before: spec_fn(T, T) -> bool) -> bool {
    forall|i: int, j: int| 0 <= i < j < s.len() ==> !before(#[trigger] s[j], #[trigger] s[i])
}

/// What makes `before` an order with ties: no two items have to stand in
/// front of each other, and where `a` has to stand in front of `b`, every
/// item has to stand behind `a` or in front of `b`.
pub open spec fn orders_with_ties<T>(before: spec_fn(T, T) -> bool) -> bool {
    &&& forall|a: T, b: T| #[trigger] before(a, b) ==> !before(b, a)
    &&& forall|a: T, b: T, c: T|
        #![trigger before(a, b), before(a, c)]
        #![trigger before(a, b), before(c, b)]
        before(a, b) ==> before(a, c) || before(c, b)
}

/// `insert_index` is the index `k` before which `x` has nothing to stand in
/// front of, and at which it has.
pub proof fn lemma_insert_index_is<T>(s: Seq<T>, x: T, before: spec_fn(T, T) -> bool, k: int)
    requires
        0 <= k <= s.len(),
        forall|j: int| 0 <= j < k ==> !before(x, #[trigger] s[j]),
        k < s.len() ==> before(x, s[k]),
    ensures
        insert_index(s, x, before) == k,
{
    lemma_first_place_is(s, stands_behind(x, before), k);
}

/// `insert_index` lies within the sequence, behind only items that `x` does
/// not have to stand in front of, and at an item that it has to.
pub proof fn lemma_insert_index_bounds<T>(s: Seq<T>, x: T, before: spec_fn(T, T) -> bool)
    ensures
        0 <= insert_index(s, x, before) <= s.len(),
        forall|j: int| 0 <= j < insert_index(s, x, before) ==> !before(x, #[trigger] s[j]),
        insert_index(s, x, before) < s.len() ==> before(x, s[insert_index(s, x, before)]),
{
    lemma_first_place(s, stands_behind(x, before));
}

/// Sorting neither drops an item nor makes one up: the sorted sequence holds
/// each item as often as the sequence that was sorted.
pub proof fn stable_sort_keeps_the_items<T>(s: Seq<T>, before: spec_fn(T, T) -> bool)
    ensures
        stable_sort(s, before).to_multiset() == s.to_multiset(),
        stable_sort(s, before).len() == s.len(),
    decreases s.len(),
{
    broadcast use vstd::seq_lib::to_multiset_build, vstd::seq_lib::to_multiset_insert;

    if s.len() > 0 {
        let front = s.drop_last();
        stable_sort_keeps_the_items(front, before);
        lemma_insert_index_bounds(stable_sort(front, before), s.last(), before);
        assert(front.push(s.last()) == s);
    }
}

/// The sorted sequence is in order.
pub proof fn stable_sort_is_ordered<T>(s: Seq<T>, before: spec_fn(T, T) -> bool)
    requires
        orders_with_ties(before),
    ensures
        ordered(stable_sort(s, before), before),
    decreases s.len(),
{
    if s.len() > 0 {
        let front = stable_sort(s.drop_last(), before);
        let x = s.last();
        stable_sort_is_ordered(s.drop_last(), before);
        lemma_insert_index_bounds(front, x, before);
        let k = insert_index(front, x, before);
        let out = front.insert(k, x);
        assert forall|i: int, j: int| 0 <= i < j < out.len() implies !before(
            #[trigger] out[j],
            #[trigger] out[i],
        ) by {
            if j < k {
                assert(out[i] == front[i] && out[j] == front[j]);
            } else if j == k {
                assert(out[i] == front[i]);
            } else if i < k {
                assert(out[i] == front[i] && out[j] == front[j - 1]);
            } else if i == k {
                // `x` stands in front of `front[k]`, which nothing behind it
                // has to stand in front of.
                assert(out[j] == front[j - 1]);
                assert(before(x, front[k]));
                if j - 1 > k {
                    assert(!before(front[j - 1], front[k]));
                }
                assert(before(x, front[j - 1]));
            } else {
                assert(out[i] == front[i - 1] && out[j] == front[j - 1]);
            }
        }
    }
}

/// Whether `a` and `b` are tied: neither has to stand in front of the other.
pub open spec fn tied<T>(a: T, b: T, before: spec_fn(T, T) -> bool) -> bool {
    !before(a, b) && !before(b, a)
}

/// The items of `s` that are tied with `x`, in their order.
pub open spec fn tied_with<T>(s: Seq<T>, x: T, before: spec_fn(T, T) -> bool) -> Seq<T> {
    s.filter(|item: T| tied(item, x, before))
}

/// The sort is stable: the items that are tied with one another stand in the
/// sorted sequence in the order in which they stood before.
pub proof fn stable_sort_keeps_ties_in_order<T>(s: Seq<T>, x: T, before: spec_fn(T, T) -> bool)
    requires
        orders_with_ties(before),
    ensures
        tied_with(stable_sort(s, before), x, before) == tied_with(s, x, before),
    decreases s.len(),
{
    reveal(Seq::filter);
    let pred = |item: T| tied(item, x, before);
    if s.len() > 0 {
        let last = s.last();
        let sorted = stable_sort(s.drop_last(), before);
        stable_sort_keeps_ties_in_order(s.drop_last(), x, before);
        stable_sort_is_ordered(s.drop_last(), before);
        lemma_insert_index_bounds(sorted, last, before);
        let k = insert_index(sorted, last, before);
        let head = sorted.take(k);
        let tail = sorted.skip(k);
        let out = sorted.insert(k, last);
        assert(sorted == head + tail);
        assert(out == (head + seq![last]) + tail);
        Seq::filter_distributes_over_add(head, tail, pred);
        Seq::filter_distributes_over_add(head + seq![last], tail, pred);
        Seq::filter_distributes_over_add(head, seq![last], pred);
        assert(seq![last].drop_last() == Seq::<T>::empty());
        assert(Seq::<T>::empty().filter(pred) == Seq::<T>::empty());
        if pred(last) {
            // Every item behind the place of `last` has to stand behind
            // `last`, so none of them is tied with what `last` is tied with.
            assert forall|j: int| 0 <= j < tail.len() implies !pred(#[trigger] tail[j]) by {
                assert(tail[j] == sorted[k + j]);
                assert(before(last, sorted[k]));
                if j > 0 {
                    assert(!before(sorted[k + j], sorted[k]));
                }
                assert(before(last, sorted[k + j]));
                assert(before(last, x) || before(x, sorted[k + j]));
            }
            assert(tail.all(|item: T| !pred(item)));
            tail.lemma_all_neg_filter_empty(pred);
            assert(tail.filter(pred) == Seq::<T>::empty());
            assert(seq![last].filter(pred) == seq![last]);
            assert(head.filter(pred) + seq![last] + Seq::<T>::empty() == head.filter(pred).push(
                last,
            ));
            assert(head.filter(pred) + Seq::<T>::empty() == head.filter(pred));
        } else {
            assert(seq![last].filter(pred) == Seq::<T>::empty());
            assert(head.filter(pred) + Seq::<T>::empty() + tail.filter(pred) == head.filter(pred)
                + tail.filter(pred));
        }
    }
}

} // verus!
