//! The first item of a sequence that meets a condition.

use vstd::prelude::*;

verus! {

/// The place of the first item of `s` that `hit` holds of, or the length of
/// `s` where it holds of none.
pub open spec fn first_place<T>(s: Seq<T>, hit: spec_fn(T) -> bool) -> int
    decreases s.len(),
{
    if s.len() == 0 || hit(s[0]) {
        0
    } else {
        1 + first_place(s.drop_first(), hit)
    }
}

/// `first_place` lies within the sequence or at its end. `hit` holds of the
/// item there and of none before it.
pub proof fn lemma_first_place<T>(s: Seq<T>, hit: spec_fn(T) -> bool)
    ensures
        0 <= first_place(s, hit) <= s.len(),
        first_place(s, hit) < s.len() ==> hit(s[first_place(s, hit)]),
        forall|j: int| 0 <= j < first_place(s, hit) ==> !hit(#[trigger] s[j]),
    decreases s.len(),
{
    if !(s.len() == 0 || hit(s[0])) {
        let rest = s.drop_first();
        lemma_first_place(rest, hit);
        let k = first_place(rest, hit);
        assert forall|j: int| 0 <= j < k + 1 implies !hit(#[trigger] s[j]) by {
            if j > 0 {
                assert(rest[j - 1] == s[j]);
            }
        }
        if k < rest.len() {
            assert(rest[k] == s[k + 1]);
        }
    }
}

/// The place before which `hit` holds of nothing and at which it holds is
/// the first place.
pub proof fn lemma_first_place_is<T>(s: Seq<T>, hit: spec_fn(T) -> bool, k: int)
    requires
        0 <= k <= s.len(),
        forall|j: int| 0 <= j < k ==> !hit(#[trigger] s[j]),
        k < s.len() ==> hit(s[k]),
    ensures
        first_place(s, hit) == k,
    decreases s.len(),
{
    if s.len() > 0 && k > 0 {
        let rest = s.drop_first();
        assert forall|j: int| 0 <= j < k - 1 implies !hit(#[trigger] rest[j]) by {
            assert(rest[j] == s[j + 1]);
        }
        assert(!hit(s[0]));
        lemma_first_place_is(rest, hit, k - 1);
    }
}

} // verus!
