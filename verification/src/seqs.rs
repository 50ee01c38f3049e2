//! First-match search over sequences, generic in the predicate, with the
//! lemmas that connect a forward scan to the recursive definition.

use vstd::prelude::*;

verus! {

/// Index of the first element satisfying `pred`, or -1 if none does.
pub open spec fn find_first<A>(s: Seq<A>, pred: spec_fn(A) -> bool) -> int
    decreases s.len(),
{
    if s.len() == 0 {
        -1
    } else if pred(s[0]) {
        0
    } else {
        let r = find_first(s.subrange(1, s.len() as int), pred);
        if r < 0 {
            -1
        } else {
            r + 1
        }
    }
}

pub proof fn lemma_find_first_found<A>(s: Seq<A>, pred: spec_fn(A) -> bool, d: int)
    requires
        0 <= d < s.len(),
        pred(s[d]),
        forall|j: int| 0 <= j < d ==> !pred(#[trigger] s[j]),
    ensures
        find_first(s, pred) == d,
    decreases s.len(),
{
    if d > 0 {
        let t = s.subrange(1, s.len() as int);
        assert(pred(t[d - 1]));
        assert(forall|j: int| 0 <= j < d - 1 ==> #[trigger] t[j] == s[j + 1] && !pred(t[j]));
        lemma_find_first_found(t, pred, d - 1);
    }
}

pub proof fn lemma_find_first_none<A>(s: Seq<A>, pred: spec_fn(A) -> bool)
    requires
        forall|j: int| 0 <= j < s.len() ==> !pred(#[trigger] s[j]),
    ensures
        find_first(s, pred) == -1,
    decreases s.len(),
{
    if s.len() > 0 {
        let t = s.subrange(1, s.len() as int);
        assert(forall|j: int| 0 <= j < t.len() ==> #[trigger] t[j] == s[j + 1] && !pred(t[j]));
        lemma_find_first_none(t, pred);
    }
}

pub proof fn lemma_find_first_props<A>(s: Seq<A>, pred: spec_fn(A) -> bool)
    ensures
        find_first(s, pred) >= 0 ==> find_first(s, pred) < s.len() && pred(s[find_first(s, pred)])
            && (forall|j: int| 0 <= j < find_first(s, pred) ==> !pred(#[trigger] s[j])),
        find_first(s, pred) < 0 ==> forall|j: int| 0 <= j < s.len() ==> !pred(#[trigger] s[j]),
    decreases s.len(),
{
    if s.len() > 0 && !pred(s[0]) {
        let t = s.subrange(1, s.len() as int);
        lemma_find_first_props(t, pred);
        assert(forall|j: int| 0 <= j < t.len() ==> #[trigger] t[j] == s[j + 1]);
        if find_first(s, pred) >= 0 {
            assert forall|j: int| 0 <= j < find_first(s, pred) implies !pred(#[trigger] s[j]) by {
                if j > 0 {
                    assert(s[j] == t[j - 1]);
                }
            }
        } else {
            assert forall|j: int| 0 <= j < s.len() implies !pred(#[trigger] s[j]) by {
                if j > 0 {
                    assert(s[j] == t[j - 1]);
                }
            }
        }
    }
}

} // verus!
