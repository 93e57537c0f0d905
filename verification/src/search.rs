//! The first place in a sequence at which something holds.

use vstd::prelude::*;

verus! {

/// The place of the first item of `s` that `pred` holds of, or the length of
/// `s` where it holds of none.
pub open spec fn first_index<A>(s: Seq<A>, pred: spec_fn(A) -> bool) -> int
    decreases s.len(),
{
    if s.len() == 0 {
        0
    } else if pred(s[0]) {
        0
    } else {
        1 + first_index(s.drop_first(), pred)
    }
}

/// `first_index` is the one place before which `pred` never holds and at
/// which it does, or the length.
pub proof fn lemma_first_index<A>(s: Seq<A>, pred: spec_fn(A) -> bool, at: int)
    requires
        0 <= at <= s.len(),
        forall|j: int| 0 <= j < at ==> !pred(#[trigger] s[j]),
        at < s.len() ==> pred(s[at]),
    ensures
        first_index(s, pred) == at,
    decreases s.len(),
{
    if s.len() > 0 && at > 0 {
        let rest = s.drop_first();
        assert(!pred(s[0]));
        assert forall|j: int| 0 <= j < at - 1 implies !pred(#[trigger] rest[j]) by {
            assert(rest[j] == s[j + 1]);
        }
        lemma_first_index(rest, pred, at - 1);
    }
}

/// `first_index` stays within the sequence and names a place where `pred`
/// holds, after places where it does not.
pub proof fn lemma_first_index_props<A>(s: Seq<A>, pred: spec_fn(A) -> bool)
    ensures
        0 <= first_index(s, pred) <= s.len(),
        first_index(s, pred) < s.len() ==> pred(s[first_index(s, pred)]),
        forall|j: int| 0 <= j < first_index(s, pred) ==> !pred(#[trigger] s[j]),
    decreases s.len(),
{
    if s.len() > 0 && !pred(s[0]) {
        let rest = s.drop_first();
        lemma_first_index_props(rest, pred);
        assert forall|j: int| 0 <= j < first_index(s, pred) implies !pred(#[trigger] s[j]) by {
            if j > 0 {
                assert(s[j] == rest[j - 1]);
            }
        }
    }
}

} // verus!
