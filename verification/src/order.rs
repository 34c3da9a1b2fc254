//! First-match search in an ordered sequence.

use vstd::prelude::*;

verus! {

/// The position of the first item of `s` of which `hit` holds, or the length
/// of `s` where it holds of none.
pub open spec fn first_index<T>(s: Seq<T>, hit: spec_fn(T) -> bool) -> int
    decreases s.len(),
{
    if s.len() == 0 {
        0
    } else if hit(s[0]) {
        0
    } else {
        1 + first_index(s.drop_first(), hit)
    }
}

/// `first_index` is the least position whose item is a hit.
pub proof fn lemma_first_index<T>(s: Seq<T>, hit: spec_fn(T) -> bool)
    ensures
        0 <= first_index(s, hit) <= s.len(),
        first_index(s, hit) < s.len() ==> hit(s[first_index(s, hit)]),
        forall|i: int| 0 <= i < first_index(s, hit) ==> !hit(#[trigger] s[i]),
    decreases s.len(),
{
    if s.len() > 0 && !hit(s[0]) {
        lemma_first_index(s.drop_first(), hit);
        assert forall|i: int| 0 <= i < first_index(s, hit) implies !hit(#[trigger] s[i]) by {
            if i > 0 {
                assert(s[i] == s.drop_first()[i - 1]);
            }
        }
    }
}

/// A position whose item is a hit, with no hit before it, is `first_index`;
/// so is the length of a sequence without a hit.
pub proof fn lemma_first_index_is<T>(s: Seq<T>, hit: spec_fn(T) -> bool, at: int)
    requires
        0 <= at <= s.len(),
        at < s.len() ==> hit(s[at]),
        forall|i: int| 0 <= i < at ==> !hit(#[trigger] s[i]),
    ensures
        first_index(s, hit) == at,
{
    lemma_first_index(s, hit);
    let f = first_index(s, hit);
    if f < at {
        assert(!hit(s[f]));
    }
}

} // verus!
