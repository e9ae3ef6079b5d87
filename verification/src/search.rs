//! First-match search over sequences, the lookup rule of every keyed list
//! in this crate: where a key occurs twice, the first entry wins.

use vstd::prelude::*;

verus! {

/// The index of the first element of `s` that satisfies `pred`, or the
/// length of `s` if none does.
pub open spec fn first_match<T>(s: Seq<T>, pred: spec_fn(T) -> bool) -> int
    decreases s.len(),
{
    if s.len() == 0 {
        0
    } else if pred(s[0]) {
        0
    } else {
        1 + first_match(s.drop_first(), pred)
    }
}

/// `first_match` finds a match and nothing before it matches.
pub proof fn lemma_first_match<T>(s: Seq<T>, pred: spec_fn(T) -> bool)
    ensures
        0 <= first_match(s, pred) <= s.len(),
        first_match(s, pred) < s.len() ==> pred(s[first_match(s, pred)]),
        forall|k: int| 0 <= k < first_match(s, pred) ==> !pred(#[trigger] s[k]),
    decreases s.len(),
{
    if s.len() > 0 && !pred(s[0]) {
        let rest = s.drop_first();
        lemma_first_match(rest, pred);
        assert forall|k: int| 0 <= k < first_match(s, pred) implies !pred(#[trigger] s[k]) by {
            if k > 0 {
                assert(s[k] == rest[k - 1]);
            }
        }
    }
}

/// An index is the first match if it matches (or is the length) and
/// nothing before it does.
pub proof fn lemma_first_match_is<T>(s: Seq<T>, pred: spec_fn(T) -> bool, at: int)
    requires
        0 <= at <= s.len(),
        at < s.len() ==> pred(s[at]),
        forall|k: int| 0 <= k < at ==> !pred(#[trigger] s[k]),
    ensures
        first_match(s, pred) == at,
{
    lemma_first_match(s, pred);
    let found = first_match(s, pred);
    if found < at {
        assert(!pred(s[found]));
    }
}

} // verus!
