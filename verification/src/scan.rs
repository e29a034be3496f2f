//! Finding the first place at which a sequence holds a given item.

use vstd::prelude::*;

verus! {

/// The position of the first `c` in `s`, or the length of `s` if it holds
/// none.
pub open spec fn first_index_of<A>(s: Seq<A>, c: A) -> int
    decreases s.len(),
{
    if s.len() == 0 {
        0
    } else if s[0] == c {
        0
    } else {
        1 + first_index_of(s.drop_first(), c)
    }
}

/// What `first_index_of` finds: a position within the bounds, with no `c`
/// before it and `c` at it unless it is the end.
pub proof fn lemma_first_index_of<A>(s: Seq<A>, c: A)
    ensures
        0 <= first_index_of(s, c) <= s.len(),
        forall|j: int| 0 <= j < first_index_of(s, c) ==> s[j] != c,
        first_index_of(s, c) < s.len() ==> s[first_index_of(s, c)] == c,
    decreases s.len(),
{
    if s.len() > 0 && s[0] != c {
        let t = s.drop_first();
        lemma_first_index_of(t, c);
        assert forall|j: int| 0 <= j < first_index_of(s, c) implies s[j] != c by {
            if j > 0 {
                assert(t[j - 1] == s[j]);
            }
        }
    }
}

/// A position with no `c` before it, and with `c` at it unless it is the
/// end, is the one that `first_index_of` finds.
pub proof fn lemma_first_index_is<A>(s: Seq<A>, c: A, p: int)
    requires
        0 <= p <= s.len(),
        forall|j: int| 0 <= j < p ==> s[j] != c,
        p < s.len() ==> s[p] == c,
    ensures
        first_index_of(s, c) == p,
{
    lemma_first_index_of(s, c);
    let d = first_index_of(s, c);
    if d < p {
        assert(s[d] == c);
    }
}

} // verus!
