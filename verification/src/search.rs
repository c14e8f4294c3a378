//! The first position of a value in a sequence.

use vstd::prelude::*;

verus! {

/// The position of the first `x` in `s`, or the length of `s` where it has
/// none.
pub open spec fn first_index<A>(s: Seq<A>, x: A) -> int
    decreases s.len(),
{
    if s.len() == 0 || s[0] == x {
        0
    } else {
        1 + first_index(s.drop_first(), x)
    }
}

/// `first_index` is a position of `x` that no other position of `x` precedes,
/// and is the length exactly where `x` does not occur.
pub proof fn lemma_first_index<A>(s: Seq<A>, x: A)
    ensures
        0 <= first_index(s, x) <= s.len(),
        first_index(s, x) < s.len() ==> s[first_index(s, x)] == x,
        forall|j: int| 0 <= j < first_index(s, x) ==> s[j] != x,
        first_index(s, x) < s.len() <==> s.contains(x),
    decreases s.len(),
{
    if s.len() != 0 && s[0] != x {
        let tail = s.drop_first();
        lemma_first_index(tail, x);
        let p = first_index(tail, x);
        assert forall|j: int| 0 <= j < p + 1 implies s[j] != x by {
            if j > 0 {
                assert(tail[j - 1] == s[j]);
            }
        }
        if p < tail.len() {
            assert(s[p + 1] == tail[p]);
        }
    } else if s.len() != 0 {
        assert(s[0] == x);
    }
}

/// A position of `x` that no other position of `x` precedes is the first.
pub proof fn lemma_first_index_is<A>(s: Seq<A>, x: A, k: int)
    requires
        0 <= k < s.len(),
        s[k] == x,
        forall|j: int| 0 <= j < k ==> s[j] != x,
    ensures
        first_index(s, x) == k,
{
    lemma_first_index(s, x);
}

/// `t` starts with the whole of `s`.
pub open spec fn extends<A>(t: Seq<A>, s: Seq<A>) -> bool {
    &&& s.len() <= t.len()
    &&& forall|i: int| 0 <= i < s.len() ==> t[i] == s[i]
}

/// What is appended to a sequence does not move the first position of a value
/// that the sequence holds.
pub proof fn lemma_first_index_extends<A>(s: Seq<A>, t: Seq<A>, x: A)
    requires
        extends(t, s),
        s.contains(x),
    ensures
        first_index(t, x) == first_index(s, x),
        t.contains(x),
{
    lemma_first_index(s, x);
    let k = first_index(s, x);
    assert(t[k] == x);
    lemma_first_index_is(t, x, k);
}

} // verus!
