//! Facts about positions in sequences.

use vstd::prelude::*;

verus! {

/// `i` is the first position of `b` in `s`.
pub open spec fn is_first_index<A>(s: Seq<A>, b: A, i: int) -> bool {
    &&& 0 <= i < s.len()
    &&& s[i] == b
    &&& forall|j: int| 0 <= j < i ==> s[j] != b
}

/// The first position of `b` in `s`, if `b` occurs.
pub open spec fn first_index<A>(s: Seq<A>, b: A) -> Option<int> {
    if s.contains(b) {
        Some(choose|i: int| is_first_index(s, b, i))
    } else {
        None
    }
}

/// A first position is the one that `first_index` names.
pub proof fn lemma_first_index_is<A>(s: Seq<A>, b: A, i: int)
    requires
        is_first_index(s, b, i),
    ensures
        first_index(s, b) == Some(i),
{
    assert(s.contains(b));
    let k = choose|k: int| is_first_index(s, b, k);
    assert(is_first_index(s, b, k));
    if k < i {
        assert(s[k] != b);
    }
    if i < k {
        assert(s[i] != b);
    }
}

/// When `b` occurs, `first_index` names its first position.
pub proof fn lemma_first_index<A>(s: Seq<A>, b: A)
    ensures
        first_index(s, b) matches Some(i) ==> is_first_index(s, b, i),
        first_index(s, b) is None ==> !s.contains(b),
    decreases s.len(),
{
    if s.contains(b) {
        let w = choose|w: int| 0 <= w < s.len() && s[w] == b;
        let t = s.drop_last();
        if t.contains(b) {
            lemma_first_index(t, b);
            let i = first_index(t, b)->Some_0;
            assert(is_first_index(t, b, i));
            assert(s[i] == t[i]);
            assert forall|j: int| 0 <= j < i implies s[j] != b by {
                assert(s[j] == t[j]);
            }
            assert(is_first_index(s, b, i));
        } else {
            if w < s.len() - 1 {
                assert(t[w] == b);
            }
            assert forall|j: int| 0 <= j < s.len() - 1 implies s[j] != b by {
                if s[j] == b {
                    assert(t[j] == b);
                }
            }
            assert(is_first_index(s, b, s.len() - 1));
        }
    }
}

} // verus!
