//! Sequences whose elements are told apart by a key.

use vstd::prelude::*;

verus! {

/// No two elements of `s` share a key.
pub open spec fn keys_distinct<A, K>(s: Seq<A>, key: spec_fn(A) -> K) -> bool {
    forall|i: int, j: int|
        #![trigger s[i], s[j]]
        0 <= i < s.len() && 0 <= j < s.len() && i != j ==> key(s[i]) != key(s[j])
}

/// `s` with `x` put at position `k`, or appended where `k` is past the end.
pub open spec fn put_at<A>(s: Seq<A>, k: int, x: A) -> Seq<A> {
    if k < s.len() {
        s.update(k, x)
    } else {
        s.push(x)
    }
}

/// Putting an element in place of one with the same key, or appending one whose
/// key no element has, keeps the keys distinct.
pub proof fn lemma_put_keeps_keys_distinct<A, K>(s: Seq<A>, key: spec_fn(A) -> K, k: int, x: A)
    requires
        keys_distinct(s, key),
        (0 <= k < s.len() && key(s[k]) == key(x)) || (k == s.len() && forall|i: int|
            0 <= i < s.len() ==> key(#[trigger] s[i]) != key(x)),
    ensures
        keys_distinct(put_at(s, k, x), key),
{
    let t = put_at(s, k, x);
    assert forall|p: int, q: int|
        #![trigger t[p], t[q]]
        0 <= p < t.len() && 0 <= q < t.len() && p != q implies key(t[p]) != key(t[q]) by {
        if p != k {
            assert(t[p] == s[p]);
        }
        if q != k {
            assert(t[q] == s[q]);
        }
    }
}

} // verus!
