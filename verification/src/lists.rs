//! Facts about lists that the passes over a list rely on.

use vstd::prelude::*;

verus! {

/// The first `i + 1` items of a list are its first `i` items followed by the
/// item at `i`: an item is among the former exactly when it is among the
/// latter or is that item.
pub proof fn lemma_prefix_step<T>(s: Seq<T>, i: int)
    requires
        0 <= i < s.len(),
    ensures
        s.subrange(0, i + 1) == s.subrange(0, i).push(s[i]),
        forall|x: T| s.subrange(0, i + 1).contains(x) <==> (s.subrange(0, i).contains(x) || x == s[i]),
{
    let done = s.subrange(0, i);
    let next = s.subrange(0, i + 1);
    assert(next =~= done.push(s[i]));
    assert forall|x: T| next.contains(x) <==> (done.contains(x) || x == s[i]) by {
        if x == s[i] {
            assert(next[i] == x);
        }
        if done.contains(x) {
            let k = choose|k: int| 0 <= k < done.len() && done[k] == x;
            assert(next[k] == x);
        }
    }
}

} // verus!
