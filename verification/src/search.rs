//! The first position in a sequence at which a predicate holds.

use vstd::prelude::*;

verus! {

/// The least position among the first `n` of `s` at which `p` holds, or `n`
/// if there is none.
pub open spec fn first_where<T>(s: Seq<T>, p: spec_fn(T) -> bool, n: int) -> int
    decreases n,
{
    if n <= 0 {
        0
    } else {
        let before = first_where(s, p, n - 1);
        if before < n - 1 || p(s[n - 1]) {
            before
        } else {
            n
        }
    }
}

/// `first_where` is at most `n`, `p` holds at it if it is below `n`, and
/// `p` holds nowhere before it.
pub proof fn lemma_first_where<T>(s: Seq<T>, p: spec_fn(T) -> bool, n: int)
    requires
        0 <= n,
    ensures
        0 <= first_where(s, p, n) <= n,
        first_where(s, p, n) < n ==> p(s[first_where(s, p, n)]),
        forall|j: int| 0 <= j < first_where(s, p, n) ==> !p(#[trigger] s[j]),
    decreases n,
{
    if n > 0 {
        lemma_first_where(s, p, n - 1);
    }
}

/// If `p` holds at `k` and nowhere before, `k` is the first position.
pub proof fn lemma_first_where_found<T>(s: Seq<T>, p: spec_fn(T) -> bool, n: int, k: int)
    requires
        0 <= k < n,
        p(s[k]),
        forall|j: int| 0 <= j < k ==> !p(#[trigger] s[j]),
    ensures
        first_where(s, p, n) == k,
    decreases n,
{
    lemma_first_where(s, p, n);
    let f = first_where(s, p, n);
    if f < k {
        assert(!p(s[f]));
    }
}

/// If `p` holds nowhere among the first `n`, the first position is `n`.
pub proof fn lemma_first_where_absent<T>(s: Seq<T>, p: spec_fn(T) -> bool, n: int)
    requires
        0 <= n,
        forall|j: int| 0 <= j < n ==> !p(#[trigger] s[j]),
    ensures
        first_where(s, p, n) == n,
{
    lemma_first_where(s, p, n);
}

} // verus!
