//! The first index at which something holds.
use vstd::prelude::*;

verus! {

/// `p` holds at `j`, which is below `n`, and at no index before it.
pub open spec fn is_first(p: spec_fn(int) -> bool, n: int, j: int) -> bool {
    &&& 0 <= j < n
    &&& p(j)
    &&& forall|k: int| 0 <= k < j ==> !#[trigger] p(k)
}

/// The first index below `n` at which `p` holds, if there is one.
pub open spec fn first_index(p: spec_fn(int) -> bool, n: int) -> Option<int> {
    if exists|j: int| is_first(p, n, j) {
        Some(choose|j: int| is_first(p, n, j))
    } else {
        None
    }
}

/// An index that is the first is the one that `first_index` gives.
pub proof fn lemma_first_index_found(p: spec_fn(int) -> bool, n: int, j: int)
    requires
        is_first(p, n, j),
    ensures
        first_index(p, n) == Some(j),
{
}

/// Two predicates that agree below `n` have the same first index.
pub proof fn lemma_first_index_agrees(p: spec_fn(int) -> bool, q: spec_fn(int) -> bool, n: int)
    requires
        forall|k: int| 0 <= k < n ==> #[trigger] p(k) == #[trigger] q(k),
    ensures
        first_index(p, n) == first_index(q, n),
{
    lemma_first_index(p, n);
    match first_index(p, n) {
        Some(j) => {
            assert forall|k: int| 0 <= k < j implies !#[trigger] q(k) by {
                assert(q(k) == p(k));
            }
            lemma_first_index_found(q, n, j);
        },
        None => {
            assert forall|k: int| 0 <= k < n implies !#[trigger] q(k) by {
                assert(q(k) == p(k));
            }
        },
    }
}

/// What `first_index` gives is the first index, and where it gives nothing
/// `p` holds nowhere below `n`.
pub proof fn lemma_first_index(p: spec_fn(int) -> bool, n: int)
    ensures
        first_index(p, n) matches Some(j) ==> is_first(p, n, j),
        first_index(p, n) is None ==> forall|k: int| 0 <= k < n ==> !#[trigger] p(k),
    decreases n,
{
    if first_index(p, n) is None {
        assert forall|k: int| 0 <= k < n implies !#[trigger] p(k) by {
            if p(k) {
                lemma_least_exists(p, n, k);
            }
        }
    }
}

/// Where `p` holds at `k`, some index up to `k` is the first.
proof fn lemma_least_exists(p: spec_fn(int) -> bool, n: int, k: int)
    requires
        0 <= k < n,
        p(k),
    ensures
        exists|j: int| is_first(p, n, j),
    decreases k,
{
    if forall|i: int| 0 <= i < k ==> !#[trigger] p(i) {
        assert(is_first(p, n, k));
    } else {
        let i = choose|i: int| 0 <= i < k && #[trigger] p(i);
        lemma_least_exists(p, n, i);
    }
}

} // verus!
