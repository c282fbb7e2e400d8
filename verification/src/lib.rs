//! A fixed-capacity object pool: a set of pre-allocated values that callers
//! may temporarily borrow and later return, with a customizable reset policy
//! applied to each value on its way back into the pool.
//!
//! The pool tracks which slots are borrowed in a packed occupancy bitset, one
//! bit per slot, and claims the lowest free slot by a first-fit scan over the
//! bitset words.

mod bits;
mod laws;
mod pool;

pub use bits::lowest_clear_bit;
pub use bits::padding_word;
pub use laws::lemma_capacity_bound;
pub use laws::lemma_claim_decrements_free;
pub use laws::lemma_fresh_pool_all_free;
pub use laws::lemma_index_uniqueness;
pub use laws::lemma_release_frees_capacity;
pub use pool::FixedPool;
pub use pool::NoopReset;
pub use pool::PoolBorrow;
pub use pool::Reset;
pub use pool::ZeroReset;
