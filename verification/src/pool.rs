//! The fixed pool, its borrow handle, and the reset policies.
//!
//! A pool owns a fixed sequence of slots and a packed occupancy bitset with
//! one bit per slot; bit `i` is set exactly while slot `i` is borrowed. Bits
//! beyond the slot count in the final word are permanently set (padding), so
//! the claim scan can never select an out-of-range index.
//!
//! A claim hands the slot's value out inside an exclusive [`PoolBorrow`]
//! handle; releasing the handle applies the pool's reset policy to the value
//! exactly once and stores it back, clearing the slot's bit.

use vstd::arithmetic::div_mod::lemma_fundamental_div_mod;
use vstd::arithmetic::div_mod::lemma_fundamental_div_mod_converse;
use vstd::prelude::*;

use crate::bits::lemma_clear_bit;
use crate::bits::lemma_set_bit;
use crate::bits::lowest_clear_bit;
use crate::bits::nth_bit;
use crate::bits::padding_word;

verus! {

/// Determines how a value is reset when it is returned to the pool.
///
/// The policy is selected as a type parameter of the pool, so it is a
/// construction-time choice, not a runtime value. `reset_spec` states what the
/// reset does; `reset` performs it and is proved against that statement.
pub trait Reset<T> {
    /// The value that resetting `v` produces.
    spec fn reset_spec(v: T) -> T;

    /// Resets the provided value in place.
    fn reset(value: &mut T)
        ensures
            *final(value) == Self::reset_spec(*old(value)),
    ;
}

/// Does nothing when resetting a value: the value returns to the pool as the
/// borrower left it.
#[derive(Copy, Clone, Debug)]
pub struct NoopReset;

impl<T> Reset<T> for NoopReset {
    open spec fn reset_spec(v: T) -> T {
        v
    }

    fn reset(value: &mut T) {
    }
}

/// Resets a counter to zero when it is returned to the pool.
#[derive(Copy, Clone, Debug)]
pub struct ZeroReset;

impl Reset<u64> for ZeroReset {
    open spec fn reset_spec(v: u64) -> u64 {
        0u64
    }

    fn reset(value: &mut u64) {
        *value = 0;
    }
}

/// The number of occupancy words needed for `n` slots: `ceil(n / 64)`, with a
/// single all-padding word when `n` is zero.
pub open spec fn spec_word_len(n: int) -> int {
    if n == 0 {
        1
    } else {
        (n - 1) / 64 + 1
    }
}

/// A fixed pool of recycled values.
///
/// Slot `i` holds its value exactly while it is not borrowed; a borrowed
/// slot's value travels inside the [`PoolBorrow`] handle that claimed it.
#[derive(Debug)]
pub struct FixedPool<T, R: Reset<T> = NoopReset> {
    /// The occupancy bitset: bit `i` is set while slot `i` is borrowed.
    words: Vec<u64>,
    /// The slots; `Some` exactly while the slot is free.
    slots: Vec<Option<T>>,
    /// The reset policy, a type-level choice.
    policy: core::marker::PhantomData<R>,
}

/// An exclusive handle to one value claimed from a [`FixedPool`].
///
/// The handle owns the value for the duration of the borrow: it stands in for
/// a direct reference to the slot's value, read through [`PoolBorrow::value`]
/// and written through [`PoolBorrow::replace`]. Returning the handle to the
/// pool with [`FixedPool::release`] applies the pool's reset policy to the
/// value exactly once and frees the slot.
#[derive(Debug)]
pub struct PoolBorrow<T, R: Reset<T> = NoopReset> {
    /// The index in the pool of the borrowed slot.
    index: usize,
    /// The borrowed value.
    value: T,
    /// The reset policy of the pool the value came from.
    policy: core::marker::PhantomData<R>,
}

impl<T, R: Reset<T>> PoolBorrow<T, R> {
    /// The index of the borrowed slot within the pool.
    pub closed spec fn spec_index(&self) -> int {
        self.index as int
    }

    /// The borrowed value.
    pub closed spec fn spec_value(&self) -> T {
        self.value
    }

    /// The index of the item within the pool.
    pub fn index(&self) -> (r: usize)
        ensures
            r as int == self.spec_index(),
    {
        self.index
    }

    /// Read access to the borrowed value.
    pub fn value(&self) -> (r: &T)
        ensures
            *r == self.spec_value(),
    {
        &self.value
    }

    /// Write access to the borrowed value: stores `v` in the handle and hands
    /// back the value it held before.
    pub fn replace(&mut self, v: T) -> (prev: T)
        ensures
            prev == old(self).spec_value(),
            final(self).spec_value() == v,
            final(self).spec_index() == old(self).spec_index(),
    {
        let mut v = v;
        core::mem::swap(&mut self.value, &mut v);
        v
    }
}

impl<T, R: Reset<T>> FixedPool<T, R> {
    /// The number of slots, fixed at construction.
    pub closed spec fn len(&self) -> nat {
        self.slots@.len()
    }

    /// True when slot `i` is currently borrowed (its occupancy bit is set).
    /// Indices from `len()` up to the end of the bitset are padding and are
    /// always occupied.
    pub closed spec fn occupied(&self, i: int) -> bool
        recommends
            0 <= i,
    {
        nth_bit(self.words@[i / 64], (i % 64) as u64)
    }

    /// The value stored in free slot `i`.
    pub closed spec fn value_at(&self, i: int) -> T
        recommends
            0 <= i < self.len(),
            !self.occupied(i),
    {
        self.slots@[i].unwrap()
    }

    /// True when every slot is borrowed, so a claim must report exhaustion.
    pub open spec fn all_occupied(&self) -> bool {
        forall|i: int| 0 <= i < self.len() ==> self.occupied(i)
    }

    /// The set of currently borrowed slot indices.
    pub open spec fn live_indices(&self) -> Set<int> {
        Set::new(|i: int| 0 <= i < self.len() && self.occupied(i))
    }

    /// The set of currently free slot indices.
    pub open spec fn free_indices(&self) -> Set<int> {
        Set::new(|i: int| 0 <= i < self.len() && !self.occupied(i))
    }

    /// Well-formedness: the bitset has exactly `ceil(len / 64)` words, every
    /// padding bit is set, and a slot holds a value exactly while it is free.
    pub closed spec fn wf(&self) -> bool {
        &&& self.words@.len() == spec_word_len(self.len() as int)
        &&& self.len() <= self.words@.len() * 64
        &&& forall|i: int|
            self.len() <= i < self.words@.len() * 64 ==> #[trigger] self.occupied(i)
        &&& forall|i: int|
            0 <= i < self.len() ==> ((#[trigger] self.slots@[i]) is Some <==> !self.occupied(i))
    }

    /// Creates a pool which contains the given set of values.
    ///
    /// Every slot starts free, holding its value from `elements` in order.
    pub fn new(elements: Vec<T>) -> (pool: Self)
        ensures
            pool.wf(),
            pool.len() == elements@.len(),
            forall|i: int| 0 <= i < pool.len() ==> !pool.occupied(i),
            forall|i: int| 0 <= i < pool.len() ==> pool.value_at(i) == elements@[i],
    {
        let n = elements.len();
        let word_len: usize = if n == 0 {
            1
        } else {
            (n - 1) / 64 + 1
        };
        let mut words: Vec<u64> = Vec::new();
        while words.len() + 1 < word_len
            invariant
                words@.len() < word_len,
                forall|j: int| 0 <= j < words@.len() ==> words@[j] == 0u64,
            decreases word_len - words@.len(),
        {
            words.push(0u64);
        }
        let last = padding_word(n);
        words.push(last);

        let ghost elems0 = elements@;
        let mut rest = elements;
        let mut slots: Vec<Option<T>> = Vec::new();
        while rest.len() > 0
            invariant
                slots@.len() + rest@.len() == elems0.len(),
                forall|j: int| 0 <= j < slots@.len() ==> slots@[j] == Some(elems0[j]),
                rest@ == elems0.skip(slots@.len() as int),
            decreases rest@.len(),
        {
            let ghost k = slots@.len() as int;
            let v = rest.remove(0);
            assert(v == elems0[k]);
            slots.push(Some(v));
            proof {
                assert(rest@ =~= elems0.skip(k + 1));
            }
        }

        let pool = FixedPool { words, slots, policy: core::marker::PhantomData };
        proof {
            lemma_new_well_formed(&pool, n as int, word_len as int);
        }
        pool
    }

    /// Obtains a value from the pool, or returns `None` if all slots are in
    /// use.
    ///
    /// Never blocks: the scan visits each occupancy word once, claims the
    /// lowest free slot if one exists, and otherwise reports exhaustion. On
    /// success the returned handle holds the slot's value, the slot becomes
    /// occupied, and no other slot changes.
    pub fn pull(&mut self) -> (r: Option<PoolBorrow<T, R>>)
        requires
            old(self).wf(),
        ensures
            final(self).wf(),
            final(self).len() == old(self).len(),
            (r is None) <==> old(self).all_occupied(),
            match r {
                Some(b) => {
                    &&& 0 <= b.spec_index() < final(self).len()
                    &&& !old(self).occupied(b.spec_index())
                    &&& final(self).occupied(b.spec_index())
                    &&& forall|j: int| 0 <= j < b.spec_index() ==> old(self).occupied(j)
                    &&& forall|j: int|
                        0 <= j < final(self).len() && j != b.spec_index() ==> final(self).occupied(
                            j,
                        ) == old(self).occupied(j)
                    &&& b.spec_value() == old(self).value_at(b.spec_index())
                    &&& forall|j: int|
                        0 <= j < final(self).len() && j != b.spec_index() && !final(self).occupied(
                            j,
                        ) ==> final(self).value_at(j) == old(self).value_at(j)
                },
                None => *final(self) == *old(self),
            },
    {
        let ghost init = *self;
        let word_len = self.words.len();
        let slot_len = self.slots.len();
        let mut w_idx: usize = 0;
        while w_idx < word_len
            invariant
                *self == init,
                init == *old(self),
                init.wf(),
                word_len == self.words@.len(),
                slot_len == self.len(),
                w_idx <= word_len,
                forall|j: int| 0 <= j < (w_idx as int) * 64 ==> self.occupied(j),
            decreases word_len - w_idx,
        {
            let w = self.words[w_idx];
            let tz = lowest_clear_bit(w);
            if tz < 64 {
                let bit = tz as usize;
                let ghost gidx = (w_idx as int) * 64 + bit as int;
                proof {
                    lemma_fundamental_div_mod_converse(gidx, 64, w_idx as int, bit as int);
                    assert(gidx < self.len()) by {
                        if self.len() <= gidx {
                            assert(self.occupied(gidx));
                        }
                    }
                }
                let index = w_idx * 64 + bit;
                self.words[w_idx] = w | (1u64 << (tz as u64));
                let taken = (&mut self.slots[index]).take();
                let v = taken.unwrap();
                let handle = PoolBorrow { index, value: v, policy: core::marker::PhantomData };
                proof {
                    lemma_claim_updates(&init, self, gidx, w_idx as int);
                    assert forall|j: int| 0 <= j < gidx implies init.occupied(j) by {
                        if j < (w_idx as int) * 64 {
                        } else {
                            lemma_fundamental_div_mod_converse(
                                j,
                                64,
                                w_idx as int,
                                j - (w_idx as int) * 64,
                            );
                        }
                    }
                }
                return Some(handle);
            }
            proof {
                assert forall|j: int| 0 <= j < (w_idx as int + 1) * 64 implies self.occupied(
                    j,
                ) by {
                    if j >= (w_idx as int) * 64 {
                        lemma_fundamental_div_mod_converse(
                            j,
                            64,
                            w_idx as int,
                            j - (w_idx as int) * 64,
                        );
                    }
                }
            }
            w_idx = w_idx + 1;
        }
        None
    }

    /// Returns a borrowed value to the pool.
    ///
    /// The reset policy is applied to the value exactly once; the reset value
    /// is stored back in the handle's slot, the slot becomes free again, and
    /// no other slot changes.
    pub fn release(&mut self, handle: PoolBorrow<T, R>)
        requires
            old(self).wf(),
            0 <= handle.spec_index() < old(self).len(),
            old(self).occupied(handle.spec_index()),
        ensures
            final(self).wf(),
            final(self).len() == old(self).len(),
            !final(self).occupied(handle.spec_index()),
            final(self).value_at(handle.spec_index()) == R::reset_spec(handle.spec_value()),
            forall|j: int|
                0 <= j < final(self).len() && j != handle.spec_index() ==> final(self).occupied(j)
                    == old(self).occupied(j),
            forall|j: int|
                0 <= j < final(self).len() && j != handle.spec_index() && !final(self).occupied(j)
                    ==> final(self).value_at(j) == old(self).value_at(j),
    {
        let ghost init = *self;
        let PoolBorrow { index, value, policy: _ } = handle;
        let mut value = value;
        R::reset(&mut value);
        proof {
            lemma_fundamental_div_mod(index as int, 64);
            lemma_index_word_in_range(index as int, self.words@.len() as int);
        }
        let w_idx = index / 64;
        let bit = index % 64;
        let w = self.words[w_idx];
        self.words[w_idx] = w & !(1u64 << (bit as u64));
        let ghost gv = value;
        self.slots[index] = Some(value);
        proof {
            lemma_release_updates(&init, self, index as int, w_idx as int, gv);
        }
    }
}

/// Every index below `words_len * 64` falls in a word of the bitset.
proof fn lemma_index_word_in_range(i: int, words_len: int)
    requires
        0 <= i < words_len * 64,
    ensures
        0 <= i / 64 < words_len,
        0 <= i % 64 < 64,
{
    lemma_fundamental_div_mod(i, 64);
}

/// After construction the bitset is exactly the padding pattern: every slot
/// bit is clear and every padding bit is set.
proof fn lemma_new_well_formed<T, R: Reset<T>>(pool: &FixedPool<T, R>, n: int, word_len: int)
    requires
        n >= 0,
        pool.slots@.len() == n,
        pool.words@.len() == word_len,
        word_len == spec_word_len(n),
        forall|j: int| 0 <= j < word_len - 1 ==> pool.words@[j] == 0u64,
        n % 64 == 0 && n > 0 ==> forall|j: u64|
            j < 64 ==> !#[trigger] nth_bit(pool.words@[word_len - 1], j),
        n == 0 ==> forall|j: u64| j < 64 ==> #[trigger] nth_bit(pool.words@[word_len - 1], j),
        n % 64 != 0 ==> forall|j: u64|
            (n % 64) as u64 <= j < 64 ==> #[trigger] nth_bit(pool.words@[word_len - 1], j),
        n % 64 != 0 ==> forall|j: u64|
            j < (n % 64) as u64 ==> !#[trigger] nth_bit(pool.words@[word_len - 1], j),
        forall|j: int| 0 <= j < n ==> (#[trigger] pool.slots@[j]) is Some,
    ensures
        pool.wf(),
        forall|i: int| 0 <= i < n ==> !pool.occupied(i),
{
    crate::bits::lemma_zero_word();
    assert(n <= word_len * 64) by {
        if n > 0 {
            lemma_fundamental_div_mod(n - 1, 64);
        }
    };
    assert forall|i: int| 0 <= i < word_len * 64 implies pool.occupied(i) == (n <= i) by {
        lemma_index_word_in_range(i, word_len);
        lemma_fundamental_div_mod(i, 64);
        let q = i / 64;
        let b = i % 64;
        if q < word_len - 1 {
            assert(i < n) by {
                if n > 0 {
                    lemma_fundamental_div_mod(n - 1, 64);
                }
            };
            assert(!nth_bit(0u64, b as u64));
        } else {
            if n == 0 {
                assert(nth_bit(pool.words@[q], b as u64));
            } else if n % 64 == 0 {
                assert(word_len * 64 == n) by {
                    lemma_fundamental_div_mod(n, 64);
                    lemma_fundamental_div_mod_converse(n - 1, 64, n / 64 - 1, 63);
                };
            } else {
                assert(n / 64 == word_len - 1 && n % 64 == n - (word_len - 1) * 64) by {
                    lemma_fundamental_div_mod(n, 64);
                    lemma_fundamental_div_mod_converse(n - 1, 64, n / 64, n % 64 - 1);
                };
                assert(b >= n % 64 <==> i >= n);
            }
        }
    }
}

/// Setting the claimed slot's bit and emptying its cell leaves every other
/// slot's occupancy and value unchanged and keeps the pool well formed.
proof fn lemma_claim_updates<T, R: Reset<T>>(
    pre: &FixedPool<T, R>,
    post: &FixedPool<T, R>,
    idx: int,
    w_idx: int,
)
    requires
        pre.wf(),
        0 <= idx < pre.len(),
        idx / 64 == w_idx,
        0 <= w_idx < pre.words@.len(),
        post.slots@ == pre.slots@.update(idx, None::<T>),
        post.words@ == pre.words@.update(w_idx, pre.words@[w_idx] | (1u64 << ((idx % 64) as u64))),
        !pre.occupied(idx),
    ensures
        post.wf(),
        post.len() == pre.len(),
        post.occupied(idx),
        forall|j: int|
            0 <= j < post.words@.len() * 64 && j != idx ==> post.occupied(j) == pre.occupied(j),
        forall|j: int|
            0 <= j < post.len() && j != idx && !post.occupied(j) ==> post.value_at(j)
                == pre.value_at(j),
{
    lemma_fundamental_div_mod(idx, 64);
    lemma_set_bit(pre.words@[w_idx], (idx % 64) as u64);
    assert(post.occupied(idx));
    assert forall|j: int|
        0 <= j < post.words@.len() * 64 && j != idx implies post.occupied(j) == pre.occupied(
        j,
    ) by {
        lemma_index_word_in_range(j, post.words@.len() as int);
        lemma_fundamental_div_mod(j, 64);
        if j / 64 == w_idx {
            assert(j % 64 != idx % 64);
        }
    }
}

/// Clearing the released slot's bit and refilling its cell leaves every other
/// slot's occupancy and value unchanged and keeps the pool well formed.
proof fn lemma_release_updates<T, R: Reset<T>>(
    pre: &FixedPool<T, R>,
    post: &FixedPool<T, R>,
    idx: int,
    w_idx: int,
    v: T,
)
    requires
        pre.wf(),
        0 <= idx < pre.len(),
        idx / 64 == w_idx,
        0 <= w_idx < pre.words@.len(),
        post.slots@ == pre.slots@.update(idx, Some(v)),
        post.words@ == pre.words@.update(w_idx, pre.words@[w_idx] & !(1u64 << ((idx % 64) as u64))),
        pre.occupied(idx),
    ensures
        post.wf(),
        post.len() == pre.len(),
        !post.occupied(idx),
        post.value_at(idx) == v,
        forall|j: int|
            0 <= j < post.words@.len() * 64 && j != idx ==> post.occupied(j) == pre.occupied(j),
        forall|j: int|
            0 <= j < post.len() && j != idx && !post.occupied(j) ==> post.value_at(j)
                == pre.value_at(j),
{
    lemma_fundamental_div_mod(idx, 64);
    lemma_clear_bit(pre.words@[w_idx], (idx % 64) as u64);
    assert(!post.occupied(idx));
    assert forall|j: int|
        0 <= j < post.words@.len() * 64 && j != idx implies post.occupied(j) == pre.occupied(
        j,
    ) by {
        lemma_index_word_in_range(j, post.words@.len() as int);
        lemma_fundamental_div_mod(j, 64);
        if j / 64 == w_idx {
            assert(j % 64 != idx % 64);
        }
    }
}

} // verus!
