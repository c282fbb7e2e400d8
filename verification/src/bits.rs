//! Word-level operations on the occupancy bitset.
//!
//! The pool packs one "borrowed" flag per slot into 64-bit words. This module
//! defines what a single bit of a word means and proves the few facts about
//! setting, clearing, masking and scanning bits that the pool relies on.

use vstd::prelude::*;

verus! {

/// True when bit `k` (counting from the least significant end) of `w` is set.
pub open spec fn nth_bit(w: u64, k: u64) -> bool
    recommends
        k < 64,
{
    (w >> k) & 1u64 == 1u64
}

/// Setting bit `k` of a word sets that bit and leaves every other bit as it was.
pub proof fn lemma_set_bit(w: u64, k: u64)
    requires
        k < 64,
    ensures
        nth_bit(w | (1u64 << k), k),
        forall|j: u64| j < 64 && j != k ==> nth_bit(w | (1u64 << k), j) == nth_bit(w, j),
{
    assert(((w | (1u64 << k)) >> k) & 1u64 == 1u64) by (bit_vector)
        requires
            k < 64,
    ;
    assert forall|j: u64| j < 64 && j != k implies nth_bit(w | (1u64 << k), j) == nth_bit(w, j) by {
        assert(((w | (1u64 << k)) >> j) & 1u64 == (w >> j) & 1u64) by (bit_vector)
            requires
                j < 64 && k < 64 && j != k,
        ;
    }
}

/// Clearing bit `k` of a word clears that bit and leaves every other bit as it was.
pub proof fn lemma_clear_bit(w: u64, k: u64)
    requires
        k < 64,
    ensures
        !nth_bit(w & !(1u64 << k), k),
        forall|j: u64| j < 64 && j != k ==> nth_bit(w & !(1u64 << k), j) == nth_bit(w, j),
{
    assert(((w & !(1u64 << k)) >> k) & 1u64 == 0u64) by (bit_vector)
        requires
            k < 64,
    ;
    assert forall|j: u64| j < 64 && j != k implies nth_bit(w & !(1u64 << k), j) == nth_bit(w, j) by {
        assert(((w & !(1u64 << k)) >> j) & 1u64 == (w >> j) & 1u64) by (bit_vector)
            requires
                j < 64 && k < 64 && j != k,
        ;
    }
}

/// No bit of a zero word is set.
pub proof fn lemma_zero_word()
    ensures
        forall|j: u64| j < 64 ==> !nth_bit(0u64, j),
{
    assert forall|j: u64| j < 64 implies !nth_bit(0u64, j) by {
        assert(j < 64 ==> (0u64 >> j) & 1u64 == 0u64) by (bit_vector);
    }
}

/// The initial value of the final occupancy word for a pool of `count` slots:
/// every bit that does not correspond to a slot (a padding bit) is set, so the
/// claim scan can never select an out-of-range index, and every bit that does
/// correspond to a slot is clear.
pub fn padding_word(count: usize) -> (w: u64)
    ensures
        count % 64 == 0 && count > 0 ==> forall|j: u64| j < 64 ==> !nth_bit(w, j),
        count == 0 ==> forall|j: u64| j < 64 ==> nth_bit(w, j),
        count % 64 != 0 ==> forall|j: u64| (count % 64) as u64 <= j < 64 ==> nth_bit(w, j),
        count % 64 != 0 ==> forall|j: u64| j < (count % 64) as u64 ==> !nth_bit(w, j),
{
    let rem = count % 64;
    if count == 0 {
        proof {
            assert forall|j: u64| j < 64 implies nth_bit(u64::MAX, j) by {
                assert(j < 64 ==> (0xffff_ffff_ffff_ffffu64 >> j) & 1u64 == 1u64) by (bit_vector);
            }
        }
        u64::MAX
    } else if rem == 0 {
        proof {
            lemma_zero_word();
        }
        0u64
    } else {
        let r = rem as u64;
        let w = u64::MAX << r;
        proof {
            assert forall|j: u64| r <= j < 64 implies nth_bit(w, j) by {
                assert(0 < r <= j < 64 ==> ((0xffff_ffff_ffff_ffffu64 << r) >> j) & 1u64 == 1u64)
                    by (bit_vector);
            }
            assert forall|j: u64| j < r implies !nth_bit(w, j) by {
                assert(j < r < 64 ==> ((0xffff_ffff_ffff_ffffu64 << r) >> j) & 1u64 == 0u64)
                    by (bit_vector);
            }
        }
        w
    }
}

/// The position of the lowest clear bit of `w`, or 64 when every bit is set.
///
/// This is the first-fit decision at the heart of the claim scan: every bit
/// below the returned position is set, and the returned position itself (when
/// there is one) is clear.
pub fn lowest_clear_bit(w: u64) -> (r: u32)
    ensures
        r <= 64,
        r < 64 ==> !nth_bit(w, r as u64),
        forall|j: u64| j < r ==> nth_bit(w, j),
        r == 64 <==> w == u64::MAX,
{
    proof {
        vstd::std_specs::bits::axiom_u64_trailing_ones(w);
    }
    w.trailing_ones()
}

} // verus!
