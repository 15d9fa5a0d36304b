//! Allocation bitmaps: one bit per block or inode of a group, least
//! significant bit first.

use vstd::prelude::*;

verus! {

/// Mask of bit `k` of a byte.
pub open spec fn bit_mask(k: int) -> u8 {
    (1u8 << (k as u8))
}

/// Whether bit `b` of the bitmap is clear (the item is free).
pub open spec fn bit_clear(bm: Seq<u8>, b: int) -> bool {
    bm[b / 8] & bit_mask(b % 8) == 0
}

/// The first free item at or after `i` and before `limit`.
pub open spec fn first_clear(bm: Seq<u8>, limit: int, i: int) -> Option<int>
    decreases limit - i,
{
    if i < 0 || i >= limit {
        None
    } else if bit_clear(bm, i) {
        Some(i)
    } else {
        first_clear(bm, limit, i + 1)
    }
}

/// The bitmap with bit `b` set.
pub open spec fn with_bit(bm: Seq<u8>, b: int) -> Seq<u8> {
    bm.update(b / 8, bm[b / 8] | bit_mask(b % 8))
}

/// The bitmap with bit `b` cleared.
pub open spec fn without_bit(bm: Seq<u8>, b: int) -> Seq<u8> {
    bm.update(b / 8, bm[b / 8] & !bit_mask(b % 8))
}

/// The first free item below `limit`.
pub fn first_clear_bit(bm: &[u8], limit: usize) -> (r: Option<usize>)
    requires
        limit <= 8 * bm@.len(),
    ensures
        r matches Some(b) ==> first_clear(bm@, limit as int, 0) == Some(b as int) && b < limit,
        r is None ==> first_clear(bm@, limit as int, 0) is None,
{
    let mut b: usize = 0;
    while b < limit
        invariant
            limit <= 8 * bm@.len(),
            b <= limit,
            first_clear(bm@, limit as int, 0) == first_clear(bm@, limit as int, b as int),
        decreases limit - b,
    {
        let k: u8 = (b % 8) as u8;
        if bm[b / 8] & (1u8 << k) == 0 {
            return Some(b);
        }
        b = b + 1;
    }
    None
}

/// Set bit `b`.
pub fn set_bit(bm: &mut [u8], b: usize)
    requires
        b / 8 < old(bm)@.len(),
    ensures
        final(bm)@ == with_bit(old(bm)@, b as int),
{
    let k: u8 = (b % 8) as u8;
    bm[b / 8] = bm[b / 8] | (1u8 << k);
}

/// Clear bit `b`.
pub fn clear_bit(bm: &mut [u8], b: usize)
    requires
        b / 8 < old(bm)@.len(),
    ensures
        final(bm)@ == without_bit(old(bm)@, b as int),
{
    let k: u8 = (b % 8) as u8;
    bm[b / 8] = bm[b / 8] & !(1u8 << k);
}

proof fn lemma_byte_set_clear(x: u8, k: u8)
    requires
        k < 8,
        x & (1u8 << k) == 0,
    ensures
        (x | (1u8 << k)) & !(1u8 << k) == x,
        (x | (1u8 << k)) & (1u8 << k) != 0,
{
    assert((x | (1u8 << k)) & !(1u8 << k) == x) by (bit_vector)
        requires
            k < 8,
            x & (1u8 << k) == 0,
    ;
    assert((x | (1u8 << k)) & (1u8 << k) != 0) by (bit_vector)
        requires
            k < 8,
    ;
}

/// Claiming a free item and releasing it again restores the bitmap, and the
/// claimed item reads as taken in between.
pub proof fn claim_release_law(bm: Seq<u8>, b: int)
    requires
        0 <= b,
        b / 8 < bm.len(),
        bit_clear(bm, b),
    ensures
        !bit_clear(with_bit(bm, b), b),
        without_bit(with_bit(bm, b), b) == bm,
{
    lemma_byte_set_clear(bm[b / 8], (b % 8) as u8);
    assert(without_bit(with_bit(bm, b), b) =~= bm);
}

/// Setting one bit leaves every other bit as it was.
pub proof fn set_bit_frame_law(bm: Seq<u8>, b: int, c: int)
    requires
        0 <= b,
        0 <= c,
        b / 8 < bm.len(),
        c / 8 < bm.len(),
        b != c,
    ensures
        bit_clear(with_bit(bm, b), c) == bit_clear(bm, c),
{
    if b / 8 == c / 8 {
        let x = bm[b / 8];
        let kb = (b % 8) as u8;
        let kc = (c % 8) as u8;
        assert(kb != kc);
        assert(((x | (1u8 << kb)) & (1u8 << kc) == 0) == (x & (1u8 << kc) == 0)) by (bit_vector)
            requires
                kb < 8,
                kc < 8,
                kb != kc,
        ;
    }
}

} // verus!
