//! In-place rotation of a window, by three reversals.

use vstd::prelude::*;
use vstd::seq_lib::lemma_seq_union_to_multiset_commutative;
use crate::model::rearranged_within;

verus! {

/// Reverses the elements at positions `lo..hi` and leaves the rest alone.
fn reverse_range(arr: &mut [i32], lo: usize, hi: usize)
    requires
        lo <= hi <= old(arr).len(),
    ensures
        final(arr)@.len() == old(arr)@.len(),
        forall|k: int| lo <= k < hi ==> final(arr)@[k] == old(arr)@[lo + hi - 1 - k],
        forall|k: int| 0 <= k < lo || hi <= k < old(arr)@.len() ==> final(arr)@[k] == old(arr)@[k],
{
    let mut a: usize = lo;
    let mut b: usize = hi;
    while b - a > 1
        invariant
            arr@.len() == old(arr)@.len(),
            lo <= a <= b <= hi <= arr@.len(),
            a - lo == hi - b,
            forall|k: int| lo <= k < a || b <= k < hi ==> arr@[k] == old(arr)@[lo + hi - 1 - k],
            forall|k: int| a <= k < b ==> arr@[k] == old(arr)@[k],
            forall|k: int| 0 <= k < lo || hi <= k < arr@.len() ==> arr@[k] == old(arr)@[k],
        decreases b - a,
    {
        b -= 1;
        let front: i32 = arr[a];
        let back: i32 = arr[b];
        arr[a] = back;
        arr[b] = front;
        a += 1;
    }
}

/// Rotates the window at positions `m..=p` to the left by `r - m`: the block
/// that stood at `m..r` comes to stand behind what stood at `r..=p`, both
/// in their own order. Nothing outside the window moves, and with an empty
/// left block nothing moves at all.
pub fn block_swap(arr: &mut [i32], m: usize, r: usize, p: usize)
    requires
        m <= r <= p + 1,
        p < old(arr).len(),
    ensures
        final(arr)@.len() == old(arr)@.len(),
        final(arr)@.subrange(m as int, p + 1) == old(arr)@.subrange(r as int, p + 1) + old(
            arr,
        )@.subrange(m as int, r as int),
        forall|k: int| m <= k < m + (p + 1 - r) ==> final(arr)@[k] == old(arr)@[k + (r - m)],
        forall|k: int| m + (p + 1 - r) <= k <= p ==> final(arr)@[k] == old(arr)@[k - (p + 1 - r)],
        forall|k: int| 0 <= k < m || p < k < old(arr)@.len() ==> final(arr)@[k] == old(arr)@[k],
        rearranged_within(old(arr)@, final(arr)@, m as int, p + 1),
{
    let left_len: usize = r - m;
    if left_len != 0 {
        reverse_range(arr, m, r);
        reverse_range(arr, r, p + 1);
        reverse_range(arr, m, p + 1);
    }
    proof {
        let left = old(arr)@.subrange(m as int, r as int);
        let right = old(arr)@.subrange(r as int, p + 1);
        assert(arr@.subrange(m as int, p + 1) =~= right + left);
        assert(old(arr)@.subrange(m as int, p + 1) =~= left + right);
        lemma_seq_union_to_multiset_commutative(left, right);
    }
}

} // verus!
