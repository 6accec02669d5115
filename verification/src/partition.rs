//! Two-cursor partition of a window around a pivot value.

use vstd::prelude::*;
use crate::lemmas::{lemma_rearranged_then, lemma_swap_rearranged};
use crate::model::rearranged_within;

verus! {

/// Rearranges the elements at positions `l..r` around the value that
/// `arr[p_idx]` holds on entry, and returns the split position `m`: afterwards
/// the elements at `l..m` are smaller than that value and those at `m..r` are
/// not. The position `r` itself, and everything else outside `l..r`, is left
/// as it was; `p_idx` may lie anywhere in the slice.
///
/// A cursor walks up from `l` over smaller elements, another walks down from
/// `r` over larger ones; when both have stopped short of each other the two
/// elements are exchanged. Where they meet is the split.
pub fn partition(arr: &mut [i32], l: usize, r: usize, p_idx: usize) -> (m: usize)
    requires
        l <= r <= old(arr).len(),
        p_idx < old(arr).len(),
    ensures
        l <= m <= r,
        rearranged_within(old(arr)@, final(arr)@, l as int, r as int),
        forall|k: int| l <= k < m ==> final(arr)@[k] < old(arr)@[p_idx as int],
        forall|k: int| m <= k < r ==> final(arr)@[k] >= old(arr)@[p_idx as int],
{
    let pivot: i32 = arr[p_idx];
    let mut i: usize = l;
    let mut j: usize = r;
    loop
        invariant
            arr@.len() == old(arr)@.len(),
            l <= i <= j <= r <= arr@.len(),
            pivot == old(arr)@[p_idx as int],
            rearranged_within(old(arr)@, arr@, l as int, r as int),
            forall|k: int| l <= k < i ==> arr@[k] < pivot,
            forall|k: int| j <= k < r ==> arr@[k] >= pivot,
        decreases j - i,
    {
        let ghost gap = j - i;
        while i < j && arr[i] < pivot
            invariant
                l <= i <= j <= r <= arr@.len(),
                j - i <= gap,
                forall|k: int| l <= k < i ==> arr@[k] < pivot,
            decreases j - i,
        {
            i += 1;
        }
        if i == j {
            return i;
        }
        j -= 1;
        while i < j && arr[j] > pivot
            invariant
                l <= i <= j < r <= arr@.len(),
                j - i < gap,
                arr@[i as int] >= pivot,
                forall|k: int| j < k < r ==> arr@[k] >= pivot,
            decreases j - i,
        {
            j -= 1;
        }
        if i == j {
            return i;
        }
        let ghost before = arr@;
        let low: i32 = arr[i];
        let high: i32 = arr[j];
        arr[i] = high;
        arr[j] = low;
        proof {
            lemma_swap_rearranged(before, i as int, j as int, l as int, r as int);
            lemma_rearranged_then(old(arr)@, before, arr@, l as int, r as int, l as int, r as int);
        }
    }
}

} // verus!
