//! Shift-insertion sort, the leaf procedure for short windows.

use vstd::prelude::*;
use crate::lemmas::lemma_swap_rearranged;
use crate::model::{ascending, ascending_within};

verus! {

/// Sorts the whole slice ascending in place by shift-insertion: each element
/// from the second onward is lifted out, the larger elements before it move
/// one place up, and it is set down in the gap. Slices of length 0 or 1 are
/// left as they are.
pub fn insertion_sort(arr: &mut [i32])
    ensures
        final(arr)@.len() == old(arr)@.len(),
        final(arr)@.to_multiset() == old(arr)@.to_multiset(),
        ascending(final(arr)@),
{
    let len: usize = arr.len();
    if len < 2 {
        return ;
    }
    let mut i: usize = 1;
    while i < len
        invariant
            len == arr@.len(),
            1 <= i <= len,
            arr@.to_multiset() == old(arr)@.to_multiset(),
            ascending_within(arr@, 0, i as int),
        decreases len - i,
    {
        let key: i32 = arr[i];
        let mut j: usize = i;
        let ghost start = arr@;
        assert(arr@.update(j as int, key) =~= start);
        while j > 0 && arr[j - 1] > key
            invariant
                j <= i < len,
                len == arr@.len(),
                len == start.len(),
                key == start[i as int],
                arr@.update(j as int, key).to_multiset() == start.to_multiset(),
                forall|k: int| 0 <= k < j ==> arr@[k] == start[k],
                forall|k: int| j < k <= i ==> arr@[k] == start[k - 1] && arr@[k] > key,
            decreases j,
        {
            let ghost held = arr@.update(j as int, key);
            let prev: i32 = arr[j - 1];
            arr[j] = prev;
            j -= 1;
            proof {
                lemma_swap_rearranged(held, j as int, j + 1, 0, len as int);
                assert(arr@.update(j as int, key) =~= held.update(j as int, held[j + 1]).update(
                    j + 1,
                    held[j as int],
                ));
                assert(held.subrange(0, len as int) =~= held);
                assert(arr@.update(j as int, key).subrange(0, len as int) =~= arr@.update(
                    j as int,
                    key,
                ));
            }
        }
        arr[j] = key;
        proof {
            assert forall|x: int, y: int| 0 <= x <= y < i + 1 implies arr@[x] <= arr@[y] by {
                if y < j {
                    assert(start[x] <= start[y]);
                } else if y == j {
                    if x < j {
                        assert(start[x] <= start[j - 1]);
                    }
                } else if x < j {
                    assert(start[x] <= start[y - 1]);
                } else if x > j {
                    assert(start[x - 1] <= start[y - 1]);
                }
            }
        }
        i += 1;
    }
}

} // verus!
