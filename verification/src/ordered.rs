//! The run-time test for ascending order.

use vstd::prelude::*;
use crate::model::{ascending, ascending_within};

verus! {

/// Tells whether `arr` is in ascending order.
pub fn is_sorted(arr: &[i32]) -> (ok: bool)
    ensures
        ok == ascending(arr@),
{
    let n: usize = arr.len();
    if n < 2 {
        return true;
    }
    let mut i: usize = 1;
    while i < n
        invariant
            1 <= i <= n,
            n == arr@.len(),
            ascending_within(arr@, 0, i as int),
        decreases n - i,
    {
        if arr[i - 1] > arr[i] {
            return false;
        }
        proof {
            assert forall|x: int, y: int| 0 <= x <= y < i + 1 implies arr@[x] <= arr@[y] by {
                if x < y {
                    assert(arr@[x] <= arr@[i - 1]);
                }
            }
        }
        i += 1;
    }
    true
}

} // verus!
